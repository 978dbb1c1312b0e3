use rowforge::codes::should_filter;
use rowforge::rerun::{failed_csv_input, looks_like_failed_csv, prepare_rerun_csv, rerun_headers, rerun_input, rerun_plan, rerun_row};

fn csv_parts(content: &str) -> (Vec<String>, Vec<Vec<String>>) {
    let mut rdr = csv::ReaderBuilder::new().has_headers(true).from_reader(content.as_bytes());
    let headers: Vec<String> = rdr.headers().unwrap().iter().map(|s| s.to_string()).collect();
    let records = rdr
        .records()
        .map(|r| r.unwrap().iter().map(|s| s.to_string()).collect())
        .collect();
    (headers, records)
}

/// The re-run input of a failed.csv, as CSV text.
fn prepare(content: &str, include_crash: bool) -> String {
    String::from_utf8(prepare_rerun_csv(content.as_bytes(), include_crash).unwrap()).unwrap()
}

#[test]
fn detects_failed_csv() {
    assert_eq!(failed_csv_input(b"seqid,errcode,errmessage\n0,X,m\n"), Ok(true));
    assert_eq!(failed_csv_input(b"email,name\na@x,Alice\n"), Ok(false));
    let (h, _) = csv_parts("seqid,errcode,errmessage\n0,X,m\n");
    assert!(looks_like_failed_csv(&h));
}

#[test]
fn strips_protocol_and_meta_columns() {
    let content = prepare(
        "seqid,errcode,errmessage,meta_handler_ver,meta_crash_at_seq,meta_crash_worker_id\n\
         0,INVALID,missing tld,0.0.0,,\n",
        false,
    );
    assert!(!content.contains("seqid"));
    assert!(!content.contains("errcode"));
    assert!(!content.contains("errmessage"));
    assert!(!content.contains("meta_"));
    assert!(!content.contains("INVALID"));
}

#[test]
fn excludes_crash_rows_by_default() {
    let content = prepare("seqid,errcode,errmessage\n0,INVALID,missing\n1,WORKER_CRASH,worker died\n", false);
    assert_eq!(content.lines().count(), 2, "expected header + 1 data line after dropping WORKER_CRASH, got:\n{content}");
}

#[test]
fn includes_crash_rows_when_flag_set() {
    let content = prepare("seqid,errcode,errmessage\n0,WORKER_CRASH,worker died\n", true);
    assert_eq!(content.lines().count(), 2, "expected crash row included; got:\n{content}");
}

#[test]
fn worker_crash_unsafe_always_filtered() {
    let content = prepare(
        "seqid,errcode,errmessage\n0,WORKER_CRASH,died once\n1,WORKER_CRASH_UNSAFE,non-idempotent crash\n",
        true,
    );
    assert_eq!(content.lines().count(), 2, "expected header + 1 safe-crash row; got:\n{content}");
}

#[test]
fn row_too_large_always_filtered() {
    let input = "seqid,errcode,errmessage\n0,ROW_TOO_LARGE,5MB row\n";
    assert_eq!(prepare(input, false).lines().count(), 1, "ROW_TOO_LARGE excluded by default");
    assert_eq!(prepare(input, true).lines().count(), 1, "ROW_TOO_LARGE excluded even with include flag");
}

#[test]
fn cancelled_filtered_by_default_included_with_flag() {
    let input = "seqid,errcode,errmessage\n0,CANCELLED,run was cancelled\n";
    assert_eq!(prepare(input, false).lines().count(), 1, "CANCELLED excluded by default");
    assert_eq!(prepare(input, true).lines().count(), 2, "CANCELLED included when flag set");
}

#[test]
fn other_codes_pass_through() {
    let content = prepare(
        "seqid,errcode,errmessage\n0,INVALID,bad email\n1,NOT_FOUND,user missing\n2,MATCH,already exists\n",
        false,
    );
    assert_eq!(content.lines().count(), 4, "expected header + 3 data rows; got:\n{content}");
}

#[test]
fn data_columns_are_carried_over() {
    let content = prepare("email,seqid,errcode,meta_x,name\na@x,0,INVALID,1,Alice\nb@x,1,WORKER_CRASH,2,Bob\n", false);
    assert_eq!(content, "email,name\na@x,Alice\n");
}

#[test]
fn plan_positions() {
    let headers: Vec<String> = ["x", "errcode", "meta_a", "y", "errcode"].iter().map(|s| s.to_string()).collect();
    let plan = rerun_plan(&headers);
    assert_eq!(plan.keep, vec![0, 3]);
    assert_eq!(plan.errcode_idx, Some(1));
}

#[test]
fn should_filter_table() {
    assert!(should_filter("WORKER_CRASH_UNSAFE", true));
    assert!(should_filter("ROW_TOO_LARGE", true));
    assert!(should_filter("WORKER_CRASH", false));
    assert!(!should_filter("WORKER_CRASH", true));
    assert!(should_filter("CANCELLED", false));
    assert!(!should_filter("CANCELLED", true));
    assert!(!should_filter("INVALID", false));
}

#[test]
fn rerun_failed_csv_is_detected_and_filtered() {
    let content = "seqid,errcode,errmessage\n0,INVALID,bad\n1,WORKER_CRASH,died\n";
    let (headers, _) = csv_parts(content);
    assert!(looks_like_failed_csv(&headers));
    let prepared = prepare(content, false);
    let (kept, rows) = csv_parts(&prepared);
    assert!(kept.is_empty() || kept == vec!["".to_string()]);
    assert!(rows.len() <= 1);
    let err = rowforge::input::check_csv_required(&kept, &vec!["x".to_string()]).unwrap_err().message();
    assert!(err.contains("required") && err.contains("x"), "{err}");
}

#[test]
fn rerun_input_keeps_order_and_drops_unrunnable_rows() {
    let headers: Vec<String> = ["seqid", "email", "errcode", "meta_x", "name"].iter().map(|s| s.to_string()).collect();
    let rec = |v: &[&str]| v.iter().map(|s| s.to_string()).collect::<Vec<String>>();
    let records = vec![
        rec(&["0", "a@x", "INVALID", "m", "A"]),
        rec(&["1", "b@x", "WORKER_CRASH", "m", "B"]),
        rec(&["2", "c@x", "ROW_TOO_LARGE", "m", "C"]),
        rec(&["3", "d@x", "BAD", "m", "D"]),
    ];
    let input = rerun_input(&headers, &records, false);
    assert_eq!(input.headers, vec!["email", "name"]);
    assert_eq!(input.rows, vec![rec(&["a@x", "A"]), rec(&["d@x", "D"])]);
    let with_crash = rerun_input(&headers, &records, true);
    assert_eq!(with_crash.rows, vec![rec(&["a@x", "A"]), rec(&["b@x", "B"]), rec(&["d@x", "D"])]);
    let plan = rerun_plan(&headers);
    assert_eq!(rerun_headers(&plan, &headers), input.headers);
    assert_eq!(rerun_row(&plan, &records[2], true), None);
}

#[test]
fn prepare_rerun_csv_reports_unreadable_input() {
    let e = prepare_rerun_csv(b"seqid,errcode\n0,X\n1\n", false).unwrap_err();
    assert!(e.starts_with("csv: "), "{e}");
    assert!(failed_csv_input(b"\xff,errcode\n").unwrap_err().starts_with("csv: "));
}
