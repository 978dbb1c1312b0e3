use rowforge::export::{
    completeness_gate, export_csv, export_files, export_jsonl_row, export_table, is_fully_processed, jsonl_cell,
    ExportFormat, ExportOpts, ExportTable,
};
use rowforge::outcome::{Field, JsonValue, RowOutcome};
use rowforge::resolution::{compute_resolution, AttemptOutcomes};
use rowforge::store::AttemptState;

fn fields(kvs: &[(&str, &str)]) -> Vec<Field> {
    kvs.iter().map(|(k, v)| Field { key: k.to_string(), value: JsonValue::Str(v.to_string()) }).collect()
}

fn ok(seq: u64, kvs: &[(&str, &str)]) -> RowOutcome {
    RowOutcome::Success { seq, data: fields(kvs), dur_ms: 1 }
}

fn err(seq: u64, code: &str, msg: &str) -> RowOutcome {
    RowOutcome::Error { seq, code: code.to_string(), message: msg.to_string(), dur_ms: 1, data: None }
}

fn done(id: &str, outcomes: Vec<RowOutcome>) -> AttemptOutcomes {
    AttemptOutcomes { attempt_id: id.to_string(), state: AttemptState::Completed, outcomes }
}

#[test]
fn export_opts_builders() {
    let o = ExportOpts::new(ExportFormat::Both).with_require_complete(true).with_output_dir("/tmp/x".into());
    assert_eq!(o.format, ExportFormat::Both);
    assert!(o.require_complete);
    assert_eq!(o.output_dir.as_deref(), Some("/tmp/x"));
    let d = ExportOpts::new(ExportFormat::Csv);
    assert!(!d.require_complete);
    assert!(d.output_dir.is_none());
}

#[test]
fn export_strict_fails_when_incomplete() {
    let err = completeness_gate(true, 1, &Vec::new()).unwrap_err();
    assert!(err.contains("export_incomplete:"));
    assert_eq!(err, "export_incomplete: 1 row(s) never attempted, 0 aborted attempt(s)");
    assert!(completeness_gate(true, 0, &vec!["r_1".to_string()]).is_err());
}

#[test]
fn export_strict_passes_when_complete() {
    assert!(completeness_gate(true, 0, &Vec::new()).is_ok());
    assert!(completeness_gate(false, 5, &vec!["r_1".to_string()]).is_ok());
}

#[test]
fn exec_export_column_discovery() {
    let atts = vec![
        done("r_1", vec![ok(0, &[("a", "1"), ("b", "2")]), ok(1, &[("a", "3"), ("b", "4")])]),
        done("r_2", vec![ok(2, &[("a", "5"), ("b", "6"), ("c", "7")])]),
    ];
    let res = compute_resolution("e_1".to_string(), 3, &atts);
    let t = export_table(&res, true);
    assert_eq!(t.columns.join(","), "seqid,a,b,c");
    assert_eq!(t.rows.len(), 3);
    assert_eq!(t.rows[0], vec![Some("0".to_string()), Some("1".to_string()), Some("2".to_string()), None]);
    assert_eq!(t.rows[2][3].as_deref(), Some("7"));
}

#[test]
fn exec_export_never_attempted() {
    let atts = vec![done("r_1", vec![ok(0, &[("x", "ok")])])];
    let res = compute_resolution("e_1".to_string(), 3, &atts);
    let failed = export_table(&res, false);
    assert_eq!(failed.columns.join(","), "seqid,errcode,errmessage");
    assert_eq!(failed.rows.len(), 2);
    assert_eq!(failed.rows[0][0].as_deref(), Some("1"));
    assert_eq!(failed.rows[0][1].as_deref(), Some("NEVER_ATTEMPTED"));
    assert_eq!(failed.rows[1][0].as_deref(), Some("2"));
    let success = export_table(&res, true);
    assert_eq!(success.rows.len(), 1);
}

#[test]
fn export_failed_rows_carry_latest_failure() {
    let atts = vec![
        done("r_1", vec![err(0, "E1", "first"), err(1, "E1", "first")]),
        done("r_2", vec![err(0, "E2", "second"), ok(1, &[("v", "y")])]),
    ];
    let res = compute_resolution("e_1".to_string(), 2, &atts);
    let failed = export_table(&res, false);
    assert_eq!(failed.rows.len(), 1);
    assert_eq!(failed.rows[0], vec![Some("0".to_string()), Some("E2".to_string()), Some("second".to_string())]);
    let success = export_table(&res, true);
    assert_eq!(success.columns.join(","), "seqid,v");
    assert_eq!(success.rows[0], vec![Some("1".to_string()), Some("y".to_string())]);
}

#[test]
fn export_fully_processed_flag() {
    assert!(is_fully_processed(0, 0));
    assert!(!is_fully_processed(2, 0));
    assert!(!is_fully_processed(0, 1));
}

fn file_names(format: ExportFormat) -> Vec<&'static str> {
    export_files(format).iter().map(|f| f.name).collect()
}

#[test]
fn exec_export_csv_default() {
    assert_eq!(file_names(ExportFormat::Csv), vec!["success.csv", "failed.csv"]);
    let files = export_files(ExportFormat::Csv);
    assert!(files[0].successes && !files[0].jsonl);
    assert!(!files[1].successes && !files[1].jsonl);
}

#[test]
fn exec_export_jsonl_only() {
    assert_eq!(file_names(ExportFormat::Jsonl), vec!["success.jsonl", "failed.jsonl"]);
    assert!(export_files(ExportFormat::Jsonl).iter().all(|f| f.jsonl));
}

#[test]
fn exec_export_both() {
    assert_eq!(
        file_names(ExportFormat::Both),
        vec!["success.csv", "failed.csv", "success.jsonl", "failed.jsonl"]
    );
}

#[test]
fn export_csv_writes_header_then_rows() {
    let t = ExportTable {
        columns: vec!["seqid".to_string(), "note".to_string()],
        rows: vec![
            vec![Some("0".to_string()), Some("a, b".to_string())],
            vec![Some("1".to_string()), None],
        ],
    };
    assert_eq!(String::from_utf8(export_csv(&t)).unwrap(), "seqid,note\n0,\"a, b\"\n1,\n");
}

#[test]
fn jsonl_cells_of_an_export() {
    assert!(matches!(jsonl_cell("seqid", &Some("42".to_string())), JsonValue::Encoded(t) if t == "42"));
    assert!(matches!(jsonl_cell("seqid", &Some("+007".to_string())), JsonValue::Encoded(t) if t == "7"));
    assert!(matches!(jsonl_cell("seqid", &Some("x1".to_string())), JsonValue::Str(t) if t == "x1"));
    assert!(matches!(jsonl_cell("seqid", &Some("18446744073709551616".to_string())), JsonValue::Str(_)));
    assert!(matches!(jsonl_cell("note", &Some("42".to_string())), JsonValue::Str(t) if t == "42"));
    assert!(matches!(jsonl_cell("note", &None), JsonValue::Null));
    let row = export_jsonl_row(&vec!["seqid".to_string(), "x".to_string()], &vec![Some("3".to_string()), None]);
    assert_eq!(row.len(), 2);
    assert_eq!(row[1].key, "x");
    assert!(matches!(row[1].value, JsonValue::Null));
}
