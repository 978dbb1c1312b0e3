use rowforge::error::CoreError;
use rowforge::input::{
    check_csv_required, check_jsonl_required, count_input_rows, csv_read_error, csv_record_fields, csv_rows,
    jsonl_line_is_blank, jsonl_parse_error, jsonl_row, missing_required, InputFormat, JsonlCursor, JsonlLine,
};
use rowforge::outcome::{Field, JsonValue};

fn first_jsonl_keys(content: &str) -> Option<Vec<String>> {
    for line in content.lines() {
        if line.trim().is_empty() {
            continue;
        }
        let m: serde_json::Map<String, serde_json::Value> = serde_json::from_str(line.trim()).unwrap();
        return Some(m.keys().cloned().collect());
    }
    None
}

fn msg(e: CoreError) -> String {
    e.message()
}

fn strs(v: &[&str]) -> Vec<String> {
    v.iter().map(|s| s.to_string()).collect()
}

/// Numbers the lines of a JSONL text the way the reader does, parsing the
/// rows with serde_json: (seq, parsed ok) per row.
fn jsonl_rows(content: &str) -> Vec<(u64, bool)> {
    let mut cur = JsonlCursor::new();
    let mut out = Vec::new();
    for line in content.lines() {
        match cur.on_line(jsonl_line_is_blank(line)) {
            JsonlLine::Blank => {}
            JsonlLine::Row { seq } => {
                let ok = jsonl_row(seq, line).is_ok();
                out.push((seq, ok));
            }
        }
    }
    out
}

#[test]
fn format_detect_csv_extension() {
    assert!(matches!(InputFormat::detect("data.csv", None), Ok(InputFormat::Csv)));
}

#[test]
fn format_detect_jsonl_extension() {
    assert!(matches!(InputFormat::detect("data.jsonl", None), Ok(InputFormat::Jsonl)));
}

#[test]
fn format_detect_ndjson_extension() {
    assert!(matches!(InputFormat::detect("data.ndjson", None), Ok(InputFormat::Jsonl)));
}

#[test]
fn format_detect_unknown_extension_errors() {
    let err = InputFormat::detect("data.foo", None).err().unwrap();
    let msg = err.message();
    assert!(msg.contains("specify --format"), "expected 'specify --format' in: {msg}");
}

#[test]
fn format_detect_explicit_overrides_extension() {
    assert!(matches!(InputFormat::detect("data.csv", Some(InputFormat::Jsonl)), Ok(InputFormat::Jsonl)));
}

#[test]
fn format_detect_explicit_with_no_extension() {
    assert!(matches!(InputFormat::detect("/tmp/data", Some(InputFormat::Csv)), Ok(InputFormat::Csv)));
}

#[test]
fn format_detect_error_text_and_path_edge_cases() {
    assert_eq!(
        msg(InputFormat::detect("/x/data.foo", None).err().unwrap()),
        "store: cannot detect input format from extension '/x/data.foo'; specify --format csv|jsonl"
    );
    assert!(InputFormat::detect("/tmp/data", None).is_err());
    assert!(InputFormat::detect(".csv", None).is_err(), "a dot-file has no extension");
    assert!(InputFormat::detect("data.CSV", None).is_err(), "extensions are case-sensitive");
    assert!(matches!(InputFormat::detect("dir/data.csv/", None), Ok(InputFormat::Csv)));
    assert!(matches!(InputFormat::detect("dir/data.jsonl/.", None), Ok(InputFormat::Jsonl)));
    assert!(InputFormat::detect("dir/data.csv/..", None).is_err());
    assert!(matches!(InputFormat::detect("a.b.ndjson", None), Ok(InputFormat::Jsonl)));
}

#[test]
fn csv_input_required_check_pass() {
    assert!(csv_rows(b"a,b,c\n1,2,3\n", &strs(&["a", "b"])).is_ok());
}

#[test]
fn csv_input_required_check_fail() {
    let err = csv_rows(b"a,c\n1,2\n", &strs(&["a", "b"])).err().expect("expected Err");
    let msg = err.message();
    assert!(msg.contains("MISSING_REQUIRED_INPUT_COLUMN"), "expected MISSING_REQUIRED_INPUT_COLUMN in: {msg}");
    assert!(msg.contains('b'), "expected missing key 'b' in: {msg}");
    assert!(msg.contains('a'), "expected present header 'a' in: {msg}");
    assert!(msg.contains('c'), "expected present header 'c' in: {msg}");
}

#[test]
fn csv_required_check_lists_all_missing() {
    let err = csv_rows(b"d\n1\n", &strs(&["a", "b", "c"])).err().expect("expected Err");
    let msg = err.message();
    assert!(msg.contains("MISSING_REQUIRED_INPUT_COLUMN"), "expected MISSING_REQUIRED_INPUT_COLUMN in: {msg}");
    assert!(msg.contains('a'));
    assert!(msg.contains('b'));
    assert!(msg.contains('c'));
}

#[test]
fn csv_missing_message_exact() {
    let err = check_csv_required(&strs(&["a", "c"]), &strs(&["a", "b", "x"])).err().unwrap();
    assert_eq!(
        err.message(),
        "store: MISSING_REQUIRED_INPUT_COLUMN: required columns [b, x] not found; present headers: a, c"
    );
}

#[test]
fn csv_input_stream_basic() {
    let rows = csv_rows(b"a,b,c\n1,2,3\n4,5,6\n7,8,9\n", &Vec::new()).unwrap();
    assert_eq!(rows.len(), 3);
    let rows: Vec<_> = rows.into_iter().map(|r| r.unwrap()).collect();
    assert_eq!(rows.iter().map(|r| r.seq).collect::<Vec<_>>(), vec![0, 1, 2]);
    let r0 = &rows[0].data;
    let get = |d: &Vec<Field>, k: &str| -> String {
        match &d.iter().find(|f| f.key == k).unwrap().value {
            JsonValue::Str(s) => s.clone(),
            _ => panic!("csv values are strings"),
        }
    };
    assert_eq!(get(r0, "a"), "1");
    assert_eq!(get(r0, "b"), "2");
    assert_eq!(get(r0, "c"), "3");
    let r2 = &rows[2].data;
    assert_eq!(get(r2, "a"), "7");
}

#[test]
fn csv_input_stream_empty() {
    assert!(csv_rows(b"a,b,c\n", &Vec::new()).unwrap().is_empty());
}

#[test]
fn csv_short_record_and_repeated_header() {
    let d = csv_record_fields(&strs(&["a", "b", "a"]), &strs(&["1"]));
    assert_eq!(d.len(), 2);
    let a = d.iter().find(|f| f.key == "a").unwrap();
    assert!(matches!(&a.value, JsonValue::Str(s) if s.is_empty()), "a repeated header keeps its last (missing) cell");
    let b = d.iter().find(|f| f.key == "b").unwrap();
    assert!(matches!(&b.value, JsonValue::Str(s) if s.is_empty()));
}

#[test]
fn jsonl_input_required_check_pass() {
    let keys = first_jsonl_keys("{\"a\":1}\n").unwrap();
    assert!(check_jsonl_required(&keys, &strs(&["a"])).is_ok());
}

#[test]
fn jsonl_input_required_check_fail_first_row() {
    let keys = first_jsonl_keys("{\"a\":1,\"c\":2}\n").unwrap();
    let err = check_jsonl_required(&keys, &strs(&["a", "b"])).err().expect("expected Err");
    let msg = err.message();
    assert!(msg.contains("MISSING_REQUIRED_INPUT_COLUMN"), "expected MISSING_REQUIRED_INPUT_COLUMN in: {msg}");
    assert!(msg.contains('b'), "expected missing key 'b' in: {msg}");
}

#[test]
fn jsonl_required_check_lists_all_missing() {
    let keys = first_jsonl_keys("{\"d\":1}\n").unwrap();
    let err = check_jsonl_required(&keys, &strs(&["a", "b", "c"])).err().expect("expected Err");
    assert_eq!(
        err.message(),
        "store: MISSING_REQUIRED_INPUT_COLUMN: required keys [a, b, c] not found in first JSONL row"
    );
}

#[test]
fn jsonl_input_stream_basic() {
    let rows = jsonl_rows("{\"a\":1,\"b\":\"x\"}\n{\"a\":2,\"b\":\"y\"}\n{\"a\":3,\"b\":\"z\"}\n");
    assert_eq!(rows, vec![(0, true), (1, true), (2, true)]);
}

#[test]
fn jsonl_input_stream_empty() {
    assert!(jsonl_rows("").is_empty());
}

#[test]
fn jsonl_input_first_row_sniff_only() {
    let content = "{\"a\":1,\"b\":2}\n{\"a\":2}\n{\"c\":3}\n";
    let keys = first_jsonl_keys(content).unwrap();
    assert!(check_jsonl_required(&keys, &strs(&["a"])).is_ok());
    let rows = jsonl_rows(content);
    assert_eq!(rows.len(), 3);
    assert!(rows.iter().all(|r| r.1));
    assert_eq!(rows[2].0, 2);
}

#[test]
fn jsonl_input_parse_error_mid_stream() {
    let rows = jsonl_rows("{\"a\":1}\nnot-valid-json\n{\"a\":3}\n");
    assert_eq!(rows.len(), 3, "should yield 3 items (including the error)");
    assert!(rows[0].1, "row 0 should be Ok");
    assert!(!rows[1].1, "row 1 should be Err (bad JSON)");
    assert!(rows[2].1, "row 2 should be Ok");
    assert_eq!(rows[0].0, 0);
    assert_eq!(rows[2].0, 2);
}

#[test]
fn jsonl_blank_first_line_with_required_input() {
    let content = "\n{\"a\":1}\n";
    let keys = first_jsonl_keys(content).unwrap();
    assert!(check_jsonl_required(&keys, &strs(&["a"])).is_ok());
    let rows = jsonl_rows(content);
    assert!(rows.iter().any(|r| r.1));
}

#[test]
fn jsonl_numbering_skips_leading_blanks_and_counts_later_blanks() {
    let rows = jsonl_rows("\n  \n{\"a\":1}\n\n{\"a\":2}\n \t\n{\"a\":3}\n");
    assert_eq!(rows, vec![(0, true), (2, true), (4, true)]);
}

#[test]
fn missing_required_keeps_order() {
    assert_eq!(missing_required(&strs(&["z", "a", "m"]), &strs(&["a"])), strs(&["z", "m"]));
}

#[test]
fn count_input_rows_by_format() {
    assert_eq!(count_input_rows(b"h\n1\n2\n", InputFormat::Csv), 2);
    assert_eq!(count_input_rows(b"h\n1\n2", InputFormat::Csv), 2);
    assert_eq!(count_input_rows(b"h\n\n1\n  \n2\n\n", InputFormat::Csv), 2);
    assert_eq!(count_input_rows(b"", InputFormat::Csv), 0);
    assert_eq!(count_input_rows(b"h\n", InputFormat::Csv), 0);
    assert_eq!(count_input_rows(b"{}\n\n{}\n", InputFormat::Jsonl), 2);
    assert_eq!(count_input_rows(b"\r\n\x0c\n{}", InputFormat::Jsonl), 1);
}

#[test]
fn input_error_texts() {
    assert_eq!(csv_read_error(4, "bad quote").message(), "store: csv read error at row 4: bad quote");
    assert_eq!(jsonl_parse_error(1, "eof").message(), "store: JSONL parse error at line 1: eof");
}

#[test]
fn jsonl_row_parses_a_trimmed_object_line() {
    let row = jsonl_row(4, "  {\"b\": 1, \"a\": \"x\", \"c\": null, \"d\": [true, 2]}\t").unwrap();
    assert_eq!(row.seq, 4);
    let keys: Vec<&str> = row.data.iter().map(|f| f.key.as_str()).collect();
    assert_eq!(keys, vec!["a", "b", "c", "d"]);
    assert!(matches!(&row.data[0].value, JsonValue::Str(s) if s == "x"));
    assert!(matches!(&row.data[1].value, JsonValue::Encoded(t) if t == "1"));
    assert!(matches!(&row.data[2].value, JsonValue::Null));
    assert!(matches!(&row.data[3].value, JsonValue::Encoded(t) if t == "[true,2]"));
}

#[test]
fn jsonl_row_error_names_the_line() {
    match jsonl_row(2, "{not json") {
        Err(CoreError::Store(m)) => assert!(m.starts_with("JSONL parse error at line 3: "), "{m}"),
        _ => panic!("a broken line is an error"),
    }
    match jsonl_row(0, "[1, 2]") {
        Err(CoreError::Store(m)) => assert!(m.starts_with("JSONL parse error at line 1: "), "{m}"),
        _ => panic!("a JSON array is not a row"),
    }
}

#[test]
fn jsonl_row_of_empty_object() {
    let row = jsonl_row(0, "{}").unwrap();
    assert_eq!(row.seq, 0);
    assert!(row.data.is_empty());
}

#[test]
fn csv_rows_number_records_and_report_bad_ones() {
    let rows = csv_rows(b"a,b\n1,2\n3\n\"x\",\"y,z\"\n", &strs(&["b"])).unwrap();
    assert_eq!(rows.len(), 3);
    match &rows[1] {
        Err(CoreError::Store(m)) => assert!(m.starts_with("csv read error at row 1: "), "{m}"),
        _ => panic!("a record of the wrong length is an error"),
    }
    let r2 = rows[2].as_ref().unwrap();
    assert_eq!(r2.seq, 2);
    let b = r2.data.iter().find(|f| f.key == "b").unwrap();
    assert!(matches!(&b.value, JsonValue::Str(s) if s == "y,z"), "quoted cells are unquoted");
}

#[test]
fn csv_rows_missing_columns_message() {
    let err = csv_rows(b"a,c\n1,2\n", &strs(&["a", "b", "x"])).err().unwrap();
    assert_eq!(
        err.message(),
        "store: MISSING_REQUIRED_INPUT_COLUMN: required columns [b, x] not found; present headers: a, c"
    );
}

#[test]
fn csv_rows_header_error() {
    match csv_rows(b"a,\xff\n1,2\n", &Vec::new()) {
        Err(CoreError::Store(m)) => assert!(m.starts_with("csv header read error: "), "{m}"),
        _ => panic!("a header that is not UTF-8 is an error"),
    }
}

#[test]
fn jsonl_row_keeps_booleans_as_json_text() {
    let row = jsonl_row(0, "{\"ok\": true, \"n\": 1.5, \"o\": {\"k\": false}}").unwrap();
    let v: Vec<(&str, String)> = row
        .data
        .iter()
        .map(|f| match &f.value {
            JsonValue::Encoded(t) => (f.key.as_str(), t.clone()),
            _ => panic!("non-string values are encoded"),
        })
        .collect();
    assert_eq!(v, vec![("n", "1.5".to_string()), ("o", "{\"k\":false}".to_string()), ("ok", "true".to_string())]);
}
