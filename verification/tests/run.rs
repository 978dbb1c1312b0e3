use rowforge::input::InputFormat;
use rowforge::outcome::{Field, JsonValue};
use rowforge::pool::{RunStats, StreamingPoolReport};
use rowforge::run::{
    effective_config, effective_row_limit, input_snapshot_name, inside_handler_message_text,
    is_snapshot_ignored, output_inside_handler, run_meta_stats, run_report, started_total_rows,
};

#[test]
fn dry_run_only_processes_sample_rows() {
    assert_eq!(effective_row_limit(None, true, 10), Some(10));
    assert_eq!(effective_row_limit(Some(3), true, 10), Some(3));
    assert_eq!(effective_row_limit(None, false, 10), None);
}

#[test]
fn only_row_ids_started_event_uses_filtered_count() {
    assert_eq!(started_total_rows(&Some(vec![1, 5, 9]), 100), 3);
    assert_eq!(started_total_rows(&None, 100), 100);
}

#[test]
fn output_dir_inside_handler_dir_fails_cleanly() {
    assert!(output_inside_handler("/h", "/h"));
    assert!(output_inside_handler("/h/out", "/h"));
    assert!(!output_inside_handler("/hx/out", "/h"));
    assert!(!output_inside_handler("/tmp/out", "/h"));
    assert!(output_inside_handler("/anything", "/"));
    assert_eq!(
        inside_handler_message_text("/h/out", "/h"),
        "output_dir (/h/out) must not be inside handler dir (/h) \u{2014} handler-snapshot would recursively copy itself. Pick an output_dir outside the handler folder."
    );
}

#[test]
fn snapshot_names_and_ignores() {
    assert_eq!(input_snapshot_name(InputFormat::Csv), "input.csv");
    assert_eq!(input_snapshot_name(InputFormat::Jsonl), "input.jsonl");
    for n in ["target", "node_modules", "__pycache__", "dist", ".venv", ".git"] {
        assert!(is_snapshot_ignored(n));
    }
    assert!(!is_snapshot_ignored("src"));
}

#[test]
fn overrides_win_over_defaults() {
    let defaults = vec![
        Field { key: "a".into(), value: JsonValue::Encoded("1".into()) },
        Field { key: "b".into(), value: JsonValue::Null },
    ];
    let overrides = vec![
        Field { key: "b".into(), value: JsonValue::Str("x".into()) },
        Field { key: "c".into(), value: JsonValue::Encoded("true".into()) },
        Field { key: "b".into(), value: JsonValue::Str("y".into()) },
    ];
    let c = effective_config(defaults, overrides);
    assert_eq!(c.len(), 3);
    let get = |k: &str| c.iter().find(|f| f.key == k).map(|f| match &f.value {
        JsonValue::Null => "null".to_string(),
        JsonValue::Str(s) => format!("s:{s}"),
        JsonValue::Encoded(t) => format!("e:{t}"),
    });
    assert_eq!(get("a").as_deref(), Some("e:1"));
    assert_eq!(get("b").as_deref(), Some("s:y"));
    assert_eq!(get("c").as_deref(), Some("e:true"));
}

#[test]
fn run_report_and_meta_stats() {
    let mut st = RunStats::new();
    st.add_outcomes(&vec![rowforge::outcome::RowOutcome::Error { seq: 0, code: "E".into(), message: "m".into(), dur_ms: 5, data: None }]);
    let meta = run_meta_stats(&st);
    assert_eq!((meta.success, meta.failed, meta.avg_dur_ms), (0, 1, 0));
    assert_eq!(meta.by_error_code.get("E"), 1);
    let r = run_report(st, "/runs/r1".into(), StreamingPoolReport { aborted: true, abort_reason: Some("x".into()), stalled_at_bytes: None });
    assert_eq!(r.failed_count, 1);
    assert!(r.aborted);
    assert_eq!(r.abort_reason.as_deref(), Some("x"));
    assert_eq!(r.run_dir, "/runs/r1");
}
