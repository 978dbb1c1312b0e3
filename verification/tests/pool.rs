use rowforge::outcome::RowOutcome;
use rowforge::pool::{effective_workers, malformed_line_error, pool_report, startup_failure_report, worker_failure_text, PoolEnd, RunStats};

fn end() -> PoolEnd {
    PoolEnd { stall: None, worker_errors: Vec::new(), reader_error: None, accumulator_error: None, external_cancelled: false }
}

#[test]
fn stateful_handlers_run_one_worker() {
    assert_eq!(effective_workers(4, true), 1);
    assert_eq!(effective_workers(4, false), 4);
    assert_eq!(effective_workers(0, false), 0);
}

#[test]
fn normal_completion() {
    let r = pool_report(end());
    assert!(!r.aborted);
    assert!(r.abort_reason.is_none());
    assert!(r.stalled_at_bytes.is_none());
}

#[test]
fn stall_vs_normal_cancel_distinction() {
    let mut e = end();
    e.stall = Some((1024, "attempt stalled".to_string()));
    e.worker_errors = vec!["worker[0]: x".to_string()];
    let r = pool_report(e);
    assert!(r.aborted);
    assert_eq!(r.stalled_at_bytes, Some(1024));
    assert_eq!(r.abort_reason.as_deref(), Some("stalled at 1024 bytes: attempt stalled"));
}

#[test]
fn worker_errors_are_joined() {
    let mut e = end();
    e.worker_errors = vec!["worker[0]: a".to_string(), "worker[1] panic: b".to_string()];
    e.reader_error = Some("r".to_string());
    let r = pool_report(e);
    assert_eq!(r.abort_reason.as_deref(), Some("worker[0]: a; worker[1] panic: b"));
    assert!(r.stalled_at_bytes.is_none());
}

#[test]
fn reader_then_accumulator_errors() {
    let mut e = end();
    e.reader_error = Some("bad input".to_string());
    e.accumulator_error = Some("boom".to_string());
    assert_eq!(pool_report(e).abort_reason.as_deref(), Some("reader error: bad input"));
    let mut e = end();
    e.accumulator_error = Some("boom".to_string());
    assert_eq!(pool_report(e).abort_reason.as_deref(), Some("accumulator error: boom"));
}

#[test]
fn streaming_cancel_propagation() {
    let mut e = end();
    e.accumulator_error = Some("protocol: flush cancelled".to_string());
    e.external_cancelled = true;
    assert_eq!(pool_report(e).abort_reason.as_deref(), Some("cancelled by operator"));
    let mut e = end();
    e.accumulator_error = Some("worker dropped the job channel".to_string());
    let r = pool_report(e);
    assert!(!r.aborted, "a cancel artefact without an operator cancel is a normal end");
}

#[test]
fn startup_failure() {
    let r = startup_failure_report(2, "handler startup timeout after 10ms");
    assert!(r.aborted);
    assert_eq!(r.abort_reason.as_deref(), Some("worker 2 failed to start: handler startup timeout after 10ms"));
    assert_eq!(worker_failure_text(3, "x", false), "worker[3]: x");
    assert_eq!(worker_failure_text(3, "x", true), "worker[3] panic: x");
}

#[test]
fn run_stats_tally() {
    let mut st = RunStats::new();
    st.add_outcomes(&vec![
        RowOutcome::Success { seq: 0, data: Vec::new(), dur_ms: 0 },
        RowOutcome::Error { seq: 1, code: "E".into(), message: "m".into(), dur_ms: 0, data: None },
    ]);
    st.add_outcomes(&vec![
        RowOutcome::Crash { seq: 2, worker_id: 0, crash_at_seq: 2 },
        RowOutcome::Error { seq: 3, code: "E".into(), message: "m".into(), dur_ms: 0, data: None },
    ]);
    assert_eq!(st.success, 1);
    assert_eq!(st.failed, 3);
    assert_eq!(st.by_error_code.get("E"), 2);
    assert_eq!(st.by_error_code.get("WORKER_CRASH"), 1);
    assert_eq!(
        malformed_line_error("eof", "{").message(),
        "store: compute_run_stats: malformed jsonl line: eof\nline: {"
    );
}
