use rowforge::cli::{
    attempt_simulation, attempt_source, check_set_state, export_exit_code, input_snapshot_candidates,
    map_error_to_exit_code, parse_kv, retry_skip_seqs, source_label, CliState,
};
use rowforge::outcome::RowOutcome;
use rowforge::resolution::{compute_resolution, AttemptOutcomes};
use rowforge::run::run_exit_code;
use rowforge::store::{AttemptState, ExecutionState, Simulation, Source};
use std::collections::HashSet;

fn resolution() -> rowforge::resolution::RowResolution {
    // seq 0 resolved, seq 1 failed, seq 2 crashed, seqs 3-4 never attempted.
    let outcomes = vec![
        RowOutcome::Success { seq: 0, data: Vec::new(), dur_ms: 0 },
        RowOutcome::Error { seq: 1, code: "INVALID".into(), message: "m".into(), dur_ms: 0, data: None },
        RowOutcome::Error { seq: 2, code: "WORKER_CRASH".into(), message: "m".into(), dur_ms: 0, data: None },
    ];
    let atts = vec![AttemptOutcomes { attempt_id: "r_1".into(), state: AttemptState::Completed, outcomes }];
    compute_resolution("e_1".into(), 5, &atts)
}

fn set(v: &[u64]) -> HashSet<u64> {
    v.iter().copied().collect()
}

#[test]
fn retry_policy_default_skips_everything_attempted() {
    assert_eq!(retry_skip_seqs(false, false, 5, &resolution()), set(&[0, 1, 2]));
}

#[test]
fn retry_policy_retry_failed_dispatches_only_failures() {
    assert_eq!(retry_skip_seqs(false, true, 5, &resolution()), set(&[0, 3, 4]));
}

#[test]
fn retry_policy_force_skips_nothing() {
    assert_eq!(retry_skip_seqs(true, false, 5, &resolution()), set(&[]));
}

#[test]
fn parse_kv_splits_at_first_equals() {
    assert_eq!(parse_kv("a=b=c"), Ok(("a".to_string(), "b=c".to_string())));
    assert_eq!(parse_kv("=x"), Ok((String::new(), "x".to_string())));
    assert_eq!(parse_kv("k="), Ok(("k".to_string(), String::new())));
    assert_eq!(parse_kv("novalue"), Err("expected K=V, got 'novalue'".to_string()));
}

#[test]
fn exit_codes() {
    assert_eq!(run_exit_code(true, 0), 2);
    assert_eq!(run_exit_code(true, 3), 2);
    assert_eq!(run_exit_code(false, 3), 1);
    assert_eq!(run_exit_code(false, 0), 0);
    assert_eq!(map_error_to_exit_code("handler startup timeout after 10ms"), 2);
    assert_eq!(map_error_to_exit_code("Handler STARTUP TIMEOUT after 5ms"), 2);
    assert_eq!(map_error_to_exit_code("ALL WORKERS failed to start"), 2);
    assert_eq!(map_error_to_exit_code("bad --config value"), 3);
    assert_eq!(export_exit_code("export_incomplete: 2 row(s) never attempted, 0 aborted attempt(s)"), Some(3));
    assert_eq!(export_exit_code("store: execution not found: e_1"), None);
}

#[test]
fn set_state_needs_a_reason_to_abandon() {
    let abandoned: ExecutionState = CliState::Abandoned.into();
    assert_eq!(abandoned, ExecutionState::Abandoned);
    assert_eq!(check_set_state(abandoned, &None), Err("--reason is required when setting state to abandoned".to_string()));
    assert_eq!(check_set_state(abandoned, &Some("why".into())), Ok(()));
    assert_eq!(check_set_state(ExecutionState::from(CliState::Closed), &None), Ok(()));
}

#[test]
fn attempt_run_type() {
    assert_eq!(attempt_source(None), Source::Full);
    assert_eq!(attempt_source(Some(25)), Source::Sampled { size: 25 });
    assert_eq!(attempt_simulation(true), Simulation::Dry);
    assert_eq!(attempt_simulation(false), Simulation::Real);
    assert_eq!(source_label(Source::Full), "full");
    assert_eq!(source_label(Source::Sampled { size: 25 }), "sampled(25)");
}

#[test]
fn snapshot_probe_order() {
    assert_eq!(input_snapshot_candidates(), vec!["input.jsonl", "input.ndjson", "input.csv"]);
}
