use rowforge::outcome::{Field, JsonValue, RowOutcome};
use rowforge::resolution::{
    apply_row_outcome, classify_failure, ResolutionCounts, compute_resolution, compute_resolution_counts_only, AttemptOutcomes,
    ResolutionState,
};
use rowforge::store::AttemptState;
use rowforge::tally::CodeTally;
use std::collections::{BTreeMap, HashSet};

fn success(seq: u64) -> RowOutcome {
    RowOutcome::Success { seq, data: Vec::new(), dur_ms: 1 }
}

fn failure(seq: u64, code: &str) -> RowOutcome {
    RowOutcome::Error { seq, code: code.to_string(), message: "x".to_string(), dur_ms: 1, data: None }
}

fn attempt(id: &str, state: AttemptState, successes: &[u64], failures: &[(u64, &str)]) -> AttemptOutcomes {
    let mut outcomes = Vec::new();
    for &s in successes {
        outcomes.push(success(s));
    }
    for &(s, c) in failures {
        outcomes.push(failure(s, c));
    }
    AttemptOutcomes { attempt_id: id.to_string(), state, outcomes }
}

fn completed(id: &str, successes: &[u64], failures: &[(u64, &str)]) -> AttemptOutcomes {
    attempt(id, AttemptState::Completed, successes, failures)
}

#[test]
fn never_attempted_when_no_attempts() {
    let r = compute_resolution("e_1".to_string(), 3, &Vec::new());
    assert_eq!(r.counts.never_attempted, 3);
    assert_eq!(r.counts.resolved, 0);
}

#[test]
fn success_is_absorbing_across_attempts() {
    let atts = vec![
        completed("r_1", &[0], &[(1, "INVALID")]),
        completed("r_2", &[1], &[(0, "INVALID")]),
    ];
    let r = compute_resolution("e_1".to_string(), 3, &atts);
    assert_eq!(r.counts.resolved, 2, "0 and 1 both resolved (SUCCESS absorbing)");
    assert_eq!(r.counts.never_attempted, 1, "seq 2 untouched");
}

#[test]
fn failure_classification_by_code() {
    let atts = vec![completed(
        "r_1",
        &[],
        &[(0, "INVALID"), (1, "WORKER_CRASH"), (2, "CANCELLED"), (3, "ROW_TOO_LARGE")],
    )];
    let r = compute_resolution("e_1".to_string(), 4, &atts);
    assert_eq!(r.counts.failed_last, 1);
    assert_eq!(r.counts.crashed_last, 1);
    assert_eq!(r.counts.cancelled_last, 1);
    assert_eq!(r.counts.too_large, 1);
    assert_eq!(r.by_error_code.get("INVALID"), 1);
    assert_eq!(r.by_error_code.get("WORKER_CRASH"), 0, "by_error_code is only for FailedLast bucket");
}

#[test]
fn failed_seqs_excludes_resolved_and_never_attempted() {
    let atts = vec![completed(
        "r_1",
        &[0],
        &[(1, "INVALID"), (2, "WORKER_CRASH"), (3, "CANCELLED"), (4, "ROW_TOO_LARGE")],
    )];
    let r = compute_resolution("e_1".to_string(), 6, &atts);
    let failed = r.failed_seqs();
    assert_eq!(failed, [1u64, 2, 3, 4].into_iter().collect::<HashSet<u64>>());
    assert!(!failed.contains(&0), "Resolved must not be in failed_seqs");
    assert!(!failed.contains(&5), "NeverAttempted must not be in failed_seqs");
}

#[test]
fn attempted_seqs_excludes_only_never_attempted() {
    let atts = vec![completed("r_1", &[0], &[(1, "INVALID"), (2, "WORKER_CRASH")])];
    let r = compute_resolution("e_1".to_string(), 5, &atts);
    let resolved = r.resolved_seqs();
    let attempted = r.attempted_seqs();
    assert_eq!(resolved, [0u64].into_iter().collect::<HashSet<u64>>());
    assert_eq!(attempted, [0u64, 1, 2].into_iter().collect::<HashSet<u64>>());
    assert!(!attempted.contains(&3));
    assert!(!attempted.contains(&4));
}

#[test]
fn aborted_attempt_now_ingested() {
    let atts = vec![attempt("r_1", AttemptState::Aborted, &[0], &[])];
    let r = compute_resolution("e_1".to_string(), 2, &atts);
    assert_eq!(r.counts.resolved, 1, "aborted attempt's success IS ingested now");
    assert_eq!(r.counts.never_attempted, 1, "seq 1 was never touched");
    assert_eq!(r.skipped_running.len(), 0, "no Running attempts — nothing skipped");
    assert_eq!(r.merged_from_attempts.len(), 1, "aborted attempt IS in merged_from");
}

#[test]
fn stall_recovery_via_jsonl() {
    let atts = vec![
        attempt("r_1", AttemptState::Aborted, &[0, 1, 2, 3, 4], &[]),
        completed("r_2", &[5, 6, 7, 8, 9], &[]),
    ];
    let r = compute_resolution("e_1".to_string(), 10, &atts);
    assert_eq!(r.counts.resolved, 10, "all 10 seqs resolved across the two attempts");
    assert_eq!(r.counts.never_attempted, 0, "no seqs left unresolved");
    assert_eq!(r.merged_from_attempts.len(), 2, "both attempts merged");
}

#[test]
fn ingest_jsonl_multi_seq_batch() {
    let outcomes = vec![
        RowOutcome::Success {
            seq: 0,
            data: vec![Field { key: "k".to_string(), value: JsonValue::Str("v0".to_string()) }],
            dur_ms: 1,
        },
        RowOutcome::Error {
            seq: 1,
            code: "INVALID".to_string(),
            message: "bad value".to_string(),
            dur_ms: 2,
            data: Some(vec![Field { key: "detail".to_string(), value: JsonValue::Str("x".to_string()) }]),
        },
        RowOutcome::Success {
            seq: 2,
            data: vec![Field { key: "k".to_string(), value: JsonValue::Str("v2".to_string()) }],
            dur_ms: 3,
        },
    ];
    let atts = vec![AttemptOutcomes { attempt_id: "r_1".to_string(), state: AttemptState::Completed, outcomes }];
    let r = compute_resolution("e_1".to_string(), 3, &atts);
    assert_eq!(r.counts.resolved, 2, "seqs 0 and 2 resolved");
    assert_eq!(r.counts.failed_last, 1, "seq 1 is FailedLast");
    assert_eq!(r.counts.never_attempted, 0, "all 3 seqs ingested");
    assert_eq!(r.by_error_code.get("INVALID"), 1, "INVALID appears in by_error_code");
}

#[test]
fn counts_only_matches_full_computation_counts() {
    let atts = vec![completed("r_1", &[0], &[(1, "INVALID"), (2, "INVALID"), (3, "WORKER_CRASH")])];
    let full = compute_resolution("e_1".to_string(), 5, &atts);
    let counts = compute_resolution_counts_only("e_1".to_string(), 5, &atts);
    assert_eq!(counts.resolved, full.counts.resolved);
    assert_eq!(counts.failed_last, full.counts.failed_last);
    assert_eq!(counts.crashed_last, full.counts.crashed_last);
    assert_eq!(counts.cancelled_last, full.counts.cancelled_last);
    assert_eq!(counts.too_large, full.counts.too_large);
    assert_eq!(counts.never_attempted, full.counts.never_attempted);
}

#[test]
fn running_attempts_are_left_out() {
    let atts = vec![
        completed("r_1", &[0], &[]),
        attempt("r_2", AttemptState::Running, &[1], &[]),
    ];
    let r = compute_resolution("e_1".to_string(), 2, &atts);
    assert_eq!(r.counts.resolved, 1);
    assert_eq!(r.counts.never_attempted, 1);
    assert_eq!(r.skipped_running, vec!["r_2".to_string()]);
    assert_eq!(r.merged_from_attempts, vec!["r_1".to_string()]);
}

#[test]
fn later_failure_replaces_earlier_failure() {
    let atts = vec![
        completed("r_1", &[], &[(0, "INVALID")]),
        completed("r_2", &[], &[(0, "WORKER_CRASH")]),
    ];
    let r = compute_resolution("e_1".to_string(), 1, &atts);
    assert_eq!(r.counts.crashed_last, 1);
    assert_eq!(r.counts.failed_last, 0);
    assert_eq!(r.by_error_code.get("INVALID"), 0);
}

#[test]
fn classify_failure_by_code_table() {
    assert_eq!(classify_failure(Some("WORKER_CRASH")), ResolutionState::CrashedLast);
    assert_eq!(classify_failure(Some("WORKER_CRASH_UNSAFE")), ResolutionState::CrashedLast);
    assert_eq!(classify_failure(Some("CANCELLED")), ResolutionState::CancelledLast);
    assert_eq!(classify_failure(Some("ROW_TOO_LARGE")), ResolutionState::TooLarge);
    assert_eq!(classify_failure(Some("INVALID")), ResolutionState::FailedLast);
    assert_eq!(classify_failure(None), ResolutionState::FailedLast);
}

#[test]
fn error_tally_sums_to_failed_last() {
    let atts = vec![
        completed("r_1", &[], &[(0, "INVALID"), (1, "INVALID"), (2, "TIMEOUT"), (3, "WORKER_CRASH")]),
        completed("r_2", &[2], &[(1, "OTHER")]),
    ];
    let r = compute_resolution("e_1".to_string(), 5, &atts);
    let total: u64 = r.by_error_code.entries.iter().map(|(_, n)| *n).sum();
    assert_eq!(r.counts.failed_last, 2);
    assert_eq!(total, r.counts.failed_last);
    assert_eq!(r.by_error_code.get("INVALID"), 1);
    assert_eq!(r.by_error_code.get("OTHER"), 1);
    assert_eq!(r.by_error_code.get("TIMEOUT"), 0);
}

#[test]
fn running_attempt_in_the_middle_is_ignored() {
    let with_running = vec![
        completed("r_1", &[], &[(0, "INVALID")]),
        attempt("r_2", AttemptState::Running, &[0, 1], &[]),
        completed("r_3", &[], &[(1, "INVALID")]),
    ];
    let without = vec![completed("r_1", &[], &[(0, "INVALID")]), completed("r_3", &[], &[(1, "INVALID")])];
    let a = compute_resolution("e_1".to_string(), 2, &with_running);
    let b = compute_resolution("e_1".to_string(), 2, &without);
    assert_eq!(a.counts, b.counts);
    assert_eq!(a.counts.resolved, 0);
    assert_eq!(a.merged_from_attempts, b.merged_from_attempts);
    assert_eq!(a.skipped_running, vec!["r_2".to_string()]);
}

#[test]
fn apply_row_outcome_first_success_stays_canonical() {
    let mut per_seq = BTreeMap::new();
    let mut counts = ResolutionCounts {
        resolved: 0,
        failed_last: 0,
        crashed_last: 0,
        cancelled_last: 0,
        too_large: 0,
        never_attempted: 0,
    };
    let mut tally = CodeTally::new();
    apply_row_outcome(&failure(1, "E"), &"r1".to_string(), &mut per_seq, &mut counts, &mut tally);
    assert_eq!(per_seq[&1].state, ResolutionState::FailedLast);
    assert_eq!(counts.failed_last, 1);
    apply_row_outcome(&success(1), &"r2".to_string(), &mut per_seq, &mut counts, &mut tally);
    apply_row_outcome(&success(1), &"r3".to_string(), &mut per_seq, &mut counts, &mut tally);
    apply_row_outcome(&failure(1, "WORKER_CRASH"), &"r4".to_string(), &mut per_seq, &mut counts, &mut tally);
    let e = &per_seq[&1];
    assert_eq!(e.state, ResolutionState::Resolved);
    assert_eq!(e.canonical_success.as_ref().unwrap().attempt_id, "r2");
    assert_eq!(e.latest_failure.as_ref().unwrap().code.as_deref(), Some("E"));
    assert_eq!((counts.resolved, counts.failed_last), (1, 0));
    assert_eq!(per_seq.len(), 1);
}

#[test]
fn apply_row_outcome_classifies_failures_by_code() {
    let mut per_seq = BTreeMap::new();
    let mut counts = ResolutionCounts {
        resolved: 0,
        failed_last: 0,
        crashed_last: 0,
        cancelled_last: 0,
        too_large: 0,
        never_attempted: 0,
    };
    let mut tally = CodeTally::new();
    let cases = [
        (1, "WORKER_CRASH", ResolutionState::CrashedLast),
        (2, "WORKER_CRASH_UNSAFE", ResolutionState::CrashedLast),
        (3, "CANCELLED", ResolutionState::CancelledLast),
        (4, "ROW_TOO_LARGE", ResolutionState::TooLarge),
        (5, "VALIDATION", ResolutionState::FailedLast),
    ];
    for (seq, code, _) in cases {
        apply_row_outcome(&failure(seq, code), &"r1".to_string(), &mut per_seq, &mut counts, &mut tally);
    }
    for (seq, code, state) in cases {
        assert_eq!(per_seq[&seq].state, state);
        assert_eq!(per_seq[&seq].latest_failure.as_ref().unwrap().code.as_deref(), Some(code));
    }
    assert_eq!((counts.crashed_last, counts.cancelled_last, counts.too_large, counts.failed_last), (2, 1, 1, 1));
}
