use rowforge::codes::{ERR_BATCH_PROTOCOL_ERROR, ERR_PROTOCOL_ERROR, ERR_ROW_TOO_LARGE, ERR_WORKER_CRASH, ERR_WORKER_CRASH_UNSAFE};
use rowforge::outcome::{
    crash_message_text, synthesize_batch_protocol_error, synthesize_crash, synthesize_protocol_error,
    synthesize_row_too_large, BatchOutcome, RowOutcome,
};

fn error_parts(o: &RowOutcome) -> (u64, String, String) {
    match o {
        RowOutcome::Error { seq, code, message, dur_ms, data } => {
            assert_eq!(*dur_ms, 0);
            assert!(data.is_none());
            (*seq, code.clone(), message.clone())
        }
        _ => panic!("expected an error outcome"),
    }
}

#[test]
fn from_outcomes_derives_first_seq_and_seqs() {
    let outcomes = vec![
        RowOutcome::Success { seq: 7, data: Vec::new(), dur_ms: 0 },
        RowOutcome::Error { seq: 8, code: "E".into(), message: "m".into(), dur_ms: 0, data: None },
        RowOutcome::Crash { seq: 9, worker_id: 0, crash_at_seq: 9 },
    ];
    let bo = BatchOutcome::from_outcomes(outcomes);
    assert_eq!(bo.first_seq, 7);
    assert_eq!(bo.seqs, vec![7, 8, 9]);
    assert_eq!(bo.outcomes.len(), 3);
}

#[test]
fn crash_outcomes_by_idempotence() {
    assert_eq!(error_parts(&synthesize_crash(4, 2, true)), (4, ERR_WORKER_CRASH.to_string(), "worker 2 crashed at seq 4".to_string()));
    assert_eq!(error_parts(&synthesize_crash(4, 2, false)).1, ERR_WORKER_CRASH_UNSAFE);
    assert_eq!(crash_message_text(0, 18446744073709551615), "worker 0 crashed at seq 18446744073709551615");
}

#[test]
fn protocol_and_size_outcomes() {
    assert_eq!(
        error_parts(&synthesize_protocol_error(5)),
        (5, ERR_PROTOCOL_ERROR.to_string(), "worker returned unexpected message variant for row seq 5".to_string())
    );
    assert_eq!(
        error_parts(&synthesize_row_too_large(1, 5_000_000)),
        (1, ERR_ROW_TOO_LARGE.to_string(), "serialized row size 5000000 bytes exceeds hard cap 4194304 bytes".to_string())
    );
}

#[test]
fn batch_protocol_errors_cover_every_seq() {
    let out = synthesize_batch_protocol_error(&vec![3, 1, 2], "why");
    let parts: Vec<(u64, String, String)> = out.iter().map(error_parts).collect();
    assert_eq!(parts.len(), 3);
    assert_eq!(parts.iter().map(|p| p.0).collect::<Vec<_>>(), vec![3, 1, 2]);
    assert!(parts.iter().all(|p| p.1 == ERR_BATCH_PROTOCOL_ERROR && p.2 == "why"));
}
