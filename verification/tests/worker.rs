use rowforge::error::CoreError;
use rowforge::outcome::{Field, JsonValue, RowOutcome};
use rowforge::protocol::{BatchEntry, Inbound};
use rowforge::worker::{
    batch_mode_outcomes, batch_reply_outcomes, crash_all, recv_step, row_reply_outcome, startup_step,
    trim_line_end, worker_step, batch_event, launch_program, BatchEvent, BatchReply, WorkerLoop, HandshakeStep, RecvStep, RowReply, StartupEvent,
    StartupMessage,
};

fn kv(k: &str, v: &str) -> Vec<Field> {
    vec![Field { key: k.to_string(), value: JsonValue::Str(v.to_string()) }]
}

fn codes(out: &[RowOutcome]) -> Vec<(u64, String)> {
    out.iter()
        .map(|o| match o {
            RowOutcome::Success { seq, .. } => (*seq, "OK".to_string()),
            RowOutcome::Error { seq, code, .. } => (*seq, code.clone()),
            RowOutcome::Crash { seq, .. } => (*seq, "CRASH".to_string()),
        })
        .collect()
}

#[test]
fn trim_line_end_strips_newlines_then_carriage_returns() {
    assert_eq!(trim_line_end("abc\r\n"), "abc");
    assert_eq!(trim_line_end("abc\n\n"), "abc");
    assert_eq!(trim_line_end("abc\r\r\n"), "abc");
    assert_eq!(trim_line_end("abc\n\r"), "abc\n");
    assert_eq!(trim_line_end(" x "), " x ");
}

#[test]
fn handshake_steps() {
    assert!(matches!(startup_step(5000, StartupEvent::TimedOut), HandshakeStep::Fail(CoreError::StartupTimeout { timeout_ms: 5000 })));
    match startup_step(1, StartupEvent::Closed) {
        HandshakeStep::Fail(e) => assert_eq!(e.message(), "protocol: handler closed stdout before ready"),
        _ => panic!("expected a failure"),
    }
    assert!(matches!(startup_step(1, StartupEvent::Line { body: String::new(), message: None }), HandshakeStep::Skip));
    match startup_step(1, StartupEvent::Line { body: "booting".into(), message: None }) {
        HandshakeStep::Log(l) => assert_eq!(l, "booting"),
        _ => panic!("expected a log line"),
    }
    match startup_step(1, StartupEvent::Line { body: "{..}".into(), message: Some(StartupMessage::Ready { handler_version: "1.2".into() }) }) {
        HandshakeStep::Ready(v) => assert_eq!(v, "1.2"),
        _ => panic!("expected ready"),
    }
    match startup_step(1, StartupEvent::Line { body: "{..}".into(), message: Some(StartupMessage::Other { debug: "Result".into() }) }) {
        HandshakeStep::Fail(e) => assert_eq!(e.message(), "protocol: expected ready, got Result"),
        _ => panic!("expected a failure"),
    }
    match startup_step(1, StartupEvent::ReadFailed("broken pipe".into())) {
        HandshakeStep::Fail(e) => assert_eq!(e.message(), "io: broken pipe"),
        _ => panic!("expected a failure"),
    }
}

#[test]
fn recv_steps() {
    assert!(matches!(recv_step(String::new(), None, true), RecvStep::Skip));
    assert!(matches!(recv_step("noise".into(), None, false), RecvStep::Log(l) if l == "noise"));
    match recv_step("{}".into(), Some(Inbound::Ready { handler_version: "v".into() }), true) {
        RecvStep::Deliver { log, .. } => assert_eq!(log.as_deref(), Some("{}")),
        _ => panic!("expected delivery"),
    }
    match recv_step("{}".into(), Some(Inbound::Ready { handler_version: "v".into() }), false) {
        RecvStep::Deliver { log, .. } => assert!(log.is_none()),
        _ => panic!("expected delivery"),
    }
}

#[test]
fn worker_loop_row_mode_basic() {
    let o = row_reply_outcome(3, 0, true, RowReply::Message(Inbound::Result { seq: 3, data: kv("x", "y") }));
    assert!(matches!(o, RowOutcome::Success { seq: 3, dur_ms: 0, .. }));
}

#[test]
fn worker_loop_row_mode_error() {
    let o = row_reply_outcome(
        4,
        0,
        true,
        RowReply::Message(Inbound::Error { seq: 4, code: "BAD".into(), message: "m".into(), data: None }),
    );
    assert_eq!(codes(&[o]), vec![(4, "BAD".to_string())]);
}

#[test]
fn row_replies_that_are_not_answers() {
    let o = row_reply_outcome(5, 1, true, RowReply::Message(Inbound::Ready { handler_version: "v".into() }));
    assert_eq!(codes(&[o]), vec![(5, "ROW_PROTOCOL_ERROR".to_string())]);
    let o = row_reply_outcome(6, 1, true, RowReply::Closed);
    assert_eq!(codes(&[o]), vec![(6, "WORKER_CRASH".to_string())]);
    let o = row_reply_outcome(7, 1, false, RowReply::Failed);
    assert_eq!(codes(&[o]), vec![(7, "WORKER_CRASH_UNSAFE".to_string())]);
}

#[test]
fn worker_loop_batch_mode_basic() {
    let entries = vec![
        BatchEntry::Result { data: kv("a", "1") },
        BatchEntry::Error { code: "E".into(), message: "m".into(), data: None },
    ];
    let out = batch_reply_outcomes(&vec![10, 11], BatchReply::Results(entries)).unwrap();
    assert_eq!(codes(&out), vec![(10, "OK".to_string()), (11, "E".to_string())]);
}

#[test]
fn length_mismatch_yields_batch_protocol_error_per_row() {
    let out = batch_reply_outcomes(&vec![1, 2, 3], BatchReply::Results(vec![BatchEntry::Result { data: Vec::new() }])).unwrap();
    assert_eq!(codes(&out), vec![(1, "BATCH_PROTOCOL_ERROR".to_string()), (2, "BATCH_PROTOCOL_ERROR".to_string()), (3, "BATCH_PROTOCOL_ERROR".to_string())]);
    match &out[0] {
        RowOutcome::Error { message, .. } => assert_eq!(message, "batch_result length mismatch: expected 3, got 1"),
        _ => panic!(),
    }
}

#[test]
fn batch_replies_that_are_not_results() {
    let out = batch_reply_outcomes(&vec![1], BatchReply::Ready).unwrap();
    assert!(matches!(&out[0], RowOutcome::Error { message, .. } if message == "unexpected ready mid-run"));
    let out = batch_reply_outcomes(&vec![1], BatchReply::Other("Error { seq: 1 }".into())).unwrap();
    assert!(matches!(&out[0], RowOutcome::Error { message, .. } if message == "expected batch_result, got Error { seq: 1 }"));
    assert!(matches!(batch_reply_outcomes(&vec![1], BatchReply::Closed), Err(CoreError::HandlerExit { code: None })));
}

#[test]
fn batch_crash_idempotent_true_yields_worker_crash() {
    let out = batch_mode_outcomes(&vec![1, 2], 0, true, Err(CoreError::HandlerExit { code: None }));
    assert_eq!(codes(&out), vec![(1, "WORKER_CRASH".to_string()), (2, "WORKER_CRASH".to_string())]);
}

#[test]
fn batch_crash_idempotent_false_yields_worker_crash_unsafe() {
    let out = crash_all(&vec![8, 9], 2, false);
    assert_eq!(codes(&out), vec![(8, "WORKER_CRASH_UNSAFE".to_string()), (9, "WORKER_CRASH_UNSAFE".to_string())]);
    assert!(matches!(&out[0], RowOutcome::Error { message, .. } if message == "worker 2 crashed at seq 8"));
}

#[test]
fn worker_step_records_one_outcome_per_row() {
    let seqs = vec![4u64, 5, 6];
    let (out, stop) = worker_step(&seqs, 2, true, BatchEvent::SendFailed);
    assert!(stop);
    assert_eq!(out.iter().map(|o| o.seq()).collect::<Vec<_>>(), seqs);
    for o in &out {
        match o {
            RowOutcome::Error { code, message, .. } => {
                assert_eq!(code, "WORKER_CRASH");
                assert!(message.starts_with("worker 2 crashed at seq "));
            }
            _ => panic!("expected a crash"),
        }
    }
    let (out, stop) = worker_step(&seqs, 2, false, BatchEvent::Cancelled);
    assert!(stop);
    assert!(matches!(&out[0], RowOutcome::Error { code, .. } if code == "WORKER_CRASH_UNSAFE"));
    let (out, stop) = worker_step(&seqs, 2, true, BatchEvent::Batch(Err(CoreError::HandlerExit { code: None })));
    assert!(!stop);
    assert_eq!(out.len(), 3);
    let one = vec![9u64];
    let (out, stop) = worker_step(&one, 0, true, BatchEvent::Row(RowReply::Closed));
    assert!(!stop);
    assert_eq!(out.len(), 1);
    assert_eq!(out[0].seq(), 9);
}

#[test]
fn worker_loop_takes_nothing_once_cancelled_or_stopped() {
    let mut w = WorkerLoop::new();
    assert!(!w.take_next(true), "a cancelled run takes no batch");
    assert!(!w.take_next(false), "the loop stays ended");
    let mut w = WorkerLoop::new();
    assert!(w.take_next(false));
    let line = w.record(&vec![1, 2], 0, true, BatchEvent::Batch(Err(CoreError::HandlerExit { code: None })));
    assert_eq!(line.iter().map(|o| o.seq()).collect::<Vec<_>>(), vec![1, 2]);
    assert!(w.take_next(false), "a crashed batch does not end the loop");
    let line = w.record(&vec![3], 0, true, BatchEvent::SendFailed);
    assert_eq!(line.len(), 1);
    assert!(!w.take_next(false), "a failed send ends the loop");
}

#[test]
fn launch_program_is_the_first_word() {
    assert_eq!(launch_program(&vec!["python3".to_string(), "main.py".to_string()]).unwrap(), "python3");
    match launch_program(&Vec::new()) {
        Err(CoreError::Protocol(m)) => assert_eq!(m, "entry.cmd empty"),
        _ => panic!("an empty command is a protocol error"),
    }
}

#[test]
fn batch_event_aligns_the_reply_to_the_batch() {
    let ev = batch_event(&vec![5, 6], Ok(BatchReply::Results(vec![BatchEntry::Result { data: Vec::new() }])));
    match ev {
        BatchEvent::Batch(Ok(out)) => assert_eq!(codes(&out), vec![(5, "BATCH_PROTOCOL_ERROR".to_string()), (6, "BATCH_PROTOCOL_ERROR".to_string())]),
        _ => panic!("a reply is an aligned batch event"),
    }
    let ev = batch_event(&vec![5], Err(CoreError::Io("broken pipe".into())));
    assert!(matches!(ev, BatchEvent::Batch(Err(CoreError::Io(_)))));
    let mut w = WorkerLoop::new();
    assert!(w.take_next(false));
    let ev = batch_event(&vec![7, 8], Ok(BatchReply::Ready));
    let line = w.record(&vec![7, 8], 1, false, ev);
    assert_eq!(line.iter().map(|o| o.seq()).collect::<Vec<_>>(), vec![7, 8]);
}
