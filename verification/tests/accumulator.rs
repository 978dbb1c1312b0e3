use rowforge::accumulator::{AccAction, Accumulator, Batch, RowJob};
use rowforge::outcome::{BatchOutcome, Field, JsonValue, RowOutcome};
use rowforge::protocol::RowMeta;
use rowforge::runtime::{Mode, Runtime};

fn row_runtime() -> Runtime {
    Runtime {
        mode: Mode::Row,
        batch_size: None,
        max_batch_bytes: 16 * 1024 * 1024,
        batch_bytes_target: 4 * 1024 * 1024,
        idempotent: None,
        stateful: false,
    }
}

fn batch_runtime(batch_size: u32) -> Runtime {
    Runtime {
        mode: Mode::Batch,
        batch_size: Some(batch_size),
        max_batch_bytes: 16 * 1024 * 1024,
        batch_bytes_target: 4 * 1024 * 1024,
        idempotent: Some(true),
        stateful: false,
    }
}

fn make_job(seq: u64, payload_bytes: usize) -> RowJob {
    RowJob {
        seq,
        data: vec![Field { key: "x".to_string(), value: JsonValue::Str("a".repeat(payload_bytes)) }],
        meta: RowMeta { dry_run: false, row_index: seq },
    }
}

/// The serialized size of the job's envelope `{"seq":..,"data":{"x":..},"meta":{..}}`.
fn envelope_size(job: &RowJob) -> u64 {
    let mut data = serde_json::Map::new();
    for f in &job.data {
        if let JsonValue::Str(s) = &f.value {
            data.insert(f.key.clone(), serde_json::Value::String(s.clone()));
        }
    }
    let mut meta = serde_json::Map::new();
    meta.insert("dry_run".to_string(), serde_json::Value::Bool(job.meta.dry_run));
    meta.insert("row_index".to_string(), serde_json::Value::from(job.meta.row_index));
    let mut env = serde_json::Map::new();
    env.insert("seq".to_string(), serde_json::Value::from(job.seq));
    env.insert("data".to_string(), serde_json::Value::Object(data));
    env.insert("meta".to_string(), serde_json::Value::Object(meta));
    serde_json::to_vec(&serde_json::Value::Object(env)).unwrap().len() as u64
}

/// Feeds the jobs in order, then ends the input; returns the batches and the
/// written outcome lines, as the driver would see them.
fn run(runtime: Runtime, jobs: Vec<RowJob>) -> (Vec<Batch>, Vec<BatchOutcome>) {
    let mut acc = Accumulator::new(&runtime);
    let mut batches = Vec::new();
    let mut written = Vec::new();
    for job in jobs {
        let size = envelope_size(&job);
        for a in acc.on_row(job, size) {
            match a {
                AccAction::Dispatch { batch, .. } => batches.push(batch),
                AccAction::Write { outcome } => written.push(outcome),
            }
        }
    }
    if let Some(b) = acc.finish() {
        batches.push(b);
    }
    (batches, written)
}

fn assert_aligned(batches: &[Batch]) {
    for b in batches {
        assert_eq!(b.rows.len(), b.seqs.len());
        assert_eq!(b.rows.iter().map(|r| r.seq).collect::<Vec<_>>(), b.seqs);
    }
}

#[test]
fn accumulator_basic_count_cap() {
    let (batches, written) = run(row_runtime(), (0..5).map(|s| make_job(s, 10)).collect());
    assert_eq!(batches.len(), 5, "expected 5 single-row batches");
    for (i, b) in batches.iter().enumerate() {
        assert_eq!(b.seqs, vec![i as u64]);
        assert_eq!(b.rows.len(), 1);
    }
    assert!(written.is_empty());
}

#[test]
fn accumulator_basic_batch_count_cap() {
    let (batches, written) = run(batch_runtime(3), (0..7).map(|s| make_job(s, 10)).collect());
    assert_eq!(batches.len(), 3, "expected 3 batches: [3, 3, 1]");
    assert_eq!(batches[0].seqs, vec![0, 1, 2]);
    assert_eq!(batches[1].seqs, vec![3, 4, 5]);
    assert_eq!(batches[2].seqs, vec![6]);
    assert_aligned(&batches);
    assert!(written.is_empty());
}

#[test]
fn accumulator_oversized_row_direct_jsonl() {
    let oversized_payload = 4 * 1024 * 1024 + 1024;
    let jobs = vec![make_job(0, oversized_payload), make_job(1, 10), make_job(2, 10)];
    let (batches, written) = run(batch_runtime(100), jobs);
    assert_eq!(batches.len(), 1, "expected 1 batch (2 normal rows)");
    assert_eq!(batches[0].seqs, vec![1, 2]);
    assert_eq!(written.len(), 1, "expected 1 jsonl line for oversized row");
    assert_eq!(written[0].seqs, vec![0]);
    match &written[0].outcomes[0] {
        RowOutcome::Error { code, .. } => assert_eq!(code, "ROW_TOO_LARGE"),
        other => panic!("expected Error outcome, got {:?}", other),
    }
}

#[test]
fn accumulator_hard_cap_flush() {
    let rt = Runtime {
        mode: Mode::Batch,
        batch_size: Some(100),
        max_batch_bytes: 6 * 1024 * 1024,
        batch_bytes_target: 8 * 1024 * 1024,
        idempotent: Some(true),
        stateful: false,
    };
    let row_payload = 3 * 1024 * 1024 - 200;
    let (batches, _) = run(rt, (0..4u64).map(|s| make_job(s, row_payload)).collect());
    assert!(batches.len() >= 2, "expected hard-cap-triggered early flush, got {} batches", batches.len());
    let total: usize = batches.iter().map(|b| b.rows.len()).sum();
    assert_eq!(total, 4);
    assert_aligned(&batches);
}

#[test]
fn accumulator_cancel_drops_pending_no_synth() {
    let mut acc = Accumulator::new(&batch_runtime(10));
    let mut dispatched = 0;
    for seq in 0..7u64 {
        let job = make_job(seq, 10);
        let size = envelope_size(&job);
        dispatched += acc.on_row(job, size).len();
    }
    assert_eq!(dispatched, 0, "expected no batches dispatched before cancel");
    assert_eq!(acc.drop_pending(), (0..7).collect::<Vec<u64>>());
    assert!(acc.finish().is_none(), "nothing is left to flush after the cancel");
}

#[test]
fn accumulator_eof_flushes_partial_batch() {
    let (batches, _) = run(batch_runtime(10), (0..4u64).map(|s| make_job(s, 10)).collect());
    assert_eq!(batches.len(), 1, "expected exactly 1 partial batch on EOF");
    assert_eq!(batches[0].seqs, vec![0, 1, 2, 3]);
    assert_eq!(batches[0].rows.len(), 4);
}

#[test]
fn accumulator_soft_cap_counts_downsized_batches() {
    let mut acc = Accumulator::new(&batch_runtime(100));
    let row_payload = 2 * 1024 * 1024 + 100;
    let mut sizes = Vec::new();
    for seq in 0..6u64 {
        let job = make_job(seq, row_payload);
        let size = envelope_size(&job);
        sizes.extend(acc.on_row(job, size).into_iter().filter_map(|a| match a {
            AccAction::Dispatch { batch, .. } => Some(batch.rows.len()),
            _ => None,
        }));
    }
    sizes.extend(acc.finish().map(|b| b.rows.len()));
    assert!(sizes.len() > 1);
    assert!(sizes.iter().all(|&n| n < 100));
    assert_eq!(sizes.iter().sum::<usize>(), 6);
    assert!(acc.downsized_batches() >= 1);
}
