//! Per-row outcomes as they are appended to `outcomes.jsonl`, the outcomes the
//! pipeline synthesizes itself, and the statistics tallied from them.

use vstd::prelude::*;
use crate::codes::{ERR_BATCH_PROTOCOL_ERROR, ERR_PROTOCOL_ERROR, ERR_ROW_TOO_LARGE, ERR_WORKER_CRASH, ERR_WORKER_CRASH_UNSAFE};
use crate::text::{push_decimal, push_str, spec_decimal};

verus! {

/// A JSON value of a row's data object, as far as the logic reads it:
/// `null`, a string (its content), or any other value in its compact JSON text.
#[derive(Debug)]
pub enum JsonValue {
    Null,
    Str(String),
    /// A number, boolean, array or object, as compact JSON text.
    Encoded(String),
}

/// A JSON value by content.
pub enum JsonView {
    Null,
    Str(Seq<char>),
    Encoded(Seq<char>),
}

impl View for JsonValue {
    type V = JsonView;

    open spec fn view(&self) -> JsonView {
        match self {
            JsonValue::Null => JsonView::Null,
            JsonValue::Str(s) => JsonView::Str(s@),
            JsonValue::Encoded(t) => JsonView::Encoded(t@),
        }
    }
}

/// One key of a row's JSON object. A data object is a list of fields in
/// ascending key order, each key once.
#[derive(Debug)]
pub struct Field {
    pub key: String,
    pub value: JsonValue,
}

/// The outcome of one row in one attempt.
#[allow(inconsistent_fields)]
#[derive(Debug)]
pub enum RowOutcome {
    Success { seq: u64, data: Vec<Field>, dur_ms: u64 },
    Error { seq: u64, code: String, message: String, dur_ms: u64, data: Option<Vec<Field>> },
    Crash { seq: u64, worker_id: u32, crash_at_seq: u64 },
}

impl RowOutcome {
    pub open spec fn spec_seq(&self) -> u64 {
        match *self {
            RowOutcome::Success { seq, .. } => seq,
            RowOutcome::Error { seq, .. } => seq,
            RowOutcome::Crash { seq, .. } => seq,
        }
    }

    /// The seq this outcome is about.
    pub fn seq(&self) -> (s: u64)
        ensures
            s == self.spec_seq(),
    {
        match self {
            RowOutcome::Success { seq, .. } => *seq,
            RowOutcome::Error { seq, .. } => *seq,
            RowOutcome::Crash { seq, .. } => *seq,
        }
    }
}

/// One line of `outcomes.jsonl`: the outcomes of one dispatched batch.
#[derive(Debug)]
pub struct BatchOutcome {
    pub first_seq: u64,
    pub seqs: Vec<u64>,
    pub outcomes: Vec<RowOutcome>,
}

impl BatchOutcome {
    /// Wraps a non-empty list of outcomes; `seqs` lists their seqs in order
    /// and `first_seq` is the first of them.
    pub fn from_outcomes(outcomes: Vec<RowOutcome>) -> (b: Self)
        requires
            outcomes@.len() > 0,
        ensures
            b.outcomes@ == outcomes@,
            b.seqs@ == outcomes@.map_values(|o: RowOutcome| o.spec_seq()),
            b.first_seq == outcomes@[0].spec_seq(),
    {
        let mut seqs: Vec<u64> = Vec::new();
        let mut i: usize = 0;
        while i < outcomes.len()
            invariant
                i <= outcomes@.len(),
                seqs@ == outcomes@.take(i as int).map_values(|o: RowOutcome| o.spec_seq()),
            decreases outcomes@.len() - i,
        {
            seqs.push(outcomes[i].seq());
            proof {
                assert(outcomes@.take(i + 1) == outcomes@.take(i as int).push(outcomes@[i as int]));
            }
            i = i + 1;
        }
        proof { assert(outcomes@.take(outcomes@.len() as int) == outcomes@); }
        let first_seq = seqs[0];
        BatchOutcome { first_seq, seqs, outcomes }
    }
}

/// Whether `o` is an `Error` outcome with exactly these seq, code and message,
/// no data and a zero duration.
pub open spec fn is_error_outcome(o: RowOutcome, seq: u64, code: Seq<char>, message: Seq<char>) -> bool {
    match o {
        RowOutcome::Error { seq: s, code: c, message: m, dur_ms, data } =>
            s == seq && c@ == code && m@ == message && dur_ms == 0 && data is None,
        _ => false,
    }
}

pub open spec fn crash_message(worker_id: u32, seq: u64) -> Seq<char> {
    "worker "@ + spec_decimal(worker_id as nat) + " crashed at seq "@ + spec_decimal(seq as nat)
}

/// The code recorded for a row whose worker died: `WORKER_CRASH` when the
/// handler may be re-run, `WORKER_CRASH_UNSAFE` otherwise.
pub open spec fn crash_code(idempotent: bool) -> Seq<char> {
    if idempotent { ERR_WORKER_CRASH@ } else { ERR_WORKER_CRASH_UNSAFE@ }
}

/// "worker W crashed at seq S".
pub fn crash_message_text(worker_id: u32, seq: u64) -> (m: String)
    ensures
        m@ == crash_message(worker_id, seq),
{
    let mut m = "worker ".to_string();
    push_decimal(&mut m, worker_id as u64);
    push_str(&mut m, " crashed at seq ");
    push_decimal(&mut m, seq);
    m
}

/// The outcome recorded for a row whose worker crashed (or hung past a cancel)
/// while the row was in flight.
pub fn synthesize_crash(seq: u64, worker_id: u32, idempotent: bool) -> (o: RowOutcome)
    ensures
        is_error_outcome(o, seq, crash_code(idempotent), crash_message(worker_id, seq)),
{
    let code = if idempotent { ERR_WORKER_CRASH.to_string() } else { ERR_WORKER_CRASH_UNSAFE.to_string() };
    RowOutcome::Error { seq, code, message: crash_message_text(worker_id, seq), data: None, dur_ms: 0 }
}

pub open spec fn protocol_error_message(seq: u64) -> Seq<char> {
    "worker returned unexpected message variant for row seq "@ + spec_decimal(seq as nat)
}

/// The outcome recorded when the handler answers a row with a message that is
/// neither `result` nor `error`.
pub fn synthesize_protocol_error(seq: u64) -> (o: RowOutcome)
    ensures
        is_error_outcome(o, seq, ERR_PROTOCOL_ERROR@, protocol_error_message(seq)),
{
    let mut m = "worker returned unexpected message variant for row seq ".to_string();
    push_decimal(&mut m, seq);
    RowOutcome::Error { seq, code: ERR_PROTOCOL_ERROR.to_string(), message: m, data: None, dur_ms: 0 }
}

pub open spec fn too_large_message(row_bytes: u64) -> Seq<char> {
    "serialized row size "@ + spec_decimal(row_bytes as nat) + " bytes exceeds hard cap 4194304 bytes"@
}

/// The outcome recorded for a row whose serialized envelope exceeds the
/// per-row hard cap; such a row never reaches a worker.
pub fn synthesize_row_too_large(seq: u64, row_bytes: u64) -> (o: RowOutcome)
    ensures
        is_error_outcome(o, seq, ERR_ROW_TOO_LARGE@, too_large_message(row_bytes)),
{
    let mut m = "serialized row size ".to_string();
    push_decimal(&mut m, row_bytes);
    push_str(&mut m, " bytes exceeds hard cap 4194304 bytes");
    RowOutcome::Error { seq, code: ERR_ROW_TOO_LARGE.to_string(), message: m, data: None, dur_ms: 0 }
}

/// One `BATCH_PROTOCOL_ERROR` outcome per expected seq, all carrying `reason`.
pub fn synthesize_batch_protocol_error(expected_seqs: &Vec<u64>, reason: &str) -> (out: Vec<RowOutcome>)
    ensures
        out@.len() == expected_seqs@.len(),
        forall|i: int| 0 <= i < out@.len() ==>
            is_error_outcome(#[trigger] out@[i], expected_seqs@[i], ERR_BATCH_PROTOCOL_ERROR@, reason@),
{
    let mut out: Vec<RowOutcome> = Vec::new();
    let mut i: usize = 0;
    while i < expected_seqs.len()
        invariant
            i <= expected_seqs@.len(),
            out@.len() == i,
            forall|j: int| 0 <= j < i ==>
                is_error_outcome(#[trigger] out@[j], expected_seqs@[j], ERR_BATCH_PROTOCOL_ERROR@, reason@),
        decreases expected_seqs@.len() - i,
    {
        out.push(RowOutcome::Error {
            seq: expected_seqs[i],
            code: ERR_BATCH_PROTOCOL_ERROR.to_string(),
            message: reason.to_string(),
            dur_ms: 0,
            data: None,
        });
        i = i + 1;
    }
    out
}

} // verus!
