//! What a worker decides from what its handler process says: the startup
//! handshake, the reply to one row, and the reply to one batch. The process
//! itself (spawning it, writing its stdin, reading its stdout) lives with the
//! caller, which hands each line or reply here and acts on the answer.

use vstd::prelude::*;
use crate::codes::ERR_BATCH_PROTOCOL_ERROR;
use crate::error::CoreError;
use crate::outcome::{
    crash_code, crash_message, is_error_outcome, synthesize_batch_protocol_error, synthesize_crash,
    synthesize_protocol_error, protocol_error_message, RowOutcome,
};
use crate::protocol::{BatchEntry, Inbound};
use crate::text::{chars_of, push_decimal, push_str, spec_decimal, string_of};
use crate::codes::ERR_PROTOCOL_ERROR;

verus! {

/// `s` without any trailing `c` characters.
pub open spec fn strip_trailing(s: Seq<char>, c: char) -> Seq<char>
    decreases s.len(),
{
    if s.len() > 0 && s.last() == c {
        strip_trailing(s.drop_last(), c)
    } else {
        s
    }
}

/// A line as read from the handler's stdout with its line ending removed:
/// trailing `'\n'`s, then trailing `'\r'`s.
pub open spec fn line_body(s: Seq<char>) -> Seq<char> {
    strip_trailing(strip_trailing(s, '\n'), '\r')
}

pub fn strip_trailing_len(s: &Vec<char>, n: usize, c: char) -> (k: usize)
    requires
        n <= s@.len(),
    ensures
        k <= n,
        s@.take(k as int) == strip_trailing(s@.take(n as int), c),
{
    let mut k: usize = n;
    while k > 0 && s[k - 1] == c
        invariant
            k <= n <= s@.len(),
            strip_trailing(s@.take(k as int), c) == strip_trailing(s@.take(n as int), c),
        decreases k,
    {
        proof {
            assert(s@.take(k as int).drop_last() =~= s@.take(k - 1));
        }
        k = k - 1;
    }
    proof {
        if k > 0 {
            assert(s@.take(k as int).last() == s@[k - 1]);
        }
    }
    k
}

/// The line with its trailing `'\n'`s and then its trailing `'\r'`s removed.
pub fn trim_line_end(line: &str) -> (t: String)
    ensures
        t@ == line_body(line@),
{
    let cs = chars_of(line);
    let k1 = strip_trailing_len(&cs, cs.len(), '\n');
    let k2 = strip_trailing_len(&cs, k1, '\r');
    proof {
        assert(cs@.take(cs@.len() as int) =~= cs@);
    }
    let mut out: Vec<char> = Vec::new();
    let mut i: usize = 0;
    while i < k2
        invariant
            i <= k2 <= cs@.len(),
            out@ == cs@.take(i as int),
        decreases k2 - i,
    {
        out.push(cs[i]);
        proof { assert(cs@.take(i + 1) =~= cs@.take(i as int).push(cs@[i as int])); }
        i = i + 1;
    }
    string_of(&out)
}

// ---------------------------------------------------------------------------
// Startup handshake
// ---------------------------------------------------------------------------

/// What one read from the handler's stdout gave during startup.
pub enum StartupEvent {
    /// The startup timeout passed before a line arrived.
    TimedOut,
    /// Reading failed with this I/O error text.
    ReadFailed(String),
    /// The handler closed its stdout.
    Closed,
    /// A line arrived (line ending already removed), with what it parsed as:
    /// `None` when it is not a protocol message.
    Line { body: String, message: Option<StartupMessage> },
}

/// A protocol message seen during startup.
pub enum StartupMessage {
    Ready { handler_version: String },
    /// Any other message, in its debug rendering.
    Other { debug: String },
}

/// What the worker does next during startup.
pub enum HandshakeStep {
    /// Keep reading.
    Skip,
    /// The handshake is done; the handler reported this version.
    Ready(String),
    /// A non-protocol line: keep it as a boot log line and keep reading.
    Log(String),
    /// Startup failed.
    Fail(CoreError),
}

/// Whether `e` is a protocol error with this text.
pub open spec fn is_protocol_error(e: CoreError, text: Seq<char>) -> bool {
    e matches CoreError::Protocol(m) && m@ == text
}

/// The step that follows a startup event: a timeout, a read error or a
/// closed stdout fail the startup; an empty line is skipped; `ready` ends the
/// handshake; any other protocol message fails it; any other line is a boot
/// log line.
pub open spec fn startup_step_is(timeout_ms: u64, ev: StartupEvent, step: HandshakeStep) -> bool {
    match ev {
        StartupEvent::TimedOut => step == HandshakeStep::Fail(CoreError::StartupTimeout { timeout_ms }),
        StartupEvent::ReadFailed(m) => step == HandshakeStep::Fail(CoreError::Io(m)),
        StartupEvent::Closed =>
            step matches HandshakeStep::Fail(e) && is_protocol_error(e, "handler closed stdout before ready"@),
        StartupEvent::Line { body, message } =>
            if body@.len() == 0 {
                step is Skip
            } else {
                match message {
                    Some(StartupMessage::Ready { handler_version }) => step == HandshakeStep::Ready(handler_version),
                    Some(StartupMessage::Other { debug }) =>
                        step matches HandshakeStep::Fail(e) && is_protocol_error(e, "expected ready, got "@ + debug@),
                    None => step == HandshakeStep::Log(body),
                }
            },
    }
}

/// Decides what a worker does with one read during its startup handshake.
pub fn startup_step(timeout_ms: u64, ev: StartupEvent) -> (step: HandshakeStep)
    ensures
        startup_step_is(timeout_ms, ev, step),
{
    match ev {
        StartupEvent::TimedOut => HandshakeStep::Fail(CoreError::StartupTimeout { timeout_ms }),
        StartupEvent::ReadFailed(m) => HandshakeStep::Fail(CoreError::Io(m)),
        StartupEvent::Closed => {
            let m = "handler closed stdout before ready".to_string();
            proof { reveal_strlit("handler closed stdout before ready"); }
            HandshakeStep::Fail(CoreError::Protocol(m))
        },
        StartupEvent::Line { body, message } => {
            if body.as_str().is_empty() {
                return HandshakeStep::Skip;
            }
            match message {
                Some(StartupMessage::Ready { handler_version }) => HandshakeStep::Ready(handler_version),
                Some(StartupMessage::Other { debug }) => {
                    let mut m = "expected ready, got ".to_string();
                    push_str(&mut m, debug.as_str());
                    HandshakeStep::Fail(CoreError::Protocol(m))
                },
                None => HandshakeStep::Log(body),
            }
        },
    }
}

// ---------------------------------------------------------------------------
// Steady-state reads
// ---------------------------------------------------------------------------

/// What the worker does with one line read from its handler's stdout.
pub enum RecvStep {
    /// An empty line: keep reading.
    Skip,
    /// A protocol message: hand it on; `log` holds the line when raw protocol
    /// lines are also captured to the handler log.
    Deliver { message: Inbound, log: Option<String> },
    /// A line that is not a protocol message: it goes to the handler log, and
    /// reading goes on.
    Log(String),
}

pub open spec fn recv_step_is(body: String, message: Option<Inbound>, capture_raw: bool, st: RecvStep) -> bool {
    if body@.len() == 0 {
        st is Skip
    } else {
        match message {
            Some(m) => st == RecvStep::Deliver { message: m, log: if capture_raw { Some(body) } else { None } },
            None => st == RecvStep::Log(body),
        }
    }
}

/// Decides what a worker does with one stdout line (line ending removed),
/// given what it parsed as.
pub fn recv_step(body: String, message: Option<Inbound>, capture_raw: bool) -> (st: RecvStep)
    ensures
        recv_step_is(body, message, capture_raw, st),
{
    if body.as_str().is_empty() {
        return RecvStep::Skip;
    }
    match message {
        Some(m) => {
            let log = if capture_raw { Some(body) } else { None };
            RecvStep::Deliver { message: m, log }
        },
        None => RecvStep::Log(body),
    }
}

// ---------------------------------------------------------------------------
// Replies to rows and batches
// ---------------------------------------------------------------------------

/// What came back after a row was sent.
pub enum RowReply {
    /// A protocol message.
    Message(Inbound),
    /// The handler closed its stdout.
    Closed,
    /// Reading failed.
    Failed,
}

/// The outcome a row-mode worker records for the reply to row `seq`: the
/// handler's `result` or `error` as a success or failure, a crash when the
/// handler went away, a protocol error for any other message.
pub open spec fn row_reply_outcome_is(seq: u64, worker_id: u32, idempotent: bool, reply: RowReply, o: RowOutcome) -> bool {
    match reply {
        RowReply::Message(Inbound::Result { data, .. }) => o == RowOutcome::Success { seq, data, dur_ms: 0 },
        RowReply::Message(Inbound::Error { code, message, data, .. }) =>
            o == RowOutcome::Error { seq, code, message, dur_ms: 0, data },
        RowReply::Message(_) => is_error_outcome(o, seq, ERR_PROTOCOL_ERROR@, protocol_error_message(seq)),
        RowReply::Closed | RowReply::Failed =>
            is_error_outcome(o, seq, crash_code(idempotent), crash_message(worker_id, seq)),
    }
}

/// The outcome of row `seq` from its reply.
pub fn row_reply_outcome(seq: u64, worker_id: u32, idempotent: bool, reply: RowReply) -> (o: RowOutcome)
    ensures
        row_reply_outcome_is(seq, worker_id, idempotent, reply, o),
        o.spec_seq() == seq,
{
    match reply {
        RowReply::Message(Inbound::Result { data, .. }) => RowOutcome::Success { seq, data, dur_ms: 0 },
        RowReply::Message(Inbound::Error { code, message, data, .. }) =>
            RowOutcome::Error { seq, code, message, dur_ms: 0, data },
        RowReply::Message(_) => synthesize_protocol_error(seq),
        RowReply::Closed | RowReply::Failed => synthesize_crash(seq, worker_id, idempotent),
    }
}

/// The seqs of a list of outcomes, in order.
pub open spec fn outcome_seqs(outs: Seq<RowOutcome>) -> Seq<u64> {
    outs.map_values(|o: RowOutcome| o.spec_seq())
}

/// A crash outcome for every seq of a batch, in order.
pub fn crash_all(seqs: &Vec<u64>, worker_id: u32, idempotent: bool) -> (out: Vec<RowOutcome>)
    ensures
        out@.len() == seqs@.len(),
        forall|i: int| 0 <= i < out@.len() ==>
            is_error_outcome(#[trigger] out@[i], seqs@[i], crash_code(idempotent), crash_message(worker_id, seqs@[i])),
        outcome_seqs(out@) == seqs@,
{
    let mut out: Vec<RowOutcome> = Vec::new();
    let mut i: usize = 0;
    while i < seqs.len()
        invariant
            i <= seqs@.len(),
            out@.len() == i,
            forall|j: int| 0 <= j < i ==>
                is_error_outcome(#[trigger] out@[j], seqs@[j], crash_code(idempotent), crash_message(worker_id, seqs@[j])),
        decreases seqs@.len() - i,
    {
        out.push(synthesize_crash(seqs[i], worker_id, idempotent));
        i = i + 1;
    }
    proof {
        assert(outcome_seqs(out@) =~= seqs@);
    }
    out
}

/// What came back after a batch was sent.
pub enum BatchReply {
    /// The handler closed its stdout.
    Closed,
    /// A `batch_result` with these entries.
    Results(Vec<BatchEntry>),
    /// A `ready` message.
    Ready,
    /// Any other message, in its debug rendering.
    Other(String),
}

/// The outcome of one `batch_result` entry for row `seq`.
pub open spec fn entry_outcome(seq: u64, e: BatchEntry) -> RowOutcome {
    match e {
        BatchEntry::Result { data } => RowOutcome::Success { seq, data, dur_ms: 0 },
        BatchEntry::Error { code, message, data } => RowOutcome::Error { seq, code, message, dur_ms: 0, data },
    }
}

/// Every outcome is a `BATCH_PROTOCOL_ERROR` for the matching expected seq,
/// carrying `reason`.
pub open spec fn all_batch_protocol_errors(expected: Seq<u64>, out: Seq<RowOutcome>, reason: Seq<char>) -> bool {
    out.len() == expected.len() && forall|i: int| 0 <= i < out.len() ==>
        is_error_outcome(#[trigger] out[i], expected[i], ERR_BATCH_PROTOCOL_ERROR@, reason)
}

pub open spec fn mismatch_reason(expected: nat, got: nat) -> Seq<char> {
    "batch_result length mismatch: expected "@ + spec_decimal(expected) + ", got "@ + spec_decimal(got)
}

/// The outcomes of a batch from the reply to it: a closed stdout is an error
/// (the handler exited); a `batch_result` with one entry per expected row is
/// matched to the rows by position; anything else makes every row a
/// `BATCH_PROTOCOL_ERROR` with the reason.
pub open spec fn batch_reply_is(expected: Seq<u64>, reply: BatchReply, r: Result<Vec<RowOutcome>, CoreError>) -> bool {
    match reply {
        BatchReply::Closed => r == Err::<Vec<RowOutcome>, CoreError>(CoreError::HandlerExit { code: None }),
        BatchReply::Ready => r matches Ok(out) && all_batch_protocol_errors(expected, out@, "unexpected ready mid-run"@),
        BatchReply::Other(d) =>
            r matches Ok(out) && all_batch_protocol_errors(expected, out@, "expected batch_result, got "@ + d@),
        BatchReply::Results(entries) =>
            if entries@.len() != expected.len() {
                r matches Ok(out) && all_batch_protocol_errors(
                    expected, out@, mismatch_reason(expected.len(), entries@.len()))
            } else {
                r matches Ok(out) && out@.len() == expected.len()
                    && forall|i: int| 0 <= i < out@.len() ==> #[trigger] out@[i] == entry_outcome(expected[i], entries@[i])
            },
    }
}

/// Aligns the reply to a batch with the seqs that were sent.
pub fn batch_reply_outcomes(expected_seqs: &Vec<u64>, reply: BatchReply) -> (r: Result<Vec<RowOutcome>, CoreError>)
    ensures
        batch_reply_is(expected_seqs@, reply, r),
        r matches Ok(out) ==> outcome_seqs(out@) == expected_seqs@,
{
    match reply {
        BatchReply::Closed => Err(CoreError::HandlerExit { code: None }),
        BatchReply::Ready => {
            proof { reveal_strlit("unexpected ready mid-run"); }
            let out = synthesize_batch_protocol_error(expected_seqs, "unexpected ready mid-run");
            proof { assert(outcome_seqs(out@) =~= expected_seqs@); }
            Ok(out)
        },
        BatchReply::Other(d) => {
            let mut reason = "expected batch_result, got ".to_string();
            push_str(&mut reason, d.as_str());
            let out = synthesize_batch_protocol_error(expected_seqs, reason.as_str());
            proof { assert(outcome_seqs(out@) =~= expected_seqs@); }
            Ok(out)
        },
        BatchReply::Results(entries) => {
            if entries.len() != expected_seqs.len() {
                let mut reason = "batch_result length mismatch: expected ".to_string();
                push_decimal(&mut reason, expected_seqs.len() as u64);
                push_str(&mut reason, ", got ");
                push_decimal(&mut reason, entries.len() as u64);
                let out = synthesize_batch_protocol_error(expected_seqs, reason.as_str());
                proof { assert(outcome_seqs(out@) =~= expected_seqs@); }
                return Ok(out);
            }
            let ghost es = entries@;
            let mut entries = entries;
            let mut rev: Vec<RowOutcome> = Vec::new();
            let n = entries.len();
            // Entries are taken from the back; `rev` holds the outcomes of the
            // last ones, last first.
            while entries.len() > 0
                invariant
                    n == es.len(),
                    n == expected_seqs@.len(),
                    entries@ == es.take(entries@.len() as int),
                    rev@.len() + entries@.len() == n,
                    forall|j: int| 0 <= j < rev@.len() ==>
                        #[trigger] rev@[j] == entry_outcome(expected_seqs@[n - 1 - j], es[n - 1 - j]),
                decreases entries@.len(),
            {
                let k = entries.len() - 1;
                let e = entries.pop().unwrap();
                proof { assert(e == es[k as int]); }
                let seq = expected_seqs[k];
                let o = match e {
                    BatchEntry::Result { data } => RowOutcome::Success { seq, data, dur_ms: 0 },
                    BatchEntry::Error { code, message, data } => RowOutcome::Error { seq, code, message, dur_ms: 0, data },
                };
                rev.push(o);
                proof { assert(entries@ =~= es.take(entries@.len() as int)); }
            }
            let mut out: Vec<RowOutcome> = Vec::new();
            while rev.len() > 0
                invariant
                    n == es.len(),
                    n == expected_seqs@.len(),
                    rev@.len() + out@.len() == n,
                    forall|j: int| 0 <= j < rev@.len() ==>
                        #[trigger] rev@[j] == entry_outcome(expected_seqs@[n - 1 - j], es[n - 1 - j]),
                    forall|i: int| 0 <= i < out@.len() ==>
                        #[trigger] out@[i] == entry_outcome(expected_seqs@[i], es[i]),
                decreases rev@.len(),
            {
                let o = rev.pop().unwrap();
                out.push(o);
            }
            proof {
                assert(outcome_seqs(out@) =~= expected_seqs@) by {
                    assert forall|i: int| 0 <= i < out@.len() implies #[trigger] outcome_seqs(out@)[i] == expected_seqs@[i] by {
                        assert(out@[i] == entry_outcome(expected_seqs@[i], es[i]));
                    }
                }
            }
            Ok(out)
        },
    }
}

/// The outcomes a batch-mode worker records once the reply is in: the aligned
/// reply, or a crash for every row when the handler went away.
pub fn batch_mode_outcomes(seqs: &Vec<u64>, worker_id: u32, idempotent: bool, r: Result<Vec<RowOutcome>, CoreError>) -> (out: Vec<RowOutcome>)
    ensures
        r matches Ok(o) ==> out == o,
        r is Err ==> out@.len() == seqs@.len() && forall|i: int| 0 <= i < out@.len() ==>
            is_error_outcome(#[trigger] out@[i], seqs@[i], crash_code(idempotent), crash_message(worker_id, seqs@[i])),
        (r is Err || (r matches Ok(o) && outcome_seqs(o@) == seqs@)) ==> outcome_seqs(out@) == seqs@,
{
    match r {
        Ok(o) => o,
        Err(_) => crash_all(seqs, worker_id, idempotent),
    }
}


// ---------------------------------------------------------------------------
// One batch, start to end
// ---------------------------------------------------------------------------

/// What happened to a batch a worker took from the queue.
pub enum BatchEvent {
    /// Writing the batch (or its row) to the handler failed.
    SendFailed,
    /// The run was cancelled while the reply was awaited.
    Cancelled,
    /// Row mode: the reply to the batch's single row.
    Row(RowReply),
    /// Batch mode: the reply aligned to the batch, or the error that ended
    /// reading it.
    Batch(Result<Vec<RowOutcome>, CoreError>),
}

/// What a worker records for a batch, and whether it stops afterwards: when
/// the batch could not be sent, or the run was cancelled before the reply,
/// every row is recorded as a crash and the worker stops; otherwise the
/// reply's outcomes are recorded and the worker takes the next batch.
pub open spec fn worker_step_is(seqs: Seq<u64>, worker_id: u32, idempotent: bool, ev: BatchEvent,
    out: Seq<RowOutcome>, stop: bool) -> bool
{
    match ev {
        BatchEvent::SendFailed | BatchEvent::Cancelled => stop && out.len() == seqs.len()
            && forall|i: int| 0 <= i < out.len() ==>
                is_error_outcome(#[trigger] out[i], seqs[i], crash_code(idempotent), crash_message(worker_id, seqs[i])),
        BatchEvent::Row(reply) => !stop && out.len() == 1
            && row_reply_outcome_is(seqs[0], worker_id, idempotent, reply, out[0]),
        BatchEvent::Batch(r) => !stop && match r {
            Ok(o) => out == o@,
            Err(_) => out.len() == seqs.len() && forall|i: int| 0 <= i < out.len() ==>
                is_error_outcome(#[trigger] out[i], seqs[i], crash_code(idempotent), crash_message(worker_id, seqs[i])),
        },
    }
}

/// Whether the event is one that keeps a batch's rows aligned: a row reply
/// to a single-row batch, or a batch reply aligned to the batch.
pub open spec fn event_fits(seqs: Seq<u64>, ev: BatchEvent) -> bool {
    match ev {
        BatchEvent::Row(_) => seqs.len() == 1,
        BatchEvent::Batch(Ok(o)) => outcome_seqs(o@) == seqs,
        _ => true,
    }
}

/// Decides what a worker records for a batch it took, and whether it stops.
/// Whatever the handler did, a batch whose events fit it is recorded with
/// exactly one outcome per row, in the batch's order.
pub fn worker_step(seqs: &Vec<u64>, worker_id: u32, idempotent: bool, ev: BatchEvent) -> (r: (Vec<RowOutcome>, bool))
    requires
        seqs@.len() > 0,
    ensures
        worker_step_is(seqs@, worker_id, idempotent, ev, r.0@, r.1),
        event_fits(seqs@, ev) ==> outcome_seqs(r.0@) == seqs@,
{
    match ev {
        BatchEvent::SendFailed | BatchEvent::Cancelled => (crash_all(seqs, worker_id, idempotent), true),
        BatchEvent::Row(reply) => {
            let o = row_reply_outcome(seqs[0], worker_id, idempotent, reply);
            let mut out: Vec<RowOutcome> = Vec::new();
            out.push(o);
            proof {
                if seqs@.len() == 1 {
                    assert(outcome_seqs(out@) =~= seqs@);
                }
            }
            (out, false)
        },
        BatchEvent::Batch(r) => (batch_mode_outcomes(seqs, worker_id, idempotent, r), false),
    }
}


// ---------------------------------------------------------------------------
// The loop over batches
// ---------------------------------------------------------------------------

/// A worker's loop over the batch queue: which batches it took, and the
/// outcome line it recorded for each.
pub struct WorkerLoop {
    stopped: bool,
    pulled: Ghost<Seq<Seq<u64>>>,
    lines: Ghost<Seq<Seq<RowOutcome>>>,
}

impl WorkerLoop {
    /// The seqs of the batches taken, in order.
    pub closed spec fn pulled(&self) -> Seq<Seq<u64>> {
        self.pulled@
    }

    /// The outcome lines recorded, one per batch taken, in order.
    pub closed spec fn lines(&self) -> Seq<Seq<RowOutcome>> {
        self.lines@
    }

    /// Whether the loop has ended.
    pub closed spec fn stopped(&self) -> bool {
        self.stopped
    }

    /// One line per batch taken, and each line has one outcome per row of
    /// its batch, in the batch's order.
    pub open spec fn wf(&self) -> bool {
        &&& self.lines().len() == self.pulled().len()
        &&& forall|i: int| 0 <= i < self.pulled().len() ==>
            outcome_seqs(#[trigger] self.lines()[i]) == self.pulled()[i]
    }

    /// A loop that has taken nothing.
    pub fn new() -> (w: Self)
        ensures
            w.wf(),
            !w.stopped(),
            w.pulled() == Seq::<Seq<u64>>::empty(),
            w.lines() == Seq::<Seq<RowOutcome>>::empty(),
    {
        WorkerLoop { stopped: false, pulled: Ghost(Seq::empty()), lines: Ghost(Seq::empty()) }
    }

    /// Whether to take the next batch: never once the loop has ended or the
    /// run is cancelled (which ends the loop).
    pub fn take_next(&mut self, cancelled: bool) -> (b: bool)
        ensures
            b == (!old(self).stopped() && !cancelled),
            final(self).stopped() == !b,
            final(self).pulled() == old(self).pulled(),
            final(self).lines() == old(self).lines(),
    {
        if self.stopped || cancelled {
            self.stopped = true;
            false
        } else {
            true
        }
    }

    /// The queue is closed: the loop ends.
    pub fn close(&mut self)
        ensures
            final(self).stopped(),
            final(self).pulled() == old(self).pulled(),
            final(self).lines() == old(self).lines(),
    {
        self.stopped = true;
    }

    /// Records the batch just taken and what happened to it; returns its
    /// outcome line (see `worker_step`). The loop ends after a batch that
    /// could not be sent or was cancelled. In row mode a batch holds one
    /// row; in batch mode the event comes from `batch_event`.
    pub fn record(&mut self, seqs: &Vec<u64>, worker_id: u32, idempotent: bool, ev: BatchEvent) -> (out: Vec<RowOutcome>)
        requires
            old(self).wf(),
            !old(self).stopped(),
            seqs@.len() > 0,
            event_fits(seqs@, ev),
        ensures
            final(self).wf(),
            worker_step_is(seqs@, worker_id, idempotent, ev, out@, final(self).stopped()),
            outcome_seqs(out@) == seqs@,
            final(self).pulled() == old(self).pulled().push(seqs@),
            final(self).lines() == old(self).lines().push(out@),
    {
        let (out, stop) = worker_step(seqs, worker_id, idempotent, ev);
        self.stopped = stop;
        proof {
            let p0 = self.pulled@;
            let l0 = self.lines@;
            self.pulled@ = p0.push(seqs@);
            self.lines@ = l0.push(out@);
            assert forall|i: int| 0 <= i < self.pulled@.len() implies
                outcome_seqs(#[trigger] self.lines@[i]) == self.pulled@[i] by {
                if i < p0.len() {
                    assert(self.lines@[i] == l0[i]);
                    assert(self.pulled@[i] == p0[i]);
                }
            }
        }
        out
    }
}

/// The batch-mode event for a batch once its reply is read: the reply aligned
/// to the batch (`batch_reply_outcomes`), or the error that ended reading it.
pub fn batch_event(seqs: &Vec<u64>, got: Result<BatchReply, CoreError>) -> (ev: BatchEvent)
    ensures
        event_fits(seqs@, ev),
        ev matches BatchEvent::Batch(r) && match got {
            Ok(reply) => batch_reply_is(seqs@, reply, r),
            Err(e) => r == Err::<Vec<RowOutcome>, CoreError>(e),
        },
{
    match got {
        Ok(reply) => BatchEvent::Batch(batch_reply_outcomes(seqs, reply)),
        Err(e) => BatchEvent::Batch(Err(e)),
    }
}

/// Whatever the handler replied to a batch, the outcomes aligned from it
/// fit the batch: one per row, for the batch's seqs in order.
pub proof fn law_batch_reply_fits(seqs: Seq<u64>, reply: BatchReply, r: Result<Vec<RowOutcome>, CoreError>)
    requires
        batch_reply_is(seqs, reply, r),
    ensures
        event_fits(seqs, BatchEvent::Batch(r)),
{
    if let Ok(out) = r {
        assert(outcome_seqs(out@) =~= seqs) by {
            assert forall|i: int| 0 <= i < out@.len() implies #[trigger] outcome_seqs(out@)[i] == seqs[i] by {
                let o = out@[i];
                match reply {
                    BatchReply::Results(entries) => {
                        if entries@.len() == seqs.len() {
                            assert(o == entry_outcome(seqs[i], entries@[i]));
                        }
                    },
                    _ => {},
                }
            }
        }
    }
}

/// Over a whole worker loop: each batch the worker took has exactly one
/// outcome line, recording one outcome per row of the batch, for the batch's
/// seqs in order; batches it never took have no line.
pub proof fn law_worker_lines_match_batches(w: WorkerLoop, i: int)
    requires
        w.wf(),
        0 <= i < w.pulled().len(),
    ensures
        w.lines().len() == w.pulled().len(),
        outcome_seqs(w.lines()[i]) == w.pulled()[i],
        w.lines()[i].len() == w.pulled()[i].len(),
{
    assert(outcome_seqs(w.lines()[i]).len() == w.lines()[i].len());
}

/// The program a handler is started with: the first word of its command. An
/// empty command is a protocol error.
pub fn launch_program(cmd: &Vec<String>) -> (r: Result<String, CoreError>)
    ensures
        cmd@.len() > 0 ==> (r matches Ok(p) && p@ == cmd@[0]@),
        cmd@.len() == 0 ==> (r matches Err(CoreError::Protocol(m)) && m@ == "entry.cmd empty"@),
{
    if cmd.len() == 0 {
        return Err(CoreError::Protocol("entry.cmd empty".to_string()));
    }
    Ok(cmd[0].clone())
}

} // verus!
