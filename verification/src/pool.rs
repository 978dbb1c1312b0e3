//! The dispatch pool's decisions: how many workers to start, how a finished
//! run is reported, and the statistics tallied from `outcomes.jsonl`.

use vstd::prelude::*;
use crate::codes::ERR_WORKER_CRASH;
use crate::error::CoreError;
use crate::meta::{code_count, failed_count, success_count, lemma_counts_bounded};
use crate::outcome::RowOutcome;
use crate::tally::CodeTally;
use crate::text::{contains, contains_seq, join, join_seq, push_decimal, push_str, spec_decimal, views};

verus! {

/// The number of worker processes actually started: one for a stateful
/// handler, the requested number otherwise.
pub fn effective_workers(requested: u32, stateful: bool) -> (n: u32)
    ensures
        n == (if stateful { 1 } else { requested }),
{
    if stateful { 1 } else { requested }
}

/// How a pool run ended.
pub struct StreamingPoolReport {
    /// The run did not complete normally (stall, cancel or error).
    pub aborted: bool,
    /// Why, when `aborted`.
    pub abort_reason: Option<String>,
    /// The size of `outcomes.jsonl` when a stall was detected.
    pub stalled_at_bytes: Option<u64>,
}

/// What the pool's tasks returned once they were all done.
pub struct PoolEnd {
    /// When the stall monitor fired: the bytes written then, and its error text.
    pub stall: Option<(u64, String)>,
    /// One text per worker task that failed.
    pub worker_errors: Vec<String>,
    /// The reader's error text, if it failed.
    pub reader_error: Option<String>,
    /// The accumulator's error text, if it failed.
    pub accumulator_error: Option<String>,
    /// The caller supplied a cancellation token and it is cancelled.
    pub external_cancelled: bool,
}

/// An accumulator error that only reflects a cancelled run.
pub open spec fn is_cancel_artefact(msg: Seq<char>) -> bool {
    contains_seq(msg, "flush cancelled"@) || contains_seq(msg, "worker dropped"@)
}

/// An aborted report with this reason and no stall size.
pub open spec fn aborted_because(r: StreamingPoolReport, reason: Seq<char>) -> bool {
    r.aborted && r.stalled_at_bytes is None && has_reason(r, reason)
}

pub open spec fn has_reason(r: StreamingPoolReport, reason: Seq<char>) -> bool {
    r.abort_reason matches Some(m) && m@ == reason
}

pub open spec fn stall_reason(bytes: u64, err: Seq<char>) -> Seq<char> {
    "stalled at "@ + spec_decimal(bytes as nat) + " bytes: "@ + err
}

/// The report of a finished run, by priority: a stall; then worker errors,
/// joined by `"; "`; then a reader error; then an accumulator error that is
/// not a cancel artefact; then, when the accumulator failed and the caller's
/// token is cancelled, an operator cancel; otherwise a normal completion.
pub open spec fn pool_report_is(end: PoolEnd, r: StreamingPoolReport) -> bool {
    match end.stall {
        Some((b, e)) => r.aborted && r.stalled_at_bytes == Some(b) && has_reason(r, stall_reason(b, e@)),
        None =>
            if end.worker_errors@.len() > 0 {
                aborted_because(r, join_seq(views(end.worker_errors@), "; "@))
            } else if end.reader_error is Some {
                aborted_because(r, "reader error: "@ + end.reader_error->0@)
            } else if end.accumulator_error is Some && !is_cancel_artefact(end.accumulator_error->0@) {
                aborted_because(r, "accumulator error: "@ + end.accumulator_error->0@)
            } else if end.accumulator_error is Some && end.external_cancelled {
                aborted_because(r, "cancelled by operator"@)
            } else {
                !r.aborted && r.abort_reason is None && r.stalled_at_bytes is None
            },
    }
}

fn aborted_with(reason: String) -> (r: StreamingPoolReport)
    ensures
        r.aborted,
        r.abort_reason == Some(reason),
        r.stalled_at_bytes is None,
{
    StreamingPoolReport { aborted: true, abort_reason: Some(reason), stalled_at_bytes: None }
}

/// Classifies how a pool run ended.
pub fn pool_report(end: PoolEnd) -> (r: StreamingPoolReport)
    ensures
        pool_report_is(end, r),
{
    if let Some((b, e)) = &end.stall {
        let mut m = "stalled at ".to_string();
        push_decimal(&mut m, *b);
        push_str(&mut m, " bytes: ");
        push_str(&mut m, e.as_str());
        return StreamingPoolReport { aborted: true, abort_reason: Some(m), stalled_at_bytes: Some(*b) };
    }
    if end.worker_errors.len() > 0 {
        return aborted_with(join(&end.worker_errors, "; "));
    }
    if let Some(e) = &end.reader_error {
        let mut m = "reader error: ".to_string();
        push_str(&mut m, e.as_str());
        return aborted_with(m);
    }
    if let Some(a) = &end.accumulator_error {
        let artefact = contains(a.as_str(), "flush cancelled") || contains(a.as_str(), "worker dropped");
        if !artefact {
            let mut m = "accumulator error: ".to_string();
            push_str(&mut m, a.as_str());
            return aborted_with(m);
        }
        if end.external_cancelled {
            let m = "cancelled by operator".to_string();
            proof { reveal_strlit("cancelled by operator"); }
            return aborted_with(m);
        }
    }
    StreamingPoolReport { aborted: false, abort_reason: None, stalled_at_bytes: None }
}

pub open spec fn startup_failure_reason(id: u32, err: Seq<char>) -> Seq<char> {
    "worker "@ + spec_decimal(id as nat) + " failed to start: "@ + err
}

/// The report of a run whose worker `id` failed to start.
pub fn startup_failure_report(id: u32, err: &str) -> (r: StreamingPoolReport)
    ensures
        aborted_because(r, startup_failure_reason(id, err@)),
{
    let mut m = "worker ".to_string();
    push_decimal(&mut m, id as u64);
    push_str(&mut m, " failed to start: ");
    push_str(&mut m, err);
    aborted_with(m)
}

/// The text recorded for worker task `i` that returned an error (or, when
/// `panicked`, that panicked).
pub fn worker_failure_text(i: u64, err: &str, panicked: bool) -> (t: String)
    ensures
        t@ == "worker["@ + spec_decimal(i as nat) + (if panicked { "] panic: "@ } else { "]: "@ }) + err@,
{
    let mut t = "worker[".to_string();
    push_decimal(&mut t, i);
    if panicked {
        push_str(&mut t, "] panic: ");
    } else {
        push_str(&mut t, "]: ");
    }
    push_str(&mut t, err);
    t
}

// ---------------------------------------------------------------------------
// Run statistics
// ---------------------------------------------------------------------------

/// Success and failure counts tallied from `outcomes.jsonl`.
pub struct RunStats {
    pub success: u64,
    pub failed: u64,
    pub by_error_code: CodeTally,
}

impl RunStats {
    /// Every code's count is within the failure count, and the table is
    /// well formed.
    pub open spec fn wf(&self) -> bool {
        &&& self.by_error_code.wf()
        &&& self.by_error_code.all_positive()
        &&& forall|c: Seq<char>| #[trigger] self.by_error_code.count(c) <= self.failed
    }

    /// No outcomes yet.
    pub fn new() -> (st: Self)
        ensures
            st.wf(),
            st.success == 0,
            st.failed == 0,
            forall|c: Seq<char>| #[trigger] st.by_error_code.count(c) == 0,
    {
        RunStats { success: 0, failed: 0, by_error_code: CodeTally::new() }
    }

    /// Adds the outcomes of one line of `outcomes.jsonl`: successes count as
    /// successes; errors and crashes as failures, each under its code
    /// (crashes under `WORKER_CRASH`).
    pub fn add_outcomes(&mut self, outcomes: &Vec<RowOutcome>)
        requires
            old(self).wf(),
            old(self).success + outcomes@.len() <= u64::MAX,
            old(self).failed + outcomes@.len() <= u64::MAX,
        ensures
            final(self).wf(),
            final(self).success == old(self).success + success_count(outcomes@),
            final(self).failed == old(self).failed + failed_count(outcomes@),
            forall|c: Seq<char>| #[trigger] final(self).by_error_code.count(c)
                == old(self).by_error_code.count(c) + code_count(outcomes@, c),
    {
        let ghost start = *self;
        let mut i: usize = 0;
        while i < outcomes.len()
            invariant
                i <= outcomes@.len(),
                start.wf(),
                start.success + outcomes@.len() <= u64::MAX,
                start.failed + outcomes@.len() <= u64::MAX,
                self.wf(),
                self.success == start.success + success_count(outcomes@.take(i as int)),
                self.failed == start.failed + failed_count(outcomes@.take(i as int)),
                forall|c: Seq<char>| #[trigger] self.by_error_code.count(c)
                    == start.by_error_code.count(c) + code_count(outcomes@.take(i as int), c),
            decreases outcomes@.len() - i,
        {
            let ghost pre = outcomes@.take(i as int);
            let ghost post = outcomes@.take(i + 1);
            proof {
                assert(post.drop_last() =~= pre);
                assert(post.last() == outcomes@[i as int]);
                lemma_counts_bounded(pre, Seq::empty());
            }
            match &outcomes[i] {
                RowOutcome::Success { .. } => {
                    self.success = self.success + 1;
                },
                RowOutcome::Error { code, .. } => {
                    self.failed = self.failed + 1;
                    self.by_error_code.add(code.as_str());
                },
                RowOutcome::Crash { .. } => {
                    self.failed = self.failed + 1;
                    self.by_error_code.add(ERR_WORKER_CRASH);
                },
            }
            proof {
                assert forall|c: Seq<char>| #[trigger] self.by_error_code.count(c)
                    == start.by_error_code.count(c) + code_count(post, c) by {}
                assert forall|c: Seq<char>| #[trigger] self.by_error_code.count(c) <= self.failed by {
                    lemma_counts_bounded(post, c);
                }
            }
            i = i + 1;
        }
        proof { assert(outcomes@.take(outcomes@.len() as int) =~= outcomes@); }
    }
}

/// The error for a line of `outcomes.jsonl` that does not parse.
pub fn malformed_line_error(parse_error: &str, line: &str) -> (e: CoreError)
    ensures
        e matches CoreError::Store(m)
            && m@ == "compute_run_stats: malformed jsonl line: "@ + parse_error@ + "\nline: "@ + line@,
{
    let mut m = "compute_run_stats: malformed jsonl line: ".to_string();
    push_str(&mut m, parse_error);
    push_str(&mut m, "\nline: ");
    push_str(&mut m, line);
    CoreError::Store(m)
}

} // verus!
