//! Run metadata: the handler identity and the statistics of a run's outcomes.

use vstd::prelude::*;
use crate::codes::ERR_WORKER_CRASH;
use crate::outcome::RowOutcome;
use crate::tally::CodeTally;

verus! {

/// The handler a run used.
pub struct HandlerMeta {
    pub name: String,
    pub version: String,
    pub manifest_hash: String,
}

/// Aggregate statistics of a list of outcomes.
pub struct Stats {
    pub success: u64,
    pub failed: u64,
    pub by_error_code: CodeTally,
    pub avg_dur_ms: u64,
}

/// The number of successes.
pub open spec fn success_count(s: Seq<RowOutcome>) -> nat
    decreases s.len(),
{
    if s.len() == 0 { 0 } else { success_count(s.drop_last()) + if s.last() is Success { 1nat } else { 0nat } }
}

/// The number of failures: errors and crashes.
pub open spec fn failed_count(s: Seq<RowOutcome>) -> nat
    decreases s.len(),
{
    if s.len() == 0 { 0 } else { failed_count(s.drop_last()) + if s.last() is Success { 0nat } else { 1nat } }
}

/// The error code a failure is counted under: its own code for an error,
/// `WORKER_CRASH` for a crash.
pub open spec fn counted_code(o: RowOutcome) -> Option<Seq<char>> {
    match o {
        RowOutcome::Success { .. } => None,
        RowOutcome::Error { code, .. } => Some(code@),
        RowOutcome::Crash { .. } => Some(ERR_WORKER_CRASH@),
    }
}

/// The number of failures counted under `code`.
pub open spec fn code_count(s: Seq<RowOutcome>, code: Seq<char>) -> nat
    decreases s.len(),
{
    if s.len() == 0 {
        0
    } else {
        code_count(s.drop_last(), code) + if counted_code(s.last()) == Some(code) { 1nat } else { 0nat }
    }
}

/// The duration an outcome reports, for those that report one (successes
/// and errors; a crash reports none).
pub open spec fn timed(o: RowOutcome) -> Option<u64> {
    match o {
        RowOutcome::Success { dur_ms, .. } => Some(dur_ms),
        RowOutcome::Error { dur_ms, .. } => Some(dur_ms),
        RowOutcome::Crash { .. } => None,
    }
}

/// The number of outcomes that report a duration.
pub open spec fn timed_count(s: Seq<RowOutcome>) -> nat
    decreases s.len(),
{
    if s.len() == 0 { 0 } else { timed_count(s.drop_last()) + if timed(s.last()) is Some { 1nat } else { 0nat } }
}

/// The sum of the reported durations.
pub open spec fn dur_total(s: Seq<RowOutcome>) -> nat
    decreases s.len(),
{
    if s.len() == 0 {
        0
    } else {
        dur_total(s.drop_last()) + match timed(s.last()) { Some(d) => d as nat, None => 0nat }
    }
}

/// The mean reported duration, rounded down; 0 when none is reported.
pub open spec fn avg_dur(s: Seq<RowOutcome>) -> nat {
    if timed_count(s) == 0 { 0 } else { dur_total(s) / timed_count(s) }
}

pub proof fn lemma_counts_bounded(s: Seq<RowOutcome>, code: Seq<char>)
    ensures
        success_count(s) + failed_count(s) == s.len(),
        code_count(s, code) <= failed_count(s),
        timed_count(s) <= s.len(),
        dur_total(s) <= timed_count(s) * (u64::MAX as nat),
    decreases s.len(),
{
    if s.len() > 0 {
        lemma_counts_bounded(s.drop_last(), code);
        assert(dur_total(s) <= timed_count(s) * (u64::MAX as nat)) by (nonlinear_arith)
            requires
                dur_total(s.drop_last()) <= timed_count(s.drop_last()) * (u64::MAX as nat),
                timed(s.last()) is Some ==> dur_total(s) <= dur_total(s.drop_last()) + (u64::MAX as nat)
                    && timed_count(s) == timed_count(s.drop_last()) + 1,
                timed(s.last()) is None ==> dur_total(s) == dur_total(s.drop_last())
                    && timed_count(s) == timed_count(s.drop_last()),
        ;
    }
}

/// Tallies a list of outcomes: successes; failures (errors and crashes);
/// failures per code, crashes counted under `WORKER_CRASH`; and the mean
/// duration over the outcomes that report one, rounded down (0 when none do).
pub fn build_stats(outcomes: &Vec<RowOutcome>) -> (st: Stats)
    ensures
        st.success == success_count(outcomes@),
        st.failed == failed_count(outcomes@),
        st.success + st.failed == outcomes@.len(),
        st.by_error_code.wf(),
        st.by_error_code.all_positive(),
        forall|c: Seq<char>| #[trigger] st.by_error_code.count(c) == code_count(outcomes@, c),
        st.avg_dur_ms == avg_dur(outcomes@),
{
    let mut by_code = CodeTally::new();
    let mut succ: u64 = 0;
    let mut fail: u64 = 0;
    let mut total_dur: u128 = 0;
    let mut dur_count: u128 = 0;
    let mut i: usize = 0;
    while i < outcomes.len()
        invariant
            i <= outcomes@.len(),
            succ == success_count(outcomes@.take(i as int)),
            fail == failed_count(outcomes@.take(i as int)),
            total_dur == dur_total(outcomes@.take(i as int)),
            dur_count == timed_count(outcomes@.take(i as int)),
            by_code.wf(),
            by_code.all_positive(),
            forall|c: Seq<char>| #[trigger] by_code.count(c) == code_count(outcomes@.take(i as int), c),
        decreases outcomes@.len() - i,
    {
        let ghost pre = outcomes@.take(i as int);
        let ghost post = outcomes@.take(i + 1);
        proof {
            assert(post.drop_last() =~= pre);
            assert(post.last() == outcomes@[i as int]);
            lemma_counts_bounded(pre, ERR_WORKER_CRASH@);
            assert(dur_total(pre) <= (u64::MAX as nat) * (u64::MAX as nat)) by (nonlinear_arith)
                requires
                    dur_total(pre) <= timed_count(pre) * (u64::MAX as nat),
                    timed_count(pre) <= u64::MAX,
            ;
        }
        match &outcomes[i] {
            RowOutcome::Success { dur_ms, .. } => {
                succ = succ + 1;
                total_dur = total_dur + *dur_ms as u128;
                dur_count = dur_count + 1;
            },
            RowOutcome::Error { code, dur_ms, .. } => {
                fail = fail + 1;
                proof { lemma_counts_bounded(pre, code@); }
                by_code.add(code.as_str());
                total_dur = total_dur + *dur_ms as u128;
                dur_count = dur_count + 1;
            },
            RowOutcome::Crash { .. } => {
                fail = fail + 1;
                by_code.add(ERR_WORKER_CRASH);
            },
        }
        proof {
            assert forall|c: Seq<char>| #[trigger] by_code.count(c) == code_count(post, c) by {}
        }
        i = i + 1;
    }
    proof {
        assert(outcomes@.take(outcomes@.len() as int) =~= outcomes@);
        lemma_counts_bounded(outcomes@, Seq::empty());
    }
    let avg: u64 = if dur_count == 0 {
        0
    } else {
        proof {
            assert(total_dur / dur_count <= u64::MAX) by (nonlinear_arith)
                requires
                    total_dur <= dur_count * (u64::MAX as nat),
                    dur_count > 0,
            ;
        }
        (total_dur / dur_count) as u64
    };
    Stats { success: succ, failed: fail, by_error_code: by_code, avg_dur_ms: avg }
}

} // verus!
