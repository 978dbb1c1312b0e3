//! Grouping of rows into batches for the workers.
//!
//! The accumulator sees each row with the size of its serialized envelope
//! and decides, in order: an oversized row bypasses batching and becomes a
//! `ROW_TOO_LARGE` outcome; otherwise the pending batch is flushed first if
//! the row would take it past the hard byte cap (or, failing that, the soft
//! byte target); the row joins the pending batch; a batch that reaches the
//! row-count cap is flushed. At end of input the remainder is flushed; on
//! cancel it is dropped.

use vstd::prelude::*;
use crate::outcome::{is_error_outcome, too_large_message, synthesize_row_too_large, BatchOutcome, Field, RowOutcome};
use crate::codes::ERR_ROW_TOO_LARGE;
use crate::protocol::{RowEnvelope, RowMeta};
use crate::runtime::{Mode, Runtime, ROW_HARD_CAP_BYTES};

verus! {

/// Capacity of the channel between the accumulator and the workers.
pub const JOB_CHANNEL_CAP: usize = 64;

/// Why a batch was flushed.
#[derive(Clone, Copy, Debug, PartialEq, Eq, Structural)]
pub enum FlushReason {
    /// The row count reached the batch size.
    CountCap,
    /// The next row would pass the soft byte target.
    SoftByteCap,
    /// The next row would pass the hard byte cap.
    HardByteCap,
    /// The input ended.
    Eof,
}

/// A row read from the input, ready for dispatch.
pub struct RowJob {
    pub seq: u64,
    pub data: Vec<Field>,
    pub meta: RowMeta,
}

/// A unit of work for a worker: `seqs[i]` is the seq of `rows[i]`.
pub struct Batch {
    pub seqs: Vec<u64>,
    pub rows: Vec<RowEnvelope>,
}

/// What the accumulator asks its driver to do.
pub enum AccAction {
    /// Send this batch to the workers.
    Dispatch { batch: Batch, reason: FlushReason },
    /// Append this outcome to `outcomes.jsonl` (an oversized row).
    Write { outcome: BatchOutcome },
}

/// The accumulator's state, by value.
pub struct AccView {
    pub max_count: nat,
    pub target: u64,
    pub max: u64,
    pub seqs: Seq<u64>,
    pub sizes: Seq<u64>,
    pub soft_flushes: nat,
}

/// An action, by value.
pub enum ActionView {
    /// `sizes[i]` is the serialized size of the row `seqs[i]`.
    Dispatch { seqs: Seq<u64>, sizes: Seq<u64>, reason: FlushReason },
    TooLarge { seq: u64, bytes: u64 },
}

pub open spec fn sum(s: Seq<u64>) -> nat
    decreases s.len(),
{
    if s.len() == 0 { 0 } else { sum(s.drop_last()) + s.last() as nat }
}

pub open spec fn flushed(s: AccView) -> AccView {
    AccView { seqs: Seq::empty(), sizes: Seq::empty(), ..s }
}

pub open spec fn sat_inc(n: nat) -> nat {
    if n + 1 > u32::MAX { u32::MAX as nat } else { n + 1 }
}

/// The state and actions after one row of `bytes` serialized bytes.
pub open spec fn spec_on_row(s: AccView, seq: u64, bytes: u64) -> (AccView, Seq<ActionView>) {
    if bytes > ROW_HARD_CAP_BYTES {
        (s, seq![ActionView::TooLarge { seq, bytes }])
    } else {
        let (s1, a1) = if s.seqs.len() > 0 && sum(s.sizes) + bytes > s.max {
            (flushed(s), seq![ActionView::Dispatch { seqs: s.seqs, sizes: s.sizes, reason: FlushReason::HardByteCap }])
        } else if s.seqs.len() > 0 && sum(s.sizes) + bytes > s.target {
            (AccView { soft_flushes: sat_inc(s.soft_flushes), ..flushed(s) },
                seq![ActionView::Dispatch { seqs: s.seqs, sizes: s.sizes, reason: FlushReason::SoftByteCap }])
        } else {
            (s, Seq::empty())
        };
        let s2 = AccView { seqs: s1.seqs.push(seq), sizes: s1.sizes.push(bytes), ..s1 };
        if s2.seqs.len() >= s2.max_count {
            (flushed(s2), a1.push(ActionView::Dispatch { seqs: s2.seqs, sizes: s2.sizes, reason: FlushReason::CountCap }))
        } else {
            (s2, a1)
        }
    }
}

/// The rows that the dispatched batches of `acts` carry, in order.
pub open spec fn dispatched_rows(acts: Seq<AccAction>) -> Seq<RowEnvelope>
    decreases acts.len(),
{
    if acts.len() == 0 {
        Seq::empty()
    } else {
        dispatched_rows(acts.drop_last()) + match acts.last() {
            AccAction::Dispatch { batch, .. } => batch.rows@,
            AccAction::Write { .. } => Seq::empty(),
        }
    }
}

/// Whether the exec actions carry out the action views: same kinds, same
/// seqs and reasons, and an oversized row written as its `ROW_TOO_LARGE` outcome.
pub open spec fn actions_match(acts: Seq<AccAction>, views: Seq<ActionView>) -> bool {
    &&& acts.len() == views.len()
    &&& forall|i: int| 0 <= i < acts.len() ==> match (#[trigger] acts[i], views[i]) {
        (AccAction::Dispatch { batch, reason }, ActionView::Dispatch { seqs, reason: r, .. }) =>
            batch.seqs@ == seqs && reason == r && batch.rows@.len() == seqs.len()
                && forall|j: int| 0 <= j < seqs.len() ==> (#[trigger] batch.rows@[j]).seq == seqs[j],
        (AccAction::Write { outcome }, ActionView::TooLarge { seq, bytes }) =>
            outcome.outcomes@.len() == 1 && outcome.first_seq == seq && outcome.seqs@ == seq![seq]
                && is_error_outcome(outcome.outcomes@[0], seq, ERR_ROW_TOO_LARGE@, too_large_message(bytes)),
        _ => false,
    }
}

/// The batching state machine.
pub struct Accumulator {
    max_count: usize,
    bytes_target: u64,
    bytes_max: u64,
    pending_seqs: Vec<u64>,
    pending_rows: Vec<RowEnvelope>,
    pending_bytes: u64,
    downsized_batches: u32,
    sizes: Ghost<Seq<u64>>,
    /// The state this accumulator started from.
    start: Ghost<AccView>,
    /// The rows handed in so far: (seq, serialized size).
    ins: Ghost<Seq<(u64, u64)>>,
    /// The actions returned so far, by value.
    acts: Ghost<Seq<ActionView>>,
}

proof fn lemma_sum_bound(s: Seq<u64>)
    requires
        forall|i: int| 0 <= i < s.len() ==> s[i] <= ROW_HARD_CAP_BYTES,
    ensures
        sum(s) <= s.len() * ROW_HARD_CAP_BYTES,
    decreases s.len(),
{
    if s.len() > 0 {
        lemma_sum_bound(s.drop_last());
        assert(s.len() * ROW_HARD_CAP_BYTES == (s.len() - 1) * ROW_HARD_CAP_BYTES + ROW_HARD_CAP_BYTES)
            by (nonlinear_arith);
    }
}

impl Accumulator {
    pub closed spec fn view(&self) -> AccView {
        AccView {
            max_count: self.max_count as nat,
            target: self.bytes_target,
            max: self.bytes_max,
            seqs: self.pending_seqs@,
            sizes: self.sizes@,
            soft_flushes: self.downsized_batches as nat,
        }
    }

    /// The rows waiting in the pending batch.
    pub closed spec fn pending(&self) -> Seq<RowEnvelope> {
        self.pending_rows@
    }

    /// The state the accumulator started from.
    pub closed spec fn start(&self) -> AccView {
        self.start@
    }

    /// The rows handed to `on_row` so far, as (seq, serialized size).
    pub closed spec fn inputs(&self) -> Seq<(u64, u64)> {
        self.ins@
    }

    /// The actions `on_row` returned so far, by value, in order.
    pub closed spec fn actions(&self) -> Seq<ActionView> {
        self.acts@
    }

    /// The accumulator is where its whole history of rows takes the model
    /// `spec_run` from its start, and has returned the model's actions.
    pub open spec fn history_ok(&self) -> bool {
        &&& pending_ok(self.start())
        &&& self.view() == spec_run(self.start(), self.inputs()).0
        &&& self.actions() == spec_run(self.start(), self.inputs()).1
    }

    pub closed spec fn wf(&self) -> bool {
        &&& self.wf_core()
        &&& (self.pending_seqs@.len() == 0 || self.pending_seqs@.len() < self.max_count)
        &&& (self.sizes@.len() >= 2 ==> sum(self.sizes@) <= self.bytes_target && sum(self.sizes@) <= self.bytes_max)
    }

    /// A well-formed accumulator's state is one the laws of this module apply to.
    pub proof fn lemma_pending_ok(&self)
        requires
            self.wf(),
        ensures
            pending_ok(self.view()),
    {
    }

    closed spec fn wf_core(&self) -> bool {
        &&& self.max_count <= u32::MAX
        &&& self.pending_seqs@.len() == self.pending_rows@.len()
        &&& self.sizes@.len() == self.pending_seqs@.len()
        &&& forall|i: int| 0 <= i < self.pending_rows@.len() ==> (#[trigger] self.pending_rows@[i]).seq == self.pending_seqs@[i]
        &&& forall|i: int| 0 <= i < self.sizes@.len() ==> (#[trigger] self.sizes@[i]) <= ROW_HARD_CAP_BYTES
        &&& self.pending_bytes == sum(self.sizes@)
    }

    /// An empty accumulator for a runtime block: batches of one row in row
    /// mode, of `batch_size` rows (100 when unset) in batch mode.
    pub fn new(runtime: &Runtime) -> (a: Self)
        ensures
            a.wf(),
            a.view() == (AccView {
                max_count: match runtime.mode {
                    Mode::Row => 1nat,
                    Mode::Batch => match runtime.batch_size { Some(b) => b as nat, None => 100nat },
                },
                target: runtime.batch_bytes_target,
                max: runtime.max_batch_bytes,
                seqs: Seq::empty(),
                sizes: Seq::empty(),
                soft_flushes: 0,
            }),
            a.pending() == Seq::<RowEnvelope>::empty(),
            a.history_ok(),
            a.start() == a.view(),
            a.inputs() == Seq::<(u64, u64)>::empty(),
            a.actions() == Seq::<ActionView>::empty(),
    {
        let max_count: usize = match runtime.mode {
            Mode::Row => 1,
            Mode::Batch => match runtime.batch_size {
                Some(b) => b as usize,
                None => 100,
            },
        };
        let ghost s0 = AccView {
            max_count: max_count as nat,
            target: runtime.batch_bytes_target,
            max: runtime.max_batch_bytes,
            seqs: Seq::empty(),
            sizes: Seq::empty(),
            soft_flushes: 0,
        };
        let a = Accumulator {
            max_count,
            bytes_target: runtime.batch_bytes_target,
            bytes_max: runtime.max_batch_bytes,
            pending_seqs: Vec::new(),
            pending_rows: Vec::new(),
            pending_bytes: 0,
            downsized_batches: 0,
            sizes: Ghost(Seq::empty()),
            start: Ghost(s0),
            ins: Ghost(Seq::empty()),
            acts: Ghost(Seq::empty()),
        };
        proof {
            assert(a.view() =~= s0);
        }
        a
    }

    /// How many batches were flushed early because of the soft byte target
    /// (saturating).
    pub fn downsized_batches(&self) -> (n: u32)
        ensures
            n == self.view().soft_flushes,
    {
        self.downsized_batches
    }

    fn take_batch(&mut self) -> (b: Batch)
        requires
            old(self).wf_core(),
        ensures
            final(self).wf(),
            final(self).view() == flushed(old(self).view()),
            b.seqs@ == old(self).view().seqs,
            b.rows@ == old(self).pending(),
            final(self).pending() == Seq::<RowEnvelope>::empty(),
            final(self).start() == old(self).start(),
            final(self).inputs() == old(self).inputs(),
            final(self).actions() == old(self).actions(),
    {
        let mut seqs: Vec<u64> = Vec::new();
        let mut rows: Vec<RowEnvelope> = Vec::new();
        std::mem::swap(&mut seqs, &mut self.pending_seqs);
        std::mem::swap(&mut rows, &mut self.pending_rows);
        self.pending_bytes = 0;
        self.sizes = Ghost(Seq::empty());
        Batch { seqs, rows }
    }

    /// Takes one row whose serialized envelope is `row_bytes` long and returns
    /// what to do, in order (see the module doc).
    pub fn on_row(&mut self, job: RowJob, row_bytes: u64) -> (acts: Vec<AccAction>)
        requires
            old(self).wf(),
        ensures
            final(self).wf(),
            final(self).view() == spec_on_row(old(self).view(), job.seq, row_bytes).0,
            actions_match(acts@, spec_on_row(old(self).view(), job.seq, row_bytes).1),
            row_bytes <= ROW_HARD_CAP_BYTES ==> dispatched_rows(acts@) + final(self).pending()
                == old(self).pending().push(RowEnvelope { seq: job.seq, data: job.data, meta: job.meta }),
            row_bytes > ROW_HARD_CAP_BYTES ==> final(self).pending() == old(self).pending(),
            old(self).history_ok() ==> final(self).history_ok(),
            final(self).start() == old(self).start(),
            final(self).inputs() == old(self).inputs().push((job.seq, row_bytes)),
            final(self).actions() == old(self).actions() + spec_on_row(old(self).view(), job.seq, row_bytes).1,
    {
        let ghost s0 = self.view();
        let ghost h_ins = self.ins@;
        let ghost h_acts = self.acts@;
        proof {
            let step = spec_on_row(s0, job.seq, row_bytes);
            self.ins@ = h_ins.push((job.seq, row_bytes));
            self.acts@ = h_acts + step.1;
            assert(self.ins@.drop_last() =~= h_ins);
        }
        let ghost p0 = self.pending();
        let mut acts: Vec<AccAction> = Vec::new();
        if row_bytes > ROW_HARD_CAP_BYTES {
            let outcome = synthesize_row_too_large(job.seq, row_bytes);
            let mut v: Vec<RowOutcome> = Vec::new();
            v.push(outcome);
            let bo = BatchOutcome::from_outcomes(v);
            proof {
                assert(bo.seqs@ =~= seq![job.seq]);
            }
            acts.push(AccAction::Write { outcome: bo });
            proof {
                assert(acts@.drop_last() =~= Seq::<AccAction>::empty());
                reveal_with_fuel(dispatched_rows, 2);
                assert(dispatched_rows(acts@) =~= Seq::<RowEnvelope>::empty());
            }
            return acts;
        }
        proof { lemma_sum_bound(self.sizes@); }
        assert(self.pending_bytes + row_bytes <= u64::MAX) by (nonlinear_arith)
            requires
                self.pending_bytes <= self.sizes@.len() * ROW_HARD_CAP_BYTES,
                self.sizes@.len() <= u32::MAX,
                row_bytes <= ROW_HARD_CAP_BYTES;
        if self.pending_rows.len() > 0 && self.pending_bytes + row_bytes > self.bytes_max {
            let b = self.take_batch();
            acts.push(AccAction::Dispatch { batch: b, reason: FlushReason::HardByteCap });
            proof {
                assert(acts@.drop_last() =~= Seq::<AccAction>::empty());
                reveal_with_fuel(dispatched_rows, 2);
                assert(dispatched_rows(acts@) =~= p0);
            }
        } else if self.pending_rows.len() > 0 && self.pending_bytes + row_bytes > self.bytes_target {
            let b = self.take_batch();
            self.downsized_batches = self.downsized_batches.saturating_add(1);
            acts.push(AccAction::Dispatch { batch: b, reason: FlushReason::SoftByteCap });
            proof {
                assert(acts@.drop_last() =~= Seq::<AccAction>::empty());
                reveal_with_fuel(dispatched_rows, 2);
                assert(dispatched_rows(acts@) =~= p0);
            }
        } else {
            proof { assert(dispatched_rows(acts@) =~= Seq::<RowEnvelope>::empty()); }
        }
        let ghost a1 = acts@;
        let ghost mid = self.pending();
        proof {
            assert(dispatched_rows(a1) + mid =~= p0);
        }
        let env = RowEnvelope { seq: job.seq, data: job.data, meta: job.meta };
        let ghost sz0 = self.sizes@;
        let ghost sq0 = self.pending_seqs@;
        let ghost rw0 = self.pending_rows@;
        self.pending_seqs.push(job.seq);
        self.pending_rows.push(env);
        self.pending_bytes = self.pending_bytes + row_bytes;
        self.sizes = Ghost(self.sizes@.push(row_bytes));
        proof {
            assert(self.sizes@.drop_last() =~= sz0);
            assert(forall|i: int| 0 <= i < rw0.len() ==> self.pending_rows@[i] == rw0[i] && self.pending_seqs@[i] == sq0[i]);
            assert(forall|i: int| 0 <= i < sz0.len() ==> self.sizes@[i] == sz0[i]);
            assert(self.wf_core());
        }
        if self.pending_rows.len() >= self.max_count {
            let ghost before = self.pending();
            let b = self.take_batch();
            acts.push(AccAction::Dispatch { batch: b, reason: FlushReason::CountCap });
            proof {
                assert(acts@.drop_last() =~= a1);
                assert(dispatched_rows(acts@) =~= dispatched_rows(a1) + before);
            }
        }
        acts
    }

    /// End of input: the pending rows, if any, as a last batch.
    pub fn finish(&mut self) -> (b: Option<Batch>)
        requires
            old(self).wf(),
        ensures
            final(self).wf(),
            final(self).view() == flushed(old(self).view()),
            final(self).pending() == Seq::<RowEnvelope>::empty(),
            final(self).start() == old(self).start(),
            final(self).inputs() == old(self).inputs(),
            final(self).actions() == old(self).actions(),
            match b {
                Some(batch) => old(self).view().seqs.len() > 0 && batch.seqs@ == old(self).view().seqs
                    && batch.rows@ == old(self).pending()
                    && batch.rows@.len() == batch.seqs@.len()
                    && forall|j: int| 0 <= j < batch.seqs@.len() ==> (#[trigger] batch.rows@[j]).seq == batch.seqs@[j],
                None => old(self).view().seqs.len() == 0,
            },
    {
        if self.pending_rows.len() > 0 {
            Some(self.take_batch())
        } else {
            let _ = self.take_batch();
            None
        }
    }

    /// Cancel: the pending rows are dropped, not dispatched; their seqs are
    /// returned so the caller can report them. A later attempt sees them as
    /// never attempted.
    pub fn drop_pending(&mut self) -> (dropped: Vec<u64>)
        requires
            old(self).wf(),
        ensures
            final(self).wf(),
            final(self).view() == flushed(old(self).view()),
            final(self).pending() == Seq::<RowEnvelope>::empty(),
            dropped@ == old(self).view().seqs,
    {
        let b = self.take_batch();
        b.seqs
    }
}

// ---------------------------------------------------------------------------
// Laws over a whole run
// ---------------------------------------------------------------------------

/// The state and actions after rows `ins` (seq, serialized size), in order.
pub open spec fn spec_run(s: AccView, ins: Seq<(u64, u64)>) -> (AccView, Seq<ActionView>)
    decreases ins.len(),
{
    if ins.len() == 0 {
        (s, Seq::empty())
    } else {
        let (s1, a1) = spec_run(s, ins.drop_last());
        let (s2, a2) = spec_on_row(s1, ins.last().0, ins.last().1);
        (s2, a1 + a2)
    }
}

/// The seqs of the dispatched batches, concatenated in order.
pub open spec fn dispatched_seqs(acts: Seq<ActionView>) -> Seq<u64>
    decreases acts.len(),
{
    if acts.len() == 0 {
        Seq::empty()
    } else {
        dispatched_seqs(acts.drop_last()) + match acts.last() {
            ActionView::Dispatch { seqs, .. } => seqs,
            ActionView::TooLarge { .. } => Seq::empty(),
        }
    }
}

/// The seqs written as oversized, in order.
pub open spec fn too_large_seqs(acts: Seq<ActionView>) -> Seq<u64>
    decreases acts.len(),
{
    if acts.len() == 0 {
        Seq::empty()
    } else {
        too_large_seqs(acts.drop_last()) + match acts.last() {
            ActionView::Dispatch { .. } => Seq::empty(),
            ActionView::TooLarge { seq, .. } => seq![seq],
        }
    }
}

/// Seqs of the rows within the per-row cap, in order.
pub open spec fn accepted(ins: Seq<(u64, u64)>) -> Seq<u64>
    decreases ins.len(),
{
    if ins.len() == 0 {
        Seq::empty()
    } else if ins.last().1 <= ROW_HARD_CAP_BYTES {
        accepted(ins.drop_last()).push(ins.last().0)
    } else {
        accepted(ins.drop_last())
    }
}

/// Seqs of the rows over the per-row cap, in order.
pub open spec fn rejected(ins: Seq<(u64, u64)>) -> Seq<u64>
    decreases ins.len(),
{
    if ins.len() == 0 {
        Seq::empty()
    } else if ins.last().1 > ROW_HARD_CAP_BYTES {
        rejected(ins.drop_last()).push(ins.last().0)
    } else {
        rejected(ins.drop_last())
    }
}

/// A pending batch the state machine can reach: sizes listed per row, under
/// the count cap, and within both byte caps once it holds two rows or more.
pub open spec fn pending_ok(s: AccView) -> bool {
    &&& s.seqs.len() == s.sizes.len()
    &&& (s.seqs.len() == 0 || s.seqs.len() < s.max_count)
    &&& (s.seqs.len() >= 2 ==> sum(s.sizes) <= s.target && sum(s.sizes) <= s.max)
}

/// A dispatched batch is non-empty, within the row-count cap (one row when
/// the cap is 0), and a batch of two rows or more is within both byte caps.
pub open spec fn batch_ok(s: AccView, a: ActionView) -> bool {
    a matches ActionView::Dispatch { seqs, sizes, .. } ==> {
        &&& seqs.len() == sizes.len()
        &&& 1 <= seqs.len()
        &&& (seqs.len() <= s.max_count || seqs.len() == 1)
        &&& (seqs.len() >= 2 ==> sum(sizes) <= s.target && sum(sizes) <= s.max)
    }
}

proof fn lemma_sum_push(s: Seq<u64>, x: u64)
    ensures
        sum(s.push(x)) == sum(s) + x,
{
    assert(s.push(x).drop_last() =~= s);
}

proof fn lemma_step(s: AccView, seq: u64, bytes: u64)
    requires
        pending_ok(s),
    ensures
        pending_ok(spec_on_row(s, seq, bytes).0),
        spec_on_row(s, seq, bytes).0.max_count == s.max_count,
        spec_on_row(s, seq, bytes).0.target == s.target,
        spec_on_row(s, seq, bytes).0.max == s.max,
        forall|i: int| 0 <= i < spec_on_row(s, seq, bytes).1.len() ==> batch_ok(s, #[trigger] spec_on_row(s, seq, bytes).1[i]),
        dispatched_seqs(spec_on_row(s, seq, bytes).1) + spec_on_row(s, seq, bytes).0.seqs
            == s.seqs + (if bytes <= ROW_HARD_CAP_BYTES { seq![seq] } else { Seq::empty() }),
        too_large_seqs(spec_on_row(s, seq, bytes).1)
            == (if bytes > ROW_HARD_CAP_BYTES { seq![seq] } else { Seq::empty() }),
{
    reveal_with_fuel(dispatched_seqs, 3);
    reveal_with_fuel(too_large_seqs, 3);
    let (s2, acts) = spec_on_row(s, seq, bytes);
    if bytes > ROW_HARD_CAP_BYTES {
        assert(seq![ActionView::TooLarge { seq, bytes }].drop_last() =~= Seq::<ActionView>::empty());
        assert(dispatched_seqs(acts) + s2.seqs =~= s.seqs);
    } else {
        lemma_sum_push(s.sizes, bytes);
        lemma_sum_push(Seq::<u64>::empty(), bytes);
        assert(sum(Seq::<u64>::empty()) == 0);
        let flush_first = s.seqs.len() > 0 && (sum(s.sizes) + bytes > s.max || sum(s.sizes) + bytes > s.target);
        if flush_first {
            let a1 = seq![ActionView::Dispatch { seqs: s.seqs, sizes: s.sizes,
                reason: if sum(s.sizes) + bytes > s.max { FlushReason::HardByteCap } else { FlushReason::SoftByteCap } }];
            assert(a1.drop_last() =~= Seq::<ActionView>::empty());
            assert(seq![bytes] =~= Seq::<u64>::empty().push(bytes));
            if s.max_count <= 1 {
                let a2 = a1.push(ActionView::Dispatch { seqs: seq![seq], sizes: seq![bytes], reason: FlushReason::CountCap });
                assert(a2.drop_last() =~= a1);
                assert(Seq::<u64>::empty().push(seq) =~= seq![seq]);
                assert(dispatched_seqs(acts) + s2.seqs =~= s.seqs + seq![seq]);
            } else {
                assert(Seq::<u64>::empty().push(seq) =~= seq![seq]);
                assert(dispatched_seqs(acts) + s2.seqs =~= s.seqs + seq![seq]);
            }
        } else {
            let s1seqs = s.seqs.push(seq);
            if s1seqs.len() >= s.max_count {
                let a2 = Seq::<ActionView>::empty().push(ActionView::Dispatch { seqs: s1seqs, sizes: s.sizes.push(bytes), reason: FlushReason::CountCap });
                assert(a2.drop_last() =~= Seq::<ActionView>::empty());
                assert(dispatched_seqs(acts) + s2.seqs =~= s.seqs + seq![seq]);
            } else {
                assert(dispatched_seqs(acts) + s2.seqs =~= s.seqs + seq![seq]);
            }
        }
    }
}

proof fn lemma_dispatched_append(a: Seq<ActionView>, b: Seq<ActionView>)
    ensures
        dispatched_seqs(a + b) == dispatched_seqs(a) + dispatched_seqs(b),
        too_large_seqs(a + b) == too_large_seqs(a) + too_large_seqs(b),
    decreases b.len(),
{
    if b.len() == 0 {
        assert(a + b =~= a);
        assert(dispatched_seqs(a) + dispatched_seqs(b) =~= dispatched_seqs(a));
        assert(too_large_seqs(a) + too_large_seqs(b) =~= too_large_seqs(a));
    } else {
        assert((a + b).drop_last() =~= a + b.drop_last());
        lemma_dispatched_append(a, b.drop_last());
        assert(dispatched_seqs(a) + dispatched_seqs(b) =~= dispatched_seqs(a) + dispatched_seqs(b.drop_last())
            + match b.last() { ActionView::Dispatch { seqs, .. } => seqs, ActionView::TooLarge { .. } => Seq::<u64>::empty() });
        assert(too_large_seqs(a) + too_large_seqs(b) =~= too_large_seqs(a) + too_large_seqs(b.drop_last())
            + match b.last() { ActionView::Dispatch { .. } => Seq::<u64>::empty(), ActionView::TooLarge { seq, .. } => seq![seq] });
    }
}

/// Over any run: no row is lost or duplicated (the dispatched seqs followed
/// by the still-pending ones are the pending seqs at the start followed by
/// the rows within the per-row cap, in input order); exactly the oversized
/// rows are written as `ROW_TOO_LARGE`, in order; and every dispatched batch
/// respects the count and byte caps (see `batch_ok`).
pub proof fn law_batching_conserves_rows(s: AccView, ins: Seq<(u64, u64)>)
    requires
        pending_ok(s),
    ensures
        pending_ok(spec_run(s, ins).0),
        dispatched_seqs(spec_run(s, ins).1) + spec_run(s, ins).0.seqs == s.seqs + accepted(ins),
        too_large_seqs(spec_run(s, ins).1) == rejected(ins),
        forall|i: int| 0 <= i < spec_run(s, ins).1.len() ==> batch_ok(s, #[trigger] spec_run(s, ins).1[i]),
        spec_run(s, ins).0.max_count == s.max_count,
        spec_run(s, ins).0.target == s.target,
        spec_run(s, ins).0.max == s.max,
    decreases ins.len(),
{
    if ins.len() == 0 {
        assert(s.seqs + accepted(ins) =~= s.seqs);
        assert(Seq::<u64>::empty() + s.seqs =~= s.seqs);
    } else {
        law_batching_conserves_rows(s, ins.drop_last());
        let (s1, a1) = spec_run(s, ins.drop_last());
        let (seq, bytes) = ins.last();
        lemma_step(s1, seq, bytes);
        let (s2, a2) = spec_on_row(s1, seq, bytes);
        lemma_dispatched_append(a1, a2);
        assert forall|i: int| 0 <= i < (a1 + a2).len() implies batch_ok(s, #[trigger] (a1 + a2)[i]) by {
            if i >= a1.len() {
                assert((a1 + a2)[i] == a2[i - a1.len()]);
            }
        }
        if bytes <= ROW_HARD_CAP_BYTES {
            assert(accepted(ins) == accepted(ins.drop_last()).push(seq));
            assert(dispatched_seqs(a2) + s2.seqs == s1.seqs + seq![seq]);
            assert(dispatched_seqs(a1 + a2) + s2.seqs =~= dispatched_seqs(a1) + (dispatched_seqs(a2) + s2.seqs));
            assert(dispatched_seqs(a1) + (s1.seqs + seq![seq]) =~= (dispatched_seqs(a1) + s1.seqs) + seq![seq]);
            assert(dispatched_seqs(a1 + a2) + s2.seqs =~= s.seqs + accepted(ins));
            assert(too_large_seqs(a1 + a2) =~= rejected(ins));
        } else {
            assert(s2 == s1);
            assert(accepted(ins) == accepted(ins.drop_last()));
            assert(dispatched_seqs(a2) + s2.seqs == s1.seqs);
            assert(dispatched_seqs(a2) =~= Seq::<u64>::empty());
            assert(dispatched_seqs(a1 + a2) =~= dispatched_seqs(a1));
            assert(dispatched_seqs(a1 + a2) + s2.seqs =~= s.seqs + accepted(ins));
            assert(too_large_seqs(a1 + a2) =~= rejected(ins));
        }
    }
}


/// Over a whole batching run of an accumulator made by `new`: the seqs of
/// the dispatched batches followed by the still-pending ones (the batch
/// `finish` hands out) are exactly the rows within the per-row cap, in input
/// order, each once; exactly the oversized rows were written as
/// `ROW_TOO_LARGE`, in order; and every dispatched batch respects the count
/// and byte caps.
pub proof fn law_accumulator_history(a: Accumulator)
    requires
        a.history_ok(),
        a.start().seqs.len() == 0,
    ensures
        dispatched_seqs(a.actions()) + a.view().seqs == accepted(a.inputs()),
        too_large_seqs(a.actions()) == rejected(a.inputs()),
        forall|i: int| 0 <= i < a.actions().len() ==> batch_ok(a.start(), #[trigger] a.actions()[i]),
{
    law_batching_conserves_rows(a.start(), a.inputs());
    assert(a.start().seqs + accepted(a.inputs()) =~= accepted(a.inputs()));
}

} // verus!
