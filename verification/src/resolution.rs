//! Row resolution: the state of every input row across all attempts of an
//! execution, derived from the attempts' outcome logs.
//!
//! Success is absorbing: once a row has succeeded in some attempt it stays
//! `Resolved`, and the first success is its canonical output. A row that has
//! only failed carries its latest failure, classified by error code.

use vstd::prelude::*;
use std::collections::{BTreeMap, HashSet};
use crate::codes::{ERR_CANCELLED, ERR_ROW_TOO_LARGE, ERR_WORKER_CRASH, ERR_WORKER_CRASH_UNSAFE};
use crate::outcome::{crash_message, crash_message_text, Field, JsonValue, RowOutcome};
use crate::tally::CodeTally;
use crate::store::AttemptState;
use crate::text::{decimal, push_decimal, push_str, spec_decimal, str_eq};
use crate::error::{is_store_error, CoreError};

verus! {

broadcast use vstd::std_specs::btree::group_btree_axioms;

/// Where a row stands after all ingested attempts.
#[derive(Clone, Copy, Debug, PartialEq, Eq, Structural)]
pub enum ResolutionState {
    NeverAttempted,
    Resolved,
    FailedLast,
    CrashedLast,
    CancelledLast,
    TooLarge,
}

/// Whether a record stands for a success or a failure.
#[derive(Clone, Copy, Debug, PartialEq, Eq, Structural)]
pub enum OutcomeKind {
    Success,
    Failed,
}

/// One row's outcome in one attempt, rendered as a CSV row: `headers` and
/// `raw` are positionally aligned.
pub struct OutcomeRecord {
    pub attempt_id: String,
    pub seq: u64,
    pub kind: OutcomeKind,
    pub raw: Vec<String>,
    pub headers: Vec<String>,
    /// The error code, for failures.
    pub code: Option<String>,
}

pub struct RecordView {
    pub attempt_id: Seq<char>,
    pub seq: u64,
    pub kind: OutcomeKind,
    pub raw: Seq<Seq<char>>,
    pub headers: Seq<Seq<char>>,
    pub code: Option<Seq<char>>,
}

pub open spec fn strings_view(v: Seq<String>) -> Seq<Seq<char>> {
    v.map_values(|s: String| s@)
}

pub open spec fn opt_string_view(o: Option<String>) -> Option<Seq<char>> {
    match o {
        Some(s) => Some(s@),
        None => None,
    }
}

impl View for OutcomeRecord {
    type V = RecordView;

    open spec fn view(&self) -> RecordView {
        RecordView {
            attempt_id: self.attempt_id@,
            seq: self.seq,
            kind: self.kind,
            raw: strings_view(self.raw@),
            headers: strings_view(self.headers@),
            code: opt_string_view(self.code),
        }
    }
}

pub open spec fn opt_record_view(o: Option<OutcomeRecord>) -> Option<RecordView> {
    match o {
        Some(r) => Some(r@),
        None => None,
    }
}

/// The resolution of one seq.
pub struct PerSeq {
    pub state: ResolutionState,
    /// First success for the seq (canonical), if any.
    pub canonical_success: Option<OutcomeRecord>,
    /// Latest failure recorded while the seq was not yet resolved.
    pub latest_failure: Option<OutcomeRecord>,
}

pub struct PerSeqView {
    pub state: ResolutionState,
    pub canonical_success: Option<RecordView>,
    pub latest_failure: Option<RecordView>,
}

impl View for PerSeq {
    type V = PerSeqView;

    open spec fn view(&self) -> PerSeqView {
        PerSeqView {
            state: self.state,
            canonical_success: opt_record_view(self.canonical_success),
            latest_failure: opt_record_view(self.latest_failure),
        }
    }
}

/// The per-seq map by views.
pub open spec fn per_seq_view(m: Map<u64, PerSeq>) -> Map<u64, PerSeqView> {
    m.map_values(|p: PerSeq| p@)
}

// ---------------------------------------------------------------------------
// The resolution rules
// ---------------------------------------------------------------------------

/// The state a failure with this code leaves an unresolved row in.
pub open spec fn spec_classify(code: Option<Seq<char>>) -> ResolutionState {
    match code {
        Some(c) =>
            if c == ERR_WORKER_CRASH@ || c == ERR_WORKER_CRASH_UNSAFE@ {
                ResolutionState::CrashedLast
            } else if c == ERR_CANCELLED@ {
                ResolutionState::CancelledLast
            } else if c == ERR_ROW_TOO_LARGE@ {
                ResolutionState::TooLarge
            } else {
                ResolutionState::FailedLast
            },
        None => ResolutionState::FailedLast,
    }
}

/// Classifies a failure by its error code: crash codes give `CrashedLast`,
/// `CANCELLED` gives `CancelledLast`, `ROW_TOO_LARGE` gives `TooLarge`, and
/// any other code (or none) gives `FailedLast`.
pub fn classify_failure(code: Option<&str>) -> (s: ResolutionState)
    ensures
        s == spec_classify(match code { Some(c) => Some(c@), None => None }),
{
    match code {
        Some(c) => {
            if str_eq(c, ERR_WORKER_CRASH) || str_eq(c, ERR_WORKER_CRASH_UNSAFE) {
                ResolutionState::CrashedLast
            } else if str_eq(c, ERR_CANCELLED) {
                ResolutionState::CancelledLast
            } else if str_eq(c, ERR_ROW_TOO_LARGE) {
                ResolutionState::TooLarge
            } else {
                ResolutionState::FailedLast
            }
        },
        None => ResolutionState::FailedLast,
    }
}

/// The CSV cell a JSON value becomes: a string is its content, null is
/// empty, anything else is its JSON text.
pub open spec fn cell_text(v: JsonValue) -> Seq<char> {
    match v {
        JsonValue::Null => Seq::empty(),
        JsonValue::Str(s) => s@,
        JsonValue::Encoded(t) => t@,
    }
}

pub open spec fn field_keys(d: Seq<Field>) -> Seq<Seq<char>> {
    d.map_values(|f: Field| f.key@)
}

pub open spec fn field_cells(d: Seq<Field>) -> Seq<Seq<char>> {
    d.map_values(|f: Field| cell_text(f.value))
}

/// The record of a success: headers `seqid` then the data keys, values the
/// seq in decimal then the data cells.
pub open spec fn success_record(aid: Seq<char>, seq: u64, data: Seq<Field>) -> RecordView {
    RecordView {
        attempt_id: aid,
        seq,
        kind: OutcomeKind::Success,
        headers: seq!["seqid"@] + field_keys(data),
        raw: seq![spec_decimal(seq as nat)] + field_cells(data),
        code: None,
    }
}

pub open spec fn opt_fields(data: Option<Vec<Field>>) -> Seq<Field> {
    match data {
        Some(d) => d@,
        None => Seq::empty(),
    }
}

/// The record of a failure: headers `seqid, errcode, errmessage` then the
/// data keys (if any), values correspondingly.
pub open spec fn error_record(aid: Seq<char>, seq: u64, code: Seq<char>, message: Seq<char>, data: Seq<Field>) -> RecordView {
    RecordView {
        attempt_id: aid,
        seq,
        kind: OutcomeKind::Failed,
        headers: seq!["seqid"@, "errcode"@, "errmessage"@] + field_keys(data),
        raw: seq![spec_decimal(seq as nat), code, message] + field_cells(data),
        code: Some(code),
    }
}

pub open spec fn fresh_view() -> PerSeqView {
    PerSeqView { state: ResolutionState::NeverAttempted, canonical_success: None, latest_failure: None }
}

pub open spec fn entry_of(m: Map<u64, PerSeqView>, seq: u64) -> PerSeqView {
    if m.contains_key(seq) { m[seq] } else { fresh_view() }
}

/// The per-seq map after one more outcome of attempt `aid`.
pub open spec fn apply_outcome(m: Map<u64, PerSeqView>, aid: Seq<char>, o: RowOutcome) -> Map<u64, PerSeqView> {
    match o {
        RowOutcome::Success { seq, data, .. } => {
            let e = entry_of(m, seq);
            m.insert(seq, PerSeqView {
                state: ResolutionState::Resolved,
                canonical_success: if e.canonical_success is None {
                    Some(success_record(aid, seq, data@))
                } else {
                    e.canonical_success
                },
                latest_failure: e.latest_failure,
            })
        },
        RowOutcome::Error { seq, code, message, data, .. } => {
            let e = entry_of(m, seq);
            if e.state == ResolutionState::Resolved {
                m
            } else {
                m.insert(seq, PerSeqView {
                    state: spec_classify(Some(code@)),
                    canonical_success: e.canonical_success,
                    latest_failure: Some(error_record(aid, seq, code@, message@, opt_fields(data))),
                })
            }
        },
        RowOutcome::Crash { seq, worker_id, crash_at_seq } => {
            let e = entry_of(m, seq);
            if e.state == ResolutionState::Resolved {
                m
            } else {
                m.insert(seq, PerSeqView {
                    state: ResolutionState::CrashedLast,
                    canonical_success: e.canonical_success,
                    latest_failure: Some(error_record(aid, seq, ERR_WORKER_CRASH@,
                        crash_message(worker_id, crash_at_seq), Seq::empty())),
                })
            }
        },
    }
}

/// The per-seq map after a sequence of outcomes of attempt `aid`, in order.
pub open spec fn apply_all(m: Map<u64, PerSeqView>, aid: Seq<char>, outs: Seq<RowOutcome>) -> Map<u64, PerSeqView>
    decreases outs.len(),
{
    if outs.len() == 0 {
        m
    } else {
        apply_outcome(apply_all(m, aid, outs.drop_last()), aid, outs.last())
    }
}

// ---------------------------------------------------------------------------
// Counting
// ---------------------------------------------------------------------------

/// How many seqs of the map satisfy `p`.
pub open spec fn count_where(m: Map<u64, PerSeqView>, p: spec_fn(PerSeqView) -> bool) -> nat {
    m.dom().filter(|k: u64| p(m[k])).len()
}

pub open spec fn in_state(st: ResolutionState) -> spec_fn(PerSeqView) -> bool {
    |p: PerSeqView| p.state == st
}

/// `FailedLast` whose latest failure carries `code`.
pub open spec fn failed_with_code(code: Seq<char>) -> spec_fn(PerSeqView) -> bool {
    |p: PerSeqView|
        p.state == ResolutionState::FailedLast && (p.latest_failure matches Some(f) && f.code == Some(code))
}

proof fn lemma_count_insert(m: Map<u64, PerSeqView>, k: u64, v: PerSeqView, p: spec_fn(PerSeqView) -> bool)
    requires
        m.dom().finite(),
    ensures
        count_where(m.insert(k, v), p) == count_where(m, p)
            - (if m.contains_key(k) && p(m[k]) { 1int } else { 0int })
            + (if p(v) { 1int } else { 0int }),
        count_where(m, p) <= m.dom().len(),
{
    let m2 = m.insert(k, v);
    let a = m.dom().filter(|x: u64| p(m[x]));
    let b = m2.dom().filter(|x: u64| p(m2[x]));
    m.dom().lemma_len_filter(|x: u64| p(m[x]));
    assert(a.finite());
    let a0 = a.remove(k);
    if p(v) {
        assert(b =~= a0.insert(k));
    } else {
        assert(b =~= a0);
    }
}

proof fn lemma_count_bounds(m: Map<u64, PerSeqView>, k: u64, p: spec_fn(PerSeqView) -> bool)
    requires
        m.dom().finite(),
    ensures
        count_where(m, p) <= m.dom().len(),
        m.contains_key(k) && p(m[k]) ==> count_where(m, p) >= 1,
{
    let a = m.dom().filter(|x: u64| p(m[x]));
    m.dom().lemma_len_filter(|x: u64| p(m[x]));
    if m.contains_key(k) && p(m[k]) {
        assert(a.contains(k));
        vstd::set_lib::lemma_len_subset(set![k], a);
    }
}

/// The six per-state totals of a resolution.
#[derive(Clone, Copy, Debug, PartialEq, Eq, Structural)]
pub struct ResolutionCounts {
    pub resolved: u64,
    pub failed_last: u64,
    pub crashed_last: u64,
    pub cancelled_last: u64,
    pub too_large: u64,
    pub never_attempted: u64,
}

impl ResolutionCounts {
    /// The total for one state.
    pub open spec fn of(self, st: ResolutionState) -> u64 {
        match st {
            ResolutionState::Resolved => self.resolved,
            ResolutionState::FailedLast => self.failed_last,
            ResolutionState::CrashedLast => self.crashed_last,
            ResolutionState::CancelledLast => self.cancelled_last,
            ResolutionState::TooLarge => self.too_large,
            ResolutionState::NeverAttempted => self.never_attempted,
        }
    }

    /// All totals zero.
    pub fn zero() -> (c: Self)
        ensures
            forall|st: ResolutionState| #[trigger] c.of(st) == 0,
    {
        ResolutionCounts { resolved: 0, failed_last: 0, crashed_last: 0, cancelled_last: 0, too_large: 0, never_attempted: 0 }
    }

    fn inc(&mut self, st: ResolutionState)
        requires
            old(self).of(st) < u64::MAX,
        ensures
            forall|s: ResolutionState| #[trigger] final(self).of(s) == old(self).of(s) + (if s == st { 1int } else { 0int }),
    {
        match st {
            ResolutionState::Resolved => self.resolved = self.resolved + 1,
            ResolutionState::FailedLast => self.failed_last = self.failed_last + 1,
            ResolutionState::CrashedLast => self.crashed_last = self.crashed_last + 1,
            ResolutionState::CancelledLast => self.cancelled_last = self.cancelled_last + 1,
            ResolutionState::TooLarge => self.too_large = self.too_large + 1,
            ResolutionState::NeverAttempted => self.never_attempted = self.never_attempted + 1,
        }
    }

    fn dec(&mut self, st: ResolutionState)
        requires
            old(self).of(st) > 0,
        ensures
            forall|s: ResolutionState| #[trigger] final(self).of(s) == old(self).of(s) - (if s == st { 1int } else { 0int }),
    {
        match st {
            ResolutionState::Resolved => self.resolved = self.resolved - 1,
            ResolutionState::FailedLast => self.failed_last = self.failed_last - 1,
            ResolutionState::CrashedLast => self.crashed_last = self.crashed_last - 1,
            ResolutionState::CancelledLast => self.cancelled_last = self.cancelled_last - 1,
            ResolutionState::TooLarge => self.too_large = self.too_large - 1,
            ResolutionState::NeverAttempted => self.never_attempted = self.never_attempted - 1,
        }
    }
}

/// Each total counts the seqs of the map in that state.
pub open spec fn counts_match(c: ResolutionCounts, vm: Map<u64, PerSeqView>) -> bool {
    forall|st: ResolutionState| #[trigger] c.of(st) == count_where(vm, in_state(st))
}

/// The tally counts, per code, the `FailedLast` seqs whose latest failure carries that code.
pub open spec fn codes_match(t: CodeTally, vm: Map<u64, PerSeqView>) -> bool {
    &&& t.wf()
    &&& t.all_positive()
    &&& forall|c: Seq<char>| #[trigger] t.count(c) == count_where(vm, failed_with_code(c))
}

// ---------------------------------------------------------------------------
// Building records
// ---------------------------------------------------------------------------

fn cell(v: &JsonValue) -> (s: String)
    ensures
        s@ == cell_text(*v),
{
    match v {
        JsonValue::Null => String::new(),
        JsonValue::Str(t) => t.clone(),
        JsonValue::Encoded(t) => t.clone(),
    }
}

fn push_fields(headers: &mut Vec<String>, raw: &mut Vec<String>, data: &Vec<Field>)
    ensures
        strings_view(final(headers)@) == strings_view(old(headers)@) + field_keys(data@),
        strings_view(final(raw)@) == strings_view(old(raw)@) + field_cells(data@),
{
    let ghost h0 = strings_view(headers@);
    let ghost r0 = strings_view(raw@);
    let mut i: usize = 0;
    while i < data.len()
        invariant
            i <= data@.len(),
            strings_view(headers@) == h0 + field_keys(data@.take(i as int)),
            strings_view(raw@) == r0 + field_cells(data@.take(i as int)),
        decreases data@.len() - i,
    {
        let ghost hv = headers@;
        let ghost rv = raw@;
        headers.push(data[i].key.clone());
        raw.push(cell(&data[i].value));
        proof {
            assert(data@.take(i + 1) =~= data@.take(i as int).push(data@[i as int]));
            assert(strings_view(headers@) =~= strings_view(hv).push(data@[i as int].key@));
            assert(strings_view(raw@) =~= strings_view(rv).push(cell_text(data@[i as int].value)));
            assert(field_keys(data@.take(i + 1)) =~= field_keys(data@.take(i as int)).push(data@[i as int].key@));
            assert(field_cells(data@.take(i + 1)) =~= field_cells(data@.take(i as int)).push(cell_text(data@[i as int].value)));
            assert(strings_view(headers@) =~= h0 + field_keys(data@.take(i + 1)));
            assert(strings_view(raw@) =~= r0 + field_cells(data@.take(i + 1)));
        }
        i = i + 1;
    }
    proof { assert(data@.take(data@.len() as int) =~= data@); }
}

/// The success record of `seq` in attempt `attempt_id`.
pub fn build_success_record(attempt_id: &String, seq: u64, data: &Vec<Field>) -> (r: OutcomeRecord)
    ensures
        r@ == success_record(attempt_id@, seq, data@),
{
    let mut headers: Vec<String> = Vec::new();
    headers.push("seqid".to_string());
    let mut raw: Vec<String> = Vec::new();
    raw.push(decimal(seq));
    proof {
        assert(strings_view(headers@) =~= seq!["seqid"@]);
        assert(strings_view(raw@) =~= seq![spec_decimal(seq as nat)]);
    }
    push_fields(&mut headers, &mut raw, data);
    OutcomeRecord { attempt_id: attempt_id.clone(), seq, kind: OutcomeKind::Success, raw, headers, code: None }
}

/// The failure record of `seq` in attempt `attempt_id`.
pub fn build_error_record(attempt_id: &String, seq: u64, code: &str, message: &str, data: Option<&Vec<Field>>) -> (r: OutcomeRecord)
    ensures
        r@ == error_record(attempt_id@, seq, code@, message@,
            match data { Some(d) => d@, None => Seq::empty() }),
{
    let mut headers: Vec<String> = Vec::new();
    headers.push("seqid".to_string());
    headers.push("errcode".to_string());
    headers.push("errmessage".to_string());
    let mut raw: Vec<String> = Vec::new();
    raw.push(decimal(seq));
    raw.push(code.to_string());
    raw.push(message.to_string());
    proof {
        assert(strings_view(headers@) =~= seq!["seqid"@, "errcode"@, "errmessage"@]);
        assert(strings_view(raw@) =~= seq![spec_decimal(seq as nat), code@, message@]);
    }
    match data {
        Some(d) => push_fields(&mut headers, &mut raw, d),
        None => {
            proof {
                assert(strings_view(headers@) =~= strings_view(headers@) + field_keys(Seq::<Field>::empty()));
                assert(strings_view(raw@) =~= strings_view(raw@) + field_cells(Seq::<Field>::empty()));
            }
        },
    }
    OutcomeRecord { attempt_id: attempt_id.clone(), seq, kind: OutcomeKind::Failed, raw, headers, code: Some(code.to_string()) }
}

// ---------------------------------------------------------------------------
// Applying outcomes
// ---------------------------------------------------------------------------

pub open spec fn record_code(o: Option<RecordView>) -> Option<Seq<char>> {
    match o {
        Some(r) => r.code,
        None => None,
    }
}

proof fn lemma_view_insert(m: Map<u64, PerSeq>, k: u64, v: PerSeq)
    ensures
        per_seq_view(m.insert(k, v)) == per_seq_view(m).insert(k, v@),
{
    assert(per_seq_view(m.insert(k, v)) =~= per_seq_view(m).insert(k, v@));
}

proof fn lemma_view_remove(m: Map<u64, PerSeq>, k: u64)
    ensures
        per_seq_view(m.remove(k)) == per_seq_view(m).remove(k),
{
    assert(per_seq_view(m.remove(k)) =~= per_seq_view(m).remove(k));
}

/// Puts `newp` under `seq` (whose old entry was already taken out) and
/// moves the totals and the code tally along.
fn commit(
    per_seq: &mut BTreeMap<u64, PerSeq>,
    counts: &mut ResolutionCounts,
    by_code: &mut CodeTally,
    seq: u64,
    old_state: Option<ResolutionState>,
    old_code: Option<String>,
    newp: PerSeq,
    Ghost(vm0): Ghost<Map<u64, PerSeqView>>,
)
    requires
        vm0.dom().finite(),
        per_seq_view(old(per_seq)@) == vm0.remove(seq),
        old_state == (if vm0.contains_key(seq) { Some(vm0[seq].state) } else { None::<ResolutionState> }),
        vm0.contains_key(seq) ==> opt_string_view(old_code) == record_code(vm0[seq].latest_failure),
        counts_match(*old(counts), vm0),
        codes_match(*old(by_code), vm0),
        old(by_code).total() == old(counts).failed_last,
        vm0.contains_key(seq) && vm0[seq].state == ResolutionState::FailedLast ==> old_code is Some,
        newp.state == ResolutionState::FailedLast ==> (newp.latest_failure matches Some(r) && r.code is Some),
    ensures
        per_seq_view(final(per_seq)@) == vm0.insert(seq, newp@),
        counts_match(*final(counts), vm0.insert(seq, newp@)),
        codes_match(*final(by_code), vm0.insert(seq, newp@)),
        final(by_code).total() == final(counts).failed_last,
{
    let ghost nv = newp@;
    let ghost vm1 = vm0.insert(seq, nv);
    let new_state = newp.state;
    let new_code: Option<String> = if new_state == ResolutionState::FailedLast {
        match &newp.latest_failure {
            Some(r) => match &r.code {
                Some(c) => Some(c.clone()),
                None => None,
            },
            None => None,
        }
    } else {
        None
    };
    let ghost pm = per_seq@;
    per_seq.insert(seq, newp);
    proof {
        lemma_view_insert(pm, seq, newp);
        assert(vm0.remove(seq).insert(seq, nv) =~= vm1);
        assert(per_seq_view(per_seq@) == vm1);
        assert forall|st: ResolutionState| #![trigger in_state(st)]
            count_where(vm1, in_state(st)) == count_where(vm0, in_state(st))
                - (if vm0.contains_key(seq) && vm0[seq].state == st { 1int } else { 0int })
                + (if nv.state == st { 1int } else { 0int })
            && count_where(vm1, in_state(st)) <= vm1.dom().len()
            && (vm0.contains_key(seq) && vm0[seq].state == st ==> count_where(vm0, in_state(st)) >= 1) by {
            lemma_count_insert(vm0, seq, nv, in_state(st));
            lemma_count_bounds(vm1, seq, in_state(st));
            lemma_count_bounds(vm0, seq, in_state(st));
        }
        assert forall|c: Seq<char>| #![trigger failed_with_code(c)]
            count_where(vm1, failed_with_code(c)) == count_where(vm0, failed_with_code(c))
                - (if vm0.contains_key(seq) && failed_with_code(c)(vm0[seq]) { 1int } else { 0int })
                + (if failed_with_code(c)(nv) { 1int } else { 0int })
            && count_where(vm1, failed_with_code(c)) <= vm1.dom().len()
            && (vm0.contains_key(seq) && failed_with_code(c)(vm0[seq]) ==> count_where(vm0, failed_with_code(c)) >= 1) by {
            lemma_count_insert(vm0, seq, nv, failed_with_code(c));
            lemma_count_bounds(vm1, seq, failed_with_code(c));
            lemma_count_bounds(vm0, seq, failed_with_code(c));
        }
    }
    let len = per_seq.len();
    proof {
        assert(per_seq@.dom() == vm1.dom());
        assert(vm1.dom().len() == len as nat);
    }
    match old_state {
        Some(st) => {
            assert(counts.of(st) == count_where(vm0, in_state(st)));
            counts.dec(st);
        },
        None => {},
    }
    assert(counts.of(new_state) < u64::MAX) by {
        assert(count_where(vm1, in_state(new_state)) <= len);
    }
    counts.inc(new_state);
    proof {
        assert forall|st: ResolutionState| #[trigger] counts.of(st) == count_where(vm1, in_state(st)) by {
            assert(old(counts).of(st) == count_where(vm0, in_state(st)));
        }
    }
    let ghost t_mid = *by_code;
    if old_state == Some(ResolutionState::FailedLast) {
        match &old_code {
            Some(c) => {
                assert(failed_with_code(c@)(vm0[seq]));
                assert(by_code.count(c@) == count_where(vm0, failed_with_code(c@)));
                by_code.sub(c.as_str());
            },
            None => {},
        }
    }
    proof {
        assert forall|c: Seq<char>| #[trigger] by_code.count(c) == count_where(vm0, failed_with_code(c))
            - (if vm0.contains_key(seq) && failed_with_code(c)(vm0[seq]) { 1int } else { 0int }) by {
            assert(t_mid.count(c) == count_where(vm0, failed_with_code(c)));
        }
    }
    match &new_code {
        Some(c) => {
            assert(failed_with_code(c@)(nv));
            assert(by_code.count(c@) < u64::MAX) by {
                assert(count_where(vm1, failed_with_code(c@)) <= len);
            }
            by_code.add(c.as_str());
        },
        None => {},
    }
    proof {
        let f = ResolutionState::FailedLast;
        assert(old(counts).of(f) == old(counts).failed_last);
        assert(counts.of(f) == counts.failed_last);
        assert(counts.of(f) == old(counts).of(f) - (if old_state == Some(f) { 1int } else { 0int })
            + (if new_state == f { 1int } else { 0int }));
        assert(by_code.total() == counts.failed_last);
        assert forall|c: Seq<char>| #[trigger] by_code.count(c) == count_where(vm1, failed_with_code(c)) by {
            assert(count_where(vm1, failed_with_code(c)) == count_where(vm0, failed_with_code(c))
                - (if vm0.contains_key(seq) && failed_with_code(c)(vm0[seq]) { 1int } else { 0int })
                + (if failed_with_code(c)(nv) { 1int } else { 0int }));
        }
    }
}

fn clone_opt_string(o: &Option<String>) -> (r: Option<String>)
    ensures
        opt_string_view(r) == opt_string_view(*o),
{
    match o {
        Some(s) => Some(s.clone()),
        None => None,
    }
}

/// Takes a removed entry apart: its state, its latest failure's code, and
/// its two records.
fn split_entry(old: Option<PerSeq>) -> (r: (Option<ResolutionState>, Option<String>, Option<OutcomeRecord>, Option<OutcomeRecord>))
    ensures
        match old {
            Some(p) => r.0 == Some(p.state) && opt_string_view(r.1) == record_code(opt_record_view(p.latest_failure))
                && r.2 == p.canonical_success && r.3 == p.latest_failure,
            None => r.0 is None && r.1 is None && r.2 is None && r.3 is None,
        },
{
    match old {
        Some(p) => {
            let PerSeq { state, canonical_success, latest_failure } = p;
            let code = match &latest_failure {
                Some(rec) => clone_opt_string(&rec.code),
                None => None,
            };
            (Some(state), code, canonical_success, latest_failure)
        },
        None => (None, None, None, None),
    }
}

/// Applies one outcome of attempt `attempt_id` to the per-seq map, keeping
/// the totals and the code tally in step (see `apply_outcome`: a success is
/// absorbing and the first one stays canonical; a failure of an unresolved
/// row becomes its latest failure, classified by its code). Every entry
/// stays consistent, so outcomes can be applied one after another.
pub fn apply_row_outcome(
    outcome: &RowOutcome,
    attempt_id: &String,
    per_seq: &mut BTreeMap<u64, PerSeq>,
    counts: &mut ResolutionCounts,
    by_code: &mut CodeTally,
)
    requires
        counts_match(*old(counts), per_seq_view(old(per_seq)@)),
        codes_match(*old(by_code), per_seq_view(old(per_seq)@)),
        old(by_code).total() == old(counts).failed_last,
        all_consistent(per_seq_view(old(per_seq)@)),
    ensures
        per_seq_view(final(per_seq)@) == apply_outcome(per_seq_view(old(per_seq)@), attempt_id@, *outcome),
        counts_match(*final(counts), per_seq_view(final(per_seq)@)),
        codes_match(*final(by_code), per_seq_view(final(per_seq)@)),
        final(by_code).total() == final(counts).failed_last,
        all_consistent(per_seq_view(final(per_seq)@)),
{
    let ghost before = per_seq_view(per_seq@);
    apply_one(outcome, attempt_id, per_seq, counts, by_code);
    proof { law_apply_keeps_consistent(before, attempt_id@, *outcome); }
}

/// Applying an outcome keeps every entry consistent.
pub proof fn law_apply_keeps_consistent(m: Map<u64, PerSeqView>, aid: Seq<char>, o: RowOutcome)
    requires
        all_consistent(m),
    ensures
        all_consistent(apply_outcome(m, aid, o)),
{
    lemma_apply_keeps_consistent(m, aid, seq![o]);
    assert(seq![o].drop_last() =~= Seq::<RowOutcome>::empty());
}

fn apply_one(
    outcome: &RowOutcome,
    attempt_id: &String,
    per_seq: &mut BTreeMap<u64, PerSeq>,
    counts: &mut ResolutionCounts,
    by_code: &mut CodeTally,
)
    requires
        counts_match(*old(counts), per_seq_view(old(per_seq)@)),
        codes_match(*old(by_code), per_seq_view(old(per_seq)@)),
        old(by_code).total() == old(counts).failed_last,
        all_consistent(per_seq_view(old(per_seq)@)),
    ensures
        per_seq_view(final(per_seq)@) == apply_outcome(per_seq_view(old(per_seq)@), attempt_id@, *outcome),
        counts_match(*final(counts), per_seq_view(final(per_seq)@)),
        codes_match(*final(by_code), per_seq_view(final(per_seq)@)),
        final(by_code).total() == final(counts).failed_last,
{
    let ghost pm = per_seq@;
    let ghost vm0 = per_seq_view(pm);
    let seq = outcome.seq();
    let old_entry = per_seq.remove(&seq);
    proof {
        lemma_view_remove(pm, seq);
        assert(vm0.dom() == pm.dom());
        if old_entry is Some {
            assert(vm0[seq] == old_entry->0@);
        }
    }
    let ghost e = entry_of(vm0, seq);
    let (old_state, old_code, cs, lf) = split_entry(old_entry);
    match outcome {
        RowOutcome::Success { seq: s, data, .. } => {
            let cs2 = match cs {
                Some(r) => Some(r),
                None => Some(build_success_record(attempt_id, *s, data)),
            };
            let newp = PerSeq { state: ResolutionState::Resolved, canonical_success: cs2, latest_failure: lf };
            commit(per_seq, counts, by_code, seq, old_state, old_code, newp, Ghost(vm0));
        },
        RowOutcome::Error { seq: s, code, message, data, .. } => {
            if old_state == Some(ResolutionState::Resolved) {
                let newp = PerSeq { state: ResolutionState::Resolved, canonical_success: cs, latest_failure: lf };
                commit(per_seq, counts, by_code, seq, old_state, old_code, newp, Ghost(vm0));
                proof { assert(vm0.insert(seq, vm0[seq]) =~= vm0); }
            } else {
                let st = classify_failure(Some(code.as_str()));
                let rec = match data {
                    Some(d) => build_error_record(attempt_id, *s, code.as_str(), message.as_str(), Some(d)),
                    None => build_error_record(attempt_id, *s, code.as_str(), message.as_str(), None),
                };
                let newp = PerSeq { state: st, canonical_success: cs, latest_failure: Some(rec) };
                commit(per_seq, counts, by_code, seq, old_state, old_code, newp, Ghost(vm0));
            }
        },
        RowOutcome::Crash { seq: s, worker_id, crash_at_seq } => {
            if old_state == Some(ResolutionState::Resolved) {
                let newp = PerSeq { state: ResolutionState::Resolved, canonical_success: cs, latest_failure: lf };
                commit(per_seq, counts, by_code, seq, old_state, old_code, newp, Ghost(vm0));
                proof { assert(vm0.insert(seq, vm0[seq]) =~= vm0); }
            } else {
                let msg = crash_message_text(*worker_id, *crash_at_seq);
                let rec = build_error_record(attempt_id, *s, ERR_WORKER_CRASH, msg.as_str(), None);
                let newp = PerSeq { state: ResolutionState::CrashedLast, canonical_success: cs, latest_failure: Some(rec) };
                commit(per_seq, counts, by_code, seq, old_state, old_code, newp, Ghost(vm0));
            }
        },
    }
}

// ---------------------------------------------------------------------------
// Whole-execution resolution
// ---------------------------------------------------------------------------

/// One attempt as read from the store, with the outcomes of its
/// `outcomes.jsonl` in file order.
pub struct AttemptOutcomes {
    pub attempt_id: String,
    pub state: AttemptState,
    pub outcomes: Vec<RowOutcome>,
}

/// The merged state of every seq of an execution.
pub struct RowResolution {
    pub execution_id: String,
    pub input_row_count: u64,
    pub per_seq: BTreeMap<u64, PerSeq>,
    pub counts: ResolutionCounts,
    /// Over the latest failure of the `FailedLast` seqs only.
    pub by_error_code: CodeTally,
    /// Attempts whose outcomes were merged, in order.
    pub merged_from_attempts: Vec<String>,
    /// Attempts still marked running, which were left out.
    pub skipped_running: Vec<String>,
}

/// Every seq below `n` starts out never attempted.
pub open spec fn initial_view(n: u64) -> Map<u64, PerSeqView> {
    Map::new(|k: u64| k < n, |k: u64| fresh_view())
}

/// The per-seq map after the given attempts: running attempts are skipped,
/// completed and aborted ones are applied in order.
pub open spec fn ingest(m: Map<u64, PerSeqView>, atts: Seq<AttemptOutcomes>) -> Map<u64, PerSeqView>
    decreases atts.len(),
{
    if atts.len() == 0 {
        m
    } else {
        let prev = ingest(m, atts.drop_last());
        let a = atts.last();
        if a.state == AttemptState::Running {
            prev
        } else {
            apply_all(prev, a.attempt_id@, a.outcomes@)
        }
    }
}

/// The resolution of an execution with `n` input rows over its attempts.
pub open spec fn resolution_view(n: u64, atts: Seq<AttemptOutcomes>) -> Map<u64, PerSeqView> {
    ingest(initial_view(n), atts)
}

/// Ids of the attempts that were merged, in order.
pub open spec fn merged_ids(atts: Seq<AttemptOutcomes>) -> Seq<Seq<char>>
    decreases atts.len(),
{
    if atts.len() == 0 {
        Seq::empty()
    } else if atts.last().state != AttemptState::Running {
        merged_ids(atts.drop_last()).push(atts.last().attempt_id@)
    } else {
        merged_ids(atts.drop_last())
    }
}

/// Ids of the attempts left out because they are still running, in order.
pub open spec fn running_ids(atts: Seq<AttemptOutcomes>) -> Seq<Seq<char>>
    decreases atts.len(),
{
    if atts.len() == 0 {
        Seq::empty()
    } else if atts.last().state == AttemptState::Running {
        running_ids(atts.drop_last()).push(atts.last().attempt_id@)
    } else {
        running_ids(atts.drop_last())
    }
}

impl RowResolution {
    /// The well-formedness of a resolution of `n` rows over `atts`.
    pub open spec fn resolves(&self, n: u64, atts: Seq<AttemptOutcomes>) -> bool {
        &&& self.input_row_count == n
        &&& per_seq_view(self.per_seq@) == resolution_view(n, atts)
        &&& counts_match(self.counts, per_seq_view(self.per_seq@))
        &&& codes_match(self.by_error_code, per_seq_view(self.per_seq@))
        &&& strings_view(self.merged_from_attempts@) == merged_ids(atts)
        &&& strings_view(self.skipped_running@) == running_ids(atts)
    }
}

proof fn lemma_empty_counts(c: ResolutionCounts, t: CodeTally)
    requires
        forall|st: ResolutionState| #[trigger] c.of(st) == 0,
        t.wf(),
        t.all_positive(),
        forall|code: Seq<char>| #[trigger] t.count(code) == 0,
    ensures
        counts_match(c, Map::<u64, PerSeqView>::empty()),
        codes_match(t, Map::<u64, PerSeqView>::empty()),
{
    let m = Map::<u64, PerSeqView>::empty();
    assert forall|st: ResolutionState| #[trigger] c.of(st) == count_where(m, in_state(st)) by {
        assert(m.dom().filter(|k: u64| in_state(st)(m[k])) =~= Set::empty());
    }
    assert forall|code: Seq<char>| #[trigger] t.count(code) == count_where(m, failed_with_code(code)) by {
        assert(m.dom().filter(|k: u64| failed_with_code(code)(m[k])) =~= Set::empty());
    }
}

/// Derives the state of every seq of an execution with `input_row_count`
/// input rows from its attempts, taken in chronological order.
///
/// Seqs `0..input_row_count` start out `NeverAttempted`; a seq outside that
/// range gets an entry when an outcome names it. Completed and aborted
/// attempts are merged outcome by outcome (success is absorbing: the first
/// success is canonical and no later failure changes a resolved seq; a
/// failure of an unresolved seq replaces its latest failure and its state);
/// running attempts are skipped. The totals and the per-code tally
/// describe the final map.
pub fn compute_resolution(execution_id: String, input_row_count: u64, attempts: &Vec<AttemptOutcomes>) -> (r: RowResolution)
    ensures
        r.execution_id@ == execution_id@,
        r.resolves(input_row_count, attempts@),
        r.by_error_code.total() == r.counts.failed_last,
{
    let mut per_seq: BTreeMap<u64, PerSeq> = BTreeMap::new();
    let mut counts = ResolutionCounts::zero();
    let mut by_code = CodeTally::new();
    proof {
        lemma_empty_counts(counts, by_code);
        assert(counts.of(ResolutionState::FailedLast) == 0);
        assert(per_seq_view(per_seq@) =~= Map::<u64, PerSeqView>::empty());
    }
    let mut s: u64 = 0;
    while s < input_row_count
        invariant
            s <= input_row_count,
            per_seq_view(per_seq@) == initial_view(s),
            counts_match(counts, per_seq_view(per_seq@)),
            codes_match(by_code, per_seq_view(per_seq@)),
            by_code.total() == counts.failed_last,
        decreases input_row_count - s,
    {
        let ghost vm = per_seq_view(per_seq@);
        proof {
            assert(vm.remove(s) =~= vm);
            assert(vm.dom() =~= Set::new(|k: u64| k < s));
            assert(vm.dom().finite()) by {
                assert(vm.dom() == per_seq@.dom());
            }
        }
        let fresh = PerSeq { state: ResolutionState::NeverAttempted, canonical_success: None, latest_failure: None };
        commit(&mut per_seq, &mut counts, &mut by_code, s, None, None, fresh, Ghost(vm));
        proof { assert(vm.insert(s, fresh_view()) =~= initial_view((s + 1) as u64)); }
        s = s + 1;
    }
    proof {
        assert(initial_view(s) == initial_view(input_row_count));
        assert(attempts@.take(0) =~= Seq::<AttemptOutcomes>::empty());
    }
    let mut merged: Vec<String> = Vec::new();
    let mut skipped: Vec<String> = Vec::new();
    let mut i: usize = 0;
    while i < attempts.len()
        invariant
            i <= attempts@.len(),
            per_seq_view(per_seq@) == ingest(initial_view(input_row_count), attempts@.take(i as int)),
            counts_match(counts, per_seq_view(per_seq@)),
            codes_match(by_code, per_seq_view(per_seq@)),
            by_code.total() == counts.failed_last,
            strings_view(merged@) == merged_ids(attempts@.take(i as int)),
            strings_view(skipped@) == running_ids(attempts@.take(i as int)),
        decreases attempts@.len() - i,
    {
        let a = &attempts[i];
        let ghost prev = per_seq_view(per_seq@);
        proof {
            law_resolution_entries_consistent(input_row_count, attempts@.take(i as int));
            assert(attempts@.take(i + 1).drop_last() =~= attempts@.take(i as int));
            assert(attempts@.take(i + 1).last() == attempts@[i as int]);
        }
        let ghost mv = merged@;
        let ghost sv = skipped@;
        if a.state == AttemptState::Running {
            skipped.push(a.attempt_id.clone());
            proof {
                assert(strings_view(skipped@) =~= strings_view(sv).push(a.attempt_id@));
            }
        } else {
            merged.push(a.attempt_id.clone());
            proof {
                assert(strings_view(merged@) =~= strings_view(mv).push(a.attempt_id@));
            }
            let mut j: usize = 0;
            while j < a.outcomes.len()
                invariant
                    j <= a.outcomes@.len(),
                    per_seq_view(per_seq@) == apply_all(prev, a.attempt_id@, a.outcomes@.take(j as int)),
                    counts_match(counts, per_seq_view(per_seq@)),
                    codes_match(by_code, per_seq_view(per_seq@)),
                    by_code.total() == counts.failed_last,
                    all_consistent(prev),
                decreases a.outcomes@.len() - j,
            {
                proof {
                    lemma_apply_keeps_consistent(prev, a.attempt_id@, a.outcomes@.take(j as int));
                    assert(a.outcomes@.take(j + 1).drop_last() =~= a.outcomes@.take(j as int));
                    assert(a.outcomes@.take(j + 1).last() == a.outcomes@[j as int]);
                }
                apply_row_outcome(&a.outcomes[j], &a.attempt_id, &mut per_seq, &mut counts, &mut by_code);
                j = j + 1;
            }
            proof {
                assert(a.outcomes@.take(j as int) =~= a.outcomes@);
            }
        }
        i = i + 1;
    }
    proof {
        assert(attempts@.take(i as int) =~= attempts@);
    }
    RowResolution {
        execution_id,
        input_row_count,
        per_seq,
        counts,
        by_error_code: by_code,
        merged_from_attempts: merged,
        skipped_running: skipped,
    }
}

enum Selection {
    Resolved,
    Attempted,
    Failed,
}

spec fn selects(sel: Selection, st: ResolutionState) -> bool {
    match sel {
        Selection::Resolved => st == ResolutionState::Resolved,
        Selection::Attempted => st != ResolutionState::NeverAttempted,
        Selection::Failed => st == ResolutionState::FailedLast || st == ResolutionState::CrashedLast
            || st == ResolutionState::CancelledLast || st == ResolutionState::TooLarge,
    }
}

fn selects_exec(sel: &Selection, st: ResolutionState) -> (b: bool)
    ensures
        b == selects(*sel, st),
{
    match sel {
        Selection::Resolved => st == ResolutionState::Resolved,
        Selection::Attempted => st != ResolutionState::NeverAttempted,
        Selection::Failed => st == ResolutionState::FailedLast || st == ResolutionState::CrashedLast
            || st == ResolutionState::CancelledLast || st == ResolutionState::TooLarge,
    }
}

/// The seqs of the map whose state is `Resolved`.
pub open spec fn resolved_set(m: Map<u64, PerSeqView>) -> Set<u64> {
    m.dom().filter(|k: u64| m[k].state == ResolutionState::Resolved)
}

/// The seqs of the map with any outcome: everything but `NeverAttempted`.
pub open spec fn attempted_set(m: Map<u64, PerSeqView>) -> Set<u64> {
    m.dom().filter(|k: u64| m[k].state != ResolutionState::NeverAttempted)
}

/// The seqs whose latest outcome is a failure of any class.
pub open spec fn failed_set(m: Map<u64, PerSeqView>) -> Set<u64> {
    m.dom().filter(|k: u64| {
        let st = m[k].state;
        st == ResolutionState::FailedLast || st == ResolutionState::CrashedLast
            || st == ResolutionState::CancelledLast || st == ResolutionState::TooLarge
    })
}

impl RowResolution {
    fn select(&self, sel: Selection) -> (r: HashSet<u64>)
        ensures
            r@ == per_seq_view(self.per_seq@).dom().filter(|k: u64| selects(sel, per_seq_view(self.per_seq@)[k].state)),
    {
        let ghost m = self.per_seq@;
        let mut r: HashSet<u64> = HashSet::new();
        for x in it: self.per_seq.iter()
            invariant
                m == self.per_seq@,
                r@ == Set::new(|k: u64| exists|j: int| 0 <= j < it.index() && *(#[trigger] it.seq()[j]).0 == k
                    && selects(sel, it.seq()[j].1.state)),
        {
            let (k, v) = x;
            if selects_exec(&sel, v.state) {
                r.insert(*k);
            }
        }
        r
    }

    /// Seqs that succeeded in some merged attempt.
    pub fn resolved_seqs(&self) -> (r: HashSet<u64>)
        ensures
            r@ == resolved_set(per_seq_view(self.per_seq@)),
    {
        let r = self.select(Selection::Resolved);
        proof { assert(r@ =~= resolved_set(per_seq_view(self.per_seq@))); }
        r
    }

    /// Seqs with any outcome from a merged attempt: everything except
    /// `NeverAttempted`.
    pub fn attempted_seqs(&self) -> (r: HashSet<u64>)
        ensures
            r@ == attempted_set(per_seq_view(self.per_seq@)),
    {
        let r = self.select(Selection::Attempted);
        proof { assert(r@ =~= attempted_set(per_seq_view(self.per_seq@))); }
        r
    }

    /// Seqs whose latest outcome is a failure (`FailedLast`, `CrashedLast`,
    /// `CancelledLast`, `TooLarge`); neither resolved nor untouched seqs.
    pub fn failed_seqs(&self) -> (r: HashSet<u64>)
        ensures
            r@ == failed_set(per_seq_view(self.per_seq@)),
    {
        let r = self.select(Selection::Failed);
        proof { assert(r@ =~= failed_set(per_seq_view(self.per_seq@))); }
        r
    }
}

/// Only the totals of `compute_resolution` over the same input.
pub fn compute_resolution_counts_only(execution_id: String, input_row_count: u64, attempts: &Vec<AttemptOutcomes>) -> (c: ResolutionCounts)
    ensures
        counts_match(c, resolution_view(input_row_count, attempts@)),
{
    compute_resolution(execution_id, input_row_count, attempts).counts
}

// ---------------------------------------------------------------------------
// Laws
// ---------------------------------------------------------------------------

pub proof fn lemma_apply_all_append(m: Map<u64, PerSeqView>, aid: Seq<char>, s1: Seq<RowOutcome>, s2: Seq<RowOutcome>)
    ensures
        apply_all(m, aid, s1 + s2) == apply_all(apply_all(m, aid, s1), aid, s2),
    decreases s2.len(),
{
    if s2.len() == 0 {
        assert(s1 + s2 =~= s1);
    } else {
        assert((s1 + s2).drop_last() =~= s1 + s2.drop_last());
        assert((s1 + s2).last() == s2.last());
        lemma_apply_all_append(m, aid, s1, s2.drop_last());
    }
}

pub proof fn lemma_ingest_append(m: Map<u64, PerSeqView>, a1: Seq<AttemptOutcomes>, a2: Seq<AttemptOutcomes>)
    ensures
        ingest(m, a1 + a2) == ingest(ingest(m, a1), a2),
    decreases a2.len(),
{
    if a2.len() == 0 {
        assert(a1 + a2 =~= a1);
    } else {
        assert((a1 + a2).drop_last() =~= a1 + a2.drop_last());
        assert((a1 + a2).last() == a2.last());
        lemma_ingest_append(m, a1, a2.drop_last());
    }
}

/// Success is absorbing within an attempt: a seq that is resolved (and so
/// holds its canonical success, see `entry_consistent`) keeps its entry (state, canonical success and latest failure) through any further
/// outcomes.
pub proof fn law_resolved_entry_is_final(m: Map<u64, PerSeqView>, aid: Seq<char>, outs: Seq<RowOutcome>, k: u64)
    requires
        m.contains_key(k),
        m[k].state == ResolutionState::Resolved,
        m[k].canonical_success is Some,
    ensures
        apply_all(m, aid, outs).contains_key(k),
        apply_all(m, aid, outs)[k] == m[k],
    decreases outs.len(),
{
    if outs.len() > 0 {
        law_resolved_entry_is_final(m, aid, outs.drop_last(), k);
    }
}

/// Success is absorbing across attempts: a resolved seq keeps its entry
/// through any later attempts.
pub proof fn law_resolved_entry_survives_attempts(m: Map<u64, PerSeqView>, atts: Seq<AttemptOutcomes>, k: u64)
    requires
        m.contains_key(k),
        m[k].state == ResolutionState::Resolved,
        m[k].canonical_success is Some,
    ensures
        ingest(m, atts).contains_key(k),
        ingest(m, atts)[k] == m[k],
    decreases atts.len(),
{
    if atts.len() > 0 {
        law_resolved_entry_survives_attempts(m, atts.drop_last(), k);
        let prev = ingest(m, atts.drop_last());
        if atts.last().state != AttemptState::Running {
            law_resolved_entry_is_final(prev, atts.last().attempt_id@, atts.last().outcomes@, k);
        }
    }
}

/// A success in a merged (not running) attempt leaves its seq resolved at the
/// end, whatever the attempts around it hold.
pub proof fn law_merged_success_resolves(n: u64, atts: Seq<AttemptOutcomes>, i: int, j: int)
    requires
        0 <= i < atts.len(),
        atts[i].state != AttemptState::Running,
        0 <= j < atts[i].outcomes@.len(),
        atts[i].outcomes@[j] is Success,
    ensures
        resolution_view(n, atts).contains_key(atts[i].outcomes@[j].spec_seq()),
        resolution_view(n, atts)[atts[i].outcomes@[j].spec_seq()].state == ResolutionState::Resolved,
{
    let a = atts[i];
    let k = a.outcomes@[j].spec_seq();
    let outs = a.outcomes@;
    let prev = ingest(initial_view(n), atts.take(i));
    lemma_apply_all_append(prev, a.attempt_id@, outs.take(j + 1), outs.skip(j + 1));
    assert(outs.take(j + 1) + outs.skip(j + 1) =~= outs);
    assert(outs.take(j + 1).drop_last() =~= outs.take(j));
    let mid = apply_all(prev, a.attempt_id@, outs.take(j + 1));
    assert(mid.contains_key(k) && mid[k].state == ResolutionState::Resolved);
    law_resolved_entry_is_final(mid, a.attempt_id@, outs.skip(j + 1), k);
    let after = ingest(initial_view(n), atts.take(i + 1));
    assert(atts.take(i + 1).drop_last() =~= atts.take(i));
    assert(after == apply_all(prev, a.attempt_id@, outs));
    lemma_ingest_append(initial_view(n), atts.take(i + 1), atts.skip(i + 1));
    assert(atts.take(i + 1) + atts.skip(i + 1) =~= atts);
    law_resolved_entry_survives_attempts(after, atts.skip(i + 1), k);
}

/// Once a seq has any outcome it never goes back to `NeverAttempted`.
pub proof fn law_attempted_stays_attempted(m: Map<u64, PerSeqView>, atts: Seq<AttemptOutcomes>, k: u64)
    requires
        m.contains_key(k),
        m[k].state != ResolutionState::NeverAttempted,
    ensures
        ingest(m, atts).contains_key(k),
        ingest(m, atts)[k].state != ResolutionState::NeverAttempted,
    decreases atts.len(),
{
    if atts.len() > 0 {
        law_attempted_stays_attempted(m, atts.drop_last(), k);
        let prev = ingest(m, atts.drop_last());
        if atts.last().state != AttemptState::Running {
            lemma_attempted_stays_in_attempt(prev, atts.last().attempt_id@, atts.last().outcomes@, k);
        }
    }
}

proof fn lemma_attempted_stays_in_attempt(m: Map<u64, PerSeqView>, aid: Seq<char>, outs: Seq<RowOutcome>, k: u64)
    requires
        m.contains_key(k),
        m[k].state != ResolutionState::NeverAttempted,
    ensures
        apply_all(m, aid, outs).contains_key(k),
        apply_all(m, aid, outs)[k].state != ResolutionState::NeverAttempted,
    decreases outs.len(),
{
    if outs.len() > 0 {
        lemma_attempted_stays_in_attempt(m, aid, outs.drop_last(), k);
    }
}

/// A running attempt contributes nothing: appending one leaves the
/// resolution unchanged.
pub proof fn law_running_attempt_is_ignored(n: u64, atts: Seq<AttemptOutcomes>, a: AttemptOutcomes)
    requires
        a.state == AttemptState::Running,
    ensures
        resolution_view(n, atts.push(a)) == resolution_view(n, atts),
        merged_ids(atts.push(a)) == merged_ids(atts),
{
    assert(atts.push(a).drop_last() =~= atts);
}

proof fn lemma_merged_append(a1: Seq<AttemptOutcomes>, a2: Seq<AttemptOutcomes>)
    ensures
        merged_ids(a1 + a2) == merged_ids(a1) + merged_ids(a2),
    decreases a2.len(),
{
    if a2.len() == 0 {
        assert(a1 + a2 =~= a1);
        assert(merged_ids(a1) + merged_ids(a2) =~= merged_ids(a1));
    } else {
        assert((a1 + a2).drop_last() =~= a1 + a2.drop_last());
        assert((a1 + a2).last() == a2.last());
        lemma_merged_append(a1, a2.drop_last());
        if a2.last().state != AttemptState::Running {
            assert(merged_ids(a1) + merged_ids(a2) =~= (merged_ids(a1) + merged_ids(a2.drop_last())).push(a2.last().attempt_id@));
        } else {
            assert(merged_ids(a2) == merged_ids(a2.drop_last()));
        }
    }
}

/// A running attempt contributes nothing wherever it stands in the list:
/// taking it out leaves the resolution and the merged attempts unchanged.
pub proof fn law_running_attempt_is_ignored_anywhere(n: u64, atts: Seq<AttemptOutcomes>, i: int)
    requires
        0 <= i < atts.len(),
        atts[i].state == AttemptState::Running,
    ensures
        resolution_view(n, atts) == resolution_view(n, atts.remove(i)),
        merged_ids(atts) == merged_ids(atts.remove(i)),
{
    let head = atts.take(i);
    let with_a = atts.take(i + 1);
    let rest = atts.skip(i + 1);
    assert(atts =~= with_a + rest);
    assert(atts.remove(i) =~= head + rest);
    assert(with_a =~= head.push(atts[i]));
    law_running_attempt_is_ignored(n, head, atts[i]);
    lemma_ingest_append(initial_view(n), with_a, rest);
    lemma_ingest_append(initial_view(n), head, rest);
    lemma_merged_append(with_a, rest);
    lemma_merged_append(head, rest);
}

/// A later success of a row that already succeeded changes nothing: the
/// first success stays canonical, the row stays resolved, its latest
/// failure is kept, and no other row is touched or added.
pub proof fn law_first_success_wins(m: Map<u64, PerSeqView>, aid: Seq<char>, o: RowOutcome)
    requires
        o is Success,
        m.contains_key(o.spec_seq()),
        m[o.spec_seq()].canonical_success is Some,
    ensures
        ({
            let s = o.spec_seq();
            let r = apply_outcome(m, aid, o);
            &&& r.dom() == m.dom()
            &&& r[s].canonical_success == m[s].canonical_success
            &&& r[s].state == ResolutionState::Resolved
            &&& r[s].latest_failure == m[s].latest_failure
            &&& forall|k: u64| #[trigger] m.contains_key(k) && k != s ==> r[k] == m[k]
        }),
{
    let s = o.spec_seq();
    assert(apply_outcome(m, aid, o).dom() =~= m.dom());
}

/// A failure of a row that is not resolved records it as the row's latest
/// failure (a failure record of this attempt, with its code) and moves the
/// row to the state its code classifies it in (a crash counts as
/// `WORKER_CRASH`); the canonical success and every other row are kept.
pub proof fn law_failure_replaces_latest(m: Map<u64, PerSeqView>, aid: Seq<char>, o: RowOutcome)
    requires
        !(o is Success),
        entry_of(m, o.spec_seq()).state != ResolutionState::Resolved,
    ensures
        ({
            let s = o.spec_seq();
            let r = apply_outcome(m, aid, o);
            let code = match o {
                RowOutcome::Error { code, .. } => code@,
                _ => ERR_WORKER_CRASH@,
            };
            &&& r.dom() == m.dom().insert(s)
            &&& r[s].state == spec_classify(Some(code))
            &&& r[s].latest_failure matches Some(f)
            &&& f.code == Some(code) && f.attempt_id == aid && f.kind == OutcomeKind::Failed && f.seq == s
            &&& r[s].canonical_success == entry_of(m, s).canonical_success
            &&& forall|k: u64| #[trigger] m.contains_key(k) && k != s ==> r[k] == m[k]
        }),
{
    let s = o.spec_seq();
    assert(apply_outcome(m, aid, o).dom() =~= m.dom().insert(s));
    reveal_strlit("WORKER_CRASH");
}

/// Every entry is consistent: resolved exactly when it holds a canonical
/// success (a success record of its own seq); a failure state always holds
/// its latest failure (a failure record of its own seq); untouched entries
/// hold no record.
pub open spec fn entry_consistent(k: u64, p: PerSeqView) -> bool {
    &&& (p.state == ResolutionState::Resolved <==> p.canonical_success is Some)
    &&& (p.canonical_success matches Some(r) ==> r.kind == OutcomeKind::Success && r.seq == k)
    &&& (p.latest_failure matches Some(r) ==> r.kind == OutcomeKind::Failed && r.seq == k && r.code is Some)
    &&& (p.state != ResolutionState::Resolved && p.state != ResolutionState::NeverAttempted ==> p.latest_failure is Some)
    &&& (p.state == ResolutionState::NeverAttempted ==> p.canonical_success is None && p.latest_failure is None)
}

pub open spec fn all_consistent(m: Map<u64, PerSeqView>) -> bool {
    forall|k: u64| #[trigger] m.contains_key(k) ==> entry_consistent(k, m[k])
}

proof fn lemma_apply_keeps_consistent(m: Map<u64, PerSeqView>, aid: Seq<char>, outs: Seq<RowOutcome>)
    requires
        all_consistent(m),
    ensures
        all_consistent(apply_all(m, aid, outs)),
    decreases outs.len(),
{
    if outs.len() > 0 {
        lemma_apply_keeps_consistent(m, aid, outs.drop_last());
        let prev = apply_all(m, aid, outs.drop_last());
        let o = outs.last();
        let k = o.spec_seq();
        assert(entry_consistent(k, entry_of(prev, k)));
    }
}

/// Every entry of a resolution is consistent (see `entry_consistent`).
pub proof fn law_resolution_entries_consistent(n: u64, atts: Seq<AttemptOutcomes>)
    ensures
        all_consistent(resolution_view(n, atts)),
    decreases atts.len(),
{
    if atts.len() > 0 {
        law_resolution_entries_consistent(n, atts.drop_last());
        let prev = ingest(initial_view(n), atts.drop_last());
        if atts.last().state != AttemptState::Running {
            lemma_apply_keeps_consistent(prev, atts.last().attempt_id@, atts.last().outcomes@);
        }
    }
}

/// The seqs with any outcome are exactly the resolved ones together with the
/// failed ones, and no seq is both.
pub proof fn law_attempted_is_resolved_plus_failed(m: Map<u64, PerSeqView>)
    ensures
        attempted_set(m) == resolved_set(m) + failed_set(m),
        resolved_set(m).disjoint(failed_set(m)),
{
    assert(attempted_set(m) =~= resolved_set(m) + failed_set(m));
}

proof fn lemma_filter_split(s: Set<u64>, p: spec_fn(u64) -> bool)
    requires
        s.finite(),
    ensures
        s.filter(p).len() + s.filter(|x: u64| !p(x)).len() == s.len(),
{
    let a = s.filter(p);
    let b = s.filter(|x: u64| !p(x));
    s.lemma_len_filter(p);
    s.lemma_len_filter(|x: u64| !p(x));
    assert(a.disjoint(b));
    assert(a + b =~= s);
    vstd::set_lib::lemma_set_disjoint_lens(a, b);
}

/// The six totals add up to the number of seqs in the map.
pub proof fn law_counts_cover_every_seq(c: ResolutionCounts, m: Map<u64, PerSeqView>)
    requires
        counts_match(c, m),
        m.dom().finite(),
    ensures
        c.resolved + c.failed_last + c.crashed_last + c.cancelled_last + c.too_large + c.never_attempted == m.dom().len(),
{
    let d = m.dom();
    let s0 = d;
    let s1 = d.filter(|k: u64| m[k].state != ResolutionState::Resolved);
    let s2 = s1.filter(|k: u64| m[k].state != ResolutionState::FailedLast);
    let s3 = s2.filter(|k: u64| m[k].state != ResolutionState::CrashedLast);
    let s4 = s3.filter(|k: u64| m[k].state != ResolutionState::CancelledLast);
    let s5 = s4.filter(|k: u64| m[k].state != ResolutionState::TooLarge);
    lemma_filter_split(s0, |k: u64| m[k].state == ResolutionState::Resolved);
    assert(s0.filter(|x: u64| !((|k: u64| m[k].state == ResolutionState::Resolved)(x))) =~= s1);
    d.lemma_len_filter(|k: u64| m[k].state != ResolutionState::Resolved);
    lemma_filter_split(s1, |k: u64| m[k].state == ResolutionState::FailedLast);
    assert(s1.filter(|x: u64| !((|k: u64| m[k].state == ResolutionState::FailedLast)(x))) =~= s2);
    s1.lemma_len_filter(|k: u64| m[k].state != ResolutionState::FailedLast);
    lemma_filter_split(s2, |k: u64| m[k].state == ResolutionState::CrashedLast);
    assert(s2.filter(|x: u64| !((|k: u64| m[k].state == ResolutionState::CrashedLast)(x))) =~= s3);
    s2.lemma_len_filter(|k: u64| m[k].state != ResolutionState::CrashedLast);
    lemma_filter_split(s3, |k: u64| m[k].state == ResolutionState::CancelledLast);
    assert(s3.filter(|x: u64| !((|k: u64| m[k].state == ResolutionState::CancelledLast)(x))) =~= s4);
    s3.lemma_len_filter(|k: u64| m[k].state != ResolutionState::CancelledLast);
    lemma_filter_split(s4, |k: u64| m[k].state == ResolutionState::TooLarge);
    assert(s4.filter(|x: u64| !((|k: u64| m[k].state == ResolutionState::TooLarge)(x))) =~= s5);
    assert(c.of(ResolutionState::Resolved) == count_where(m, in_state(ResolutionState::Resolved)));
    assert(c.of(ResolutionState::FailedLast) == count_where(m, in_state(ResolutionState::FailedLast)));
    assert(c.of(ResolutionState::CrashedLast) == count_where(m, in_state(ResolutionState::CrashedLast)));
    assert(c.of(ResolutionState::CancelledLast) == count_where(m, in_state(ResolutionState::CancelledLast)));
    assert(c.of(ResolutionState::TooLarge) == count_where(m, in_state(ResolutionState::TooLarge)));
    assert(c.of(ResolutionState::NeverAttempted) == count_where(m, in_state(ResolutionState::NeverAttempted)));
    assert(d.filter(|k: u64| in_state(ResolutionState::Resolved)(m[k])) =~= s0.filter(|k: u64| m[k].state == ResolutionState::Resolved));
    assert(d.filter(|k: u64| in_state(ResolutionState::FailedLast)(m[k])) =~= s1.filter(|k: u64| m[k].state == ResolutionState::FailedLast));
    assert(d.filter(|k: u64| in_state(ResolutionState::CrashedLast)(m[k])) =~= s2.filter(|k: u64| m[k].state == ResolutionState::CrashedLast));
    assert(d.filter(|k: u64| in_state(ResolutionState::CancelledLast)(m[k])) =~= s3.filter(|k: u64| m[k].state == ResolutionState::CancelledLast));
    assert(d.filter(|k: u64| in_state(ResolutionState::TooLarge)(m[k])) =~= s4.filter(|k: u64| m[k].state == ResolutionState::TooLarge));
    assert(d.filter(|k: u64| in_state(ResolutionState::NeverAttempted)(m[k])) =~= s5);
}

/// Merging outcomes never removes a seq from the map.
pub proof fn lemma_ingest_keeps_seqs(m: Map<u64, PerSeqView>, atts: Seq<AttemptOutcomes>, k: u64)
    requires
        m.contains_key(k),
    ensures
        ingest(m, atts).contains_key(k),
    decreases atts.len(),
{
    if atts.len() > 0 {
        lemma_ingest_keeps_seqs(m, atts.drop_last(), k);
        let prev = ingest(m, atts.drop_last());
        if atts.last().state != AttemptState::Running {
            lemma_apply_keeps_seqs(prev, atts.last().attempt_id@, atts.last().outcomes@, k);
        }
    }
}

proof fn lemma_apply_keeps_seqs(m: Map<u64, PerSeqView>, aid: Seq<char>, outs: Seq<RowOutcome>, k: u64)
    requires
        m.contains_key(k),
    ensures
        apply_all(m, aid, outs).contains_key(k),
    decreases outs.len(),
{
    if outs.len() > 0 {
        lemma_apply_keeps_seqs(m, aid, outs.drop_last(), k);
    }
}

/// The error for a line of an attempt's `outcomes.jsonl` that does not
/// parse; merging that attempt stops there.
pub fn corruption_error(path: &str, line_no: u64, err: &str, attempt_id: &str) -> (e: CoreError)
    ensures
        is_store_error(e, "outcomes.jsonl corruption at "@ + path@ + ":"@ + spec_decimal(line_no as nat) + ": "@
            + err@ + "; attempt "@ + attempt_id@ + " ingest aborted"@),
{
    let mut m = "outcomes.jsonl corruption at ".to_string();
    push_str(&mut m, path);
    push_str(&mut m, ":");
    push_decimal(&mut m, line_no);
    push_str(&mut m, ": ");
    push_str(&mut m, err);
    push_str(&mut m, "; attempt ");
    push_str(&mut m, attempt_id);
    push_str(&mut m, " ingest aborted");
    CoreError::Store(m)
}

} // verus!
