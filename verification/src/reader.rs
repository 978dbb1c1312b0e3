//! The reader's decisions: which input rows are dispatched, under which key
//! names, and when reading stops.

use vstd::prelude::*;
use std::collections::HashSet;
use crate::accumulator::RowJob;
use crate::error::CoreError;
use crate::input::RowSource;
use crate::outcome::{Field, JsonValue, JsonView};
use crate::protocol::RowMeta;
use crate::text::str_eq;

verus! {

broadcast use vstd::std_specs::hash::group_hash_axioms;

/// Capacity of the channel between the reader and the accumulator.
pub const ROW_CHANNEL_CAP: usize = 64;

// ---------------------------------------------------------------------------
// Row data as a map
// ---------------------------------------------------------------------------

/// Whether some field of `d` has key `k`.
pub open spec fn has_key(d: Seq<Field>, k: Seq<char>) -> bool {
    exists|i: int| 0 <= i < d.len() && (#[trigger] d[i]).key@ == k
}

/// No key occurs twice.
pub open spec fn keys_distinct(d: Seq<Field>) -> bool {
    forall|i: int, j: int| 0 <= i < d.len() && 0 <= j < d.len() && i != j ==> (#[trigger] d[i]).key@ != (#[trigger] d[j]).key@
}

/// A row's data object as a map from key to value.
pub open spec fn fields_map(d: Seq<Field>) -> Map<Seq<char>, JsonView> {
    Map::new(
        |k: Seq<char>| has_key(d, k),
        |k: Seq<char>| d[choose|i: int| 0 <= i < d.len() && (#[trigger] d[i]).key@ == k].value@,
    )
}

/// Renames key `old` to `new`, keeping its value, when `old` is present.
pub open spec fn rename_key(m: Map<Seq<char>, JsonView>, old: Seq<char>, new: Seq<char>) -> Map<Seq<char>, JsonView> {
    if m.contains_key(old) {
        m.remove(old).insert(new, m[old])
    } else {
        m
    }
}

/// Applies the renames `(old, new)` of a field map one after the other.
pub open spec fn rename_all(m: Map<Seq<char>, JsonView>, fm: Seq<(String, String)>) -> Map<Seq<char>, JsonView>
    decreases fm.len(),
{
    if fm.len() == 0 {
        m
    } else {
        rename_key(rename_all(m, fm.drop_last()), fm.last().0@, fm.last().1@)
    }
}

pub proof fn lemma_value_at(d: Seq<Field>, i: int)
    requires
        keys_distinct(d),
        0 <= i < d.len(),
    ensures
        fields_map(d).contains_key(d[i].key@),
        fields_map(d)[d[i].key@] == d[i].value@,
{
    let k = d[i].key@;
    assert(has_key(d, k));
    let j = choose|j: int| 0 <= j < d.len() && (#[trigger] d[j]).key@ == k;
    if j != i {
        assert(d[i].key@ != d[j].key@);
    }
}

fn find_key(d: &Vec<Field>, k: &str) -> (r: Option<usize>)
    ensures
        match r {
            Some(i) => i < d@.len() && d@[i as int].key@ == k@,
            None => !has_key(d@, k@),
        },
{
    let mut i: usize = 0;
    while i < d.len()
        invariant
            i <= d@.len(),
            forall|j: int| 0 <= j < i ==> (#[trigger] d@[j]).key@ != k@,
        decreases d@.len() - i,
    {
        if str_eq(d[i].key.as_str(), k) {
            return Some(i);
        }
        i = i + 1;
    }
    None
}

/// Stores `value` under `key`: the field with that key gets the value, or a
/// new field is added (`Map::insert`).
pub fn set_field(data: &mut Vec<Field>, key: String, value: JsonValue)
    requires
        keys_distinct(old(data)@),
    ensures
        keys_distinct(final(data)@),
        fields_map(final(data)@) == fields_map(old(data)@).insert(key@, value@),
{
    let ghost d1 = data@;
    let ghost k = key@;
    let ghost v = value@;
    match find_key(data, key.as_str()) {
        Some(j) => {
            proof { lemma_value_at(d1, j as int); }
            data.set(j, Field { key, value });
            proof {
                let d2 = data@;
                assert forall|a: int, b: int| 0 <= a < d2.len() && 0 <= b < d2.len() && a != b
                    implies (#[trigger] d2[a]).key@ != (#[trigger] d2[b]).key@ by {
                    assert(d2[a].key@ == d1[a].key@);
                    assert(d2[b].key@ == d1[b].key@);
                }
                assert forall|t: Seq<char>| has_key(d2, t) <==> has_key(d1, t) by {
                    if has_key(d2, t) {
                        let x = choose|x: int| 0 <= x < d2.len() && (#[trigger] d2[x]).key@ == t;
                        assert(d1[x].key@ == t);
                    }
                    if has_key(d1, t) {
                        let x = choose|x: int| 0 <= x < d1.len() && (#[trigger] d1[x]).key@ == t;
                        assert(d2[x].key@ == t);
                    }
                }
                assert forall|t: Seq<char>| has_key(d2, t) implies fields_map(d2)[t] == fields_map(d1).insert(k, v)[t] by {
                    let x = choose|x: int| 0 <= x < d2.len() && (#[trigger] d2[x]).key@ == t;
                    lemma_value_at(d2, x);
                    if x != j {
                        assert(d2[x] == d1[x]);
                        lemma_value_at(d1, x);
                    }
                }
                assert(fields_map(d2) =~= fields_map(d1).insert(k, v));
            }
        },
        None => {
            data.push(Field { key, value });
            proof {
                let d2 = data@;
                assert(d2 =~= d1.push(d2.last()));
                assert forall|a: int, b: int| 0 <= a < d2.len() && 0 <= b < d2.len() && a != b
                    implies (#[trigger] d2[a]).key@ != (#[trigger] d2[b]).key@ by {
                    if a == d1.len() {
                        assert(d1[b] == d2[b]);
                    } else if b == d1.len() {
                        assert(d1[a] == d2[a]);
                    }
                }
                assert forall|t: Seq<char>| has_key(d2, t) <==> (has_key(d1, t) || t == k) by {
                    if has_key(d2, t) {
                        let x = choose|x: int| 0 <= x < d2.len() && (#[trigger] d2[x]).key@ == t;
                        if x < d1.len() {
                            assert(d1[x] == d2[x]);
                        }
                    }
                    if has_key(d1, t) {
                        let x = choose|x: int| 0 <= x < d1.len() && (#[trigger] d1[x]).key@ == t;
                        assert(d2[x] == d1[x]);
                    }
                    if t == k {
                        assert(d2[d1.len() as int].key@ == t);
                    }
                }
                assert forall|t: Seq<char>| has_key(d2, t) implies fields_map(d2)[t] == fields_map(d1).insert(k, v)[t] by {
                    let x = choose|x: int| 0 <= x < d2.len() && (#[trigger] d2[x]).key@ == t;
                    lemma_value_at(d2, x);
                    if x < d1.len() {
                        assert(d2[x] == d1[x]);
                        lemma_value_at(d1, x);
                    }
                }
                assert(fields_map(d2) =~= fields_map(d1).insert(k, v));
            }
        },
    }
}

/// Renames one key of a data object.
fn rename_one(data: &mut Vec<Field>, from: &str, new: &String)
    requires
        keys_distinct(old(data)@),
    ensures
        keys_distinct(final(data)@),
        fields_map(final(data)@) == rename_key(fields_map(old(data)@), from@, new@),
{
    let ghost d0 = data@;
    match find_key(data, from) {
        None => {
            proof { assert(!fields_map(d0).contains_key(from@)); }
        },
        Some(i) => {
            proof { lemma_value_at(d0, i as int); }
            let f = data.remove(i);
            let ghost d1 = data@;
            proof {
                assert(d1 =~= d0.remove(i as int));
                assert forall|k: Seq<char>| has_key(d1, k) <==> (has_key(d0, k) && k != from@) by {
                    if has_key(d1, k) {
                        let j = choose|j: int| 0 <= j < d1.len() && (#[trigger] d1[j]).key@ == k;
                        let j0 = if j < i { j } else { j + 1 };
                        assert(d0[j0] == d1[j]);
                        assert(j0 != i);
                        assert(d0[j0].key@ != d0[i as int].key@);
                    }
                    if has_key(d0, k) && k != from@ {
                        let j0 = choose|j: int| 0 <= j < d0.len() && (#[trigger] d0[j]).key@ == k;
                        assert(j0 != i);
                        let j = if j0 < i { j0 } else { j0 - 1 };
                        assert(d1[j] == d0[j0]);
                    }
                }
                assert(keys_distinct(d1)) by {
                    assert forall|a: int, b: int| 0 <= a < d1.len() && 0 <= b < d1.len() && a != b
                        implies (#[trigger] d1[a]).key@ != (#[trigger] d1[b]).key@ by {
                        let a0 = if a < i { a } else { a + 1 };
                        let b0 = if b < i { b } else { b + 1 };
                        assert(d1[a] == d0[a0]);
                        assert(d1[b] == d0[b0]);
                    }
                }
                assert forall|k: Seq<char>| has_key(d1, k) implies fields_map(d1)[k] == fields_map(d0)[k] by {
                    let j = choose|j: int| 0 <= j < d1.len() && (#[trigger] d1[j]).key@ == k;
                    let j0 = if j < i { j } else { j + 1 };
                    assert(d0[j0] == d1[j]);
                    lemma_value_at(d1, j);
                    lemma_value_at(d0, j0);
                }
                assert(fields_map(d1) =~= fields_map(d0).remove(from@));
            }
            set_field(data, new.clone(), f.value);
        },
    }
}

/// Renames top-level keys of a row's data: for each `(old, new)` of the field
/// map in turn, a present key `old` is removed and its value stored under
/// `new`.
pub fn rename_top_level(data: &mut Vec<Field>, field_map: &Vec<(String, String)>)
    requires
        keys_distinct(old(data)@),
    ensures
        keys_distinct(final(data)@),
        fields_map(final(data)@) == rename_all(fields_map(old(data)@), field_map@),
{
    let mut i: usize = 0;
    while i < field_map.len()
        invariant
            i <= field_map@.len(),
            keys_distinct(data@),
            fields_map(data@) == rename_all(fields_map(old(data)@), field_map@.take(i as int)),
        decreases field_map@.len() - i,
    {
        rename_one(data, field_map[i].0.as_str(), &field_map[i].1);
        proof {
            assert(field_map@.take(i + 1).drop_last() =~= field_map@.take(i as int));
        }
        i = i + 1;
    }
    proof { assert(field_map@.take(field_map@.len() as int) =~= field_map@); }
}

// ---------------------------------------------------------------------------
// The reader loop
// ---------------------------------------------------------------------------

/// Why sending a row to the accumulator stopped early; either way the reader
/// stops, without error.
pub enum SendStop {
    /// The run was cancelled while the reader waited for channel space.
    Cancelled,
    /// The accumulator is gone.
    ReceiverDropped,
}

/// What the reader dispatches.
pub struct ReaderConfig {
    /// Seqs never dispatched.
    pub skip_seqs: HashSet<u64>,
    /// When set, exactly these seqs are dispatched, whatever `skip_seqs` says.
    pub only_row_ids: Option<HashSet<u64>>,
    /// Stop after dispatching this many rows.
    pub row_limit: Option<usize>,
    /// Top-level key renames `(old, new)`, applied in order.
    pub field_map: Vec<(String, String)>,
    /// Forwarded into each row's metadata.
    pub dry_run: bool,
}

/// Whether the row `seq` is to be dispatched: with `only_row_ids`, exactly
/// those; otherwise every row not in `skip_seqs`.
pub open spec fn wanted(cfg: ReaderConfig, seq: u64) -> bool {
    match cfg.only_row_ids {
        Some(only) => only@.contains(seq),
        None => !cfg.skip_seqs@.contains(seq),
    }
}

/// What the reader does with the next input item.
pub enum ReaderStep {
    /// Stop reading (cancelled, or the row limit is reached).
    Stop,
    /// Leave this item out (a row that does not parse, or one not wanted).
    Skip,
    /// Send this row to the accumulator.
    Send(RowJob),
}

/// The step for a row that parsed: skipped when not wanted; a stop once the
/// limit is reached; otherwise sent with its keys renamed and its metadata set.
pub open spec fn row_step_is(cfg: ReaderConfig, emitted: nat, src: RowSource, st: ReaderStep) -> bool {
    if !wanted(cfg, src.seq) {
        st is Skip
    } else if cfg.row_limit is Some && emitted >= cfg.row_limit->0 {
        st is Stop
    } else {
        st matches ReaderStep::Send(job)
            && job.seq == src.seq
            && job.meta == (RowMeta { dry_run: cfg.dry_run, row_index: src.seq })
            && keys_distinct(job.data@)
            && fields_map(job.data@) == rename_all(fields_map(src.data@), cfg.field_map@)
    }
}

/// The reader's state: its configuration and how many rows it has sent.
pub struct Reader {
    config: ReaderConfig,
    emitted: usize,
    parse_errors_skipped: u64,
    /// The seqs of the parsed items handed in while not cancelled.
    seen: Ghost<Seq<u64>>,
    /// The seqs of the rows confirmed sent.
    sent_log: Ghost<Seq<u64>>,
    /// The seq of a row offered for sending and not yet confirmed.
    offered: Ghost<Option<u64>>,
}

impl Reader {
    pub closed spec fn emitted(&self) -> nat {
        self.emitted as nat
    }

    pub closed spec fn cfg(&self) -> ReaderConfig {
        self.config
    }

    /// Input items skipped because they did not parse (saturating).
    pub closed spec fn unparsed(&self) -> u64 {
        self.parse_errors_skipped
    }

    /// The seqs of the parsed items handed in while not cancelled, in order.
    pub closed spec fn seen(&self) -> Seq<u64> {
        self.seen@
    }

    /// The seqs of the rows confirmed sent, in order.
    pub closed spec fn sent_log(&self) -> Seq<u64> {
        self.sent_log@
    }

    /// The row offered for sending and not yet confirmed, if any.
    pub closed spec fn offered(&self) -> Option<u64> {
        self.offered@
    }

    /// The rows sent (with the one offered, if any) are the ones the model
    /// `sent_seqs` gives for the items seen, and the count of rows sent is
    /// within the limit.
    pub open spec fn history_ok(&self) -> bool {
        &&& match self.offered() {
            None => self.sent_log() == sent_seqs(self.cfg(), 0, self.seen()),
            Some(s) => self.sent_log().push(s) == sent_seqs(self.cfg(), 0, self.seen()),
        }
        &&& self.emitted() == self.sent_log().len()
        &&& (self.cfg().row_limit matches Some(m) ==> self.emitted() <= m)
    }

    pub fn new(config: ReaderConfig) -> (r: Self)
        ensures
            r.cfg() == config,
            r.emitted() == 0,
            r.unparsed() == 0,
            r.history_ok(),
            r.seen() == Seq::<u64>::empty(),
            r.sent_log() == Seq::<u64>::empty(),
            r.offered() is None,
    {
        Reader {
            config,
            emitted: 0,
            parse_errors_skipped: 0,
            seen: Ghost(Seq::empty()),
            sent_log: Ghost(Seq::empty()),
            offered: Ghost(None),
        }
    }

    /// The number of rows sent so far.
    pub fn sent(&self) -> (n: usize)
        ensures
            n == self.emitted(),
    {
        self.emitted
    }

    /// The number of input rows left out because they did not parse.
    pub fn parse_errors_skipped(&self) -> (n: u64)
        ensures
            n == self.unparsed(),
    {
        self.parse_errors_skipped
    }

    /// Decides what happens to the next input item: nothing more after a
    /// cancel; a row that does not parse is skipped; a row that is not
    /// wanted is skipped; once `row_limit` rows were sent, reading stops;
    /// otherwise the row is sent with its keys renamed and its metadata set.
    pub fn on_item(&mut self, cancelled: bool, item: Result<RowSource, CoreError>) -> (st: ReaderStep)
        requires
            item matches Ok(src) ==> keys_distinct(src.data@),
            old(self).history_ok(),
            old(self).offered() is None,
        ensures
            final(self).cfg() == old(self).cfg(),
            final(self).emitted() == old(self).emitted(),
            final(self).history_ok(),
            final(self).sent_log() == old(self).sent_log(),
            final(self).seen() == (match item {
                Ok(src) => if cancelled { old(self).seen() } else { old(self).seen().push(src.seq) },
                Err(_) => old(self).seen(),
            }),
            final(self).offered() == (match st {
                ReaderStep::Send(job) => Some(job.seq),
                _ => None::<u64>,
            }),
            final(self).unparsed() == (if !cancelled && item is Err && old(self).unparsed() < u64::MAX {
                (old(self).unparsed() + 1) as u64
            } else {
                old(self).unparsed()
            }),
            cancelled ==> st is Stop,
            match item {
                Ok(src) => !cancelled ==> row_step_is(old(self).cfg(), old(self).emitted(), src, st),
                Err(_) => !cancelled ==> st is Skip,
            },
    {
        if cancelled {
            return ReaderStep::Stop;
        }
        let src = match item {
            Ok(s) => s,
            Err(_) => {
                if self.parse_errors_skipped < u64::MAX {
                    self.parse_errors_skipped = self.parse_errors_skipped + 1;
                }
                return ReaderStep::Skip;
            },
        };
        let seq = src.seq;
        let ghost old_sent = sent_seqs(self.config, 0, self.seen@);
        proof {
            lemma_sent_push(self.config, 0, self.seen@, seq);
            self.seen@ = self.seen@.push(seq);
            assert(old_sent.len() == self.emitted);
            assert(old_sent + Seq::<u64>::empty() =~= old_sent);
            assert(old_sent + seq![seq] =~= old_sent.push(seq));
        }
        let is_wanted = match &self.config.only_row_ids {
            Some(only) => only.contains(&seq),
            None => !self.config.skip_seqs.contains(&seq),
        };
        if !is_wanted {
            return ReaderStep::Skip;
        }
        if let Some(max) = self.config.row_limit {
            if self.emitted >= max {
                return ReaderStep::Stop;
            }
        }
        let mut data = src.data;
        rename_top_level(&mut data, &self.config.field_map);
        proof { self.offered@ = Some(seq); }
        ReaderStep::Send(RowJob { seq, data, meta: RowMeta { dry_run: self.config.dry_run, row_index: seq } })
    }

    /// Records that the row was handed to the accumulator.
    pub fn on_sent(&mut self)
        requires
            old(self).emitted() < usize::MAX,
            old(self).history_ok(),
            old(self).offered() is Some,
        ensures
            final(self).cfg() == old(self).cfg(),
            final(self).emitted() == old(self).emitted() + 1,
            final(self).unparsed() == old(self).unparsed(),
            final(self).history_ok(),
            final(self).seen() == old(self).seen(),
            final(self).sent_log() == old(self).sent_log().push(old(self).offered()->0),
            final(self).offered() is None,
    {
        self.emitted = self.emitted + 1;
        proof {
            let s = self.offered@->0;
            lemma_sent_within_limit(self.config, self.seen@);
            self.sent_log@ = self.sent_log@.push(s);
            self.offered@ = None;
        }
    }
}

/// The seqs the reader sends when fed rows with these seqs (all parsing,
/// no cancel), having sent `emitted` rows already and every send succeeding:
/// each step is the one `row_step_is` describes.
pub open spec fn sent_seqs(cfg: ReaderConfig, emitted: nat, seqs: Seq<u64>) -> Seq<u64>
    decreases seqs.len(),
{
    if seqs.len() == 0 {
        Seq::empty()
    } else if !wanted(cfg, seqs[0]) {
        sent_seqs(cfg, emitted, seqs.drop_first())
    } else if cfg.row_limit is Some && emitted >= cfg.row_limit->0 {
        Seq::empty()
    } else {
        seq![seqs[0]] + sent_seqs(cfg, emitted + 1, seqs.drop_first())
    }
}

/// The wanted seqs, in order.
pub open spec fn wanted_seqs(cfg: ReaderConfig, seqs: Seq<u64>) -> Seq<u64>
    decreases seqs.len(),
{
    if seqs.len() == 0 {
        Seq::empty()
    } else if wanted(cfg, seqs[0]) {
        seq![seqs[0]] + wanted_seqs(cfg, seqs.drop_first())
    } else {
        wanted_seqs(cfg, seqs.drop_first())
    }
}

proof fn lemma_sent_prefix(cfg: ReaderConfig, emitted: nat, seqs: Seq<u64>)
    requires
        cfg.row_limit matches Some(m) ==> emitted <= m,
    ensures
        sent_seqs(cfg, emitted, seqs) == match cfg.row_limit {
            Some(m) => {
                let w = wanted_seqs(cfg, seqs);
                if w.len() <= m - emitted { w } else { w.take(m - emitted) }
            },
            None => wanted_seqs(cfg, seqs),
        },
    decreases seqs.len(),
{
    if seqs.len() > 0 {
        let rest = seqs.drop_first();
        if !wanted(cfg, seqs[0]) {
            lemma_sent_prefix(cfg, emitted, rest);
        } else if cfg.row_limit is Some && emitted >= cfg.row_limit->0 {
            let w = wanted_seqs(cfg, seqs);
            assert(w.take(0) =~= Seq::<u64>::empty());
        } else {
            lemma_sent_prefix(cfg, emitted + 1, rest);
            let w = wanted_seqs(cfg, seqs);
            let wr = wanted_seqs(cfg, rest);
            assert(w == seq![seqs[0]] + wr);
            match cfg.row_limit {
                Some(m) => {
                    if wr.len() <= m - (emitted + 1) {
                    } else {
                        assert(w.take(m - emitted) =~= seq![seqs[0]] + wr.take(m - (emitted + 1)));
                    }
                },
                None => {},
            }
        }
    }
}

/// The reader sends the wanted rows in input order, and no more than
/// `row_limit` of them: skipping (or the `only_row_ids` filter) applies
/// before the limit.
pub proof fn law_reader_sends_first_wanted_rows(cfg: ReaderConfig, seqs: Seq<u64>)
    ensures
        sent_seqs(cfg, 0, seqs) == match cfg.row_limit {
            Some(m) => if wanted_seqs(cfg, seqs).len() <= m { wanted_seqs(cfg, seqs) } else { wanted_seqs(cfg, seqs).take(m as int) },
            None => wanted_seqs(cfg, seqs),
        },
{
    lemma_sent_prefix(cfg, 0, seqs);
}


proof fn lemma_sent_push(cfg: ReaderConfig, e: nat, a: Seq<u64>, x: u64)
    requires
        cfg.row_limit matches Some(m) ==> e <= m,
    ensures
        sent_seqs(cfg, e, a.push(x)) == sent_seqs(cfg, e, a) + (if wanted(cfg, x)
            && !(cfg.row_limit is Some && e + sent_seqs(cfg, e, a).len() >= cfg.row_limit->0) {
            seq![x]
        } else {
            Seq::<u64>::empty()
        }),
    decreases a.len(),
{
    let ax = a.push(x);
    if a.len() == 0 {
        assert(ax.drop_first() =~= Seq::<u64>::empty());
        assert(sent_seqs(cfg, e + 1, Seq::<u64>::empty()) == Seq::<u64>::empty());
        assert(sent_seqs(cfg, e, Seq::<u64>::empty()) == Seq::<u64>::empty());
        assert(seq![x] + Seq::<u64>::empty() =~= seq![x]);
        assert(Seq::<u64>::empty() + seq![x] =~= seq![x]);
        assert(Seq::<u64>::empty() + Seq::<u64>::empty() =~= Seq::<u64>::empty());
    } else {
        assert(ax[0] == a[0]);
        assert(ax.drop_first() =~= a.drop_first().push(x));
        let rest = a.drop_first();
        if !wanted(cfg, a[0]) {
            lemma_sent_push(cfg, e, rest, x);
        } else if cfg.row_limit is Some && e >= cfg.row_limit->0 {
            assert(Seq::<u64>::empty() + Seq::<u64>::empty() =~= Seq::<u64>::empty());
        } else {
            lemma_sent_push(cfg, e + 1, rest, x);
            let tail = if wanted(cfg, x)
                && !(cfg.row_limit is Some && e + 1 + sent_seqs(cfg, e + 1, rest).len() >= cfg.row_limit->0) {
                seq![x]
            } else {
                Seq::<u64>::empty()
            };
            assert(seq![a[0]] + (sent_seqs(cfg, e + 1, rest) + tail) =~= (seq![a[0]] + sent_seqs(cfg, e + 1, rest)) + tail);
        }
    }
}

proof fn lemma_sent_within_limit(cfg: ReaderConfig, a: Seq<u64>)
    ensures
        cfg.row_limit matches Some(m) ==> sent_seqs(cfg, 0, a).len() <= m,
{
    lemma_sent_prefix(cfg, 0, a);
}

/// Over a whole read: the rows the reader has confirmed sent are, in input
/// order, the wanted rows among the parsed items it was handed (skipped,
/// unparsed and cancelled-out items excluded), up to `row_limit` of them.
pub proof fn law_reader_history(r: Reader)
    requires
        r.history_ok(),
        r.offered() is None,
    ensures
        r.sent_log() == match r.cfg().row_limit {
            Some(m) => if wanted_seqs(r.cfg(), r.seen()).len() <= m {
                wanted_seqs(r.cfg(), r.seen())
            } else {
                wanted_seqs(r.cfg(), r.seen()).take(m as int)
            },
            None => wanted_seqs(r.cfg(), r.seen()),
        },
{
    law_reader_sends_first_wanted_rows(r.cfg(), r.seen());
}

} // verus!
