//! Exporting an execution: options, the completeness gate, and the tables
//! of merged rows that the export files hold.

use vstd::prelude::*;
use crate::resolution::{
    build_error_record, error_record, opt_record_view, strings_view, OutcomeRecord, PerSeq, PerSeqView,
    RecordView, ResolutionState, RowResolution, per_seq_view,
};
use crate::delimited::{csv_text, write_csv};
use crate::handler_log::{parse_u64, parse_u64_spec};
use crate::outcome::{Field, JsonValue, JsonView};
use crate::rerun::records_view;
use crate::text::{
    chars_of, contains_str, decimal, insert_sorted, push_decimal, push_str, spec_decimal, str_eq, strictly_ascending, views,
};

verus! {

/// Which files an export writes.
#[derive(Clone, Copy, Debug, PartialEq, Eq, Structural)]
pub enum ExportFormat {
    Csv,
    Jsonl,
    Both,
}

/// How to export an execution.
pub struct ExportOpts {
    /// `None`: a fresh directory under the execution's folder.
    pub output_dir: Option<String>,
    pub format: ExportFormat,
    /// Refuse to export an execution that is not fully processed.
    pub require_complete: bool,
}

impl ExportOpts {
    /// Options for `format`, with the default directory and no completeness
    /// requirement.
    pub fn new(format: ExportFormat) -> (o: Self)
        ensures
            o.format == format,
            o.output_dir is None,
            !o.require_complete,
    {
        ExportOpts { output_dir: None, format, require_complete: false }
    }

    /// The same options, requiring completeness or not.
    pub fn with_require_complete(self, require_complete: bool) -> (o: Self)
        ensures
            o.format == self.format,
            o.output_dir == self.output_dir,
            o.require_complete == require_complete,
    {
        ExportOpts { output_dir: self.output_dir, format: self.format, require_complete }
    }

    /// The same options, writing to `dir`.
    pub fn with_output_dir(self, dir: String) -> (o: Self)
        ensures
            o.format == self.format,
            o.output_dir == Some(dir),
            o.require_complete == self.require_complete,
    {
        ExportOpts { output_dir: Some(dir), format: self.format, require_complete: self.require_complete }
    }
}

/// A note about an export.
pub struct ExportWarning {
    pub code: String,
    pub message: String,
}

/// What an export wrote.
pub struct ExportReport {
    pub output_dir: String,
    pub written_files: Vec<String>,
    pub success_count: u64,
    pub failed_count: u64,
    pub warnings: Vec<ExportWarning>,
}

/// Whether an execution is fully processed: no row was never attempted and
/// no attempt was aborted.
pub open spec fn fully_processed(never_attempted: u64, aborted_attempts: nat) -> bool {
    never_attempted == 0 && aborted_attempts == 0
}

pub open spec fn incomplete_message(never_attempted: u64, aborted_attempts: nat) -> Seq<char> {
    "export_incomplete: "@ + spec_decimal(never_attempted as nat) + " row(s) never attempted, "@
        + spec_decimal(aborted_attempts) + " aborted attempt(s)"@
}

/// The completeness gate: an export that requires completeness is refused,
/// before anything is written, when the execution is not fully processed.
pub fn completeness_gate(require_complete: bool, never_attempted: u64, aborted_attempt_ids: &Vec<String>) -> (r: Result<(), String>)
    ensures
        (require_complete && !fully_processed(never_attempted, aborted_attempt_ids@.len())) <==> r is Err,
        r matches Err(m) ==> m@ == incomplete_message(never_attempted, aborted_attempt_ids@.len()),
{
    if require_complete && (never_attempted > 0 || aborted_attempt_ids.len() > 0) {
        let mut m = "export_incomplete: ".to_string();
        push_decimal(&mut m, never_attempted);
        push_str(&mut m, " row(s) never attempted, ");
        push_decimal(&mut m, aborted_attempt_ids.len() as u64);
        push_str(&mut m, " aborted attempt(s)");
        Err(m)
    } else {
        Ok(())
    }
}


/// One data file of an export: the success or the failure table, as CSV
/// or as JSON-Lines.
pub struct ExportFile {
    pub name: &'static str,
    pub successes: bool,
    pub jsonl: bool,
}

pub open spec fn file_view(f: ExportFile) -> (Seq<char>, bool, bool) {
    (f.name@, f.successes, f.jsonl)
}

/// The data files an export writes for a format, in order (besides
/// `resolution.json`, which every export writes): `csv` the two CSV files,
/// `jsonl` the two JSON-Lines files, `both` all four.
pub open spec fn export_files_spec(format: ExportFormat) -> Seq<(Seq<char>, bool, bool)> {
    let csv = seq![("success.csv"@, true, false), ("failed.csv"@, false, false)];
    let jsonl = seq![("success.jsonl"@, true, true), ("failed.jsonl"@, false, true)];
    match format {
        ExportFormat::Csv => csv,
        ExportFormat::Jsonl => jsonl,
        ExportFormat::Both => csv + jsonl,
    }
}

/// The data files an export writes for `format`.
pub fn export_files(format: ExportFormat) -> (v: Vec<ExportFile>)
    ensures
        v@.map_values(|f: ExportFile| file_view(f)) == export_files_spec(format),
{
    proof {
        reveal_strlit("success.csv");
        reveal_strlit("failed.csv");
        reveal_strlit("success.jsonl");
        reveal_strlit("failed.jsonl");
    }
    let mut v: Vec<ExportFile> = Vec::new();
    if format != ExportFormat::Jsonl {
        v.push(ExportFile { name: "success.csv", successes: true, jsonl: false });
        v.push(ExportFile { name: "failed.csv", successes: false, jsonl: false });
    }
    if format != ExportFormat::Csv {
        v.push(ExportFile { name: "success.jsonl", successes: true, jsonl: true });
        v.push(ExportFile { name: "failed.jsonl", successes: false, jsonl: true });
    }
    proof {
        assert(v@.map_values(|f: ExportFile| file_view(f)) =~= export_files_spec(format));
    }
    v
}

/// Whether an execution is fully processed.
pub fn is_fully_processed(never_attempted: u64, aborted_attempts: usize) -> (b: bool)
    ensures
        b == fully_processed(never_attempted, aborted_attempts as nat),
{
    never_attempted == 0 && aborted_attempts == 0
}

// ---------------------------------------------------------------------------
// Export tables
// ---------------------------------------------------------------------------

/// The error code of a row that no attempt reached.
pub const NEVER_ATTEMPTED: &'static str = "NEVER_ATTEMPTED";

pub open spec fn never_attempted_message() -> Seq<char> {
    "row was never attempted"@
}

/// The failure record an export lists for a row that no attempt reached.
pub open spec fn never_attempted_view(seq: u64) -> RecordView {
    error_record(Seq::empty(), seq, NEVER_ATTEMPTED@, never_attempted_message(), Seq::empty())
}

/// The leading columns of an export file.
pub open spec fn fixed_columns(successes: bool) -> Seq<Seq<char>> {
    if successes { seq!["seqid"@] } else { seq!["seqid"@, "errcode"@, "errmessage"@] }
}

/// The record row `k` contributes to the success file (`successes`) or to
/// the failure file: a resolved row its canonical success; a row that only
/// failed its latest failure; a row never attempted a `NEVER_ATTEMPTED`
/// failure.
pub open spec fn exported(k: u64, p: PerSeqView, successes: bool) -> Option<RecordView> {
    if successes {
        if p.state == ResolutionState::Resolved { p.canonical_success } else { None }
    } else {
        match p.state {
            ResolutionState::Resolved => None,
            ResolutionState::NeverAttempted => Some(never_attempted_view(k)),
            _ => p.latest_failure,
        }
    }
}

/// The records of an export file, by ascending seq below `n`.
pub open spec fn export_records(pv: Map<u64, PerSeqView>, n: nat, successes: bool) -> Seq<RecordView>
    decreases n,
{
    if n == 0 {
        Seq::empty()
    } else {
        let prev = export_records(pv, (n - 1) as nat, successes);
        let k = (n - 1) as u64;
        if pv.contains_key(k) {
            match exported(k, pv[k], successes) {
                Some(r) => prev.push(r),
                None => prev,
            }
        } else {
            prev
        }
    }
}

/// The keys of the records that are not among the leading columns.
pub open spec fn extra_keys(recs: Seq<RecordView>, fixed: Seq<Seq<char>>) -> Set<Seq<char>> {
    Set::new(|key: Seq<char>| !fixed.contains(key) && exists|i: int, j: int|
        0 <= i < recs.len() && 0 <= j < recs[i].headers.len() && #[trigger] recs[i].headers[j] == key)
}

/// The cell of `r` under `col`: the value at the first position whose
/// header is `col`; none when the record lacks that key.
pub open spec fn cell_is(r: RecordView, col: Seq<char>, c: Option<Seq<char>>) -> bool {
    let m = if r.headers.len() <= r.raw.len() { r.headers.len() } else { r.raw.len() };
    match c {
        None => forall|j: int| 0 <= j < m ==> r.headers[j] != col,
        Some(v) => exists|j: int| 0 <= j < m && r.headers[j] == col && v == r.raw[j]
            && forall|i: int| 0 <= i < j ==> r.headers[i] != col,
    }
}

/// The row of `r` under the columns `cols`.
pub open spec fn row_is(r: RecordView, cols: Seq<Seq<char>>, row: Seq<Option<String>>) -> bool {
    row.len() == cols.len() && forall|i: int| 0 <= i < cols.len() ==>
        cell_is(r, cols[i], opt_text(#[trigger] row[i]))
}

pub open spec fn opt_text(o: Option<String>) -> Option<Seq<char>> {
    match o {
        Some(s) => Some(s@),
        None => None,
    }
}

/// An export file's content: its header, then one row per record, each
/// cell aligned with the header (`None` where the record lacks the key).
pub struct ExportTable {
    pub columns: Vec<String>,
    pub rows: Vec<Vec<Option<String>>>,
}

fn copy_strings(v: &Vec<String>) -> (c: Vec<String>)
    ensures
        views(c@) == views(v@),
{
    let mut c: Vec<String> = Vec::new();
    let mut i: usize = 0;
    while i < v.len()
        invariant
            i <= v@.len(),
            c@.len() == i,
            views(c@) == views(v@).take(i as int),
        decreases v@.len() - i,
    {
        let ghost before = c@;
        let s = v[i].clone();
        c.push(s);
        proof {
            assert forall|k: int| 0 <= k < i + 1 implies #[trigger] views(c@)[k] == views(v@).take(i + 1)[k] by {
                if k < i {
                    assert(c@[k] == before[k]);
                    assert(views(before)[k] == views(v@).take(i as int)[k]);
                }
            }
            assert(views(c@) =~= views(v@).take(i + 1));
        }
        i = i + 1;
    }
    proof { assert(views(v@).take(v@.len() as int) =~= views(v@)); }
    c
}

fn copy_record(r: &OutcomeRecord) -> (c: OutcomeRecord)
    ensures
        c@ == r@,
{
    let raw = copy_strings(&r.raw);
    let headers = copy_strings(&r.headers);
    proof {
        assert(strings_view(raw@) =~= strings_view(r.raw@));
        assert(strings_view(headers@) =~= strings_view(r.headers@));
    }
    let code = match &r.code {
        Some(s) => Some(s.clone()),
        None => None,
    };
    OutcomeRecord { attempt_id: r.attempt_id.clone(), seq: r.seq, kind: r.kind, raw, headers, code }
}

/// The record row `k` contributes to an export file.
fn export_record(k: u64, p: &PerSeq, successes: bool) -> (r: Option<OutcomeRecord>)
    ensures
        opt_record_view(r) == exported(k, p@, successes),
{
    if successes {
        if p.state == ResolutionState::Resolved {
            match &p.canonical_success {
                Some(s) => Some(copy_record(s)),
                None => None,
            }
        } else {
            None
        }
    } else {
        match p.state {
            ResolutionState::Resolved => None,
            ResolutionState::NeverAttempted => {
                let none: String = String::new();
                proof { reveal_strlit("row was never attempted"); }
                Some(build_error_record(&none, k, NEVER_ATTEMPTED, "row was never attempted", None))
            },
            _ => match &p.latest_failure {
                Some(f) => Some(copy_record(f)),
                None => None,
            },
        }
    }
}

/// The records of an export file, in ascending seq order.
fn collect_records(res: &RowResolution, successes: bool) -> (v: Vec<OutcomeRecord>)
    ensures
        v@.map_values(|r: OutcomeRecord| r@)
            == export_records(per_seq_view(res.per_seq@), res.input_row_count as nat, successes),
{
    let ghost pv = per_seq_view(res.per_seq@);
    let mut v: Vec<OutcomeRecord> = Vec::new();
    let mut k: u64 = 0;
    while k < res.input_row_count
        invariant
            k <= res.input_row_count,
            pv == per_seq_view(res.per_seq@),
            v@.map_values(|r: OutcomeRecord| r@) == export_records(pv, k as nat, successes),
        decreases res.input_row_count - k,
    {
        let ghost before = v@;
        match res.per_seq.get(&k) {
            Some(p) => {
                proof { assert(pv.contains_key(k) && pv[k] == p@); }
                match export_record(k, p, successes) {
                    Some(r) => {
                        v.push(r);
                        proof {
                            assert(v@.map_values(|r: OutcomeRecord| r@)
                                =~= before.map_values(|r: OutcomeRecord| r@).push(r@));
                        }
                    },
                    None => {},
                }
            },
            None => {
                proof { assert(!pv.contains_key(k)); }
            },
        }
        k = k + 1;
    }
    v
}

/// Adds the non-leading keys of `r` to `extra`, keeping it ascending and
/// free of repeats.
fn add_keys(extra: &mut Vec<String>, fixed: &Vec<String>, r: &OutcomeRecord)
    requires
        strictly_ascending(views(old(extra)@)),
        views(old(extra)@).no_duplicates(),
    ensures
        strictly_ascending(views(final(extra)@)),
        views(final(extra)@).no_duplicates(),
        views(final(extra)@).to_set() == views(old(extra)@).to_set().union(
            extra_keys(seq![r@], views(fixed@))),
{
    let ghost start = views(extra@).to_set();
    let ghost fx = views(fixed@);
    let mut j: usize = 0;
    while j < r.headers.len()
        invariant
            j <= r.headers@.len(),
            strictly_ascending(views(extra@)),
            views(extra@).no_duplicates(),
            fx == views(fixed@),
            views(extra@).to_set() == start.union(Set::new(|key: Seq<char>| !fx.contains(key)
                && exists|jj: int| 0 <= jj < j && (#[trigger] r.headers@[jj])@ == key)),
        decreases r.headers@.len() - j,
    {
        let h = &r.headers[j];
        let ghost prev = views(extra@).to_set();
        if !contains_str(fixed, h.as_str()) && !contains_str(extra, h.as_str()) {
            insert_sorted(extra, h.clone());
        }
        proof {
            assert(views(extra@).to_set() =~= start.union(Set::new(|key: Seq<char>| !fx.contains(key)
                && exists|jj: int| 0 <= jj < j + 1 && (#[trigger] r.headers@[jj])@ == key))) by {
                assert forall|key: Seq<char>| #![auto] views(extra@).to_set().contains(key) <==>
                    start.union(Set::new(|key: Seq<char>| !fx.contains(key)
                        && exists|jj: int| 0 <= jj < j + 1 && (#[trigger] r.headers@[jj])@ == key)).contains(key) by {
                    if key == r.headers@[j as int]@ && !fx.contains(key) {
                        assert(r.headers@[j as int]@ == key);
                    }
                    if exists|jj: int| 0 <= jj < j + 1 && (#[trigger] r.headers@[jj])@ == key {
                        let jj = choose|jj: int| 0 <= jj < j + 1 && (#[trigger] r.headers@[jj])@ == key;
                        if jj < j {
                            assert(exists|jj: int| 0 <= jj < j && (#[trigger] r.headers@[jj])@ == key);
                        }
                    }
                }
            }
        }
        j = j + 1;
    }
    proof {
        let rs = seq![r@];
        assert(Set::new(|key: Seq<char>| !fx.contains(key)
            && exists|jj: int| 0 <= jj < j && (#[trigger] r.headers@[jj])@ == key)
            =~= extra_keys(rs, fx)) by {
            assert forall|key: Seq<char>| #![auto] extra_keys(rs, fx).contains(key) ==>
                exists|jj: int| 0 <= jj < j && (#[trigger] r.headers@[jj])@ == key by {
                if extra_keys(rs, fx).contains(key) {
                    let (i, jj) = choose|i: int, jj: int| 0 <= i < rs.len() && 0 <= jj < rs[i].headers.len()
                        && #[trigger] rs[i].headers[jj] == key;
                    assert(r.headers@[jj]@ == key);
                }
            }
            assert forall|key: Seq<char>| #![auto] (!fx.contains(key)
                && exists|jj: int| 0 <= jj < j && (#[trigger] r.headers@[jj])@ == key) ==> extra_keys(rs, fx).contains(key) by {
                if !fx.contains(key) && exists|jj: int| 0 <= jj < j && (#[trigger] r.headers@[jj])@ == key {
                    let jj = choose|jj: int| 0 <= jj < j && (#[trigger] r.headers@[jj])@ == key;
                    assert(rs[0].headers[jj] == key);
                }
            }
        }
    }
}

/// The cell of `r` under `col`.
fn cell_of(r: &OutcomeRecord, col: &str) -> (c: Option<String>)
    ensures
        cell_is(r@, col@, opt_text(c)),
{
    let m = if r.headers.len() <= r.raw.len() { r.headers.len() } else { r.raw.len() };
    proof {
        assert(r@.headers.len() == r.headers@.len());
        assert(r@.raw.len() == r.raw@.len());
    }
    let mut j: usize = 0;
    while j < m
        invariant
            j <= m,
            m == (if r.headers@.len() <= r.raw@.len() { r.headers@.len() } else { r.raw@.len() }),
            forall|i: int| 0 <= i < j ==> r@.headers[i] != col@,
        decreases m - j,
    {
        if str_eq(r.headers[j].as_str(), col) {
            let c = r.raw[j].clone();
            proof {
                assert(r@.headers[j as int] == col@);
                assert(r@.raw[j as int] == c@);
            }
            return Some(c);
        }
        j = j + 1;
    }
    None
}

/// The row of `r` under the columns `cols`.
fn aligned_row(r: &OutcomeRecord, cols: &Vec<String>) -> (row: Vec<Option<String>>)
    ensures
        row_is(r@, views(cols@), row@),
{
    let mut row: Vec<Option<String>> = Vec::new();
    let mut i: usize = 0;
    while i < cols.len()
        invariant
            i <= cols@.len(),
            row@.len() == i,
            forall|k: int| 0 <= k < i ==> cell_is(r@, cols@[k]@, opt_text(#[trigger] row@[k])),
        decreases cols@.len() - i,
    {
        row.push(cell_of(r, cols[i].as_str()));
        i = i + 1;
    }
    row
}

fn fixed_column_names(successes: bool) -> (v: Vec<String>)
    ensures
        views(v@) == fixed_columns(successes),
{
    let mut v: Vec<String> = Vec::new();
    proof {
        reveal_strlit("seqid");
        reveal_strlit("errcode");
        reveal_strlit("errmessage");
    }
    v.push("seqid".to_string());
    if !successes {
        v.push("errcode".to_string());
        v.push("errmessage".to_string());
    }
    proof { assert(views(v@) =~= fixed_columns(successes)); }
    v
}

/// The success file (`successes`) or the failure file of an export: the
/// leading columns (`seqid`, and for failures `errcode`, `errmessage`),
/// then every other key the file's records carry, each once, in ascending
/// order; then one row per record, by ascending seq, each cell taken from
/// the record under that column.
pub fn export_table(res: &RowResolution, successes: bool) -> (t: ExportTable)
    ensures
        ({
            let recs = export_records(per_seq_view(res.per_seq@), res.input_row_count as nat, successes);
            let cols = views(t.columns@);
            let fixed = fixed_columns(successes);
            let extra = cols.subrange(fixed.len() as int, cols.len() as int);
            &&& cols.len() >= fixed.len()
            &&& cols.subrange(0, fixed.len() as int) == fixed
            &&& strictly_ascending(extra)
            &&& extra.no_duplicates()
            &&& extra.to_set() == extra_keys(recs, fixed)
            &&& t.rows@.len() == recs.len()
            &&& forall|i: int| 0 <= i < recs.len() ==> row_is(recs[i], cols, #[trigger] t.rows@[i]@)
        }),
{
    let recs = collect_records(res, successes);
    let ghost rv = recs@.map_values(|r: OutcomeRecord| r@);
    let fixed = fixed_column_names(successes);
    let mut extra: Vec<String> = Vec::new();
    let mut i: usize = 0;
    proof { assert(views(extra@).to_set() =~= extra_keys(rv.take(0), views(fixed@))); }
    while i < recs.len()
        invariant
            i <= recs@.len(),
            rv == recs@.map_values(|r: OutcomeRecord| r@),
            strictly_ascending(views(extra@)),
            views(extra@).no_duplicates(),
            views(extra@).to_set() == extra_keys(rv.take(i as int), views(fixed@)),
        decreases recs@.len() - i,
    {
        let ghost before = views(extra@).to_set();
        add_keys(&mut extra, &fixed, &recs[i]);
        proof {
            let fx = views(fixed@);
            assert(extra_keys(rv.take(i + 1), fx) =~= extra_keys(rv.take(i as int), fx).union(extra_keys(seq![recs@[i as int]@], fx))) by {
                let a = rv.take(i + 1);
                let b = rv.take(i as int);
                let s = seq![recs@[i as int]@];
                assert forall|key: Seq<char>| #![auto] extra_keys(a, fx).contains(key) <==>
                    extra_keys(b, fx).union(extra_keys(s, fx)).contains(key) by {
                    if extra_keys(a, fx).contains(key) {
                        let (p, q) = choose|p: int, q: int| 0 <= p < a.len() && 0 <= q < a[p].headers.len() && #[trigger] a[p].headers[q] == key;
                        if p < i {
                            assert(b[p].headers[q] == key);
                        } else {
                            assert(s[0].headers[q] == key);
                        }
                    }
                    if extra_keys(b, fx).contains(key) {
                        let (p, q) = choose|p: int, q: int| 0 <= p < b.len() && 0 <= q < b[p].headers.len() && #[trigger] b[p].headers[q] == key;
                        assert(a[p].headers[q] == key);
                    }
                    if extra_keys(s, fx).contains(key) {
                        let (p, q) = choose|p: int, q: int| 0 <= p < s.len() && 0 <= q < s[p].headers.len() && #[trigger] s[p].headers[q] == key;
                        assert(a[i as int].headers[q] == key);
                    }
                }
            }
        }
        i = i + 1;
    }
    proof { assert(rv.take(recs@.len() as int) =~= rv); }
    let mut columns = fixed;
    let ghost fixed_v = views(columns@);
    let ghost extra_v = views(extra@);
    let mut e: usize = 0;
    while e < extra.len()
        invariant
            e <= extra@.len(),
            extra_v == views(extra@),
            extra_v.len() == extra@.len(),
            columns@.len() == fixed_v.len() + e,
            views(columns@) == fixed_v + extra_v.take(e as int),
        decreases extra@.len() - e,
    {
        let ghost before = columns@;
        let s = extra[e].clone();
        columns.push(s);
        proof {
            let target = fixed_v + extra_v.take(e + 1);
            assert forall|k: int| 0 <= k < columns@.len() implies #[trigger] views(columns@)[k] == target[k] by {
                if k < before.len() {
                    assert(columns@[k] == before[k]);
                    assert(views(before)[k] == (fixed_v + extra_v.take(e as int))[k]);
                }
            }
            assert(views(columns@) =~= target);
        }
        e = e + 1;
    }
    proof {
        assert(extra_v.take(extra@.len() as int) =~= extra_v);
        let cols = views(columns@);
        assert(cols.subrange(0, fixed_v.len() as int) =~= fixed_v);
        assert(cols.subrange(fixed_v.len() as int, cols.len() as int) =~= extra_v);
    }
    let mut rows: Vec<Vec<Option<String>>> = Vec::new();
    let mut r: usize = 0;
    while r < recs.len()
        invariant
            r <= recs@.len(),
            rv == recs@.map_values(|x: OutcomeRecord| x@),
            rows@.len() == r,
            forall|q: int| 0 <= q < r ==> row_is(rv[q], views(columns@), #[trigger] rows@[q]@),
        decreases recs@.len() - r,
    {
        rows.push(aligned_row(&recs[r], &columns));
        r = r + 1;
    }
    ExportTable { columns, rows }
}

// ---------------------------------------------------------------------------
// Writing an export table
// ---------------------------------------------------------------------------

/// The cells of an export row as CSV writes them: a missing cell is empty.
pub open spec fn csv_cells(row: Seq<Option<String>>) -> Seq<Seq<char>> {
    row.map_values(|c: Option<String>| match c {
        Some(t) => t@,
        None => Seq::<char>::empty(),
    })
}

pub open spec fn table_cells(rows: Seq<Vec<Option<String>>>) -> Seq<Seq<Seq<char>>> {
    rows.map_values(|r: Vec<Option<String>>| csv_cells(r@))
}

/// The CSV file of an export table: its header row, then each row, a
/// missing cell written empty.
pub fn export_csv(t: &ExportTable) -> (b: Vec<u8>)
    requires
        forall|i: int| 0 <= i < t.rows@.len() ==> (#[trigger] t.rows@[i])@.len() == t.columns@.len(),
    ensures
        b@ == csv_text(views(t.columns@), table_cells(t.rows@)),
{
    let mut rows: Vec<Vec<String>> = Vec::new();
    let mut i: usize = 0;
    while i < t.rows.len()
        invariant
            i <= t.rows@.len(),
            rows@.len() == i,
            forall|j: int| 0 <= j < i ==> views((#[trigger] rows@[j])@) == csv_cells(t.rows@[j]@),
        decreases t.rows@.len() - i,
    {
        let row = &t.rows[i];
        let mut cells: Vec<String> = Vec::new();
        let mut k: usize = 0;
        while k < row.len()
            invariant
                k <= row@.len(),
                views(cells@) == csv_cells(row@).take(k as int),
            decreases row@.len() - k,
        {
            let c = match &row[k] {
                Some(v) => v.clone(),
                None => String::new(),
            };
            let ghost before = views(cells@);
            cells.push(c);
            proof {
                assert(views(cells@) =~= before.push(c@));
                assert(csv_cells(row@).take(k + 1) =~= csv_cells(row@).take(k as int).push(csv_cells(row@)[k as int]));
            }
            k = k + 1;
        }
        proof { assert(csv_cells(row@).take(k as int) =~= csv_cells(row@)); }
        rows.push(cells);
        i = i + 1;
    }
    proof {
        assert(records_view(rows@) =~= table_cells(t.rows@)) by {
            assert forall|j: int| 0 <= j < rows@.len() implies #[trigger] records_view(rows@)[j] == table_cells(t.rows@)[j] by {
                assert(views(rows@[j]@) == csv_cells(t.rows@[j]@));
            }
        }
        assert forall|j: int| 0 <= j < rows@.len() implies (#[trigger] rows@[j])@.len() == t.columns@.len() by {
            assert(views(rows@[j]@).len() == rows@[j]@.len());
            assert(csv_cells(t.rows@[j]@).len() == t.rows@[j]@.len());
        }
    }
    write_csv(&t.columns, &rows)
}

/// The value a JSON-Lines export gives a cell: `null` when it is missing;
/// under `seqid`, the number when the cell reads as one (`u64::from_str`);
/// otherwise the string.
pub open spec fn jsonl_cell_value(col: Seq<char>, cell: Option<Seq<char>>) -> JsonView {
    match cell {
        None => JsonView::Null,
        Some(c) => if col == "seqid"@ && parse_u64_spec(c) is Some {
            JsonView::Encoded(spec_decimal(parse_u64_spec(c)->0 as nat))
        } else {
            JsonView::Str(c)
        },
    }
}

/// The value of one cell in a JSON-Lines export (see `jsonl_cell_value`).
pub fn jsonl_cell(col: &str, cell: &Option<String>) -> (v: JsonValue)
    ensures
        v@ == jsonl_cell_value(col@, opt_text(*cell)),
{
    match cell {
        None => JsonValue::Null,
        Some(c) => {
            proof { reveal_strlit("seqid"); }
            if str_eq(col, "seqid") {
                let cs = chars_of(c.as_str());
                proof { assert(cs@.subrange(0, cs@.len() as int) =~= c@); }
                if let Some(n) = parse_u64(&cs, 0, cs.len()) {
                    return JsonValue::Encoded(decimal(n));
                }
            }
            JsonValue::Str(c.clone())
        },
    }
}

/// One row of a JSON-Lines export: each column with the value of its cell,
/// in column order.
pub fn export_jsonl_row(columns: &Vec<String>, row: &Vec<Option<String>>) -> (d: Vec<Field>)
    requires
        row@.len() == columns@.len(),
    ensures
        d@.len() == columns@.len(),
        forall|i: int| 0 <= i < d@.len() ==> (#[trigger] d@[i]).key@ == columns@[i]@
            && d@[i].value@ == jsonl_cell_value(columns@[i]@, opt_text(row@[i])),
{
    let mut d: Vec<Field> = Vec::new();
    let mut i: usize = 0;
    while i < columns.len()
        invariant
            i <= columns@.len(),
            row@.len() == columns@.len(),
            d@.len() == i,
            forall|j: int| 0 <= j < i ==> (#[trigger] d@[j]).key@ == columns@[j]@
                && d@[j].value@ == jsonl_cell_value(columns@[j]@, opt_text(row@[j])),
        decreases columns@.len() - i,
    {
        let value = jsonl_cell(columns[i].as_str(), &row[i]);
        d.push(Field { key: columns[i].clone(), value });
        i = i + 1;
    }
    d
}

} // verus!
