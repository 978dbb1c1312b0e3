//! Turning a previous run's `failed.csv` into the input of a re-run: the
//! protocol and meta columns are dropped, and rows whose error code is not
//! re-runnable are left out.

use vstd::prelude::*;
use crate::codes::{should_filter, spec_should_filter};
use crate::delimited::{csv_table, csv_text, read_csv, records_of, write_csv};
use crate::text::{chars_of, push_str, starts_with_seq, str_eq, views};

verus! {

/// Whether a header row is that of a `failed.csv`: it has an `errcode` column.
pub open spec fn is_failed_header(headers: Seq<Seq<char>>) -> bool {
    headers.contains("errcode"@)
}

/// Whether a CSV with these headers looks like a `failed.csv`.
pub fn looks_like_failed_csv(headers: &Vec<String>) -> (b: bool)
    ensures
        b == is_failed_header(views(headers@)),
{
    let mut i: usize = 0;
    while i < headers.len()
        invariant
            i <= headers@.len(),
            forall|j: int| 0 <= j < i ==> (#[trigger] headers@[j])@ != "errcode"@,
        decreases headers@.len() - i,
    {
        if str_eq(headers[i].as_str(), "errcode") {
            proof { assert(views(headers@)[i as int] == "errcode"@); }
            return true;
        }
        i = i + 1;
    }
    proof {
        if views(headers@).contains("errcode"@) {
            let j = choose|j: int| 0 <= j < views(headers@).len() && views(headers@)[j] == "errcode"@;
            assert(headers@[j]@ == "errcode"@);
        }
    }
    false
}

/// A column carried into the re-run input: anything but `seqid`, `errcode`,
/// `errmessage` and the `meta_` columns.
pub open spec fn kept_column(h: Seq<char>) -> bool {
    h != "seqid"@ && h != "errcode"@ && h != "errmessage"@ && !starts_with_seq(h, "meta_"@)
}

/// The positions of the kept columns, in order.
pub open spec fn kept_positions(headers: Seq<Seq<char>>) -> Seq<int>
    decreases headers.len(),
{
    if headers.len() == 0 {
        Seq::empty()
    } else if kept_column(headers.last()) {
        kept_positions(headers.drop_last()).push(headers.len() - 1)
    } else {
        kept_positions(headers.drop_last())
    }
}

/// How a `failed.csv` becomes a re-run input.
pub struct RerunPlan {
    /// Positions of the columns carried over, in order.
    pub keep: Vec<usize>,
    /// Position of the `errcode` column, if any.
    pub errcode_idx: Option<usize>,
}

fn starts_with_meta(h: &str) -> (b: bool)
    ensures
        b == starts_with_seq(h@, "meta_"@),
{
    let cs = chars_of(h);
    proof { reveal_strlit("meta_"); }
    if cs.len() < 5 {
        return false;
    }
    let r = cs[0] == 'm' && cs[1] == 'e' && cs[2] == 't' && cs[3] == 'a' && cs[4] == '_';
    proof {
        if r {
            assert(h@.subrange(0, 5) =~= "meta_"@);
        } else {
            if h@.subrange(0, 5) == "meta_"@ {
                assert(h@.subrange(0, 5)[0] == cs@[0]);
                assert(h@.subrange(0, 5)[1] == cs@[1]);
                assert(h@.subrange(0, 5)[2] == cs@[2]);
                assert(h@.subrange(0, 5)[3] == cs@[3]);
                assert(h@.subrange(0, 5)[4] == cs@[4]);
            }
        }
    }
    r
}

/// The first position of `errcode` among the headers.
pub open spec fn errcode_position(headers: Seq<Seq<char>>, idx: Option<usize>) -> bool {
    match idx {
        Some(i) => i < headers.len() && headers[i as int] == "errcode"@
            && forall|j: int| 0 <= j < i ==> headers[j] != "errcode"@,
        None => !headers.contains("errcode"@),
    }
}

/// Plans the re-run input of a `failed.csv` from its header row.
pub fn rerun_plan(headers: &Vec<String>) -> (p: RerunPlan)
    ensures
        p.keep@.map_values(|i: usize| i as int) == kept_positions(views(headers@)),
        errcode_position(views(headers@), p.errcode_idx),
{
    let mut keep: Vec<usize> = Vec::new();
    let mut errcode_idx: Option<usize> = None;
    let mut i: usize = 0;
    while i < headers.len()
        invariant
            i <= headers@.len(),
            keep@.map_values(|k: usize| k as int) == kept_positions(views(headers@.take(i as int))),
            match errcode_idx {
                Some(e) => e < i && headers@[e as int]@ == "errcode"@
                    && forall|j: int| 0 <= j < e ==> (#[trigger] headers@[j])@ != "errcode"@,
                None => forall|j: int| 0 <= j < i ==> (#[trigger] headers@[j])@ != "errcode"@,
            },
        decreases headers@.len() - i,
    {
        let h = headers[i].as_str();
        let is_seqid = str_eq(h, "seqid");
        let is_code = str_eq(h, "errcode");
        let is_msg = str_eq(h, "errmessage");
        let is_meta = starts_with_meta(h);
        if is_code && errcode_idx.is_none() {
            errcode_idx = Some(i);
        }
        proof {
            let t = views(headers@.take(i + 1));
            assert(t.drop_last() =~= views(headers@.take(i as int)));
            assert(t.last() == headers@[i as int]@);
        }
        if !is_seqid && !is_code && !is_msg && !is_meta {
            keep.push(i);
            proof {
                assert(keep@.map_values(|k: usize| k as int)
                    =~= keep@.drop_last().map_values(|k: usize| k as int).push(i as int));
            }
        }
        i = i + 1;
    }
    proof {
        assert(headers@.take(headers@.len() as int) =~= headers@);
        match errcode_idx {
            Some(e) => {
                assert(views(headers@)[e as int] == headers@[e as int]@);
                assert forall|j: int| 0 <= j < e implies views(headers@)[j] != "errcode"@ by {
                    assert(views(headers@)[j] == headers@[j]@);
                }
            },
            None => {
                if views(headers@).contains("errcode"@) {
                    let j = choose|j: int| 0 <= j < views(headers@).len() && views(headers@)[j] == "errcode"@;
                    assert(headers@[j]@ == "errcode"@);
                }
            },
        }
    }
    RerunPlan { keep, errcode_idx }
}

/// The cells of a record at the kept positions; a missing cell is empty.
pub open spec fn kept_cells(keep: Seq<usize>, record: Seq<Seq<char>>) -> Seq<Seq<char>> {
    Seq::new(keep.len(), |k: int| if (keep[k] as int) < record.len() { record[keep[k] as int] } else { Seq::empty() })
}

/// Whether a record of the `failed.csv` is left out of the re-run: its
/// error code, when it has one, is not re-runnable.
pub open spec fn record_dropped(errcode_idx: Option<usize>, record: Seq<Seq<char>>, include_crash_rows: bool) -> bool {
    match errcode_idx {
        Some(i) => (i as int) < record.len() && spec_should_filter(record[i as int], include_crash_rows),
        None => false,
    }
}

/// The re-run row of one record of the `failed.csv`: `None` when the row is
/// left out, its kept cells otherwise.
pub fn rerun_row(plan: &RerunPlan, record: &Vec<String>, include_crash_rows: bool) -> (r: Option<Vec<String>>)
    ensures
        record_dropped(plan.errcode_idx, views(record@), include_crash_rows) <==> r is None,
        r matches Some(cells) ==> views(cells@) == kept_cells(plan.keep@, views(record@)),
{
    if let Some(i) = plan.errcode_idx {
        if i < record.len() {
            if should_filter(record[i].as_str(), include_crash_rows) {
                return None;
            }
        }
    }
    let mut cells: Vec<String> = Vec::new();
    let mut k: usize = 0;
    while k < plan.keep.len()
        invariant
            k <= plan.keep@.len(),
            views(cells@) == kept_cells(plan.keep@, views(record@)).take(k as int),
        decreases plan.keep@.len() - k,
    {
        let p = plan.keep[k];
        let c = if p < record.len() { record[p].clone() } else { String::new() };
        let ghost prev = views(cells@);
        proof {
            if (p as int) < record@.len() {
                assert(views(record@)[p as int] == record@[p as int]@);
            }
            assert(c@ == kept_cells(plan.keep@, views(record@))[k as int]);
        }
        cells.push(c);
        proof {
            assert(views(cells@) =~= prev.push(c@));
            assert(views(cells@) =~= kept_cells(plan.keep@, views(record@)).take(k + 1));
        }
        k = k + 1;
    }
    proof { assert(kept_cells(plan.keep@, views(record@)).take(k as int) =~= kept_cells(plan.keep@, views(record@))); }
    Some(cells)
}

/// The header row of the re-run input.
pub fn rerun_headers(plan: &RerunPlan, headers: &Vec<String>) -> (h: Vec<String>)
    ensures
        views(h@) == kept_cells(plan.keep@, views(headers@)),
{
    let mut h: Vec<String> = Vec::new();
    let mut k: usize = 0;
    while k < plan.keep.len()
        invariant
            k <= plan.keep@.len(),
            views(h@) == kept_cells(plan.keep@, views(headers@)).take(k as int),
        decreases plan.keep@.len() - k,
    {
        let p = plan.keep[k];
        let c = if p < headers.len() { headers[p].clone() } else { String::new() };
        let ghost prev = views(h@);
        proof {
            if (p as int) < headers@.len() {
                assert(views(headers@)[p as int] == headers@[p as int]@);
            }
            assert(c@ == kept_cells(plan.keep@, views(headers@))[k as int]);
        }
        h.push(c);
        proof {
            assert(views(h@) =~= prev.push(c@));
            assert(views(h@) =~= kept_cells(plan.keep@, views(headers@)).take(k + 1));
        }
        k = k + 1;
    }
    proof { assert(kept_cells(plan.keep@, views(headers@)).take(k as int) =~= kept_cells(plan.keep@, views(headers@))); }
    h
}


/// The records of a list of CSV records, by value.
pub open spec fn records_view(rs: Seq<Vec<String>>) -> Seq<Seq<Seq<char>>> {
    rs.map_values(|r: Vec<String>| views(r@))
}

/// The re-run rows of the records, in order: every record that is not
/// dropped, cut to the kept columns.
pub open spec fn rerun_records(keep: Seq<usize>, errcode_idx: Option<usize>, recs: Seq<Seq<Seq<char>>>,
    include_crash_rows: bool) -> Seq<Seq<Seq<char>>>
    decreases recs.len(),
{
    if recs.len() == 0 {
        Seq::empty()
    } else {
        let prev = rerun_records(keep, errcode_idx, recs.drop_last(), include_crash_rows);
        if record_dropped(errcode_idx, recs.last(), include_crash_rows) {
            prev
        } else {
            prev.push(kept_cells(keep, recs.last()))
        }
    }
}

/// A whole re-run input: its plan, header row and rows.
pub struct RerunInput {
    pub plan: RerunPlan,
    pub headers: Vec<String>,
    pub rows: Vec<Vec<String>>,
}

/// The re-run input of a `failed.csv` with this header row and these
/// records: the header without `seqid`, `errcode`, `errmessage` and the
/// `meta_*` columns (order kept), and, in order, exactly the records whose
/// error code is re-runnable, cut to the kept columns.
pub fn rerun_input(headers: &Vec<String>, records: &Vec<Vec<String>>, include_crash_rows: bool) -> (r: RerunInput)
    ensures
        r.plan.keep@.map_values(|i: usize| i as int) == kept_positions(views(headers@)),
        errcode_position(views(headers@), r.plan.errcode_idx),
        views(r.headers@) == kept_cells(r.plan.keep@, views(headers@)),
        records_view(r.rows@) == rerun_records(r.plan.keep@, r.plan.errcode_idx, records_view(records@), include_crash_rows),
{
    let plan = rerun_plan(headers);
    let out_headers = rerun_headers(&plan, headers);
    let mut rows: Vec<Vec<String>> = Vec::new();
    let mut i: usize = 0;
    while i < records.len()
        invariant
            i <= records@.len(),
            records_view(rows@) == rerun_records(plan.keep@, plan.errcode_idx,
                records_view(records@).take(i as int), include_crash_rows),
        decreases records@.len() - i,
    {
        let ghost before = rows@;
        proof {
            let t = records_view(records@).take(i + 1);
            assert(t.drop_last() =~= records_view(records@).take(i as int));
            assert(t.last() == views(records@[i as int]@));
        }
        match rerun_row(&plan, &records[i], include_crash_rows) {
            Some(cells) => {
                rows.push(cells);
                proof {
                    assert(records_view(rows@) =~= records_view(before).push(views(rows@.last()@)));
                }
            },
            None => {},
        }
        i = i + 1;
    }
    proof { assert(records_view(records@).take(records@.len() as int) =~= records_view(records@)); }
    RerunInput { plan, headers: out_headers, rows }
}

// ---------------------------------------------------------------------------
// From a failed.csv's bytes to the re-run input's bytes
// ---------------------------------------------------------------------------

/// The positions of the kept columns.
pub open spec fn keep_of(headers: Seq<Seq<char>>) -> Seq<usize> {
    kept_positions(headers).map_values(|i: int| i as usize)
}

/// The first position of `errcode` among the headers, if any.
pub open spec fn errcode_of(headers: Seq<Seq<char>>) -> Option<usize> {
    if headers.contains("errcode"@) {
        Some(choose|i: usize| errcode_position(headers, Some(i)))
    } else {
        None
    }
}

proof fn lemma_errcode_of(headers: Seq<Seq<char>>, idx: Option<usize>)
    requires
        errcode_position(headers, idx),
    ensures
        idx == errcode_of(headers),
{
    if let Some(i) = idx {
        assert(headers.contains("errcode"@)) by { assert(headers[i as int] == "errcode"@); }
        let c = choose|c: usize| errcode_position(headers, Some(c));
        assert(errcode_position(headers, Some(c)));
        if c < i {
            assert(headers[c as int] == "errcode"@);
        }
        if i < c {
            assert(headers[i as int] == "errcode"@);
        }
    }
}

proof fn lemma_rerun_records_len(keep: Seq<usize>, errcode_idx: Option<usize>, recs: Seq<Seq<Seq<char>>>,
    include_crash_rows: bool)
    ensures
        forall|i: int| 0 <= i < rerun_records(keep, errcode_idx, recs, include_crash_rows).len() ==>
            (#[trigger] rerun_records(keep, errcode_idx, recs, include_crash_rows)[i]).len() == keep.len(),
    decreases recs.len(),
{
    if recs.len() > 0 {
        lemma_rerun_records_len(keep, errcode_idx, recs.drop_last(), include_crash_rows);
        let prev = rerun_records(keep, errcode_idx, recs.drop_last(), include_crash_rows);
        let cur = rerun_records(keep, errcode_idx, recs, include_crash_rows);
        assert forall|i: int| 0 <= i < cur.len() implies (#[trigger] cur[i]).len() == keep.len() by {
            if i < prev.len() {
                assert(cur[i] == prev[i]);
            }
        }
    }
}

/// The error text of the first record that could not be read, if any.
pub open spec fn first_record_error(recs: Seq<Result<Seq<Seq<char>>, Seq<char>>>) -> Option<Seq<char>>
    decreases recs.len(),
{
    if recs.len() == 0 {
        None
    } else {
        match first_record_error(recs.drop_last()) {
            Some(e) => Some(e),
            None => match recs.last() {
                Err(e) => Some(e),
                Ok(_) => None,
            },
        }
    }
}

/// The cells of the records that could be read, in order.
pub open spec fn ok_records(recs: Seq<Result<Seq<Seq<char>>, Seq<char>>>) -> Seq<Seq<Seq<char>>>
    decreases recs.len(),
{
    if recs.len() == 0 {
        Seq::empty()
    } else {
        match recs.last() {
            Ok(c) => ok_records(recs.drop_last()).push(c),
            Err(_) => ok_records(recs.drop_last()),
        }
    }
}

fn csv_error(e: &str) -> (m: String)
    ensures
        m@ == "csv: "@ + e@,
{
    let mut m = "csv: ".to_string();
    push_str(&mut m, e);
    m
}

/// Whether a CSV input, given by its content, is a `failed.csv` (see
/// `is_failed_header`); an error when its header row cannot be read.
pub fn failed_csv_input(content: &[u8]) -> (r: Result<bool, String>)
    ensures
        match csv_table(content@) {
            Ok((h, _)) => r == Ok::<bool, String>(is_failed_header(h)),
            Err(e) => r matches Err(m) && m@ == "csv: "@ + e,
        },
{
    match read_csv(content) {
        Ok((headers, _)) => Ok(looks_like_failed_csv(&headers)),
        Err(e) => Err(csv_error(e.as_str())),
    }
}

/// The records of a CSV, all read, in order; the first record's error when
/// one could not be read.
fn read_records(records: Vec<Result<Vec<String>, String>>) -> (r: Result<Vec<Vec<String>>, String>)
    ensures
        match first_record_error(records_of(records@)) {
            Some(e) => r matches Err(m) && m@ == e,
            None => r matches Ok(cells) && records_view(cells@) == ok_records(records_of(records@)),
        },
{
    let ghost e0 = records@;
    let n = records.len();
    let mut rest = records;
    let mut rev: Vec<Result<Vec<String>, String>> = Vec::new();
    while rest.len() > 0
        invariant
            e0 == records@,
            n == e0.len(),
            rev@.len() + rest@.len() == n,
            rest@ == e0.take(rest@.len() as int),
            forall|j: int| 0 <= j < rev@.len() ==> #[trigger] rev@[j] == e0[n - 1 - j],
        decreases rest@.len(),
    {
        let k = rest.len() - 1;
        let e = rest.pop().unwrap();
        proof { assert(e == e0[k as int]); }
        rev.push(e);
        proof { assert(rest@ =~= e0.take(rest@.len() as int)); }
    }
    let mut cells: Vec<Vec<String>> = Vec::new();
    let mut i: usize = 0;
    while rev.len() > 0
        invariant
            e0 == records@,
            n == e0.len(),
            rev@.len() + i == n,
            forall|j: int| 0 <= j < rev@.len() ==> #[trigger] rev@[j] == e0[n - 1 - j],
            first_record_error(records_of(e0.take(i as int))) is None,
            records_view(cells@) == ok_records(records_of(e0.take(i as int))),
        decreases rev@.len(),
    {
        let r = rev.pop().unwrap();
        proof {
            assert(r == e0[i as int]);
            assert(records_of(e0.take(i + 1)).drop_last() =~= records_of(e0.take(i as int)));
            assert(records_of(e0.take(i + 1)).last() == records_of(e0)[i as int]);
        }
        match r {
            Ok(c) => {
                let ghost before = cells@;
                cells.push(c);
                proof { assert(records_view(cells@) =~= records_view(before).push(views(c@))); }
            },
            Err(e) => {
                proof {
                    assert(records_of(e0)[i as int] == Err::<Seq<Seq<char>>, Seq<char>>(e@));
                    assert(first_record_error(records_of(e0.take(i + 1))) == Some(e@));
                    assert(records_of(e0.take(i + 1)) =~= records_of(e0).take(i + 1));
                    lemma_first_error_prefix(records_of(e0), i as int + 1);
                    assert(first_record_error(records_of(e0)) == Some(e@));
                }
                return Err(e);
            },
        }
        i = i + 1;
    }
    proof { assert(e0.take(n as int) =~= e0); }
    Ok(cells)
}

proof fn lemma_first_error_prefix(recs: Seq<Result<Seq<Seq<char>>, Seq<char>>>, k: int)
    requires
        0 <= k <= recs.len(),
        first_record_error(recs.take(k)) is Some,
    ensures
        first_record_error(recs) == first_record_error(recs.take(k)),
    decreases recs.len() - k,
{
    if k < recs.len() {
        assert(recs.take(k + 1).drop_last() =~= recs.take(k));
        lemma_first_error_prefix(recs, k + 1);
    } else {
        assert(recs.take(k) =~= recs);
    }
}

/// The re-run input of a `failed.csv`, from its content to the content of
/// the CSV to run instead: the header row without `seqid`, `errcode`,
/// `errmessage` and the `meta_*` columns, then, in order, exactly the
/// records whose error code is re-runnable, cut to the kept columns. An
/// error when the header row or any record cannot be read (the first one).
pub fn prepare_rerun_csv(content: &[u8], include_crash_rows: bool) -> (r: Result<Vec<u8>, String>)
    ensures
        match csv_table(content@) {
            Err(e) => r matches Err(m) && m@ == "csv: "@ + e,
            Ok((h, recs)) => match first_record_error(recs) {
                Some(e) => r matches Err(m) && m@ == "csv: "@ + e,
                None => r matches Ok(b) && b@ == csv_text(kept_cells(keep_of(h), h),
                    rerun_records(keep_of(h), errcode_of(h), ok_records(recs), include_crash_rows)),
            },
        },
{
    let (headers, records) = match read_csv(content) {
        Ok(t) => t,
        Err(e) => return Err(csv_error(e.as_str())),
    };
    let cells = match read_records(records) {
        Ok(c) => c,
        Err(e) => return Err(csv_error(e.as_str())),
    };
    let input = rerun_input(&headers, &cells, include_crash_rows);
    proof {
        let h = views(headers@);
        assert(input.plan.keep@ =~= keep_of(h)) by {
            assert forall|k: int| 0 <= k < input.plan.keep@.len() implies #[trigger] input.plan.keep@[k] == keep_of(h)[k] by {
                assert(input.plan.keep@.map_values(|i: usize| i as int)[k] == input.plan.keep@[k] as int);
            }
        }
        lemma_errcode_of(h, input.plan.errcode_idx);
        lemma_rerun_records_len(input.plan.keep@, input.plan.errcode_idx, records_view(cells@), include_crash_rows);
        assert(views(input.headers@).len() == input.headers@.len());
        assert forall|i: int| 0 <= i < input.rows@.len() implies (#[trigger] input.rows@[i])@.len() == input.headers@.len() by {
            assert(records_view(input.rows@)[i] == views(input.rows@[i]@));
            assert(views(input.rows@[i]@).len() == input.rows@[i]@.len());
        }
    }
    Ok(write_csv(&input.headers, &input.rows))
}

} // verus!
