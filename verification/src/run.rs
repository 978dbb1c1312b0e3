//! The decisions of one run of a handler over an input file: how many rows it
//! may dispatch, where its files go, which configuration the handler sees, and
//! what the run reports.

use vstd::prelude::*;
use crate::input::InputFormat;
use crate::meta::Stats;
use crate::outcome::Field;
use crate::pool::{RunStats, StreamingPoolReport};
use crate::reader::{fields_map, keys_distinct, set_field};
use crate::outcome::JsonView;
use crate::tally::CodeTally;
use crate::text::{chars_of, push_str, starts_with_seq, str_eq};

verus! {

/// Progress events of a run.
#[allow(inconsistent_fields)]
#[derive(Clone, Copy, Debug, PartialEq, Eq, Structural)]
pub enum RunProgressEvent {
    Started { total_rows: u64 },
    RowDone { seq: u64, success: bool },
    Completed { success: u64, failed: u64 },
}

/// What a run returns.
pub struct RunReport {
    pub success_count: u64,
    pub failed_count: u64,
    pub by_error_code: CodeTally,
    pub run_dir: String,
    /// The run did not process every queued row to completion.
    pub aborted: bool,
    /// Why, when `aborted`.
    pub abort_reason: Option<String>,
}

/// The row limit of a run: an explicit limit wins; otherwise a dry run is
/// limited to its sample size; otherwise there is no limit.
pub fn effective_row_limit(row_limit: Option<usize>, dry_run: bool, dry_run_sample: usize) -> (l: Option<usize>)
    ensures
        l == (match row_limit {
            Some(n) => Some(n),
            None => if dry_run { Some(dry_run_sample) } else { None },
        }),
{
    match row_limit {
        Some(n) => Some(n),
        None => if dry_run { Some(dry_run_sample) } else { None },
    }
}

/// The row total announced when a run starts: the number of requested seqs
/// when only some rows are wanted, the input's row count otherwise.
pub fn started_total_rows(only_row_ids: &Option<Vec<u64>>, input_row_count: u64) -> (n: u64)
    ensures
        n == (match only_row_ids {
            Some(v) => v@.len() as u64,
            None => input_row_count,
        }),
{
    match only_row_ids {
        Some(v) => v.len() as u64,
        None => input_row_count,
    }
}

/// Whether the canonical path `out` is `dir` or lies inside it, comparing
/// whole components (`Path::starts_with`).
pub open spec fn path_within(out: Seq<char>, dir: Seq<char>) -> bool {
    out == dir || if dir.len() > 0 && dir.last() == '/' {
        starts_with_seq(out, dir)
    } else {
        starts_with_seq(out, dir + "/"@)
    }
}

fn seq_starts_with(s: &Vec<char>, p: &Vec<char>) -> (b: bool)
    ensures
        b == starts_with_seq(s@, p@),
{
    if p.len() > s.len() {
        return false;
    }
    let mut i: usize = 0;
    while i < p.len()
        invariant
            i <= p@.len() <= s@.len(),
            forall|j: int| 0 <= j < i ==> s@[j] == p@[j],
        decreases p@.len() - i,
    {
        if s[i] != p[i] {
            proof { assert(s@.subrange(0, p@.len() as int)[i as int] != p@[i as int]); }
            return false;
        }
        i = i + 1;
    }
    proof { assert(s@.subrange(0, p@.len() as int) =~= p@); }
    true
}

/// Whether a run's output directory is its handler directory or inside it
/// (both canonical), which the run refuses: snapshotting the handler would
/// copy the output into itself.
pub fn output_inside_handler(output_canon: &str, handler_canon: &str) -> (b: bool)
    ensures
        b == path_within(output_canon@, handler_canon@),
{
    if str_eq(output_canon, handler_canon) {
        return true;
    }
    let o = chars_of(output_canon);
    let mut h = chars_of(handler_canon);
    let ends_in_slash = h.len() > 0 && h[h.len() - 1] == '/';
    if !ends_in_slash {
        h.push('/');
        proof {
            reveal_strlit("/");
            assert(h@ =~= handler_canon@ + "/"@);
        }
    } else {
        proof { assert(handler_canon@.last() == h@[h@.len() - 1]); }
    }
    seq_starts_with(&o, &h)
}

pub open spec fn inside_handler_message(output: Seq<char>, handler: Seq<char>) -> Seq<char> {
    "output_dir ("@ + output + ") must not be inside handler dir ("@ + handler
        + ") \u{2014} handler-snapshot would recursively copy itself. Pick an output_dir outside the handler folder."@
}

/// The refusal for an output directory inside the handler directory.
pub fn inside_handler_message_text(output: &str, handler: &str) -> (m: String)
    ensures
        m@ == inside_handler_message(output@, handler@),
{
    let mut m = "output_dir (".to_string();
    push_str(&mut m, output);
    push_str(&mut m, ") must not be inside handler dir (");
    push_str(&mut m, handler);
    push_str(&mut m, ") \u{2014} handler-snapshot would recursively copy itself. Pick an output_dir outside the handler folder.");
    m
}

/// The file name of the input's copy in the run directory.
pub fn input_snapshot_name(format: InputFormat) -> (n: &'static str)
    ensures
        n@ == (match format { InputFormat::Csv => "input.csv"@, InputFormat::Jsonl => "input.jsonl"@ }),
{
    proof {
        reveal_strlit("input.csv");
        reveal_strlit("input.jsonl");
    }
    match format {
        InputFormat::Csv => "input.csv",
        InputFormat::Jsonl => "input.jsonl",
    }
}

/// Whether an entry of the handler directory is left out of the run's
/// handler snapshot (build output, dependencies, caches, VCS data).
pub open spec fn snapshot_ignored(name: Seq<char>) -> bool {
    name == "target"@ || name == "node_modules"@ || name == "__pycache__"@ || name == "dist"@
        || name == ".venv"@ || name == ".git"@
}

pub fn is_snapshot_ignored(name: &str) -> (b: bool)
    ensures
        b == snapshot_ignored(name@),
{
    str_eq(name, "target") || str_eq(name, "node_modules") || str_eq(name, "__pycache__")
        || str_eq(name, "dist") || str_eq(name, ".venv") || str_eq(name, ".git")
}

/// The map after inserting each field in turn.
pub open spec fn insert_all(m: Map<Seq<char>, JsonView>, fs: Seq<Field>) -> Map<Seq<char>, JsonView>
    decreases fs.len(),
{
    if fs.len() == 0 {
        m
    } else {
        insert_all(m, fs.drop_last()).insert(fs.last().key@, fs.last().value@)
    }
}

/// The configuration the handler sees: the manifest's defaults, overlaid by
/// the caller's overrides in order.
pub fn effective_config(defaults: Vec<Field>, overrides: Vec<Field>) -> (c: Vec<Field>)
    requires
        keys_distinct(defaults@),
    ensures
        keys_distinct(c@),
        fields_map(c@) == insert_all(fields_map(defaults@), overrides@),
{
    let n_ov: usize = overrides.len();
    let ghost base = fields_map(defaults@);
    let ghost ov = overrides@;
    let mut c = defaults;
    let mut rest = overrides;
    assert(ov.len() <= usize::MAX);
    // Overrides are applied front to back; `rest` is kept reversed so that
    // the next one can be popped.
    let mut rev: Vec<Field> = Vec::new();
    while rest.len() > 0
        invariant
            rev@.len() + rest@.len() == ov.len(),
            rest@ == ov.take(rest@.len() as int),
            forall|j: int| 0 <= j < rev@.len() ==> #[trigger] rev@[j] == ov[ov.len() - 1 - j],
        decreases rest@.len(),
    {
        let f = rest.pop().unwrap();
        rev.push(f);
        proof { assert(rest@ =~= ov.take(rest@.len() as int)); }
    }
    let mut i: usize = 0;
    while rev.len() > 0
        invariant
            i + rev@.len() == ov.len(),
            ov.len() <= usize::MAX,
            forall|j: int| 0 <= j < rev@.len() ==> #[trigger] rev@[j] == ov[ov.len() - 1 - j],
            keys_distinct(c@),
            fields_map(c@) == insert_all(base, ov.take(i as int)),
        decreases rev@.len(),
    {
        let f = rev.pop().unwrap();
        proof {
            assert(f == ov[i as int]);
            assert(ov.take(i + 1).drop_last() =~= ov.take(i as int));
        }
        set_field(&mut c, f.key, f.value);
        i = i + 1;
    }
    proof { assert(ov.take(ov.len() as int) =~= ov); }
    c
}

/// The report of a run from its tallied outcomes and how the pool ended.
pub fn run_report(stats: RunStats, run_dir: String, pool: StreamingPoolReport) -> (r: RunReport)
    ensures
        r.success_count == stats.success,
        r.failed_count == stats.failed,
        r.by_error_code == stats.by_error_code,
        r.run_dir == run_dir,
        r.aborted == pool.aborted,
        r.abort_reason == pool.abort_reason,
{
    RunReport {
        success_count: stats.success,
        failed_count: stats.failed,
        by_error_code: stats.by_error_code,
        run_dir,
        aborted: pool.aborted,
        abort_reason: pool.abort_reason,
    }
}

/// The statistics a run records in its metadata: its tallies, with no mean
/// duration (the streaming pipeline does not time rows).
pub fn run_meta_stats(stats: &RunStats) -> (s: Stats)
    requires
        stats.wf(),
    ensures
        s.success == stats.success,
        s.failed == stats.failed,
        s.avg_dur_ms == 0,
        s.by_error_code.wf(),
        forall|c: Seq<char>| #[trigger] s.by_error_code.count(c) == stats.by_error_code.count(c),
{
    Stats {
        success: stats.success,
        failed: stats.failed,
        by_error_code: stats.by_error_code.copy(),
        avg_dur_ms: 0,
    }
}

/// The exit status of a run: 2 when it was aborted, 1 when some row failed,
/// 0 otherwise.
pub fn run_exit_code(aborted: bool, failed_count: u64) -> (code: i32)
    ensures
        code == (if aborted { 2i32 } else if failed_count > 0 { 1i32 } else { 0i32 }),
{
    if aborted { 2 } else if failed_count > 0 { 1 } else { 0 }
}

} // verus!
