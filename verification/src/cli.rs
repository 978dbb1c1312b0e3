//! The command-line surface: argument shapes, `K=V` options, the retry
//! policy of `exec run`, and exit codes.

use vstd::prelude::*;
use std::collections::HashSet;
use crate::resolution::{attempted_set, failed_set, initial_view, lemma_ingest_keeps_seqs, per_seq_view, AttemptOutcomes, ResolutionState, RowResolution};
use crate::store::{ExecutionState, Simulation, Source};
use crate::text::{chars_of, contains, contains_seq, push_decimal, push_str, spec_decimal, substring};

verus! {

broadcast use vstd::std_specs::hash::group_hash_axioms;

/// `rowforge exec ...`.
pub struct ExecArgs {
    pub cmd: ExecCmd,
}

/// The `exec` subcommands.
pub enum ExecCmd {
    /// Create an execution from an input file.
    Start(StartArgs),
    /// List executions, newest first.
    List,
    /// Show one execution.
    Show(ShowArgs),
    /// Move an execution to another state.
    SetState(SetStateArgs),
    /// Run an attempt.
    Run(RunAttemptArgs),
    /// List an execution's attempts.
    Attempts(AttemptsArgs),
    /// Show one attempt.
    Attempt(AttemptShowArgs),
    /// Export an execution's merged results.
    Export(ExportArgs),
    /// Delete one execution, or every one without an active run.
    Delete { exec_id: Option<String>, all_completed: bool },
}

/// `exec run`.
pub struct RunAttemptArgs {
    pub exec_id: String,
    pub handler: String,
    /// Dispatch at most this many rows.
    pub sample: Option<usize>,
    /// Mark every row as a dry run.
    pub dry_run: bool,
    pub workers: u32,
    /// Handler config overrides `key=json`.
    pub config: Vec<(String, String)>,
    /// Field renames `schema_field=column`.
    pub field_map: Vec<(String, String)>,
    /// Re-dispatch every row.
    pub force: bool,
    /// Re-dispatch only failed rows.
    pub retry_failed: bool,
    pub fsync_outcomes: bool,
}

/// `exec attempts`.
pub struct AttemptsArgs {
    pub exec_id: String,
}

/// `exec attempt`.
pub struct AttemptShowArgs {
    pub attempt_id: String,
}

/// `exec export --format`.
#[derive(Clone, Copy, Debug, PartialEq, Eq, Structural)]
pub enum ExportFormat {
    Csv,
    Jsonl,
    Both,
}

/// `exec export`.
pub struct ExportArgs {
    pub exec_id: String,
    pub output_dir: Option<String>,
    pub format: ExportFormat,
    /// Fail with exit code 3 when the execution is not fully processed.
    pub strict: bool,
}

/// `exec start`.
pub struct StartArgs {
    pub csv: String,
    pub name: Option<String>,
    pub csv_id: String,
    pub handler_instance_id: Option<String>,
}

/// `exec show`.
pub struct ShowArgs {
    pub id: String,
}

/// `exec set-state`.
pub struct SetStateArgs {
    pub id: String,
    pub state: CliState,
    /// Required when abandoning.
    pub reason: Option<String>,
}

/// An execution state as given on the command line.
#[derive(Clone, Copy, Debug, PartialEq, Eq, Structural)]
pub enum CliState {
    Open,
    Iterating,
    Settled,
    Closed,
    Abandoned,
}

pub open spec fn cli_state_of(c: CliState) -> ExecutionState {
    match c {
        CliState::Open => ExecutionState::Open,
        CliState::Iterating => ExecutionState::Iterating,
        CliState::Settled => ExecutionState::Settled,
        CliState::Closed => ExecutionState::Closed,
        CliState::Abandoned => ExecutionState::Abandoned,
    }
}

impl From<CliState> for ExecutionState {
    fn from(c: CliState) -> (s: ExecutionState) {
        match c {
            CliState::Open => ExecutionState::Open,
            CliState::Iterating => ExecutionState::Iterating,
            CliState::Settled => ExecutionState::Settled,
            CliState::Closed => ExecutionState::Closed,
            CliState::Abandoned => ExecutionState::Abandoned,
        }
    }
}

impl vstd::std_specs::convert::FromSpecImpl<CliState> for ExecutionState {
    open spec fn obeys_from_spec() -> bool {
        true
    }

    open spec fn from_spec(c: CliState) -> ExecutionState {
        cli_state_of(c)
    }
}

/// `rowforge run`.
pub struct RunArgs {
    pub handler: String,
    pub input: String,
    pub output_dir: String,
    pub workers: u32,
    pub dry_run: bool,
    pub dry_run_sample: usize,
    pub field_map: Vec<(String, String)>,
    pub config: Vec<(String, String)>,
    pub quiet: bool,
    pub json_events: bool,
    pub include_crash_rows: bool,
    pub parent_run_id: Option<String>,
}

// ---------------------------------------------------------------------------
// Options
// ---------------------------------------------------------------------------

/// A `K=V` option: split at the first `=`; without one it is refused.
pub fn parse_kv(s: &str) -> (r: Result<(String, String), String>)
    ensures
        match r {
            Ok((k, v)) => exists|i: int| 0 <= i < s@.len() && s@[i] == '='
                && (forall|j: int| 0 <= j < i ==> s@[j] != '=')
                && k@ == s@.subrange(0, i) && v@ == s@.subrange(i + 1, s@.len() as int),
            Err(m) => (forall|j: int| 0 <= j < s@.len() ==> s@[j] != '=')
                && m@ == "expected K=V, got '"@ + s@ + "'"@,
        },
{
    let cs = chars_of(s);
    let mut i: usize = 0;
    while i < cs.len()
        invariant
            i <= cs@.len(),
            cs@ == s@,
            forall|j: int| 0 <= j < i ==> cs@[j] != '=',
        decreases cs@.len() - i,
    {
        if cs[i] == '=' {
            let k = substring(&cs, 0, i);
            let v = substring(&cs, i + 1, cs.len());
            return Ok((k, v));
        }
        i = i + 1;
    }
    let mut m = "expected K=V, got '".to_string();
    push_str(&mut m, s);
    push_str(&mut m, "'");
    Err(m)
}

/// An abandoned state needs a reason.
pub fn check_set_state(state: ExecutionState, reason: &Option<String>) -> (r: Result<(), String>)
    ensures
        (state == ExecutionState::Abandoned && reason is None) <==> r is Err,
        r matches Err(m) ==> m@ == "--reason is required when setting state to abandoned"@,
{
    if state == ExecutionState::Abandoned && reason.is_none() {
        proof { reveal_strlit("--reason is required when setting state to abandoned"); }
        return Err("--reason is required when setting state to abandoned".to_string());
    }
    Ok(())
}

/// The source of an attempt: a sample of `n` rows (as a 32-bit size) or
/// the full input.
pub fn attempt_source(sample: Option<usize>) -> (s: Source)
    ensures
        s == (match sample { Some(n) => Source::Sampled { size: n as u32 }, None => Source::Full }),
{
    match sample {
        Some(n) => Source::Sampled { size: n as u32 },
        None => Source::Full,
    }
}

/// The simulation of an attempt.
pub fn attempt_simulation(dry_run: bool) -> (s: Simulation)
    ensures
        s == (if dry_run { Simulation::Dry } else { Simulation::Real }),
{
    if dry_run { Simulation::Dry } else { Simulation::Real }
}

/// How a source is listed: `full`, or `sampled(<size>)`.
pub fn source_label(source: Source) -> (l: String)
    ensures
        l@ == (match source {
            Source::Full => "full"@,
            Source::Sampled { size } => "sampled("@ + spec_decimal(size as nat) + ")"@,
        }),
{
    match source {
        Source::Full => {
            proof { reveal_strlit("full"); }
            "full".to_string()
        },
        Source::Sampled { size } => {
            let mut l = "sampled(".to_string();
            push_decimal(&mut l, size as u64);
            push_str(&mut l, ")");
            l
        },
    }
}

/// The names an execution's input copy may have, in the order they are
/// looked for.
pub fn input_snapshot_candidates() -> (v: Vec<&'static str>)
    ensures
        v@.len() == 3,
        v@[0]@ == "input.jsonl"@,
        v@[1]@ == "input.ndjson"@,
        v@[2]@ == "input.csv"@,
{
    let mut v: Vec<&'static str> = Vec::new();
    v.push("input.jsonl");
    v.push("input.ndjson");
    v.push("input.csv");
    v
}

// ---------------------------------------------------------------------------
// Retry policy
// ---------------------------------------------------------------------------

/// The seqs an attempt skips. With `force`, none. With `retry_failed`,
/// every input seq that is not a failure (so only failures are dispatched).
/// Otherwise every seq that was attempted before (so each row is dispatched
/// at most once).
pub open spec fn skip_set(force: bool, retry_failed: bool, input_row_count: u64, res: RowResolution) -> Set<u64> {
    if force {
        Set::empty()
    } else if retry_failed {
        Set::new(|k: u64| k < input_row_count && !failed_set(per_seq_view(res.per_seq@)).contains(k))
    } else {
        attempted_set(per_seq_view(res.per_seq@))
    }
}

/// The seqs the next attempt of an execution skips, by its retry policy.
pub fn retry_skip_seqs(force: bool, retry_failed: bool, input_row_count: u64, res: &RowResolution) -> (s: HashSet<u64>)
    ensures
        s@ == skip_set(force, retry_failed, input_row_count, *res),
{
    if force {
        let s: HashSet<u64> = HashSet::new();
        return s;
    }
    if retry_failed {
        let failures = res.failed_seqs();
        let mut s: HashSet<u64> = HashSet::new();
        let mut k: u64 = 0;
        while k < input_row_count
            invariant
                k <= input_row_count,
                failures@ == failed_set(per_seq_view(res.per_seq@)),
                s@ == Set::new(|j: u64| j < k && !failures@.contains(j)),
            decreases input_row_count - k,
        {
            if !failures.contains(&k) {
                s.insert(k);
            }
            proof {
                assert(s@ =~= Set::new(|j: u64| j < k + 1 && !failures@.contains(j)));
            }
            k = k + 1;
        }
        proof {
            assert(s@ =~= skip_set(force, retry_failed, input_row_count, *res));
        }
        return s;
    }
    res.attempted_seqs()
}

// ---------------------------------------------------------------------------
// Exit codes
// ---------------------------------------------------------------------------

/// `str::to_lowercase` of a string, as std computes it.
pub uninterp spec fn unicode_lowercase(s: Seq<char>) -> Seq<char>;

/// Calls `str::to_lowercase`. The contract names the result
/// `unicode_lowercase(s)`; the Unicode case mapping is not stated.
#[verifier::external_body]
fn to_lowercase(s: &str) -> (r: String)
    ensures
        r@ == unicode_lowercase(s@),
{
    s.to_lowercase()
}

/// The exit status of a failed `rowforge run`, from the error's full text:
/// 2 when the run was aborted (a startup timeout, or no worker started), 3
/// for an argument or configuration error.
pub fn map_error_to_exit_code(err_text: &str) -> (code: i32)
    ensures
        code == (if contains_seq(unicode_lowercase(err_text@), "startup timeout"@)
            || contains_seq(unicode_lowercase(err_text@), "all workers"@) { 2i32 } else { 3i32 }),
{
    let s = to_lowercase(err_text);
    if contains(s.as_str(), "startup timeout") || contains(s.as_str(), "all workers") {
        2
    } else {
        3
    }
}

/// The exit status of a failed `exec export`: 3 when the execution was
/// incomplete under `--strict`; otherwise none (the error is reported as such).
pub fn export_exit_code(err_text: &str) -> (code: Option<i32>)
    ensures
        code == (if contains_seq(err_text@, "export_incomplete:"@) { Some(3i32) } else { None::<i32> }),
{
    if contains(err_text, "export_incomplete:") { Some(3) } else { None }
}

/// The `exec run` retry policy, for every input row `k` of an execution
/// whose resolution is `res`: with `--force` every row is dispatched; by
/// default exactly the rows never attempted before are dispatched; with
/// `--retry-failed` exactly the rows whose latest outcome is a failure.
pub proof fn law_retry_policy(force: bool, retry_failed: bool, n: u64, res: RowResolution, atts: Seq<AttemptOutcomes>, k: u64)
    requires
        res.resolves(n, atts),
        k < n,
    ensures
        force ==> !skip_set(force, retry_failed, n, res).contains(k),
        !force && !retry_failed ==> (!skip_set(force, retry_failed, n, res).contains(k)
            <==> per_seq_view(res.per_seq@)[k].state == ResolutionState::NeverAttempted),
        !force && retry_failed ==> (!skip_set(force, retry_failed, n, res).contains(k)
            <==> is_failure_state(per_seq_view(res.per_seq@)[k].state)),
{
    assert(initial_view(n).contains_key(k));
    lemma_ingest_keeps_seqs(initial_view(n), atts, k);
}

/// A state that records a failure as the row's latest outcome.
pub open spec fn is_failure_state(st: ResolutionState) -> bool {
    st == ResolutionState::FailedLast || st == ResolutionState::CrashedLast
        || st == ResolutionState::CancelledLast || st == ResolutionState::TooLarge
}

} // verus!
