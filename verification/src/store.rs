//! The execution-centric data model: executions, handler instances and
//! attempts, the text forms their states are stored under, and the rules for
//! moving between states.

use vstd::prelude::*;
use crate::digest::{sha256_tag, sha256_tagged};
use crate::error::{is_store_error, CoreError};
use crate::input::{count_input_rows, nonblank_lines, InputFormat};
use crate::path::{extension, path_extension};
use crate::text::{chars_of, push_decimal, push_str, spec_decimal, str_eq, string_of};

verus! {

/// Lifecycle of an execution.
#[derive(Clone, Copy, Debug, PartialEq, Eq, Structural)]
pub enum ExecutionState {
    Open,
    Iterating,
    Settled,
    Closed,
    Abandoned,
}

pub open spec fn execution_state_text(s: ExecutionState) -> Seq<char> {
    match s {
        ExecutionState::Open => "open"@,
        ExecutionState::Iterating => "iterating"@,
        ExecutionState::Settled => "settled"@,
        ExecutionState::Closed => "closed"@,
        ExecutionState::Abandoned => "abandoned"@,
    }
}

impl ExecutionState {
    /// The stored text of the state.
    pub fn as_str(self) -> (r: &'static str)
        ensures
            r@ == execution_state_text(self),
    {
        match self {
            ExecutionState::Open => "open",
            ExecutionState::Iterating => "iterating",
            ExecutionState::Settled => "settled",
            ExecutionState::Closed => "closed",
            ExecutionState::Abandoned => "abandoned",
        }
    }

    /// Reads a stored state back; any other text is refused with
    /// "unknown execution state: <text>".
    pub fn parse(s: &str) -> (r: Result<ExecutionState, CoreError>)
        ensures
            match r {
                Ok(st) => execution_state_text(st) == s@,
                Err(e) => (forall|st: ExecutionState| execution_state_text(st) != s@)
                    && is_store_error(e, "unknown execution state: "@ + s@),
            },
    {
        if str_eq(s, "open") {
            Ok(ExecutionState::Open)
        } else if str_eq(s, "iterating") {
            Ok(ExecutionState::Iterating)
        } else if str_eq(s, "settled") {
            Ok(ExecutionState::Settled)
        } else if str_eq(s, "closed") {
            Ok(ExecutionState::Closed)
        } else if str_eq(s, "abandoned") {
            Ok(ExecutionState::Abandoned)
        } else {
            let mut m = "unknown execution state: ".to_string();
            push_str(&mut m, s);
            Err(CoreError::Store(m))
        }
    }
}

/// Lifecycle of an attempt.
#[derive(Clone, Copy, Debug, PartialEq, Eq, Structural)]
pub enum AttemptState {
    Running,
    Completed,
    Aborted,
}

pub open spec fn attempt_state_text(s: AttemptState) -> Seq<char> {
    match s {
        AttemptState::Running => "running"@,
        AttemptState::Completed => "completed"@,
        AttemptState::Aborted => "aborted"@,
    }
}

impl AttemptState {
    /// The stored text of the state.
    pub fn as_str(self) -> (r: &'static str)
        ensures
            r@ == attempt_state_text(self),
    {
        match self {
            AttemptState::Running => "running",
            AttemptState::Completed => "completed",
            AttemptState::Aborted => "aborted",
        }
    }

    /// Reads a stored state back; any other text is refused with
    /// "unknown attempt state: <text>".
    pub fn parse(s: &str) -> (r: Result<AttemptState, CoreError>)
        ensures
            match r {
                Ok(st) => attempt_state_text(st) == s@,
                Err(e) => (forall|st: AttemptState| attempt_state_text(st) != s@)
                    && is_store_error(e, "unknown attempt state: "@ + s@),
            },
    {
        if str_eq(s, "running") {
            Ok(AttemptState::Running)
        } else if str_eq(s, "completed") {
            Ok(AttemptState::Completed)
        } else if str_eq(s, "aborted") {
            Ok(AttemptState::Aborted)
        } else {
            let mut m = "unknown attempt state: ".to_string();
            push_str(&mut m, s);
            Err(CoreError::Store(m))
        }
    }
}

/// Distinct execution states are stored under distinct texts, so a stored
/// state reads back as itself.
pub proof fn law_execution_state_text_injective(a: ExecutionState, b: ExecutionState)
    requires
        execution_state_text(a) == execution_state_text(b),
    ensures
        a == b,
{
    reveal_strlit("open");
    reveal_strlit("iterating");
    reveal_strlit("settled");
    reveal_strlit("closed");
    reveal_strlit("abandoned");
    assert(execution_state_text(ExecutionState::Open)[0] == 'o');
    assert(execution_state_text(ExecutionState::Iterating)[0] == 'i');
    assert(execution_state_text(ExecutionState::Settled)[0] == 's');
    assert(execution_state_text(ExecutionState::Closed)[0] == 'c');
    assert(execution_state_text(ExecutionState::Abandoned)[0] == 'a');
    assert(execution_state_text(a)[0] == execution_state_text(b)[0]);
}

/// Distinct attempt states are stored under distinct texts, so a stored
/// state reads back as itself.
pub proof fn law_attempt_state_text_injective(a: AttemptState, b: AttemptState)
    requires
        attempt_state_text(a) == attempt_state_text(b),
    ensures
        a == b,
{
    reveal_strlit("running");
    reveal_strlit("completed");
    reveal_strlit("aborted");
    assert(attempt_state_text(AttemptState::Running)[0] == 'r');
    assert(attempt_state_text(AttemptState::Completed)[0] == 'c');
    assert(attempt_state_text(AttemptState::Aborted)[0] == 'a');
    assert(attempt_state_text(a)[0] == attempt_state_text(b)[0]);
}

// ---------------------------------------------------------------------------
// Run types
// ---------------------------------------------------------------------------

/// Which rows an attempt covers.
#[derive(Clone, Copy, Debug, PartialEq, Eq, Structural)]
pub enum Source {
    Full,
    Sampled { size: u32 },
}

/// Whether an attempt has real side effects.
#[derive(Clone, Copy, Debug, PartialEq, Eq, Structural)]
pub enum Simulation {
    Real,
    Dry,
}

/// How an attempt runs.
#[derive(Clone, Copy, Debug, PartialEq, Eq, Structural)]
pub struct RunType {
    pub source: Source,
    pub simulation: Simulation,
}

/// The stored kind of a source.
pub open spec fn source_kind(source: Source) -> Seq<char> {
    match source {
        Source::Full => "full"@,
        Source::Sampled { .. } => "sampled"@,
    }
}

/// The stored sample size of a source.
pub open spec fn source_size(source: Source) -> Option<i64> {
    match source {
        Source::Full => None,
        Source::Sampled { size } => Some(size as i64),
    }
}

/// The source stored under these columns: `full`, or `sampled` with its
/// size (0 when missing, truncated to 32 bits); none for any other kind.
pub open spec fn stored_source(kind: Seq<char>, size: Option<i64>) -> Option<Source> {
    if kind == "full"@ {
        Some(Source::Full)
    } else if kind == "sampled"@ {
        Some(Source::Sampled { size: match size { Some(n) => n as u32, None => 0u32 } })
    } else {
        None
    }
}

/// The stored text of a simulation.
pub open spec fn simulation_name(sim: Simulation) -> Seq<char> {
    match sim {
        Simulation::Real => "real"@,
        Simulation::Dry => "dry"@,
    }
}

/// The simulation stored under this text, if any.
pub open spec fn stored_simulation(s: Seq<char>) -> Option<Simulation> {
    if s == "real"@ {
        Some(Simulation::Real)
    } else if s == "dry"@ {
        Some(Simulation::Dry)
    } else {
        None
    }
}

/// The stored columns of a source: its kind and, for a sample, its size.
pub fn source_columns(source: Source) -> (r: (&'static str, Option<i64>))
    ensures
        r.0@ == source_kind(source),
        r.1 == source_size(source),
{
    match source {
        Source::Full => ("full", None),
        Source::Sampled { size } => ("sampled", Some(size as i64)),
    }
}

/// Reads a stored source back: `full`, or `sampled` with its size (0 when
/// missing, truncated to 32 bits); any other kind is refused.
pub fn source_from_columns(kind: &str, size: Option<i64>) -> (r: Result<Source, String>)
    ensures
        match stored_source(kind@, size) {
            Some(s) => r == Ok::<Source, String>(s),
            None => r matches Err(m) && m@ == "unknown run_type_source: "@ + kind@,
        },
{
    proof {
        reveal_strlit("full");
        reveal_strlit("sampled");
        assert("full"@.len() != "sampled"@.len());
    }
    if str_eq(kind, "full") {
        Ok(Source::Full)
    } else if str_eq(kind, "sampled") {
        let n: i64 = match size { Some(n) => n, None => 0 };
        Ok(Source::Sampled { size: n as u32 })
    } else {
        let mut m = "unknown run_type_source: ".to_string();
        push_str(&mut m, kind);
        Err(m)
    }
}

/// The stored text of a simulation.
pub fn simulation_text(sim: Simulation) -> (r: &'static str)
    ensures
        r@ == simulation_name(sim),
{
    match sim {
        Simulation::Real => "real",
        Simulation::Dry => "dry",
    }
}

/// Reads a stored simulation back; any other text is refused.
pub fn simulation_from_text(s: &str) -> (r: Result<Simulation, String>)
    ensures
        match stored_simulation(s@) {
            Some(sim) => r == Ok::<Simulation, String>(sim),
            None => r matches Err(m) && m@ == "unknown run_type_simulation: "@ + s@,
        },
{
    proof {
        reveal_strlit("real");
        reveal_strlit("dry");
        assert("real"@.len() != "dry"@.len());
    }
    if str_eq(s, "real") {
        Ok(Simulation::Real)
    } else if str_eq(s, "dry") {
        Ok(Simulation::Dry)
    } else {
        let mut m = "unknown run_type_simulation: ".to_string();
        push_str(&mut m, s);
        Err(m)
    }
}

/// An attempt's run type reads back as it was stored: the source from its
/// kind and size columns, the simulation from its text.
pub proof fn law_run_type_round_trip(rt: RunType)
    ensures
        stored_source(source_kind(rt.source), source_size(rt.source)) == Some(rt.source),
        stored_simulation(simulation_name(rt.simulation)) == Some(rt.simulation),
{
    reveal_strlit("full");
    reveal_strlit("sampled");
    reveal_strlit("real");
    reveal_strlit("dry");
    assert("full"@.len() != "sampled"@.len());
    assert("real"@.len() != "dry"@.len());
}

// ---------------------------------------------------------------------------
// Requests
// ---------------------------------------------------------------------------

/// What creating an execution needs.
pub struct NewExecution {
    pub name: Option<String>,
    /// Logical id of the input file.
    pub input_csv_id: String,
    /// The input file that is copied into the execution's folder.
    pub input_csv_path: String,
    pub current_handler_instance_id: Option<String>,
}

/// What registering a handler instance needs.
pub struct NewHandlerInstance {
    pub handler_id: String,
    pub manifest_hash: String,
    pub source_snapshot_dir: String,
    pub binary_hash: Option<String>,
}

/// What creating an attempt needs.
pub struct NewAttempt {
    pub execution_id: String,
    pub handler_instance_id: String,
    pub parent_attempt_id: Option<String>,
    pub run_type: RunType,
}

/// How an attempt ended.
pub struct FinishAttempt {
    pub success_count: u64,
    pub failed_count: u64,
    pub aborted: bool,
    pub aborted_reason: Option<String>,
}

// ---------------------------------------------------------------------------
// Lifecycle rules
// ---------------------------------------------------------------------------

/// The state's name as `{:?}` shows it.
pub open spec fn execution_state_name(s: ExecutionState) -> Seq<char> {
    match s {
        ExecutionState::Open => "Open"@,
        ExecutionState::Iterating => "Iterating"@,
        ExecutionState::Settled => "Settled"@,
        ExecutionState::Closed => "Closed"@,
        ExecutionState::Abandoned => "Abandoned"@,
    }
}

pub fn execution_state_name_text(s: ExecutionState) -> (r: &'static str)
    ensures
        r@ == execution_state_name(s),
{
    match s {
        ExecutionState::Open => "Open",
        ExecutionState::Iterating => "Iterating",
        ExecutionState::Settled => "Settled",
        ExecutionState::Closed => "Closed",
        ExecutionState::Abandoned => "Abandoned",
    }
}

/// An execution accepts new attempts while it is open, iterating or settled;
/// a closed or abandoned one refuses them.
pub open spec fn accepts_attempts(s: ExecutionState) -> bool {
    s == ExecutionState::Open || s == ExecutionState::Iterating || s == ExecutionState::Settled
}

/// Whether execution `id` in state `state` may get a new attempt; the
/// refusal names the execution and its state.
pub fn attempt_admission(id: &str, state: ExecutionState) -> (r: Result<(), CoreError>)
    ensures
        accepts_attempts(state) <==> r is Ok,
        !accepts_attempts(state) ==> (r matches Err(CoreError::Store(m))
            && m@ == "execution "@ + id@ + " is "@ + execution_state_name(state) + "; no further attempts allowed"@),
{
    match state {
        ExecutionState::Open | ExecutionState::Iterating | ExecutionState::Settled => Ok(()),
        ExecutionState::Closed | ExecutionState::Abandoned => {
            let mut m = "execution ".to_string();
            push_str(&mut m, id);
            push_str(&mut m, " is ");
            push_str(&mut m, execution_state_name_text(state));
            push_str(&mut m, "; no further attempts allowed");
            Err(CoreError::Store(m))
        },
    }
}

pub open spec fn attempt_gate_is(
    execution_id: Seq<char>,
    execution: Option<ExecutionState>,
    handler_instance_id: Seq<char>,
    handler_found: bool,
    r: Result<(), CoreError>,
) -> bool {
    match execution {
        None => r matches Err(CoreError::Store(m)) && m@ == "execution not found: "@ + execution_id,
        Some(state) => if !accepts_attempts(state) {
            r matches Err(CoreError::Store(m))
                && m@ == "execution "@ + execution_id + " is "@ + execution_state_name(state) + "; no further attempts allowed"@
        } else if !handler_found {
            r matches Err(CoreError::Store(m)) && m@ == "handler instance not found: "@ + handler_instance_id
        } else {
            r is Ok
        },
    }
}

/// Whether a new attempt may be created, from what the store holds: the
/// execution (its state, or `None` when there is no such execution) must
/// exist and accept attempts, and the handler instance must exist. The
/// checks come in that order; the first that fails gives the error.
pub fn attempt_gate(
    execution_id: &str,
    execution: Option<ExecutionState>,
    handler_instance_id: &str,
    handler_found: bool,
) -> (r: Result<(), CoreError>)
    ensures
        attempt_gate_is(execution_id@, execution, handler_instance_id@, handler_found, r),
        r is Ok <==> (execution matches Some(s) && accepts_attempts(s) && handler_found),
{
    match execution {
        None => {
            let mut m = "execution not found: ".to_string();
            push_str(&mut m, execution_id);
            Err(CoreError::Store(m))
        },
        Some(state) => {
            attempt_admission(execution_id, state)?;
            if !handler_found {
                let mut m = "handler instance not found: ".to_string();
                push_str(&mut m, handler_instance_id);
                return Err(CoreError::Store(m));
            }
            Ok(())
        },
    }
}

/// The state a finished attempt is recorded in.
pub fn finished_state(aborted: bool) -> (s: AttemptState)
    ensures
        s == (if aborted { AttemptState::Aborted } else { AttemptState::Completed }),
{
    if aborted { AttemptState::Aborted } else { AttemptState::Completed }
}

/// The state an execution moves to when one of its attempts finishes: an
/// open execution starts iterating; any other stays where it is.
pub fn state_after_attempt(s: ExecutionState) -> (t: ExecutionState)
    ensures
        t == (if s == ExecutionState::Open { ExecutionState::Iterating } else { s }),
{
    if s == ExecutionState::Open { ExecutionState::Iterating } else { s }
}

/// The time stamps an execution carries for its states.
pub struct StateStamps {
    pub settled_at: Option<String>,
    pub closed_at: Option<String>,
    pub abandoned_at: Option<String>,
    pub abandoned_reason: Option<String>,
}

/// Sets the stamps for a move to `state` at time `now`: entering settled,
/// closed or abandoned stamps that state's time unless it was stamped before;
/// abandoning also records the reason. Other moves change no stamp.
pub fn stamp_state(st: StateStamps, state: ExecutionState, now: String, reason: Option<String>) -> (r: StateStamps)
    ensures
        r.settled_at == (if state == ExecutionState::Settled && st.settled_at is None { Some(now) } else { st.settled_at }),
        r.closed_at == (if state == ExecutionState::Closed && st.closed_at is None { Some(now) } else { st.closed_at }),
        r.abandoned_at == (if state == ExecutionState::Abandoned && st.abandoned_at is None { Some(now) } else { st.abandoned_at }),
        r.abandoned_reason == (if state == ExecutionState::Abandoned { reason } else { st.abandoned_reason }),
{
    let StateStamps { settled_at, closed_at, abandoned_at, abandoned_reason } = st;
    match state {
        ExecutionState::Settled => StateStamps {
            settled_at: if settled_at.is_none() { Some(now) } else { settled_at },
            closed_at,
            abandoned_at,
            abandoned_reason,
        },
        ExecutionState::Closed => StateStamps {
            settled_at,
            closed_at: if closed_at.is_none() { Some(now) } else { closed_at },
            abandoned_at,
            abandoned_reason,
        },
        ExecutionState::Abandoned => StateStamps {
            settled_at,
            closed_at,
            abandoned_at: if abandoned_at.is_none() { Some(now) } else { abandoned_at },
            abandoned_reason: reason,
        },
        _ => StateStamps { settled_at, closed_at, abandoned_at, abandoned_reason },
    }
}

// ---------------------------------------------------------------------------
// Schema
// ---------------------------------------------------------------------------

/// The schema version this build writes.
pub const SCHEMA_VERSION: i64 = 4;

/// One schema migration.
#[derive(Clone, Copy, Debug, PartialEq, Eq, Structural)]
pub enum Migration {
    V1,
    V2,
    V3,
    V4,
}

/// How the recorded version changes after migrating.
#[derive(Clone, Copy, Debug, PartialEq, Eq, Structural)]
pub enum VersionRecord {
    /// Nothing to record: the database is current.
    Keep,
    /// A fresh database: insert the version row.
    Insert,
    /// An older database: update the version row.
    Update,
}

/// The migrations to run and how to record the version.
pub struct MigrationPlan {
    pub steps: Vec<Migration>,
    pub record: VersionRecord,
}

/// The migration plan for a database at `current` (`None`: no version row):
/// every migration after the current version, in order, then the version is
/// recorded; a current database needs nothing; a newer one is refused as too
/// new; any other version is refused as unsupported.
pub open spec fn migration_plan_is(current: Option<i64>, r: Result<MigrationPlan, CoreError>) -> bool {
    match current {
        None => r matches Ok(p) && p.steps@ == seq![Migration::V1, Migration::V2, Migration::V3, Migration::V4]
            && p.record == VersionRecord::Insert,
        Some(v) =>
            if v == 1 {
                r matches Ok(p) && p.steps@ == seq![Migration::V2, Migration::V3, Migration::V4] && p.record == VersionRecord::Update
            } else if v == 2 {
                r matches Ok(p) && p.steps@ == seq![Migration::V3, Migration::V4] && p.record == VersionRecord::Update
            } else if v == 3 {
                r matches Ok(p) && p.steps@ == seq![Migration::V4] && p.record == VersionRecord::Update
            } else if v == SCHEMA_VERSION {
                r matches Ok(p) && p.steps@.len() == 0 && p.record == VersionRecord::Keep
            } else if v > SCHEMA_VERSION {
                r == Err::<MigrationPlan, CoreError>(CoreError::SchemaTooNew { found: v as u8, max_known: SCHEMA_VERSION as u8 })
            } else {
                r matches Err(CoreError::Store(m)) && m@ == "executions.db schema version "@
                    + crate::error::spec_signed_decimal(v as int) + " not supported (expected 4)"@
            },
    }
}

fn push_i64(s: &mut String, v: i64)
    ensures
        final(s)@ == old(s)@ + crate::error::spec_signed_decimal(v as int),
{
    if v < 0 {
        push_str(s, "-");
        let m: u64 = if v == i64::MIN { 9223372036854775808u64 } else { (-v) as u64 };
        push_decimal(s, m);
        proof {
            reveal_strlit("-");
            assert(old(s)@ + crate::error::spec_signed_decimal(v as int) =~= old(s)@ + "-"@ + spec_decimal(m as nat));
        }
    } else {
        push_decimal(s, v as u64);
    }
}

/// Plans the migration of a database recorded at version `current`.
pub fn migration_plan(current: Option<i64>) -> (r: Result<MigrationPlan, CoreError>)
    ensures
        migration_plan_is(current, r),
{
    match current {
        None => {
            let mut steps: Vec<Migration> = Vec::new();
            steps.push(Migration::V1);
            steps.push(Migration::V2);
            steps.push(Migration::V3);
            steps.push(Migration::V4);
            proof { assert(steps@ =~= seq![Migration::V1, Migration::V2, Migration::V3, Migration::V4]); }
            Ok(MigrationPlan { steps, record: VersionRecord::Insert })
        },
        Some(v) => {
            if v == 1 {
                let mut steps: Vec<Migration> = Vec::new();
                steps.push(Migration::V2);
                steps.push(Migration::V3);
                steps.push(Migration::V4);
                proof { assert(steps@ =~= seq![Migration::V2, Migration::V3, Migration::V4]); }
                Ok(MigrationPlan { steps, record: VersionRecord::Update })
            } else if v == 2 {
                let mut steps: Vec<Migration> = Vec::new();
                steps.push(Migration::V3);
                steps.push(Migration::V4);
                proof { assert(steps@ =~= seq![Migration::V3, Migration::V4]); }
                Ok(MigrationPlan { steps, record: VersionRecord::Update })
            } else if v == 3 {
                let mut steps: Vec<Migration> = Vec::new();
                steps.push(Migration::V4);
                proof { assert(steps@ =~= seq![Migration::V4]); }
                Ok(MigrationPlan { steps, record: VersionRecord::Update })
            } else if v == SCHEMA_VERSION {
                Ok(MigrationPlan { steps: Vec::new(), record: VersionRecord::Keep })
            } else if v > SCHEMA_VERSION {
                Err(CoreError::SchemaTooNew { found: v as u8, max_known: SCHEMA_VERSION as u8 })
            } else {
                let mut m = "executions.db schema version ".to_string();
                push_i64(&mut m, v);
                push_str(&mut m, " not supported (expected 4)");
                Err(CoreError::Store(m))
            }
        },
    }
}

// ---------------------------------------------------------------------------
// Input snapshots
// ---------------------------------------------------------------------------

/// `char::to_ascii_lowercase`.
pub open spec fn ascii_lower(c: char) -> char {
    if 'A' <= c && c <= 'Z' { ((c as u32) + 32) as char } else { c }
}

pub open spec fn ascii_lower_seq(s: Seq<char>) -> Seq<char> {
    s.map_values(|c: char| ascii_lower(c))
}

fn to_ascii_lower(s: &str) -> (r: String)
    ensures
        r@ == ascii_lower_seq(s@),
{
    let cs = chars_of(s);
    let mut out: Vec<char> = Vec::new();
    let mut i: usize = 0;
    while i < cs.len()
        invariant
            i <= cs@.len(),
            cs@ == s@,
            out@ == ascii_lower_seq(cs@.take(i as int)),
        decreases cs@.len() - i,
    {
        let c = cs[i];
        let l = if 'A' <= c && c <= 'Z' { ((c as u32) + 32) as u8 as char } else { c };
        proof {
            if 'A' <= c && c <= 'Z' {
                assert(((c as u32) + 32) as u8 as char == ((c as u32) + 32) as char);
            }
        }
        out.push(l);
        proof { assert(ascii_lower_seq(cs@.take(i + 1)) =~= ascii_lower_seq(cs@.take(i as int)).push(ascii_lower(c))); }
        i = i + 1;
    }
    proof { assert(cs@.take(cs@.len() as int) =~= cs@); }
    string_of(&out)
}

/// The name of an input's copy in its execution folder, after the input's
/// extension in lowercase: `input.jsonl`, `input.ndjson`, or `input.csv`
/// for anything else.
pub open spec fn snapshot_name_of(path: Seq<char>) -> Seq<char> {
    match extension(path) {
        Some(e) => if ascii_lower_seq(e) == "jsonl"@ {
            "input.jsonl"@
        } else if ascii_lower_seq(e) == "ndjson"@ {
            "input.ndjson"@
        } else {
            "input.csv"@
        },
        None => "input.csv"@,
    }
}

pub fn snapshot_name(input_path: &str) -> (n: &'static str)
    ensures
        n@ == snapshot_name_of(input_path@),
{
    match path_extension(input_path) {
        Some(e) => {
            let l = to_ascii_lower(e.as_str());
            if str_eq(l.as_str(), "jsonl") {
                "input.jsonl"
            } else if str_eq(l.as_str(), "ndjson") {
                "input.ndjson"
            } else {
                "input.csv"
            }
        },
        None => "input.csv",
    }
}

/// The number of `'\n'` bytes in `b`.
pub open spec fn newline_count(b: Seq<u8>) -> nat
    decreases b.len(),
{
    if b.len() == 0 {
        0
    } else {
        newline_count(b.drop_last()) + if b.last() == 0x0a { 1nat } else { 0nat }
    }
}

/// The lines of `b`: its `'\n'`s, and one more when the last line has no
/// `'\n'`.
pub open spec fn line_count(b: Seq<u8>) -> nat {
    newline_count(b) + if b.len() > 0 && b.last() != 0x0a { 1nat } else { 0nat }
}

/// The row count recorded for an input snapshot: every non-blank line of a
/// JSONL file; every line but the header of a CSV file (never below 0).
pub open spec fn snapshot_rows(b: Seq<u8>, is_jsonl: bool) -> nat {
    if is_jsonl {
        nonblank_lines(b)
    } else if line_count(b) > 0 {
        (line_count(b) - 1) as nat
    } else {
        0
    }
}

/// The hash and row count recorded for an input snapshot.
pub fn hash_and_count_rows(content: &[u8], is_jsonl: bool) -> (r: (String, u64))
    ensures
        r.0@ == sha256_tag(content@),
        r.1 == snapshot_rows(content@, is_jsonl),
{
    let mut newlines: u64 = 0;
    let mut last_was_newline: bool = true;
    let mut i: usize = 0;
    while i < content.len()
        invariant
            i <= content@.len(),
            newlines <= i,
            last_was_newline == (i == 0 || content@[i - 1] == 0x0a),
            newlines == newline_count(content@.take(i as int)),
            !last_was_newline ==> newlines < i,
        decreases content@.len() - i,
    {
        let b = content[i];
        proof {
            let t = content@.take(i + 1);
            assert(t.drop_last() =~= content@.take(i as int));
            assert(t.last() == b);
            if i > 0 {
                assert(t.drop_last().last() == content@[i - 1]);
            }
        }
        if b == 0x0a {
            newlines = newlines + 1;
            last_was_newline = true;
        } else {
            last_was_newline = false;
        }
        i = i + 1;
    }
    proof {
        assert(content@.take(content@.len() as int) =~= content@);
        if content@.len() > 0 {
            assert(content@.last() == content@[content@.len() - 1]);
        }
    }
    let lines: u64 = if content.len() > 0 && !last_was_newline { newlines + 1 } else { newlines };
    let rows: u64 = if is_jsonl {
        count_input_rows(content, InputFormat::Jsonl)
    } else if lines > 0 {
        lines - 1
    } else {
        0
    };
    (sha256_tagged(content), rows)
}

} // verus!
