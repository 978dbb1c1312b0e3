//! Outcome error codes that the pipeline itself synthesizes, and the rules
//! that classify them.

use vstd::prelude::*;
use crate::text::str_eq;

verus! {

/// Worker process died (or its stdout closed) with a row in flight.
pub const ERR_WORKER_CRASH: &'static str = "WORKER_CRASH";
/// Worker crashed in batch mode and the handler is not idempotent: the
/// in-flight rows cannot be safely re-dispatched.
pub const ERR_WORKER_CRASH_UNSAFE: &'static str = "WORKER_CRASH_UNSAFE";
/// Row was queued but the run was cancelled before dispatch.
pub const ERR_CANCELLED: &'static str = "CANCELLED";
/// A row's serialized envelope exceeded the per-row hard cap.
pub const ERR_ROW_TOO_LARGE: &'static str = "ROW_TOO_LARGE";
/// A `batch_result` reply was malformed or had the wrong number of entries.
pub const ERR_BATCH_PROTOCOL_ERROR: &'static str = "BATCH_PROTOCOL_ERROR";
/// The handler replied to a row with an unexpected message variant.
pub const ERR_PROTOCOL_ERROR: &'static str = "ROW_PROTOCOL_ERROR";

/// Codes that are never re-runnable: a non-idempotent crash or an oversized row.
pub open spec fn always_filtered(code: Seq<char>) -> bool {
    code == ERR_WORKER_CRASH_UNSAFE@ || code == ERR_ROW_TOO_LARGE@
}

/// Codes filtered from a re-run unless crash rows are asked for.
pub open spec fn filtered_by_default(code: Seq<char>) -> bool {
    code == ERR_WORKER_CRASH@ || code == ERR_CANCELLED@
}

/// Whether a failed row with `code` is left out of a re-run input.
pub open spec fn spec_should_filter(code: Seq<char>, include_crash_rows: bool) -> bool {
    always_filtered(code) || (filtered_by_default(code) && !include_crash_rows)
}

/// Whether a failed row with error code `code` is dropped when a previous
/// failed.csv is turned into a re-run input. `WORKER_CRASH_UNSAFE` and
/// `ROW_TOO_LARGE` are always dropped; `WORKER_CRASH` and `CANCELLED` are
/// dropped unless `include_crash_rows`; every other code is kept.
pub fn should_filter(code: &str, include_crash_rows: bool) -> (r: bool)
    ensures
        r == spec_should_filter(code@, include_crash_rows),
{
    if str_eq(code, ERR_WORKER_CRASH_UNSAFE) || str_eq(code, ERR_ROW_TOO_LARGE) {
        return true;
    }
    if str_eq(code, ERR_WORKER_CRASH) || str_eq(code, ERR_CANCELLED) {
        return !include_crash_rows;
    }
    false
}

} // verus!
