//! Messages exchanged with a handler process over JSON-Lines, as far as the
//! dispatch logic reads them.

use vstd::prelude::*;
use crate::outcome::Field;

verus! {

/// Metadata sent to the handler with `init`.
pub struct InitMeta {
    pub columns: Vec<String>,
}

/// Metadata sent with each row.
#[derive(Clone, Copy, Debug, PartialEq, Eq, Structural)]
pub struct RowMeta {
    pub dry_run: bool,
    pub row_index: u64,
}

impl Default for RowMeta {
    fn default() -> (m: Self)
        ensures
            m == (RowMeta { dry_run: false, row_index: 0 }),
    {
        RowMeta { dry_run: false, row_index: 0 }
    }
}

/// One row as sent to a handler.
pub struct RowEnvelope {
    pub seq: u64,
    pub data: Vec<Field>,
    pub meta: RowMeta,
}

/// One entry of a `batch_result` reply, positionally matched to the batch.
#[allow(inconsistent_fields)]
pub enum BatchEntry {
    Result { data: Vec<Field> },
    Error { code: String, message: String, data: Option<Vec<Field>> },
}

/// A message from the handler.
#[allow(inconsistent_fields)]
pub enum Inbound {
    Ready { handler_version: String },
    Result { seq: u64, data: Vec<Field> },
    Error { seq: u64, code: String, message: String, data: Option<Vec<Field>> },
    BatchResult { results: Vec<BatchEntry> },
}

/// A message to the handler.
#[allow(inconsistent_fields)]
pub enum Outbound {
    /// The first message: the run, its configuration and the input's columns.
    Init { run_id: String, config: Vec<Field>, meta: InitMeta },
    /// One row (row mode).
    Row { seq: u64, data: Vec<Field>, meta: RowMeta },
    /// Several rows at once (batch mode).
    Batch { rows: Vec<RowEnvelope> },
    /// The last message.
    Shutdown,
}

/// The message that dispatches a row-mode batch: its single row.
pub fn row_message(rows: Vec<RowEnvelope>) -> (m: Outbound)
    requires
        rows@.len() > 0,
    ensures
        m == (Outbound::Row { seq: rows@[0].seq, data: rows@[0].data, meta: rows@[0].meta }),
{
    let mut rows = rows;
    let first = rows.swap_remove(0);
    Outbound::Row { seq: first.seq, data: first.data, meta: first.meta }
}

} // verus!
