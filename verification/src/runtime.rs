//! The manifest's `runtime` block: row or batch consumption and its limits.

use vstd::prelude::*;
use crate::text::{decimal, push_str, spec_decimal};

verus! {

/// Smallest accepted `runtime.batch_size`.
pub const MIN_BATCH_SIZE: u32 = 1;
/// Largest accepted `runtime.batch_size`.
pub const MAX_BATCH_SIZE: u32 = 10_000;
/// Default hard cap on the serialized size of one batch envelope (16 MiB).
pub const DEFAULT_MAX_BATCH_BYTES: u64 = 16 * 1024 * 1024;
/// Default soft cap on the serialized size of one batch (4 MiB).
pub const DEFAULT_BATCH_BYTES_TARGET: u64 = 4 * 1024 * 1024;
/// Per-row hard cap: a row whose serialized envelope is larger never joins a batch (4 MiB).
pub const ROW_HARD_CAP_BYTES: u64 = 4 * 1024 * 1024;

/// How a handler consumes rows.
#[derive(Clone, Copy, Debug, PartialEq, Eq, Structural)]
pub enum Mode {
    Row,
    Batch,
}

/// The `runtime` block of a handler manifest.
#[derive(Clone, Copy, Debug, PartialEq, Eq, Structural)]
pub struct Runtime {
    pub mode: Mode,
    /// Required when mode = batch: rows per batch envelope.
    pub batch_size: Option<u32>,
    /// Hard cap on the serialized size of one batch envelope.
    pub max_batch_bytes: u64,
    /// Soft cap: a batch is flushed early when the next row would pass it.
    pub batch_bytes_target: u64,
    /// Required when mode = batch: whether re-running after a crash is safe.
    pub idempotent: Option<bool>,
    /// Output depends on cross-batch state; the pool then runs one worker.
    pub stateful: bool,
}

/// Default for an absent `max_batch_bytes` key.
pub fn default_max_batch_bytes() -> (r: u64)
    ensures
        r == DEFAULT_MAX_BATCH_BYTES,
{
    DEFAULT_MAX_BATCH_BYTES
}

/// Default for an absent `batch_bytes_target` key.
pub fn default_batch_bytes_target() -> (r: u64)
    ensures
        r == DEFAULT_BATCH_BYTES_TARGET,
{
    DEFAULT_BATCH_BYTES_TARGET
}

impl Default for Runtime {
    fn default() -> (r: Self)
        ensures
            r == spec_default_runtime(),
    {
        Runtime {
            mode: Mode::Row,
            batch_size: None,
            max_batch_bytes: DEFAULT_MAX_BATCH_BYTES,
            batch_bytes_target: DEFAULT_BATCH_BYTES_TARGET,
            idempotent: None,
            stateful: false,
        }
    }
}

/// The runtime block that an absent `runtime:` key stands for.
pub open spec fn spec_default_runtime() -> Runtime {
    Runtime {
        mode: Mode::Row,
        batch_size: None,
        max_batch_bytes: DEFAULT_MAX_BATCH_BYTES,
        batch_bytes_target: DEFAULT_BATCH_BYTES_TARGET,
        idempotent: None,
        stateful: false,
    }
}

/// The message `validate` reports for a runtime block, or `None` when it is valid.
/// Checks run in a fixed order and the first violated one is reported.
pub open spec fn runtime_violation(r: Runtime) -> Option<Seq<char>> {
    match r.mode {
        Mode::Row => None,
        Mode::Batch => {
            if r.batch_size is None {
                Some("runtime.batch_size required when mode=batch"@)
            } else if !(MIN_BATCH_SIZE <= r.batch_size->0 <= MAX_BATCH_SIZE) {
                Some("runtime.batch_size must be in 1..=10000, got "@ + spec_decimal(r.batch_size->0 as nat))
            } else if r.idempotent is None {
                Some("runtime.idempotent required when mode=batch (true or false; no default)"@)
            } else if r.max_batch_bytes == 0 {
                Some("runtime.max_batch_bytes must be > 0"@)
            } else if r.max_batch_bytes < ROW_HARD_CAP_BYTES {
                Some("runtime.max_batch_bytes ("@ + spec_decimal(r.max_batch_bytes as nat)
                    + ") must be >= per-row hard cap (4194304)"@)
            } else {
                None
            }
        },
    }
}

impl Runtime {
    /// Checks the runtime block after it was read from the manifest.
    /// Row mode accepts any other field values; batch mode needs a batch size
    /// in range, an explicit `idempotent`, and a byte cap no smaller than the
    /// per-row hard cap.
    pub fn validate(&self) -> (res: Result<(), String>)
        ensures
            match res {
                Ok(()) => runtime_violation(*self) is None,
                Err(e) => runtime_violation(*self) == Some(e@),
            },
    {
        match self.mode {
            Mode::Row => Ok(()),
            Mode::Batch => {
                let bs = match self.batch_size {
                    Some(b) => b,
                    None => {
                        return Err("runtime.batch_size required when mode=batch".to_string());
                    },
                };
                if !(MIN_BATCH_SIZE <= bs && bs <= MAX_BATCH_SIZE) {
                    let mut m = "runtime.batch_size must be in 1..=10000, got ".to_string();
                    let d = decimal(bs as u64);
                    push_str(&mut m, d.as_str());
                    return Err(m);
                }
                if self.idempotent.is_none() {
                    return Err(
                        "runtime.idempotent required when mode=batch (true or false; no default)".to_string(),
                    );
                }
                if self.max_batch_bytes == 0 {
                    return Err("runtime.max_batch_bytes must be > 0".to_string());
                }
                if self.max_batch_bytes < ROW_HARD_CAP_BYTES {
                    let mut m = "runtime.max_batch_bytes (".to_string();
                    let d = decimal(self.max_batch_bytes);
                    push_str(&mut m, d.as_str());
                    push_str(&mut m, ") must be >= per-row hard cap (4194304)");
                    return Err(m);
                }
                Ok(())
            },
        }
    }
}

} // verus!
