//! The stall monitor: a run whose `outcomes.jsonl` stops growing for longer
//! than the stall timeout is cancelled.

use vstd::prelude::*;
use crate::error::CoreError;
use crate::text::{push_decimal, push_str, spec_decimal};

verus! {

/// How often the monitor looks at the file size, in seconds.
pub const STALL_POLL_INTERVAL_SECS: u64 = 30;

/// How long the file may go without growing, in seconds.
pub const STALL_TIMEOUT_SECS: u64 = 300;

/// The result of one poll.
#[derive(Clone, Copy, Debug, PartialEq, Eq, Structural)]
pub enum StallCheck {
    /// The file grew; the stall timer is reset.
    Progress,
    /// No growth yet past the timeout.
    Waiting,
    /// No growth for longer than the timeout: cancel the run.
    Stalled,
}

/// The monitor's state. Times are monotonic clock readings in nanoseconds.
pub struct StallMonitor {
    pub last_bytes: u64,
    pub stall_since: Option<u128>,
    pub timeout_ns: u128,
}

/// Time from `t` to `now`, never negative.
pub open spec fn elapsed(t: u128, now: u128) -> u128 {
    if now >= t { (now - t) as u128 } else { 0 }
}

impl StallMonitor {
    /// A monitor that starts from the file's current size.
    pub fn new(initial_bytes: u64, timeout_ns: u128) -> (m: Self)
        ensures
            m.last_bytes == initial_bytes,
            m.stall_since is None,
            m.timeout_ns == timeout_ns,
    {
        StallMonitor { last_bytes: initial_bytes, stall_since: None, timeout_ns }
    }

    /// One poll: growth resets the timer; the first poll without growth
    /// starts it; a later one reports a stall once more than the timeout has
    /// passed since the timer started.
    pub fn on_tick(&mut self, now_bytes: u64, now_ns: u128) -> (c: StallCheck)
        ensures
            final(self).timeout_ns == old(self).timeout_ns,
            now_bytes > old(self).last_bytes ==> c == StallCheck::Progress
                && final(self).last_bytes == now_bytes && final(self).stall_since is None,
            now_bytes <= old(self).last_bytes ==> final(self).last_bytes == old(self).last_bytes,
            now_bytes <= old(self).last_bytes && old(self).stall_since is None ==>
                c == StallCheck::Waiting && final(self).stall_since == Some(now_ns),
            now_bytes <= old(self).last_bytes && old(self).stall_since is Some ==>
                final(self).stall_since == old(self).stall_since
                && (c == StallCheck::Stalled <==> elapsed(old(self).stall_since->0, now_ns) > old(self).timeout_ns)
                && c != StallCheck::Progress,
    {
        if now_bytes > self.last_bytes {
            self.stall_since = None;
            self.last_bytes = now_bytes;
            return StallCheck::Progress;
        }
        match self.stall_since {
            None => {
                self.stall_since = Some(now_ns);
                StallCheck::Waiting
            },
            Some(t) => {
                let waited: u128 = if now_ns >= t { now_ns - t } else { 0 };
                if waited > self.timeout_ns { StallCheck::Stalled } else { StallCheck::Waiting }
            },
        }
    }
}

pub open spec fn stall_message(path: Seq<char>, timeout_secs: u64) -> Seq<char> {
    "attempt stalled: outcomes.jsonl ("@ + path + ") no growth for "@ + spec_decimal(timeout_secs as nat) + "s"@
}

/// The error the monitor returns on a stall.
pub fn stall_error(path: &str, timeout_secs: u64) -> (e: CoreError)
    ensures
        e matches CoreError::Store(m) && m@ == stall_message(path@, timeout_secs),
{
    let mut m = "attempt stalled: outcomes.jsonl (".to_string();
    push_str(&mut m, path);
    push_str(&mut m, ") no growth for ");
    push_decimal(&mut m, timeout_secs);
    push_str(&mut m, "s");
    CoreError::Store(m)
}

} // verus!
