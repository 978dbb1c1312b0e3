//! The library's error type.

use vstd::prelude::*;
use crate::text::{push_decimal, push_str, spec_decimal};

verus! {

/// Errors of the core pipeline.
#[derive(Debug)]
pub enum CoreError {
    StartupTimeout { timeout_ms: u64 },
    HandlerExit { code: Option<i32> },
    Io(String),
    Protocol(String),
    Sqlite(String),
    Store(String),
    SchemaTooNew { found: u8, max_known: u8 },
    Other(String),
}

/// Decimal text of a signed integer.
pub open spec fn spec_signed_decimal(n: int) -> Seq<char> {
    if n < 0 { seq!['-'] + spec_decimal((-n) as nat) } else { spec_decimal(n as nat) }
}

/// Whether `e` is a `Store` error with this text.
pub open spec fn is_store_error(e: CoreError, text: Seq<char>) -> bool {
    e matches CoreError::Store(m) && m@ == text
}

/// The text an error is shown as.
pub open spec fn error_text(e: CoreError) -> Seq<char> {
    match e {
        CoreError::StartupTimeout { timeout_ms } =>
            "handler startup timeout after "@ + spec_decimal(timeout_ms as nat) + "ms"@,
        CoreError::HandlerExit { code } =>
            "handler exited unexpectedly with code "@ + match code {
                Some(c) => "Some("@ + spec_signed_decimal(c as int) + ")"@,
                None => "None"@,
            },
        CoreError::Io(m) => "io: "@ + m@,
        CoreError::Protocol(m) => "protocol: "@ + m@,
        CoreError::Sqlite(m) => "sqlite: "@ + m@,
        CoreError::Store(m) => "store: "@ + m@,
        CoreError::SchemaTooNew { found, max_known } =>
            "schema version "@ + spec_decimal(found as nat) + " is newer than this binary knows about (max "@
                + spec_decimal(max_known as nat) + ")"@,
        CoreError::Other(m) => m@,
    }
}

/// Appends the decimal rendering of a signed integer.
fn push_signed_decimal(s: &mut String, c: i32)
    ensures
        final(s)@ == old(s)@ + spec_signed_decimal(c as int),
{
    if c < 0 {
        push_str(s, "-");
        let m: u64 = (-(c as i64)) as u64;
        push_decimal(s, m);
        proof {
            reveal_strlit("-");
            assert(old(s)@ + spec_signed_decimal(c as int) =~= old(s)@ + "-"@ + spec_decimal(m as nat));
        }
    } else {
        push_decimal(s, c as u64);
    }
}

impl CoreError {
    /// The error's text.
    pub fn message(&self) -> (s: String)
        ensures
            s@ == error_text(*self),
    {
        match self {
            CoreError::StartupTimeout { timeout_ms } => {
                let mut s = "handler startup timeout after ".to_string();
                push_decimal(&mut s, *timeout_ms);
                push_str(&mut s, "ms");
                s
            },
            CoreError::HandlerExit { code } => {
                let mut s = "handler exited unexpectedly with code ".to_string();
                match code {
                    Some(c) => {
                        push_str(&mut s, "Some(");
                        push_signed_decimal(&mut s, *c);
                        push_str(&mut s, ")");
                    },
                    None => push_str(&mut s, "None"),
                }
                proof {
                    assert(s@ =~= error_text(*self));
                }
                s
            },
            CoreError::Io(m) => {
                let mut s = "io: ".to_string();
                push_str(&mut s, m.as_str());
                s
            },
            CoreError::Protocol(m) => {
                let mut s = "protocol: ".to_string();
                push_str(&mut s, m.as_str());
                s
            },
            CoreError::Sqlite(m) => {
                let mut s = "sqlite: ".to_string();
                push_str(&mut s, m.as_str());
                s
            },
            CoreError::Store(m) => {
                let mut s = "store: ".to_string();
                push_str(&mut s, m.as_str());
                s
            },
            CoreError::SchemaTooNew { found, max_known } => {
                let mut s = "schema version ".to_string();
                push_decimal(&mut s, *found as u64);
                push_str(&mut s, " is newer than this binary knows about (max ");
                push_decimal(&mut s, *max_known as u64);
                push_str(&mut s, ")");
                s
            },
            CoreError::Other(m) => m.clone(),
        }
    }
}

} // verus!
