//! The handler log: one line per thing a handler printed, in the form
//! `<rfc3339> [handler#<worker> <stream>] <text>`.

use vstd::prelude::*;
use crate::path::{join_name, join_path};
use crate::text::{chars_of, find_from, is_first_occurrence, occurs_at, push_decimal, push_str, spec_decimal, str_eq, substring};
use crate::worker::strip_trailing;

verus! {

/// Which output stream a line came from.
#[derive(Clone, Copy, Debug, PartialEq, Eq, Structural)]
pub enum HandlerStream {
    Stdout,
    Stderr,
}

pub open spec fn stream_text(s: HandlerStream) -> Seq<char> {
    match s {
        HandlerStream::Stdout => "stdout"@,
        HandlerStream::Stderr => "stderr"@,
    }
}

impl HandlerStream {
    /// The stream's name as written in the log.
    pub fn as_str(&self) -> (r: &'static str)
        ensures
            r@ == stream_text(*self),
    {
        match self {
            HandlerStream::Stdout => "stdout",
            HandlerStream::Stderr => "stderr",
        }
    }
}

/// One line of handler output. `timestamp` is the UTC time in RFC 3339 form.
pub struct HandlerLogLine {
    pub timestamp: String,
    pub worker_id: usize,
    pub stream: HandlerStream,
    pub line: String,
}

/// The handler log's file in an attempt directory.
pub fn handler_log_path(attempt_dir: &str) -> (p: String)
    ensures
        p@ == join_path(attempt_dir@, "handler_log.log"@),
{
    join_name(attempt_dir, "handler_log.log")
}

pub open spec fn spec_format_line(ts: Seq<char>, worker_id: usize, stream: HandlerStream, line: Seq<char>) -> Seq<char> {
    ts + " [handler#"@ + spec_decimal(worker_id as nat) + " "@ + stream_text(stream) + "] "@ + line + "\n"@
}

/// The log line of an entry, newline included.
pub fn format_line(line: &HandlerLogLine) -> (s: String)
    ensures
        s@ == spec_format_line(line.timestamp@, line.worker_id, line.stream, line.line@),
{
    let mut s = line.timestamp.clone();
    push_str(&mut s, " [handler#");
    push_decimal(&mut s, line.worker_id as u64);
    push_str(&mut s, " ");
    push_str(&mut s, line.stream.as_str());
    push_str(&mut s, "] ");
    push_str(&mut s, line.line.as_str());
    push_str(&mut s, "\n");
    s
}

// ---------------------------------------------------------------------------
// Parsing
// ---------------------------------------------------------------------------

/// The UTC form, in RFC 3339, of an RFC 3339 timestamp as `chrono` parses
/// it; none when it does not parse.
pub uninterp spec fn rfc3339_utc(text: Seq<char>) -> Option<Seq<char>>;

/// Calls `chrono::DateTime::parse_from_rfc3339` and renders the parsed
/// instant in UTC with `to_rfc3339` (`with_timezone(&Utc)` between them only
/// re-labels the instant's offset). The parsed value is a chrono `DateTime`,
/// which the library cannot hold as plain values without losing what the
/// rendering reads (a leap second's nanoseconds), so one name covers the
/// parse and its rendering. The contract names the result
/// `rfc3339_utc(text)`; which texts parse and how they render is not stated.
#[verifier::external_body]
fn parse_rfc3339_utc(text: &str) -> (r: Option<String>)
    ensures
        match r {
            Some(t) => rfc3339_utc(text@) == Some(t@),
            None => rfc3339_utc(text@) is None,
        },
{
    chrono::DateTime::parse_from_rfc3339(text).ok().map(|d| d.with_timezone(&chrono::Utc).to_rfc3339())
}

pub open spec fn is_digit(c: char) -> bool {
    '0' <= c && c <= '9'
}

/// The value of a string of decimal digits.
pub open spec fn digits_value(d: Seq<char>) -> nat
    decreases d.len(),
{
    if d.len() == 0 {
        0
    } else {
        digits_value(d.drop_last()) * 10 + ((d.last() as u32) - ('0' as u32)) as nat
    }
}

/// `usize::from_str`: optional `+`, then at least one decimal digit, the
/// value fitting in `usize`.
pub open spec fn digits_part(s: Seq<char>) -> Seq<char> {
    if s.len() > 0 && s[0] == '+' { s.subrange(1, s.len() as int) } else { s }
}

pub open spec fn parse_usize_spec(s: Seq<char>) -> Option<usize> {
    let d = digits_part(s);
    if d.len() > 0 && (forall|i: int| 0 <= i < d.len() ==> is_digit(#[trigger] d[i])) && digits_value(d) <= usize::MAX {
        Some(digits_value(d) as usize)
    } else {
        None
    }
}

proof fn lemma_digits_value_grows(d: Seq<char>, i: int)
    requires
        0 <= i <= d.len(),
        forall|j: int| 0 <= j < d.len() ==> is_digit(#[trigger] d[j]),
    ensures
        digits_value(d.subrange(0, i)) <= digits_value(d),
    decreases d.len() - i,
{
    if i < d.len() {
        lemma_digits_value_grows(d, i + 1);
        let t = d.subrange(0, i + 1);
        assert(t.drop_last() =~= d.subrange(0, i));
    } else {
        assert(d.subrange(0, i) =~= d);
    }
}

/// Parses a worker id.
pub fn parse_usize(s: &Vec<char>, lo: usize, hi: usize) -> (r: Option<usize>)
    requires
        lo <= hi <= s@.len(),
    ensures
        r == parse_usize_spec(s@.subrange(lo as int, hi as int)),
{
    let ghost full = s@.subrange(lo as int, hi as int);
    let mut start = lo;
    if lo < hi && s[lo] == '+' {
        start = lo + 1;
    }
    let ghost d = s@.subrange(start as int, hi as int);
    proof {
        if lo < hi && s@[lo as int] == '+' {
            assert(full[0] == '+');
            assert(full.subrange(1, full.len() as int) =~= d);
        } else {
            assert(full =~= d);
        }
    }
    if start == hi {
        return None;
    }
    let mut v: usize = 0;
    let mut i: usize = start;
    while i < hi
        invariant
            start <= i <= hi <= s@.len(),
            d == s@.subrange(start as int, hi as int),
            digits_part(full) == d,
            full == s@.subrange(lo as int, hi as int),
            forall|j: int| start <= j < i ==> is_digit(#[trigger] s@[j]),
            v == digits_value(s@.subrange(start as int, i as int)),
        decreases hi - i,
    {
        let c = s[i];
        if !('0' <= c && c <= '9') {
            proof { assert(!is_digit(d[i - start])); }
            return None;
        }
        let dv: usize = ((c as u32) - ('0' as u32)) as usize;
        proof {
            assert(s@.subrange(start as int, i + 1).drop_last() =~= s@.subrange(start as int, i as int));
            assert(s@.subrange(start as int, i + 1).last() == c);
        }
        match v.checked_mul(10) {
            None => {
                proof {
                    if forall|j: int| 0 <= j < d.len() ==> is_digit(#[trigger] d[j]) {
                        lemma_digits_value_grows(d, (i + 1 - start) as int);
                        assert(d.subrange(0, (i + 1 - start) as int) =~= s@.subrange(start as int, i + 1));
                    }
                }
                return None;
            },
            Some(m) => match m.checked_add(dv) {
                None => {
                    proof {
                        if forall|j: int| 0 <= j < d.len() ==> is_digit(#[trigger] d[j]) {
                            lemma_digits_value_grows(d, (i + 1 - start) as int);
                            assert(d.subrange(0, (i + 1 - start) as int) =~= s@.subrange(start as int, i + 1));
                        }
                    }
                    return None;
                },
                Some(n) => {
                    v = n;
                },
            },
        }
        i = i + 1;
    }
    proof {
        assert(s@.subrange(start as int, hi as int) =~= d);
        assert forall|j: int| 0 <= j < d.len() implies is_digit(#[trigger] d[j]) by {
            assert(d[j] == s@[start + j]);
        }
    }
    Some(v)
}

/// `u64::from_str`: optional `+`, then at least one decimal digit, the
/// value fitting in `u64`.
pub open spec fn parse_u64_spec(s: Seq<char>) -> Option<u64> {
    let d = digits_part(s);
    if d.len() > 0 && (forall|i: int| 0 <= i < d.len() ==> is_digit(#[trigger] d[i])) && digits_value(d) <= u64::MAX {
        Some(digits_value(d) as u64)
    } else {
        None
    }
}

/// `u64::from_str` on the characters from `lo` to `hi`.
pub fn parse_u64(s: &Vec<char>, lo: usize, hi: usize) -> (r: Option<u64>)
    requires
        lo <= hi <= s@.len(),
    ensures
        r == parse_u64_spec(s@.subrange(lo as int, hi as int)),
{
    let ghost full = s@.subrange(lo as int, hi as int);
    let mut start = lo;
    if lo < hi && s[lo] == '+' {
        start = lo + 1;
    }
    let ghost d = s@.subrange(start as int, hi as int);
    proof {
        if lo < hi && s@[lo as int] == '+' {
            assert(full[0] == '+');
            assert(full.subrange(1, full.len() as int) =~= d);
        } else {
            assert(full =~= d);
        }
    }
    if start == hi {
        return None;
    }
    let mut v: u64 = 0;
    let mut i: usize = start;
    while i < hi
        invariant
            start <= i <= hi <= s@.len(),
            d == s@.subrange(start as int, hi as int),
            digits_part(full) == d,
            full == s@.subrange(lo as int, hi as int),
            forall|j: int| start <= j < i ==> is_digit(#[trigger] s@[j]),
            v == digits_value(s@.subrange(start as int, i as int)),
        decreases hi - i,
    {
        let c = s[i];
        if !('0' <= c && c <= '9') {
            proof { assert(!is_digit(d[i - start])); }
            return None;
        }
        let dv: u64 = ((c as u32) - ('0' as u32)) as u64;
        proof {
            assert(s@.subrange(start as int, i + 1).drop_last() =~= s@.subrange(start as int, i as int));
            assert(s@.subrange(start as int, i + 1).last() == c);
        }
        match v.checked_mul(10) {
            None => {
                proof {
                    if forall|j: int| 0 <= j < d.len() ==> is_digit(#[trigger] d[j]) {
                        lemma_digits_value_grows(d, (i + 1 - start) as int);
                        assert(d.subrange(0, (i + 1 - start) as int) =~= s@.subrange(start as int, i + 1));
                    }
                }
                return None;
            },
            Some(m) => match m.checked_add(dv) {
                None => {
                    proof {
                        if forall|j: int| 0 <= j < d.len() ==> is_digit(#[trigger] d[j]) {
                            lemma_digits_value_grows(d, (i + 1 - start) as int);
                            assert(d.subrange(0, (i + 1 - start) as int) =~= s@.subrange(start as int, i + 1));
                        }
                    }
                    return None;
                },
                Some(n) => {
                    v = n;
                },
            },
        }
        i = i + 1;
    }
    proof {
        assert(s@.subrange(start as int, hi as int) =~= d);
        assert forall|j: int| 0 <= j < d.len() implies is_digit(#[trigger] d[j]) by {
            assert(d[j] == s@[start + j]);
        }
    }
    Some(v)
}

/// The first index where `p` occurs in `s`, if any.
pub open spec fn first_index(s: Seq<char>, p: Seq<char>) -> Option<int> {
    if exists|i: int| is_first_occurrence(s, p, 0, i) {
        Some(choose|i: int| is_first_occurrence(s, p, 0, i))
    } else {
        None
    }
}

/// The stream a log names, if it names one.
pub open spec fn stream_named(s: Seq<char>) -> Option<HandlerStream> {
    if s == "stdout"@ {
        Some(HandlerStream::Stdout)
    } else if s == "stderr"@ {
        Some(HandlerStream::Stderr)
    } else {
        None
    }
}

/// An entry by value.
pub struct LogLineView {
    pub timestamp: Seq<char>,
    pub worker_id: usize,
    pub stream: HandlerStream,
    pub line: Seq<char>,
}

impl View for HandlerLogLine {
    type V = LogLineView;

    open spec fn view(&self) -> LogLineView {
        LogLineView { timestamp: self.timestamp@, worker_id: self.worker_id, stream: self.stream, line: self.line@ }
    }
}

/// Reading a log line back: the timestamp runs to the first
/// `" [handler#"` and must parse as RFC 3339; the worker id runs to the next
/// space; the stream name runs to the next `"] "` and must be `stdout` or
/// `stderr`; the rest, without trailing newlines, is the text.
pub open spec fn spec_parse_line(s: Seq<char>) -> Option<LogLineView> {
    match first_index(s, " [handler#"@) {
        None => None,
        Some(i1) => {
            let ts = s.subrange(0, i1);
            let rest = s.subrange(i1 + 10, s.len() as int);
            match (rfc3339_utc(ts), first_index(rest, " "@)) {
                (Some(t), Some(j)) => {
                    let rest2 = rest.subrange(j + 1, rest.len() as int);
                    match (parse_usize_spec(rest.subrange(0, j)), first_index(rest2, "] "@)) {
                        (Some(w), Some(k)) => match stream_named(rest2.subrange(0, k)) {
                            Some(st) => Some(LogLineView {
                                timestamp: t,
                                worker_id: w,
                                stream: st,
                                line: strip_trailing(rest2.subrange(k + 2, rest2.len() as int), '\n'),
                            }),
                            None => None,
                        },
                        _ => None,
                    }
                },
                _ => None,
            }
        },
    }
}

proof fn lemma_first_index(s: Seq<char>, p: Seq<char>, i: int)
    requires
        is_first_occurrence(s, p, 0, i),
    ensures
        first_index(s, p) == Some(i),
{
    let j = choose|j: int| is_first_occurrence(s, p, 0, j);
    if j < i {
        assert(!occurs_at(s, p, j));
    } else if i < j {
        assert(!occurs_at(s, p, i));
    }
}

proof fn lemma_no_index(s: Seq<char>, p: Seq<char>)
    requires
        forall|j: int| 0 <= j ==> !occurs_at(s, p, j),
    ensures
        first_index(s, p) is None,
{
}

fn find_in(s: &Vec<char>, lo: usize, p: &str) -> (r: Option<usize>)
    requires
        lo <= s@.len(),
    ensures
        match r {
            Some(i) => lo <= i && i + p@.len() <= s@.len()
                && first_index(s@.subrange(lo as int, s@.len() as int), p@) == Some(i - lo),
            None => first_index(s@.subrange(lo as int, s@.len() as int), p@) is None,
        },
{
    let pv = chars_of(p);
    let ghost t = s@.subrange(lo as int, s@.len() as int);
    let r = find_from(s, &pv, lo);
    proof {
        assert forall|j: int| 0 <= j implies occurs_at(t, p@, j) == occurs_at(s@, p@, lo + j) by {
            if 0 <= j && j + p@.len() <= t.len() {
                assert(t.subrange(j, j + p@.len()) =~= s@.subrange(lo + j, lo + j + p@.len()));
            }
        }
        match r {
            Some(i) => {
                assert(is_first_occurrence(t, p@, 0, i - lo));
                lemma_first_index(t, p@, i - lo);
            },
            None => {
                lemma_no_index(t, p@);
            },
        }
    }
    r
}

fn chars_between(s: &Vec<char>, lo: usize, hi: usize) -> (v: Vec<char>)
    requires
        lo <= hi <= s@.len(),
    ensures
        v@ == s@.subrange(lo as int, hi as int),
{
    let mut v: Vec<char> = Vec::new();
    let mut i = lo;
    while i < hi
        invariant
            lo <= i <= hi <= s@.len(),
            v@ == s@.subrange(lo as int, i as int),
        decreases hi - i,
    {
        v.push(s[i]);
        proof { assert(s@.subrange(lo as int, i + 1) =~= s@.subrange(lo as int, i as int).push(s@[i as int])); }
        i = i + 1;
    }
    v
}

/// Reads a log line back; `None` when it does not have the log's form.
pub fn parse_line(line: &str) -> (r: Option<HandlerLogLine>)
    ensures
        match r {
            Some(l) => spec_parse_line(line@) == Some(l@),
            None => spec_parse_line(line@) is None,
        },
{
    let s = chars_of(line);
    proof {
        assert(s@.subrange(0, s@.len() as int) =~= s@);
        reveal_strlit(" [handler#");
        reveal_strlit(" ");
        reveal_strlit("] ");
        assert(" [handler#"@.len() == 10);
        assert(" "@.len() == 1);
        assert("] "@.len() == 2);
    }
    let marker = " [handler#";
    let found = find_in(&s, 0, marker);
    proof { assert(marker@.len() == 10); }
    let i1 = match found {
        None => return None,
        Some(i) => i,
    };
    let n = s.len();
    assert(i1 + 10 <= n);
    let ghost rest = s@.subrange(i1 + 10, s@.len() as int);
    let ts = substring(&s, 0, i1);
    let t = match parse_rfc3339_utc(ts.as_str()) {
        None => return None,
        Some(t) => t,
    };
    let b = i1 + 10;
    let j = match find_in(&s, b, " ") {
        None => return None,
        Some(j) => j,
    };
    proof {
        assert(rest =~= s@.subrange(b as int, s@.len() as int));
        assert(rest.subrange(0, j - b) =~= s@.subrange(b as int, j as int));
    }
    let w = match parse_usize(&s, b, j) {
        None => return None,
        Some(w) => w,
    };
    let c = j + 1;
    let ghost rest2 = rest.subrange(j - b + 1, rest.len() as int);
    proof { assert(rest2 =~= s@.subrange(c as int, s@.len() as int)); }
    let k = match find_in(&s, c, "] ") {
        None => return None,
        Some(k) => k,
    };
    proof { assert(rest2.subrange(0, k - c) =~= s@.subrange(c as int, k as int)); }
    let name = substring(&s, c, k);
    proof {
        reveal_strlit("stdout");
        reveal_strlit("stderr");
    }
    let stream = if str_eq(name.as_str(), "stdout") {
        HandlerStream::Stdout
    } else if str_eq(name.as_str(), "stderr") {
        HandlerStream::Stderr
    } else {
        return None;
    };
    let content = chars_between(&s, k + 2, s.len());
    proof { assert(rest2.subrange(k - c + 2, rest2.len() as int) =~= content@); }
    let body_len = crate::worker::strip_trailing_len(&content, content.len(), '\n');
    proof { assert(content@.take(content@.len() as int) =~= content@); }
    let body = chars_between(&content, 0, body_len);
    proof { assert(body@ =~= content@.take(body_len as int)); }
    let text = crate::text::string_of(&body);
    Some(HandlerLogLine { timestamp: t, worker_id: w, stream, line: text })
}

// ---------------------------------------------------------------------------
// Round trip
// ---------------------------------------------------------------------------

proof fn lemma_decimal_digits(n: nat)
    ensures
        spec_decimal(n).len() > 0,
        forall|i: int| 0 <= i < spec_decimal(n).len() ==> is_digit(#[trigger] spec_decimal(n)[i]),
        digits_value(spec_decimal(n)) == n,
    decreases n,
{
    let d = spec_decimal(n);
    if n < 10 {
        assert(d == seq![crate::text::digit_char(n)]);
        assert(d.drop_last() =~= Seq::<char>::empty());
        assert(d.last() == crate::text::digit_char(n));
        lemma_digit_value(n);
        assert(digits_value(d) == digits_value(d.drop_last()) * 10
            + ((d.last() as u32) - ('0' as u32)) as nat);
    } else {
        lemma_decimal_digits(n / 10);
        let p = spec_decimal(n / 10);
        assert(d == p.push(crate::text::digit_char(n % 10)));
        assert(d.drop_last() =~= p);
        assert(d.last() == crate::text::digit_char(n % 10));
        lemma_digit_value(n % 10);
        assert(digits_value(d) == digits_value(p) * 10 + (n % 10));
        assert((n / 10) * 10 + n % 10 == n);
        assert forall|i: int| 0 <= i < d.len() implies is_digit(#[trigger] d[i]) by {
            if i < p.len() {
                assert(d[i] == p[i]);
            }
        }
    }
}

proof fn lemma_digit_value(d: nat)
    requires
        d < 10,
    ensures
        is_digit(crate::text::digit_char(d)),
        ((crate::text::digit_char(d) as u32) - ('0' as u32)) as nat == d,
{
}

proof fn lemma_marker_first(ts: Seq<char>, rest: Seq<char>)
    requires
        forall|i: int| 0 <= i < ts.len() ==> ts[i] != ' ',
    ensures
        first_index(ts + " [handler#"@ + rest, " [handler#"@) == Some(ts.len() as int),
        (ts + " [handler#"@ + rest).subrange(0, ts.len() as int) == ts,
        (ts + " [handler#"@ + rest).subrange(ts.len() as int + 10, (ts + " [handler#"@ + rest).len() as int) == rest,
{
    reveal_strlit(" [handler#");
    let p1 = " [handler#"@;
    let s = ts + p1 + rest;
    let a = ts.len() as int;
    assert(p1.len() == 10);
    assert(s.subrange(a, a + 10) =~= p1);
    assert forall|j: int| 0 <= j < a implies !occurs_at(s, p1, j) by {
        assert(s[j] == ts[j]);
        if occurs_at(s, p1, j) {
            assert(s.subrange(j, j + 10)[0] == s[j]);
        }
    }
    assert(is_first_occurrence(s, p1, 0, a));
    lemma_first_index(s, p1, a);
    assert(s.subrange(0, a) =~= ts);
    assert(s.subrange(a + 10, s.len() as int) =~= rest);
}

proof fn lemma_space_first(dec: Seq<char>, tail: Seq<char>)
    requires
        forall|i: int| 0 <= i < dec.len() ==> is_digit(#[trigger] dec[i]),
    ensures
        first_index(dec + " "@ + tail, " "@) == Some(dec.len() as int),
        (dec + " "@ + tail).subrange(0, dec.len() as int) == dec,
        (dec + " "@ + tail).subrange(dec.len() as int + 1, (dec + " "@ + tail).len() as int) == tail,
{
    reveal_strlit(" ");
    let s = dec + " "@ + tail;
    let b = dec.len() as int;
    assert(s.subrange(b, b + 1) =~= " "@);
    assert forall|j: int| 0 <= j < b implies !occurs_at(s, " "@, j) by {
        assert(s[j] == dec[j]);
        assert(is_digit(dec[j]));
        if occurs_at(s, " "@, j) {
            assert(s.subrange(j, j + 1)[0] == s[j]);
        }
    }
    assert(is_first_occurrence(s, " "@, 0, b));
    lemma_first_index(s, " "@, b);
    assert(s.subrange(0, b) =~= dec);
    assert(s.subrange(b + 1, s.len() as int) =~= tail);
}

proof fn lemma_bracket_first(stream: HandlerStream, tail: Seq<char>)
    ensures
        first_index(stream_text(stream) + "] "@ + tail, "] "@) == Some(6int),
        (stream_text(stream) + "] "@ + tail).subrange(0, 6) == stream_text(stream),
        (stream_text(stream) + "] "@ + tail).subrange(8, (stream_text(stream) + "] "@ + tail).len() as int) == tail,
        stream_named(stream_text(stream)) == Some(stream),
{
    reveal_strlit("] ");
    reveal_strlit("stdout");
    reveal_strlit("stderr");
    let name = stream_text(stream);
    let s = name + "] "@ + tail;
    assert(name.len() == 6);
    assert(s.subrange(6, 8) =~= "] "@);
    assert forall|j: int| 0 <= j < 6 implies !occurs_at(s, "] "@, j) by {
        assert(s[j] == name[j]);
        if occurs_at(s, "] "@, j) {
            assert(s.subrange(j, j + 2)[0] == s[j]);
        }
    }
    assert(is_first_occurrence(s, "] "@, 0, 6));
    lemma_first_index(s, "] "@, 6);
    assert(s.subrange(0, 6) =~= name);
    assert(s.subrange(8, s.len() as int) =~= tail);
    assert("stdout"@ != "stderr"@) by {
        assert("stdout"@[3] != "stderr"@[3]);
    }
}

/// Reading back a line the log wrote gives its worker, its stream and its
/// text (without trailing newlines), and its timestamp in UTC, for any
/// timestamp that parses as RFC 3339 and holds no space (as RFC 3339 text
/// does not).
pub proof fn law_format_then_parse(ts: Seq<char>, worker_id: usize, stream: HandlerStream, line: Seq<char>)
    requires
        rfc3339_utc(ts) is Some,
        forall|i: int| 0 <= i < ts.len() ==> ts[i] != ' ',
    ensures
        spec_parse_line(spec_format_line(ts, worker_id, stream, line)) == Some(LogLineView {
            timestamp: rfc3339_utc(ts)->0,
            worker_id,
            stream,
            line: strip_trailing(line + "\n"@, '\n'),
        }),
{
    let dec = spec_decimal(worker_id as nat);
    let name = stream_text(stream);
    let tail = line + "\n"@;
    let rest2 = name + "] "@ + tail;
    let rest = dec + " "@ + rest2;
    let s = spec_format_line(ts, worker_id, stream, line);
    assert(s =~= ts + " [handler#"@ + rest);
    lemma_decimal_digits(worker_id as nat);
    lemma_marker_first(ts, rest);
    lemma_space_first(dec, rest2);
    lemma_bracket_first(stream, tail);
    reveal_strlit("+");
    assert(digits_part(dec) == dec) by {
        assert(is_digit(dec[0]));
    }
    assert(parse_usize_spec(dec) == Some(worker_id));
}

} // verus!
