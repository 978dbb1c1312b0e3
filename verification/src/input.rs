//! Input files: format detection, the required-input check, the rows of a
//! CSV file's content and of JSONL lines, row numbering and row counting.
//! Opening and reading the file is the caller's.

use vstd::prelude::*;
use serde_json::Value;
use crate::delimited::{csv_table, read_csv, records_of};
use crate::error::CoreError;
use crate::outcome::{Field, JsonValue, JsonView};
use crate::path::{extension, path_extension};
use crate::reader::{fields_map, keys_distinct, set_field};
use crate::text::{
    all_ws, chars_of, is_blank, join, join_seq, push_decimal, push_str, spec_decimal, str_eq, trim_seq, trim_text, views,
};

verus! {

/// Supported input formats.
#[derive(Clone, Copy, Debug, PartialEq, Eq, Structural)]
pub enum InputFormat {
    Csv,
    Jsonl,
}

/// One input row: its zero-based position and its data object.
pub struct RowSource {
    pub seq: u64,
    pub data: Vec<Field>,
}

/// The format an extension names: `csv`, or `jsonl` / `ndjson`.
pub open spec fn format_of_extension(ext: Option<Seq<char>>) -> Option<InputFormat> {
    match ext {
        Some(e) => if e == "csv"@ {
            Some(InputFormat::Csv)
        } else if e == "jsonl"@ || e == "ndjson"@ {
            Some(InputFormat::Jsonl)
        } else {
            None
        },
        None => None,
    }
}

pub open spec fn undetected_message(path: Seq<char>) -> Seq<char> {
    "cannot detect input format from extension '"@ + path + "'; specify --format csv|jsonl"@
}

impl InputFormat {
    /// The format of the file at `path`: an explicit choice wins; otherwise
    /// the extension decides, and an unknown or missing one is a `Store`
    /// error that asks for `--format`.
    pub fn detect(path: &str, explicit: Option<InputFormat>) -> (r: Result<InputFormat, CoreError>)
        ensures
            explicit matches Some(f) ==> r == Ok::<InputFormat, CoreError>(f),
            explicit is None ==> match format_of_extension(extension(path@)) {
                Some(f) => r == Ok::<InputFormat, CoreError>(f),
                None => r matches Err(CoreError::Store(m)) && m@ == undetected_message(path@),
            },
    {
        if let Some(f) = explicit {
            return Ok(f);
        }
        let ext = path_extension(path);
        proof {
            reveal_strlit("csv");
            reveal_strlit("jsonl");
            reveal_strlit("ndjson");
        }
        if let Some(e) = &ext {
            if str_eq(e.as_str(), "csv") {
                return Ok(InputFormat::Csv);
            }
            if str_eq(e.as_str(), "jsonl") || str_eq(e.as_str(), "ndjson") {
                return Ok(InputFormat::Jsonl);
            }
        }
        let mut m = "cannot detect input format from extension '".to_string();
        push_str(&mut m, path);
        push_str(&mut m, "'; specify --format csv|jsonl");
        Err(CoreError::Store(m))
    }
}

// ---------------------------------------------------------------------------
// Required input
// ---------------------------------------------------------------------------

/// The names of `required` that `present` lacks, in the order of `required`.
pub open spec fn missing_names(required: Seq<Seq<char>>, present: Seq<Seq<char>>) -> Seq<Seq<char>>
    decreases required.len(),
{
    if required.len() == 0 {
        Seq::empty()
    } else if present.contains(required.last()) {
        missing_names(required.drop_last(), present)
    } else {
        missing_names(required.drop_last(), present).push(required.last())
    }
}

fn contains_name(names: &Vec<String>, n: &str) -> (b: bool)
    ensures
        b == views(names@).contains(n@),
{
    let mut i: usize = 0;
    while i < names.len()
        invariant
            i <= names@.len(),
            forall|j: int| 0 <= j < i ==> (#[trigger] names@[j])@ != n@,
        decreases names@.len() - i,
    {
        if str_eq(names[i].as_str(), n) {
            proof { assert(views(names@)[i as int] == n@); }
            return true;
        }
        i = i + 1;
    }
    proof {
        if views(names@).contains(n@) {
            let j = choose|j: int| 0 <= j < views(names@).len() && views(names@)[j] == n@;
            assert(names@[j]@ == n@);
        }
    }
    false
}

/// The required names that are not present, in their order.
pub fn missing_required(required: &Vec<String>, present: &Vec<String>) -> (m: Vec<String>)
    ensures
        views(m@) == missing_names(views(required@), views(present@)),
{
    let mut m: Vec<String> = Vec::new();
    let mut i: usize = 0;
    while i < required.len()
        invariant
            i <= required@.len(),
            views(m@) == missing_names(views(required@.take(i as int)), views(present@)),
        decreases required@.len() - i,
    {
        proof {
            assert(views(required@.take(i + 1)).drop_last() =~= views(required@.take(i as int)));
            assert(views(required@.take(i + 1)).last() == required@[i as int]@);
        }
        if !contains_name(present, required[i].as_str()) {
            let n = required[i].clone();
            m.push(n);
            proof { assert(views(m@) =~= views(m@.drop_last()).push(n@)); }
        }
        i = i + 1;
    }
    proof { assert(required@.take(required@.len() as int) =~= required@); }
    m
}

/// A name is reported missing exactly when it is required and not present.
proof fn lemma_missing_names(required: Seq<Seq<char>>, present: Seq<Seq<char>>)
    ensures
        forall|n: Seq<char>| #[trigger] missing_names(required, present).contains(n)
            <==> (required.contains(n) && !present.contains(n)),
    decreases required.len(),
{
    if required.len() > 0 {
        let r0 = required.drop_last();
        lemma_missing_names(r0, present);
        assert forall|n: Seq<char>| #[trigger] missing_names(required, present).contains(n)
            <==> (required.contains(n) && !present.contains(n)) by {
            if required.contains(n) {
                let j = choose|j: int| 0 <= j < required.len() && required[j] == n;
                if j < required.len() - 1 {
                    assert(r0[j] == n);
                }
            }
            if r0.contains(n) {
                let j = choose|j: int| 0 <= j < r0.len() && r0[j] == n;
                assert(required[j] == n);
            }
            if !present.contains(required.last()) {
                let m0 = missing_names(r0, present);
                assert(missing_names(required, present) == m0.push(required.last()));
                if m0.push(required.last()).contains(n) && n != required.last() {
                    let j = choose|j: int| 0 <= j < m0.len() + 1 && m0.push(required.last())[j] == n;
                    assert(m0[j] == n);
                }
                if m0.contains(n) {
                    let j = choose|j: int| 0 <= j < m0.len() && m0[j] == n;
                    assert(m0.push(required.last())[j] == n);
                }
                assert(m0.push(required.last())[m0.len() as int] == required.last());
            }
        }
    }
}

/// The required-column check of a CSV header row (`check_csv_required`)
/// passes exactly when every required column is a header; when it fails,
/// its message lists every required column that is missing, and only those.
pub proof fn law_required_columns(required: Seq<Seq<char>>, headers: Seq<Seq<char>>)
    ensures
        missing_names(required, headers).len() == 0
            <==> forall|i: int| 0 <= i < required.len() ==> headers.contains(#[trigger] required[i]),
        forall|n: Seq<char>| #[trigger] missing_names(required, headers).contains(n)
            <==> (required.contains(n) && !headers.contains(n)),
{
    lemma_missing_names(required, headers);
    let m = missing_names(required, headers);
    if m.len() > 0 {
        assert(m.contains(m[0]));
        let j = choose|j: int| 0 <= j < required.len() && required[j] == m[0];
        assert(!headers.contains(required[j]));
    } else {
        assert forall|i: int| 0 <= i < required.len() implies headers.contains(#[trigger] required[i]) by {
            assert(required.contains(required[i]));
            if !headers.contains(required[i]) {
                assert(m.contains(required[i]));
            }
        }
    }
}

pub open spec fn csv_missing_message(missing: Seq<Seq<char>>, headers: Seq<Seq<char>>) -> Seq<char> {
    "MISSING_REQUIRED_INPUT_COLUMN: required columns ["@ + join_seq(missing, ", "@)
        + "] not found; present headers: "@ + join_seq(headers, ", "@)
}

pub open spec fn jsonl_missing_message(missing: Seq<Seq<char>>) -> Seq<char> {
    "MISSING_REQUIRED_INPUT_COLUMN: required keys ["@ + join_seq(missing, ", "@) + "] not found in first JSONL row"@
}

/// The required-input check of a CSV file against its header row: every
/// required column must be a header; otherwise a `Store` error lists all the
/// missing columns and the headers present.
pub fn check_csv_required(headers: &Vec<String>, required: &Vec<String>) -> (r: Result<(), CoreError>)
    ensures
        missing_names(views(required@), views(headers@)).len() == 0 ==> r is Ok,
        missing_names(views(required@), views(headers@)).len() > 0 ==> (r matches Err(CoreError::Store(m))
            && m@ == csv_missing_message(missing_names(views(required@), views(headers@)), views(headers@))),
{
    let missing = missing_required(required, headers);
    if missing.len() == 0 {
        return Ok(());
    }
    let mut m = "MISSING_REQUIRED_INPUT_COLUMN: required columns [".to_string();
    push_str(&mut m, join(&missing, ", ").as_str());
    push_str(&mut m, "] not found; present headers: ");
    push_str(&mut m, join(headers, ", ").as_str());
    Err(CoreError::Store(m))
}

/// The required-input check of a JSONL file against the keys of its first
/// row (later rows are not checked).
pub fn check_jsonl_required(first_keys: &Vec<String>, required: &Vec<String>) -> (r: Result<(), CoreError>)
    ensures
        missing_names(views(required@), views(first_keys@)).len() == 0 ==> r is Ok,
        missing_names(views(required@), views(first_keys@)).len() > 0 ==> (r matches Err(CoreError::Store(m))
            && m@ == jsonl_missing_message(missing_names(views(required@), views(first_keys@)))),
{
    let missing = missing_required(required, first_keys);
    if missing.len() == 0 {
        return Ok(());
    }
    let mut m = "MISSING_REQUIRED_INPUT_COLUMN: required keys [".to_string();
    push_str(&mut m, join(&missing, ", ").as_str());
    push_str(&mut m, "] not found in first JSONL row");
    Err(CoreError::Store(m))
}

// ---------------------------------------------------------------------------
// CSV records
// ---------------------------------------------------------------------------

/// The data object of a CSV record: each header maps to the cell at its
/// position, as a string (empty when the record is short); a repeated header
/// keeps its last cell.
pub open spec fn csv_record_map(headers: Seq<Seq<char>>, cells: Seq<Seq<char>>) -> Map<Seq<char>, JsonView>
    decreases headers.len(),
{
    if headers.len() == 0 {
        Map::empty()
    } else {
        let i = headers.len() - 1;
        csv_record_map(headers.drop_last(), cells).insert(headers[i],
            if i < cells.len() { JsonView::Str(cells[i]) } else { JsonView::Str(Seq::empty()) })
    }
}

/// The data object of one CSV record under the header row. Cells are always
/// strings; no type coercion.
pub fn csv_record_fields(headers: &Vec<String>, cells: &Vec<String>) -> (d: Vec<Field>)
    ensures
        keys_distinct(d@),
        fields_map(d@) == csv_record_map(views(headers@), views(cells@)),
{
    let mut d: Vec<Field> = Vec::new();
    let mut i: usize = 0;
    proof { assert(fields_map(d@) =~= Map::<Seq<char>, JsonView>::empty()); }
    while i < headers.len()
        invariant
            i <= headers@.len(),
            keys_distinct(d@),
            fields_map(d@) == csv_record_map(views(headers@.take(i as int)), views(cells@)),
        decreases headers@.len() - i,
    {
        let v = if i < cells.len() { cells[i].clone() } else { String::new() };
        set_field(&mut d, headers[i].clone(), JsonValue::Str(v));
        proof {
            assert(views(headers@.take(i + 1)).drop_last() =~= views(headers@.take(i as int)));
            assert(views(headers@.take(i + 1))[i as int] == headers@[i as int]@);
        }
        i = i + 1;
    }
    proof { assert(headers@.take(headers@.len() as int) =~= headers@); }
    d
}

/// The error for a CSV record that cannot be read.
pub fn csv_read_error(seq: u64, err: &str) -> (e: CoreError)
    ensures
        e matches CoreError::Store(m) && m@ == "csv read error at row "@ + spec_decimal(seq as nat) + ": "@ + err@,
{
    let mut m = "csv read error at row ".to_string();
    push_decimal(&mut m, seq);
    push_str(&mut m, ": ");
    push_str(&mut m, err);
    CoreError::Store(m)
}

/// Row `i` of a CSV input, from record `i`: its data object under the header
/// row, or the read error naming the row.
pub open spec fn csv_row_is(i: int, headers: Seq<Seq<char>>, rec: Result<Seq<Seq<char>>, Seq<char>>,
    row: Result<RowSource, CoreError>) -> bool
{
    match rec {
        Ok(cells) => row matches Ok(src) && src.seq == i && keys_distinct(src.data@)
            && fields_map(src.data@) == csv_record_map(headers, cells),
        Err(e) => row matches Err(CoreError::Store(m))
            && m@ == "csv read error at row "@ + spec_decimal(i as nat) + ": "@ + e,
    }
}

/// The rows of a CSV input file from its content: the header row must read
/// and carry every required column (else the first such error); then row
/// `i`, numbered from 0, is record `i` under the header row, or the error
/// that record gave.
pub fn csv_rows(content: &[u8], required: &Vec<String>) -> (r: Result<Vec<Result<RowSource, CoreError>>, CoreError>)
    ensures
        match csv_table(content@) {
            Err(e) => r matches Err(CoreError::Store(m)) && m@ == "csv header read error: "@ + e,
            Ok((h, recs)) => if missing_names(views(required@), h).len() > 0 {
                r matches Err(CoreError::Store(m)) && m@ == csv_missing_message(missing_names(views(required@), h), h)
            } else {
                r matches Ok(rows) && rows@.len() == recs.len()
                    && forall|i: int| 0 <= i < recs.len() ==> csv_row_is(i, h, recs[i], #[trigger] rows@[i])
            },
        },
{
    let (headers, records) = match read_csv(content) {
        Ok(t) => t,
        Err(e) => {
            let mut m = "csv header read error: ".to_string();
            push_str(&mut m, e.as_str());
            return Err(CoreError::Store(m));
        },
    };
    check_csv_required(&headers, required)?;
    let ghost recs = records_of(records@);
    let mut rows: Vec<Result<RowSource, CoreError>> = Vec::new();
    let mut i: usize = 0;
    while i < records.len()
        invariant
            i <= records@.len(),
            rows@.len() == i,
            recs == records_of(records@),
            forall|j: int| 0 <= j < i ==> csv_row_is(j, views(headers@), recs[j], #[trigger] rows@[j]),
        decreases records@.len() - i,
    {
        let row = match &records[i] {
            Ok(cells) => Ok(RowSource { seq: i as u64, data: csv_record_fields(&headers, cells) }),
            Err(e) => Err(csv_read_error(i as u64, e.as_str())),
        };
        rows.push(row);
        i = i + 1;
    }
    Ok(rows)
}

// ---------------------------------------------------------------------------
// JSONL line numbering
// ---------------------------------------------------------------------------

/// The index of the first line that is not blank, or the number of lines.
pub open spec fn first_nonblank(blank: Seq<bool>) -> int
    decreases blank.len(),
{
    if blank.len() == 0 {
        0
    } else if first_nonblank(blank.drop_last()) < blank.len() - 1 {
        first_nonblank(blank.drop_last())
    } else if blank.last() {
        blank.len() as int
    } else {
        blank.len() - 1
    }
}

/// What a JSONL line is.
pub enum JsonlLine {
    /// A blank line: no row.
    Blank,
    /// The row with this seq.
    Row { seq: u64 },
}

/// Numbers the rows of a JSONL file line by line. Blank lines before the
/// first row are dropped without a number; the first non-blank line is row 0;
/// every later line, blank or not, takes the next number, so that seqs stay
/// aligned with the file's lines; blank lines yield no row.
pub struct JsonlCursor {
    seq: u64,
    started: bool,
    /// Which of the lines seen so far were blank.
    seen: Ghost<Seq<bool>>,
}

impl JsonlCursor {
    pub closed spec fn lines(&self) -> Seq<bool> {
        self.seen@
    }

    pub closed spec fn wf(&self) -> bool {
        &&& self.started <==> first_nonblank(self.seen@) < self.seen@.len()
        &&& self.seq == if self.started { self.seen@.len() - first_nonblank(self.seen@) } else { 0 }
    }

    /// No line seen yet.
    pub fn new() -> (c: Self)
        ensures
            c.wf(),
            c.lines() == Seq::<bool>::empty(),
    {
        JsonlCursor { seq: 0, started: false, seen: Ghost(Seq::empty()) }
    }

    /// Numbers the next line, given whether it is blank (all whitespace).
    /// A row's seq is its line index less the index of the first non-blank line.
    pub fn on_line(&mut self, blank: bool) -> (l: JsonlLine)
        requires
            old(self).wf(),
            old(self).lines().len() < u64::MAX,
        ensures
            final(self).wf(),
            final(self).lines() == old(self).lines().push(blank),
            blank ==> l is Blank,
            !blank ==> l == (JsonlLine::Row {
                seq: (old(self).lines().len() - first_nonblank(final(self).lines())) as u64,
            }),
    {
        let ghost before = self.seen@;
        proof {
            let after = before.push(blank);
            assert(after.drop_last() =~= before);
            lemma_first_nonblank_bound(before);
        }
        self.seen = Ghost(self.seen@.push(blank));
        if !self.started {
            if blank {
                return JsonlLine::Blank;
            }
            self.started = true;
            self.seq = 1;
            return JsonlLine::Row { seq: 0 };
        }
        let s = self.seq;
        self.seq = self.seq + 1;
        if blank { JsonlLine::Blank } else { JsonlLine::Row { seq: s } }
    }
}

proof fn lemma_first_nonblank_bound(b: Seq<bool>)
    ensures
        0 <= first_nonblank(b) <= b.len(),
    decreases b.len(),
{
    if b.len() > 0 {
        lemma_first_nonblank_bound(b.drop_last());
    }
}

/// Whether a JSONL line holds no row: every character is whitespace.
pub fn jsonl_line_is_blank(line: &str) -> (b: bool)
    ensures
        b == all_ws(line@),
{
    is_blank(&chars_of(line))
}

/// The error for a JSONL line that does not parse; lines are numbered from 1.
pub fn jsonl_parse_error(line_no: u64, err: &str) -> (e: CoreError)
    ensures
        e matches CoreError::Store(m) && m@ == "JSONL parse error at line "@ + spec_decimal(line_no as nat) + ": "@ + err@,
{
    let mut m = "JSONL parse error at line ".to_string();
    push_decimal(&mut m, line_no);
    push_str(&mut m, ": ");
    push_str(&mut m, err);
    CoreError::Store(m)
}

// ---------------------------------------------------------------------------
// JSONL rows
// ---------------------------------------------------------------------------

/// The fields of a data object as (key, value) pairs, in its order.
pub open spec fn field_pairs(d: Seq<Field>) -> Seq<(Seq<char>, JsonView)> {
    d.map_values(|f: Field| (f.key@, f.value@))
}

/// A JSON value as `serde_json` holds it, variant for variant: numbers,
/// arrays and objects by their compact JSON text.
pub enum JsonNode {
    Null,
    Bool(bool),
    Number(String),
    Str(String),
    Array(String),
    Object(String),
}

pub enum JsonNodeView {
    Null,
    Bool(bool),
    Number(Seq<char>),
    Str(Seq<char>),
    Array(Seq<char>),
    Object(Seq<char>),
}

impl View for JsonNode {
    type V = JsonNodeView;

    open spec fn view(&self) -> JsonNodeView {
        match self {
            JsonNode::Null => JsonNodeView::Null,
            JsonNode::Bool(b) => JsonNodeView::Bool(*b),
            JsonNode::Number(t) => JsonNodeView::Number(t@),
            JsonNode::Str(t) => JsonNodeView::Str(t@),
            JsonNode::Array(t) => JsonNodeView::Array(t@),
            JsonNode::Object(t) => JsonNodeView::Object(t@),
        }
    }
}

/// How a row's data keeps a JSON value: `null` and strings as they are,
/// any other value as its compact JSON text (`true` / `false` for booleans).
pub open spec fn node_value(n: JsonNodeView) -> JsonView {
    match n {
        JsonNodeView::Null => JsonView::Null,
        JsonNodeView::Bool(b) => JsonView::Encoded(if b { "true"@ } else { "false"@ }),
        JsonNodeView::Number(t) => JsonView::Encoded(t),
        JsonNodeView::Str(t) => JsonView::Str(t),
        JsonNodeView::Array(t) => JsonView::Encoded(t),
        JsonNodeView::Object(t) => JsonView::Encoded(t),
    }
}

/// The value a row's data keeps for a JSON value (see `node_value`).
pub fn json_value(n: JsonNode) -> (v: JsonValue)
    ensures
        v@ == node_value(n@),
{
    match n {
        JsonNode::Null => JsonValue::Null,
        JsonNode::Bool(b) => JsonValue::Encoded(if b { "true".to_string() } else { "false".to_string() }),
        JsonNode::Number(t) => JsonValue::Encoded(t),
        JsonNode::Str(t) => JsonValue::Str(t),
        JsonNode::Array(t) => JsonValue::Encoded(t),
        JsonNode::Object(t) => JsonValue::Encoded(t),
    }
}

/// The entries of a parsed object, each key with its value by content.
pub open spec fn entries_view(es: Seq<(String, JsonNode)>) -> Seq<(Seq<char>, JsonNodeView)> {
    es.map_values(|e: (String, JsonNode)| (e.0@, e.1@))
}

/// The entries of a parsed object as a row's data (see `node_value`).
pub open spec fn object_fields(es: Seq<(Seq<char>, JsonNodeView)>) -> Seq<(Seq<char>, JsonView)> {
    es.map_values(|e: (Seq<char>, JsonNodeView)| (e.0, node_value(e.1)))
}

/// What `serde_json` makes of a text as a JSON object (a
/// `serde_json::Map<String, Value>`): its entries in the map's order, each
/// value variant for variant; or the text of its parse error when the text
/// is not one JSON object.
pub uninterp spec fn json_object(text: Seq<char>) -> Result<Seq<(Seq<char>, JsonNodeView)>, Seq<char>>;

/// Parses `text` with `serde_json::from_str` into a
/// `serde_json::Map<String, Value>` and hands back its entries in the map's
/// order, each `Value` variant as the same `JsonNode` variant (a number,
/// array or object with its `Display` text); a map holds each key once. On
/// failure the error's `Display` text comes back. Both are what
/// `json_object` names; which texts parse, the order and the texts are
/// serde_json's and are not stated here.
#[verifier::external_body]
fn parse_json_object(text: &str) -> (r: Result<Vec<(String, JsonNode)>, String>)
    ensures
        match r {
            Ok(es) => json_object(text@) matches Ok(v) && v == entries_view(es@)
                && entries_view(es@).map_values(|e: (Seq<char>, JsonNodeView)| e.0).no_duplicates(),
            Err(e) => json_object(text@) matches Err(m) && m == e@,
        },
{
    let map = match serde_json::from_str::<serde_json::Map<String, Value>>(text) { Ok(m) => m, Err(e) => return Err(e.to_string()) };
    let mut es = Vec::new();
    for (key, v) in map {
        es.push((key, match v {
            Value::Null => JsonNode::Null,
            Value::Bool(b) => JsonNode::Bool(b),
            Value::Number(n) => JsonNode::Number(n.to_string()),
            Value::String(t) => JsonNode::Str(t),
            a @ Value::Array(_) => JsonNode::Array(a.to_string()),
            o @ Value::Object(_) => JsonNode::Object(o.to_string()),
        }));
    }
    Ok(es)
}

/// The fields of a parsed object's entries, in their order.
fn entries_to_fields(es: Vec<(String, JsonNode)>) -> (d: Vec<Field>)
    ensures
        field_pairs(d@) == object_fields(entries_view(es@)),
        entries_view(es@).map_values(|e: (Seq<char>, JsonNodeView)| e.0).no_duplicates() ==> keys_distinct(d@),
{
    let ghost e0 = es@;
    let n = es.len();
    let mut es = es;
    let mut rev: Vec<(String, JsonNode)> = Vec::new();
    // Entries are taken from the back; `rev` holds the last ones, last first.
    while es.len() > 0
        invariant
            n == e0.len(),
            rev@.len() + es@.len() == n,
            es@ == e0.take(es@.len() as int),
            forall|j: int| 0 <= j < rev@.len() ==> #[trigger] rev@[j] == e0[n - 1 - j],
        decreases es@.len(),
    {
        let k = es.len() - 1;
        let e = es.pop().unwrap();
        proof { assert(e == e0[k as int]); }
        rev.push(e);
        proof { assert(es@ =~= e0.take(es@.len() as int)); }
    }
    let mut d: Vec<Field> = Vec::new();
    while rev.len() > 0
        invariant
            n == e0.len(),
            rev@.len() + d@.len() == n,
            forall|j: int| 0 <= j < rev@.len() ==> #[trigger] rev@[j] == e0[n - 1 - j],
            forall|i: int| 0 <= i < d@.len() ==> (#[trigger] d@[i]).key@ == e0[i].0@
                && d@[i].value@ == node_value(e0[i].1@),
        decreases rev@.len(),
    {
        let (key, node) = rev.pop().unwrap();
        d.push(Field { key, value: json_value(node) });
    }
    proof {
        let ev = entries_view(e0);
        assert(field_pairs(d@) =~= object_fields(ev)) by {
            assert forall|i: int| 0 <= i < d@.len() implies #[trigger] field_pairs(d@)[i] == object_fields(ev)[i] by {
                assert(d@[i].key@ == e0[i].0@);
            }
        }
        let ks = ev.map_values(|e: (Seq<char>, JsonNodeView)| e.0);
        if ks.no_duplicates() {
            assert forall|i: int, j: int| 0 <= i < d@.len() && 0 <= j < d@.len() && i != j
                implies (#[trigger] d@[i]).key@ != (#[trigger] d@[j]).key@ by {
                assert(ks[i] == e0[i].0@);
                assert(ks[j] == e0[j].0@);
            }
        }
    }
    d
}

/// The row of a JSONL line that holds one: the line, trimmed of surrounding
/// whitespace, parsed as a JSON object, with the given seq; its data keeps
/// each value as `node_value` says. A line that does not parse gives a
/// `Store` error naming its line number, `seq + 1` (seqs follow the file's
/// lines from the first non-blank one).
pub fn jsonl_row(seq: u64, line: &str) -> (r: Result<RowSource, CoreError>)
    requires
        seq < u64::MAX,
    ensures
        match json_object(trim_seq(line@)) {
            Ok(es) => r matches Ok(src) && src.seq == seq && field_pairs(src.data@) == object_fields(es)
                && keys_distinct(src.data@),
            Err(msg) => r matches Err(CoreError::Store(m))
                && m@ == "JSONL parse error at line "@ + spec_decimal((seq + 1) as nat) + ": "@ + msg,
        },
{
    let text = trim_text(line);
    match parse_json_object(text.as_str()) {
        Ok(es) => Ok(RowSource { seq, data: entries_to_fields(es) }),
        Err(e) => Err(jsonl_parse_error(seq + 1, e.as_str())),
    }
}

// ---------------------------------------------------------------------------
// Row counting
// ---------------------------------------------------------------------------

/// `u8::is_ascii_whitespace`: space, tab, line feed, form feed, carriage return.
pub open spec fn ascii_ws(b: u8) -> bool {
    b == 0x20 || b == 0x09 || b == 0x0a || b == 0x0c || b == 0x0d
}

/// Whether the text after the last `'\n'` has a non-whitespace byte.
pub open spec fn tail_nonblank(b: Seq<u8>) -> bool
    decreases b.len(),
{
    if b.len() == 0 {
        false
    } else if b.last() == 0x0a {
        false
    } else {
        tail_nonblank(b.drop_last()) || !ascii_ws(b.last())
    }
}

/// The number of `'\n'`-separated pieces of `b` that are not all whitespace.
pub open spec fn nonblank_lines(b: Seq<u8>) -> nat
    decreases b.len(),
{
    if b.len() == 0 {
        0
    } else if b.last() == 0x0a {
        nonblank_lines(b.drop_last())
    } else if tail_nonblank(b.drop_last()) || ascii_ws(b.last()) {
        nonblank_lines(b.drop_last())
    } else {
        nonblank_lines(b.drop_last()) + 1
    }
}

/// The number of rows `run` expects from an input file: its non-blank lines,
/// less the header line for CSV (never below 0).
pub open spec fn expected_rows(b: Seq<u8>, format: InputFormat) -> nat {
    match format {
        InputFormat::Csv => if nonblank_lines(b) > 0 { (nonblank_lines(b) - 1) as nat } else { 0 },
        InputFormat::Jsonl => nonblank_lines(b),
    }
}

fn is_ascii_ws(b: u8) -> (r: bool)
    ensures
        r == ascii_ws(b),
{
    b == 0x20 || b == 0x09 || b == 0x0a || b == 0x0c || b == 0x0d
}

/// Counts the rows of an input file's content.
pub fn count_input_rows(content: &[u8], format: InputFormat) -> (n: u64)
    ensures
        n == expected_rows(content@, format),
{
    let mut count: u64 = 0;
    let mut tail: bool = false;
    let mut i: usize = 0;
    while i < content.len()
        invariant
            i <= content@.len(),
            count == nonblank_lines(content@.take(i as int)),
            count <= i,
            tail == tail_nonblank(content@.take(i as int)),
        decreases content@.len() - i,
    {
        let b = content[i];
        proof {
            assert(content@.take(i + 1).drop_last() =~= content@.take(i as int));
            assert(content@.take(i + 1).last() == b);
        }
        if b == 0x0a {
            tail = false;
        } else {
            if !tail && !is_ascii_ws(b) {
                count = count + 1;
                tail = true;
            }
        }
        i = i + 1;
    }
    proof { assert(content@.take(content@.len() as int) =~= content@); }
    match format {
        InputFormat::Csv => if count > 0 { count - 1 } else { 0 },
        InputFormat::Jsonl => count,
    }
}

} // verus!
