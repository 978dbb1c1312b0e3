//! A handler's manifest (`rowforge.yaml`) as the pipeline reads it.

use vstd::prelude::*;
use crate::outcome::{Field, JsonValue};
use crate::runtime::{runtime_violation, Runtime};
use crate::reader::{fields_map, keys_distinct, set_field};
use crate::outcome::JsonView;
use crate::text::push_str;

verus! {

/// How to start the handler.
pub struct Entry {
    pub cmd: Vec<String>,
    pub build: Option<Vec<String>>,
    pub cwd: String,
    pub env: Vec<(String, String)>,
    pub startup_timeout_ms: u64,
}

/// The working directory of a handler when the manifest names none.
pub fn default_cwd() -> (s: String)
    ensures
        s@ == "."@,
{
    ".".to_string()
}

/// The startup timeout when the manifest names none: 30 seconds.
pub fn default_startup_timeout_ms() -> (t: u64)
    ensures
        t == 30_000,
{
    30_000
}

/// One configuration key and its default value.
pub struct ConfigField {
    pub default: JsonValue,
}

/// The optional `output:` block.
pub struct Output {
    /// Append observability columns to the output CSVs.
    pub include_meta: bool,
}

impl Default for Output {
    fn default() -> (o: Self)
        ensures
            !o.include_meta,
    {
        Output { include_meta: false }
    }
}

/// A handler manifest.
pub struct Manifest {
    pub name: String,
    pub version: String,
    pub description: String,
    pub language: String,
    pub entry: Entry,
    /// Input columns that must be present.
    pub required_input: Vec<String>,
    /// Configuration keys in ascending order, each once.
    pub config: Vec<(String, ConfigField)>,
    pub runtime: Option<Runtime>,
    pub output: Option<Output>,
}

/// The defaults of a configuration block as a map.
pub open spec fn config_defaults_map(c: Seq<(String, ConfigField)>) -> Map<Seq<char>, JsonView>
    decreases c.len(),
{
    if c.len() == 0 {
        Map::empty()
    } else {
        config_defaults_map(c.drop_last()).insert(c.last().0@, c.last().1.default@)
    }
}

impl Manifest {
    /// Whether the manifest asks for meta columns; no `output:` block means no.
    pub fn include_meta(&self) -> (b: bool)
        ensures
            b == (match self.output { Some(o) => o.include_meta, None => false }),
    {
        match &self.output {
            Some(o) => o.include_meta,
            None => false,
        }
    }

    /// The check a loaded manifest must pass: a `runtime:` block must be
    /// valid; the error names the block.
    pub fn check_runtime(&self) -> (r: Result<(), String>)
        ensures
            match self.runtime {
                None => r is Ok,
                Some(rt) => match runtime_violation(rt) {
                    None => r is Ok,
                    Some(m) => r matches Err(e) && e@ == "manifest.runtime: "@ + m,
                },
            },
    {
        match &self.runtime {
            None => Ok(()),
            Some(rt) => match rt.validate() {
                Ok(()) => Ok(()),
                Err(m) => {
                    let mut e = "manifest.runtime: ".to_string();
                    push_str(&mut e, m.as_str());
                    Err(e)
                },
            },
        }
    }

    /// The configuration defaults, key by key.
    pub fn config_defaults(&self) -> (d: Vec<Field>)
        ensures
            keys_distinct(d@),
            fields_map(d@) == config_defaults_map(self.config@),
    {
        let mut d: Vec<Field> = Vec::new();
        proof { assert(fields_map(d@) =~= Map::<Seq<char>, JsonView>::empty()); }
        let mut i: usize = 0;
        while i < self.config.len()
            invariant
                i <= self.config@.len(),
                keys_distinct(d@),
                fields_map(d@) == config_defaults_map(self.config@.take(i as int)),
            decreases self.config@.len() - i,
        {
            let v = copy_value(&self.config[i].1.default);
            set_field(&mut d, self.config[i].0.clone(), v);
            proof {
                assert(self.config@.take(i + 1).drop_last() =~= self.config@.take(i as int));
            }
            i = i + 1;
        }
        proof { assert(self.config@.take(self.config@.len() as int) =~= self.config@); }
        d
    }
}

/// A copy of a JSON value.
pub fn copy_value(v: &JsonValue) -> (c: JsonValue)
    ensures
        c@ == v@,
{
    match v {
        JsonValue::Null => JsonValue::Null,
        JsonValue::Str(s) => JsonValue::Str(s.clone()),
        JsonValue::Encoded(t) => JsonValue::Encoded(t.clone()),
    }
}

} // verus!
