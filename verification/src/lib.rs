//! rowforge: the decision logic of a streaming batch processor that feeds
//! tabular rows (CSV / JSON-Lines) to per-row handler processes and merges
//! their outcomes across attempts.

pub mod text;
pub mod error;
pub mod runtime;
pub mod codes;
pub mod tally;
pub mod outcome;
pub mod resolution;
pub mod store;
pub mod protocol;
pub mod accumulator;
pub mod worker;
pub mod digest;
pub mod meta;
pub mod pool;
pub mod reader;
pub mod path;
pub mod input;
pub mod stall;
pub mod run;
pub mod handler_log;
pub mod manifest;
pub mod rerun;
pub mod export;
pub mod pack;
pub mod cli;
pub mod handler_build;
pub mod delimited;
