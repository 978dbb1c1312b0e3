# rowforge

rowforge feeds the rows of a CSV or JSON-Lines file to handler processes
that speak a JSON-Lines protocol on stdin/stdout, records every row's
outcome in `outcomes.jsonl`, and merges the outcomes of all attempts of an
execution into one resolution per row.

## Layout

- `src/` — the verified library (Verus). It holds the decisions of the
  pipeline and their contracts:
  - `reader`, `accumulator`, `worker`, `pool`, `stall`: which rows are sent,
    how they are batched, what a handler's reply becomes, how a run ends;
  - `resolution`, `export`, `cli`: the per-row resolution across attempts,
    the retry policy of `exec run`, and the export tables;
  - `store`, `input`, `handler_log`, `manifest`, `runtime`, `rerun`, `pack`,
    `handler_build`, `delimited`, `digest`, `path`, `text`: stored texts and
    migrations, CSV and JSONL input parsing, CSV writing, log lines,
    manifest rules, bundling, build staleness.
- `app/` — the `rowforge` command: clap, tokio tasks and processes, SQLite,
  files, serde forms of the library's values.
- `tests/` — tests of the library's public functions.
