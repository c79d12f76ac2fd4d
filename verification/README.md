# weaveflow

A pipeline engine's core, verified with Verus: pipelines are written in
YAML, read into a typed definition, checked, laid out as a DAG of layers,
and run step by step through built-in operators.

Layout:

- `src/` — the verified library.
  - `json`, `number`, `float`, `text`: JSON values with exact numbers, and
    the character-level helpers the parsers share.
  - `dsl`: variable references and templates, the pipeline definition, the
    reader that builds it from a parsed document, and the validator.
  - `engine`, `runtime`, `graph`: the step graph and its layering, cache
    keys, retries, slot defaults and slot schema checks, and, in
    `engine::flow`, the decisions of a run (layer by layer, stopping at the
    first failure) and of an iterated step (waves of chunks, in order) as
    step functions that the caller drives; `engine::start` fills in and
    checks the slots, then lays the steps out, before a run begins.
  - `operator`: the built-in operators; those that do I/O are split into
    the request they make and what they do with the reply. `sort` orders
    with rayon's parallel stable sort, under a verified comparison.
  - `cli`, `server`: the client's settings and requests, following a task (text,
    JSON lines, and the layout of the full-screen view),
    the daemon's log buffer and push/trigger rules.
- `tests/` — tests of the library.
- `app/` — the command-line front end: reading files and standard input,
  the YAML and JS engines, printing.
