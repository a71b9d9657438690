# autoloop_core

The verified core of the OntoLoop harness: the logic of its memory kernel,
observability, relation checks and command line, written in Verus with
contracts over mathematical models and proved.

- `src/` is the library. Every function in it is verified; calls into
  `serde_json`, `sha2` and a few parts of `std` go through small trusted
  wrappers whose contracts are documented beside them.
  - `memory/`: ingestion (extraction, semantic chunks, atomic memories,
    relations, write decisions, the history ledger), scopes, context
    assembly and learning assets.
  - `observability/`: the signal pipeline (redaction, filtering, sampling,
    rate limits) and its laws, the telemetry collector and its views,
    business and resilience reports, replay and evolution explanations.
  - `relations.rs`: relation consistency checks, cycle detection and repair
    plans.
  - `compiler.rs`, `dependencies.rs`, `chat.rs`, `artifact.rs`, `cli.rs`:
    the decisions behind the command line.
- `tests/` runs the library on concrete values.
- `app/` is the `ontoloop` command line: it reads files, keeps the
  process-wide signal counters, calls the library and prints JSON.
