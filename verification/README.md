# conduit

The core of a data pipeline orchestrator, written in Verus: each function of
the library states what it does in `requires` / `ensures` contracts, and
Verus proves the code against them.

## Layout

- `src/` — the verified library.
  - DAG compilation: `pysyntax` (the tree-sitter syntax tree of a Python
    file), `pyparse` and `dagparse` (the `@dag` / `@task` reader), `yaml`
    (YAML workflows), `yaml_contracts` (the data-quality contracts a YAML
    task declares), `resolver` and `graph` (dependency resolution, cycle
    detection, run order), `plan`, `sqlio` (SQL task inputs and outputs).
  - Model and state: `dag`, `event`, `snapshot` (environments, fork,
    promote, diff), `fingerprint`, `incremental`, `backfill`, `contracts`
    (contract verdicts and the deployment gate), `config`, `error`.
  - Execution: `protocol` (the stdout protocol), `duration`, `command`,
    `task_output`, `executor`.
  - Distributed execution: `worker_pool`, `coordinator`,
    `assignment_store`, `worker`, `distributed_executor`, `proto_types`,
    `convert`, `distributed`.
  - `text` and `clock`: text handling and the wall clock.
- `tests/` — tests of the library.
- `app/` — ordinary Rust around the library: reading files, processes,
  channels and threads, metrics export, and the parts that compute in
  floating point (contract evaluation, retry backoff).

Laws that relate several operations are public proof functions named
`law_*`, next to the functions they speak of.
