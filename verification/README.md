# zeroclaw health, policy, status and layered configuration

A Verus library for ZeroClaw's deterministic memory compactor, failure
registry and recovery plans, command policy engine, layered configuration
merge and status report. Verus proves the contracts of the functions in
`src/`, except for a few small trusted wrappers around calls into std, toml,
chrono and uuid (the clock, random ids, lower-casing, time formatting,
parsing a configuration layer),
whose contracts are assumed and documented beside them.

- `src/compactor.rs`: whitespace normalization, truncation, de-duplication
  and budgeted compaction of memory entries.
- `src/failure.rs`: the failure registry (record, resolve, get, list) and
  the failure classifications.
- `src/recovery.rs`: recovery plans and the decisions of a recovery run.
- `src/policy.rs`: rule evaluation and the built-in rules.
- `src/layered.rs`: parsing configuration layers and merging them.
- `src/status.rs`: the status report and its human and brief text forms.
- `src/text.rs`, `src/string_map.rs`: the string and map helpers they share.

`app/` holds the rest: the process-wide registry, the file system, `/proc`,
disk space, TOML and JSON, and the status commands. The clock and the
random source are read in `src/` through the trusted wrappers. `tests/` runs the
library on concrete values.
