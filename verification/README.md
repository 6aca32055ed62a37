# lattice-security

A service that estimates the security of lattice parameter sets (LWE, RLWE,
GLWE, NTRU, SIS) by running the lattice estimator attack by attack, caching
each attack's outcome, and assembling versioned security reports.

## Layout

- `src/` — the verified library (Verus). Canonical parameter values, problem
  and analysis models, semantic validation, slow-attack applicability rules,
  canonical JSON identities and their SHA-256 cache keys, the scheduler's
  decisions (which attacks run, which are skipped by policy, how worker answers
  become results, what a case and a batch settle to), the store's queue and
  state rules, parameter sweeps, approximation-model checks, the command-line
  grammar and the Web UI's display formatting.
- `tests/` — tests of the library.
- `app/` — the executable around it: configuration, the SQLite store, the HTTP
  API (axum), the estimator worker client (reqwest), the asynchronous job
  runner (tokio), approximation-model loading and floating-point prediction,
  and the command-line client. Its decisions go through the library's verified
  functions, apart from a few small steps of the job runner's loop.

## Running

`lattice-security` serves the API; `lattice-security healthcheck` probes a
running service; `lattice-security cli <command>` runs the command-line client
(`health`, `batches`, `batch ID`, `cancel ID`, `rerun ID`, `delete-batch ID`,
`report ID`, `estimate FILE`, `parameter-sets`, `parameter-set ID`,
`delete-parameter-set ID`, `import FILE [--replace]`).
