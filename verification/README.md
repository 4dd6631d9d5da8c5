# weaver (verified core)

The decision logic of weaver, an architectural memory for coding agents,
written in Verus: every function in `src/` carries a contract that Verus
proves, and `src/laws.rs` (with a few laws beside the functions they concern)
states properties across functions.

- `src/text.rs`, `src/scan.rs` — character-level text handling shared by the
  tools, each function specified over the `Seq<char>` view of its strings.
- `src/bignum.rs` — natural numbers of any size (sum, product,
  comparison), with which reciprocal-rank scores are compared exactly.
- `src/dates.rs`, `src/hashing.rs`, `src/ids.rs` — the calls into `chrono`,
  `sha2` and `uuid`, behind small trusted wrappers whose contracts name what
  those crates return.
- `src/tools/` — one module per tool: request and response types, defaults,
  and what the tool decides (freshness dispositions, manifest assembly and
  strict-mode refusals, the index integrity audit, entity resolution of
  episode decisions, reciprocal-rank fusion, ADR rendering and patches,
  contradictory constraints and supersession issues, commit and symbol
  diffs, community detection, evidence classification).
- `app/` — the unverified edges: git repositories through `git2`, `git`
  child processes, the file system, gitignore rules, and the floating-point
  parts of scoring. It hands plain values to the library and back.
- `tests/` — tests on concrete values, run against the compiled library.
