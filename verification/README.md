# spec-store

A codebase specification registry with quality gates, coverage gates, test
tracking and multi-agent worktree coordination.

## Layout

- `src/` — the library `spec_store_core`, verified with Verus. It holds the
  logic: the LCOV parsers and per-function coverage, the coverage-gate
  verdict, the source scanners (function extraction, test detection,
  block measurement, test-to-function mapping), the quality gates, the
  worktree conflict check and the parsing of git's output, the catch-up of
  unregistered functions, the project rules for agents, the reuse-gate
  decision and the word-bag bucket counts of the embeddings. Each public
  function states in its contract what it returns, over spec functions on
  sequences and maps; the laws that relate several functions are public
  proof functions.
- `tests/` — tests of the library on concrete values.
- `app/` — the `spec-store` command line: argument parsing, files, git
  processes, the SQLite and JSON stores, the floating-point percentages and
  similarity scores, and coloured output. It calls the library for every
  decision.

The calls into outside crates made by the library (`regex`, `sha2`, and a
few functions of the standard library) stand behind small trusted wrappers
whose contracts name their results.
