# redline

Learn a writer's voice from (draft → final) revision pairs: drafts with an
append-only revision history, finalizing into pairs with a structured diff,
lessons and patterns derived from them, linting new drafts against the
patterns, and a queue of lesson-derivation jobs.

## Layout

- `src/` — the library, written in Verus and verified. The whole data model
  is one `Store` value (pairs, lessons, drafts, revisions, patterns,
  feedback, jobs, and their id counters) with a well-formedness invariant;
  every operation is a function on it with a contract over its view
  (`StoreV`). `laws.rs` states and proves the properties that span
  operations (history is append-only, finalize links the pair it writes,
  deletes keep the learning corpus, promotion and enqueueing are idempotent,
  and so on).
  Outside crates are called only through small trusted wrappers whose
  contracts name or state what the crate returns: `similar` (line and word
  diffs), `regex`, `serde_json` (the tag column), `chrono` (the clock).
- `app/` — the command-line tool, the MCP server and the model-backed
  deriver: SQLite storage (`rusqlite`), argument parsing, JSON on the wire,
  HTTP and async. It loads the `Store`, runs one library operation and
  writes the result back.
- `tests/` — tests of the library through its public API.

The shared database lives at `~/.redline/emails.db`; set `REDLINE_DB` to use
another file.
