# memstead_base

The engine over a workspace of *mems*: small knowledge bases of Markdown
entities, each pinned to a schema and stored in a folder, on a git branch or in
a sealed archive.

The library is written in Verus. Every function states in its contract what it
returns and changes, and the public `law_*` proof functions state what holds
across functions.

- `src/boot.rs`, `src/engine.rs`: mounting mems, resolving their schemas,
  quarantine.
- `src/drift.rs`, `src/apply_commit.rs`: mems that move on in their storage,
  change reports, remotes, commits that others authored.
- `src/check_ops.rs`, `src/check.rs`: check records and what they say of an
  entity.
- `src/archive.rs`, `src/round_trip.rs`: engines over archive bytes, sealing a
  mem, and that it comes back from its archive as it was.
- `src/conflicts.rs`: merge conflicts in entity files.
- `src/due.rs`, `src/export_html.rs`, `src/export_llms_txt.rs`: the deadline
  brief and the two exports.
- `src/events.rs`, `src/file_watcher.rs`: subscriptions and moved branch heads.
- `src/error.rs`, `src/json.rs`: the errors, their codes, details and prose.
- `src/backend.rs`, `src/host.rs`: the storage and the surroundings of an
  engine. Both are traits for the embedding program; nothing is taken for
  granted of what an implementor answers. The engine reaches them through
  `Storage` and `Surroundings`, which keep an account of what was asked beyond
  reading: a contract on the account says which writes there were, and that a
  refusal made none.

`app/` holds what surrounds the library in an embedding program: delivering
events, watching the branch directory, reading schema packages from disk and
handing requests on. `tests/` runs the library on concrete values.
