# whatbubbles_core

The core of a desktop iMessage client, written in Verus: the local message
store, the account state machine, the relay pairing configuration and the
queue of events reported to the interface. Every function under `src/` is
verified against its contract, except the small wrappers marked
`#[verifier::external_body]` in `clock.rs`, `events.rs`, `os_config.rs` and
`session.rs`: each makes one call into the standard library or an outside
crate, and its contract, which says what that call does, is trusted.

- `src/store_model.rs` — the store as mathematics: tables as sequences of
  rows, the invariant `wf` (unique keys, no dangling reference), and what
  each operation does.
- `src/storage.rs` — the executable store, proved against that model; it
  also loads a store row by row and hands its rows out to be kept.

  The store keeps its tables in memory and states, as its own rules, what
  each SQL statement of the client does to them: an upsert that draws the
  next handle id even where the handle exists, `INSERT OR REPLACE` dropping
  the replaced message's reactions, handle-less reactions never clashing,
  handles listed by name then address. The client's chat list, participant
  and message queries run their SQL lines together, so the engine refuses
  them: those three calls always fail, with the engine's message. The
  database file is input and output: `app/`
  opens it with `rusqlite`, loads its rows through the verified loaders and
  writes the store back after each change. A query's result depends on what
  is on disk, so it could not be named for Verus; the rules it follows are
  what is verified here.
- `src/laws.rs` — properties across operations: a setting is read back as
  written, handles are listed in order, participants are replaced, seeding
  is idempotent, a store is rebuilt exactly from the rows it hands out.
- `src/integration.rs`, `src/session.rs` — account states, their labels
  (each names one state) and how a stored label is restored; sign-in
  request checks.
- `src/os_config.rs` — relay configuration, device identifiers, file paths.
- `src/events.rs` — events and their first-in, first-out queue.
- `src/app.rs`, `src/ffi.rs` — the running client and the commands the
  interface gives it.
- `app/` — plain Rust around the library: the C++ bridge, the SQLite file,
  the configuration file, logging, background tasks and the protocol core.
