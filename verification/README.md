# ade

The core of a desktop for coding agents: sessions and worktrees mirrored from
an agent server, a fleet of supervised tasks, guest machines and containers,
and the rows and cards that the window shows.

- `src/` is the library. Verus proves the contract of every function; a fresh
  identity and the start of a clock promise nothing and have none.
  `outside.rs`, `clock.rs`, `transcript.rs` and `text.rs` hold the few
  declarations whose contracts are believed: calls into std and `serde_json`.
- `tests/` runs the library on concrete values.
- `app/` is the program around it: processes, sockets, files, threads, the
  agent server's client and the window. It asks the library what to do, does
  it, and hands back what came of it.
