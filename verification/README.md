# Rookeeper

A deterministic single-node coordination kernel: a tree-shaped key/value
store with versions and ACLs, a write-ahead log and snapshots, watches,
locks, sessions and a service registry.

## Layout

- `src/` — the library, verified with Verus. Each module states its
  behaviour over mathematical views (`Seq`, `Map`, spec functions) and
  proves it:
  - `model`, `acl`, `error`, `config`, `platform` — paths and their
    normalisation, access control, error codes, configuration defaults,
    platform defaults;
  - `codec`, `wire`, `client` — little-endian codecs, the 24-byte frame
    header, request framing and response headers;
  - `layout`, `state`, `wal`, `snapshot` — storage naming, the recovery
    cursor record, WAL entries and writer, snapshot encoding;
  - `strmap`, `idmap` — small association lists keyed by text or integer;
  - `tree_kv`, `watch`, `session`, `lock`, `registry`, `backpressure` —
    the state machines;
  - `server`, `recovery`, `bootstrap` — request processing, recovery
    (snapshot restore, then log replay from the recovery cursor) and
    start-up wiring.
  Calls into outside crates (`crc32fast`, `bincode`, `tokio`'s channels)
  stand behind small trusted wrappers whose contracts say what the crates
  document.
- `tests/` — tests of the library, run against the compiled crate.
- `app/` — the program around the library: configuration loading, the TCP
  front end, the client SDK, the maintenance CLI and the file I/O of
  recovery (reading the lock file, cursor, snapshot and WAL segments, and
  writing them back).
