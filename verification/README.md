# collab_board

A collaborative kanban board: boards hold columns, columns hold cards. Cards
carry a version for optimistic locking and a log of their changes; every
change is announced as an event (written ahead to a log file and broadcast
over a WebSocket) and recorded in the board's audit trail.

Layout:

- `src/` — the verified library.
  - `store.rs`: the in-memory state and every operation on it, each with a
    contract over the state's mathematical view (`AppStateView`).
  - `positions.rs`: dense card positions (0, 1, ..., n - 1 within a column)
    and the proofs that creating, deleting, moving and reordering keep them so.
  - `laws.rs`: optimistic locking, cascading deletes, and recovery: replaying
    each announced event redoes its change, shifts of the other cards
    included, so every change made through the store keeps the written-ahead
    events a complete record of its boards, columns and cards.
  - `models.rs`, `errors.rs`: records, requests, events and errors with their views.
  - `keyed.rs`: vectors of records with distinct ids, read as maps.
  - `ordering.rs`, `text.rs`, `wal.rs`: sorting, trimming and decimal text,
    and recovery from a log file up to its first torn line.
  - `ambient.rs`: the current time (chrono) and fresh ids (uuid, made of
    bytes drawn through getrandom, so that a failure to draw is an error
    rather than a panic).
- `app/` — the server around it: HTTP handlers and routes (axum), the
  WebSocket, the lock and broadcast channel (tokio), the log files, and the
  serde forms of the library's types.
- `tests/` — the board's scenarios, run against the library.
