# auction_lock_service

An auction service in which bidders lock stock for a limited time and then
confirm the purchase or let the lock go. The library is written in Verus and
proved against its contracts; the server around it is plain Rust.

## Layout

- `src/` — the verified library.
  - `models.rs`: products, bids, stock locks, their statuses and auction status.
  - `db.rs`: the tables (products, bids, locks, idempotency keys), their
    well-formedness (identifiers are keys; for every product, available plus
    locked stock is the total, and locked stock is what its active locks hold),
    and every table operation with an exact contract over `DbState`. As with
    the SQL tables they stand for, an operation needs only that identifiers are
    keys (and that its arithmetic stays within `i64`); it refuses what a
    primary or foreign key refuses, and keeps well-formedness where its inputs
    allow.
  - `services.rs`: the service operations (list a product, place, confirm and
    cancel bids, clean-ups). The service keeps as a type invariant that its
    tables are well formed and that a lock is active only while its bid stands
    confirmed. Each operation that reads the clock or draws identifiers comes
    with an `_at` form that takes them as arguments and states its result exactly.
  - `laws.rs`: properties across operations: what a placed bid does to stock
    and price and how it reads back, how a bidder's earlier locks pay towards
    a new bid, idempotent placement and the lifetime of a key, what confirming,
    cancelling, releasing and expiry do to stock, and the round trips
    (place then cancel, lock then release) that give stock back.
  - `errors.rs`, `handlers.rs`, `clock.rs`, `text.rs`: errors and their HTTP
    answers, request bodies, the clock and identifier sources, string equality.
- `app/` — the HTTP server (axum), JSON forms of the types, the SQLite store
  that keeps the tables between runs, and the periodic clean-up.
- `tests/` — tests run against the compiled library.

Prices are kept in hundredths of the currency unit, instants in milliseconds
since the Unix epoch and identifiers as the 128 bits of a UUID; the server
converts at its edge.
