# waiting_room

A waiting room in front of an origin web server: a reverse proxy that lets a
bounded number of visitors through and keeps the others in a first-come,
first-served line, with live position updates, signed session cookies,
time-based schedules and an optional Redis store shared by several servers.

## Layout

- `src/` — the library, verified with Verus:
  - `queue.rs` — the line and the set of active sessions (`WaitingQueue`),
    with its abstract model `QueueModel`, wait estimates and expiry;
  - `backend.rs` — the in-memory backend: the admission decision
    (`gate_check`), the reaper cycle, and laws on capacity, order and
    cleanliness of the line;
  - `session.rs` — HMAC-signed session tokens and their round trip;
  - `middleware.rs` — cookie parsing, the entrance's decisions, redirects;
  - `scheduler.rs` — schedules, their evaluation, overlap checks, archiving;
  - `config.rs`, `admin.rs` — settings, environment overrides, admin changes;
  - `redis_backend.rs` — reading the replies of the Redis scripts;
  - `waiting.rs` — the waiting page's wait text and live-update choices;
  - `text.rs`, `decimal.rs`, `ids.rs`, `clock.rs`, `state.rs`, `reaper.rs`,
    `load_test.rs`, `conn_test.rs` — helpers and the measuring tools' logic.
- `tests/` — tests run against the compiled library.
- `app/` — the server around the library: HTTP handlers (axum), the Redis
  backend and its Lua scripts, background tasks, the configuration file, and
  the `load_test` / `conn_test` tools (`waiting_room load_test ...`).
