# gpt-copy-v9 backend core

The verified core of a chat backend: conversations with their messages, a
streamed reply from an upstream chat model relayed to the client as
server-sent events, validation, access control and configuration.

## Layout

- `src/` — the library, verified with Verus.
  - `repository/` — the conversation store (`mod.rs`), its model as ordered
    sequences (`model.rs`) and the laws proved of it (`laws.rs`): reads
    after writes, cascading deletes, listing order, atomic message pairs.
  - `routes/` — what each request decides: creating and renaming
    conversations, adding and deleting messages, and streaming a reply
    (`chat.rs`: the history sent upstream, the events forwarded, when the
    reply is kept).
  - `openrouter.rs` — the upstream messages and events, reading one chunk of
    the upstream event stream, and a scripted client.
  - `validation.rs`, `auth.rs`, `config.rs`, `state.rs`, `error.rs` — request
    validation, bearer-token access control, configuration with a redacted
    printable form, the per-conversation stream registry, error answers.
  - `text.rs`, `json.rs` — character helpers, and the JSON read and written
    through `serde_json`.
- `tests/` — tests of the library on concrete values.
- `app/` — the server: HTTP routing (axum), SQLite persistence (sqlx), the
  HTTP client for the upstream model (reqwest), environment and logging.

The store keeps everything in memory; the server loads it from SQLite at
start, and applies each change to a copy of the store, writes it to SQLite,
and only then makes the copy the store. The server draws the random bytes of
each new id and reads the clock; the library turns the bytes into a UUID and
decides everything else.
