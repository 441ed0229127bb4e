# rtdb

The core of a realtime document database server, written and proved in Verus.

- `src/query/` compiles read queries to statements with typed binds, pages
  through results and shapes answers.
- `src/migrate/` plans schema migrations, converts stored values and builds the
  statements that apply a plan.
- `src/presence/` keeps rooms of connected clients over several instances.
- `src/metrics/` counts what the server does and renders the scrape.
- `src/notify.rs`, `src/op_feed.rs`, `src/mutation_log.rs` and `src/protocol.rs`
  hold the notifications between instances, the activity feed, the results kept
  for repeated mutations and the vocabulary of the wire.
- The remaining modules hold the data that these work on.

What holds beyond the contract of a single function is stated in proof functions
whose names begin with `law_`. Calls into other crates stand behind small trusted
functions in `number.rs`, `pagination.rs`, `op_feed.rs`, `notify.rs` and `text.rs`.

`app/` is ordinary Rust around the library: the database, the clock, the channels
and the serialised forms.
