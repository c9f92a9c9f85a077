# eventfold-es

An event-sourcing framework on top of an `eventfold-db` server: aggregates, projections,
process managers, and a typed command bus.

- `src/` is the verified library. It decodes recorded events, folds them into
  projections and process managers, decides where subscriptions start and how they
  reconnect, routes command envelopes to aggregates or to dead-letter logs, and keeps
  what a store remembers. Each function states in its contract what it does. The
  functions whose names begin with `law_` state what holds across functions: that no
  event is missed and none is counted twice, that every command is delivered or
  dead-lettered, that the backoff doubles up to its maximum, and so on.
- `app/` is the asynchronous side: the connection to the server, background tasks,
  clocks and files. It performs what the library decides and reports back what happened.
- `tests/` runs the library on concrete values.

Decoding relies on the `uuid` and `serde_json` crates. The functions that call them are
marked as trusted, and say what is taken for granted.
