# jotun

The protocol core of a Raft library, verified with Verus.

- `src/types` — log indices, terms, node ids, ordered node sets, and
  their labelled decimal renderings.
- `src/records` — log entries, vote and append-entries messages, cluster
  membership (voters and learners, never both).
- `src/engine` — the replicated log with its snapshot floor, the rule for
  host-taken snapshots, the engine's actions, events and role states, and
  the log's laws (`log_laws.rs`).
- `src/transport` — the wire records of log replication and the checked
  conversions to and from them, with round-trip laws.
- `src/sim` — the simulator's per-node durable state: the persist-before-send
  ordering check, the pending-write queue, flushing, crash and recovery.
- `app/` — tracing of term and role changes.
- `tests/` — scenarios run against the compiled library.
