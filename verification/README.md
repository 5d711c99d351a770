# walshadow

Replicates PostgreSQL rows into ClickHouse from physical WAL. This crate is the
emitting side: it plans committed transactions, encodes rows for their
destination tables, batches and acknowledges inserts, and applies schema changes
in commit order. The library under `src/` is verified with
[Verus](https://github.com/verus-lang/verus).

## Layout

| Where | What |
| --- | --- |
| `src/config/` | documents, defaults, table blocks, archives, how fragments merge |
| `src/ddl/` | statements for schema changes, and the routes they lead to |
| `src/columns.rs`, `src/encoder.rs`, `src/values.rs`, `src/decimal.rs`, `src/u256.rs` | column buffers and the encoding of values |
| `src/plan.rs`, `src/types.rs`, `src/mapping.rs`, `src/schema.rs` | destination tables, types, mappings, source relations |
| `src/pipeline/planner.rs`, `plan_spool.rs`, `plan_replay.rs`, `plan_stream.rs`, `plan_laws.rs`, `planner_laws.rs` | a transaction's plan: written, sealed, read back whole or in pieces |
| `src/pipeline/commit_run.rs`, `execute.rs`, `reorder.rs`, `route_view.rs`, `opt_in.rs` | commits: planned whole, then executed in order |
| `src/pipeline/standup.rs`, `budget.rs` | what a pipeline is made of, and the memory it admits |
| `src/pipeline/batcher.rs`, `batch_hub.rs`, `batch_laws.rs`, `resolver.rs`, `inserter.rs`, `tail.rs`, `snowflake_tail.rs`, `table_worker.rs` | rows on their way to the destination |
| `src/pipeline/ack.rs`, `ack_history.rs` | acknowledgements and the published position |
| `src/pipeline/bootstrap*.rs` | initial loads |
| `app/` | the daemon's tasks around the library: files, queues, clocks |

## Guarantees

The published position only grows, and never passes a transaction whose rows are
not all durable. A sealed plan reads back as it was written; one that was cut, or
whose checksums no longer match, is refused; one in a file is checked from end
to end before the first of its rows is emitted. A commit whose planning fails emits
nothing. Every row that reaches the batcher is held or shipped, exactly once. An
inserter acks a batch once its insert is durable, and sends and acks nothing
after the first that failed. The public proof functions of the modules state
these and further laws.

## What is trusted

`backon`'s backoff and `crc32c`'s checksum are called through items whose
contracts are stated and not proved, as are a few functions of std: they are
marked `external_body` or stand in `assume_specification` items, each with a
comment that says what is claimed.
