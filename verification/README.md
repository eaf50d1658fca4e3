# sov-sequencer

The decision-making core of a rollup sequencer, written in Verus and proved
against its contracts.

A sequencer accepts transactions, keeps them in a mempool, assembles them
into batches and publishes those to the DA layer. A *preferred* sequencer also
gives soft confirmations: it numbers its batches and proof blobs with
sequence numbers, executes transactions as it accepts them, and replays its
soft-confirmed batches on top of the node's state whenever the node moves on.

## Layout

- `src/standard/`: the standard sequencer's mempool (largest transaction
  first, then oldest first; the oldest is evicted when full) and the assembly
  of a batch out of it.
- `src/fair/`: the fair batch builder's mempool, with incremental
  identifiers, and the filling of a blob out of it.
- `src/preferred/`: the preferred sequencer.
  - `db.rs`: the blobs and the batch in progress, with the events streamed
    to a subscriber, and the batches to replay.
  - `bb_db.rs`: the preferred batch builder's store, with its invariant
    (blobs ordered by sequence number, completed batches before the one in
    progress, batches waiting to be sent stored as batches).
  - `decisions.rs`: how far a batch advances the visible slot number, when
    the sequencer is ready, which path a state update takes, recovery.
  - `batch_size_tracker.rs`, `node_delta_watcher.rs`, `state_root_cache.rs`,
    `events_cache.rs`, `update_state.rs`, `async_batch.rs`: smaller pieces
    of bookkeeping.
  - `notifications.rs`, `replica.rs`: the payloads of the database
    notifications a replica listens to, and the replica's decisions
    (gaps, backfill pages, leadership changes, heartbeats, takeover).
- `src/errors.rs`: the HTTP errors refused requests are answered with.
- `src/config.rs`, `src/api.rs`, `src/metrics.rs`, `src/types.rs`: the
  configuration, the values exchanged with users, and the measurements.
- `app/`: the JSON forms of the library's values, the clock and
  floating-point timestamps, and the writing of measurements.
- `tests/`: tests of the library on concrete values.

The contracts state the results over mathematical models (`Seq`, `int`,
`nat`); the laws that relate several operations are public proof functions
next to the operations they speak of, such as
`lemma_handed_out_numbers_increase` in `bb_db.rs` or
`lemma_events_payload_round_trip` in `notifications.rs`; those over a
whole assembly (`lemma_assembly_run`, `lemma_fill_run`) take the run as a
sequence of the states its steps go through.
