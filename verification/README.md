# mempool

The memory buffer of a blockchain node that holds the transactions waiting to be executed, written
in Rust and verified with Verus.

- `src/mempool.rs` is the mempool: it takes transactions in, forms blocks for consensus, drops what
  was committed, rejected or expired, and hands out the timeline for the broadcast.
- `src/block.rs` chooses the transactions of a block, `src/store.rs` keeps them in the order of
  their gas prices.
- `src/model.rs` and `src/pool.rs` hold the mathematical model that the contracts speak of.
- `src/laws.rs`, `src/block_laws.rs` and `src/queue_laws.rs` state and prove what holds of the
  mempool as a whole.
- `src/caches.rs` and `src/clock.rs` hold all that is trusted without proof: the two cache crates
  and the clocks.
- `app/` runs the mempool as a service.
