# solana-validator-exporter (verified core)

The decisions of a Prometheus exporter for Solana validators, proved with Verus.

- `src/schedule.rs` – epoch arithmetic through `solana_sdk`'s `EpochSchedule`.
- `src/keys.rs` – base58 account keys and the Jito tip distribution account.
- `src/stake.rs` – decoding stake accounts and summing activated, activating,
  deactivating and locked stake.
- `src/leader.rs` – our leader slots, the next one, and the time until it.
- `src/production.rs` – block production, ours and the cluster's.
- `src/credits.rs` – vote credits of the epoch and our rank.
- `src/latency.rs` – vote latency found in a block.
- `src/rewards.rs` – block rewards of our leader slots and their running totals.
- `src/slots.rs` – slot-by-slot bookkeeping and the highest vote latency.
- `src/text.rs` – comparing and searching text.

`app/` holds the RPC client, the polling loops and the callbacks; it calls the
library for every decision, and computes the two floating-point metrics (epoch
progress and the SOL price) itself.

The RPC reply types (blocks with their rewards and transactions, encoded
account data) come from `solana-transaction-status-client-types` and
`solana-account-decoder-client-types`, the crates that hold the types which
`solana-transaction-status` and `solana-account-decoder` re-export; depending
on the types alone keeps the build small. `Cargo.toml` also lists what only
`app/` uses (`tokio`, `reqwest`, `serde`, `log`), since `app/` builds against
the same dependencies.
