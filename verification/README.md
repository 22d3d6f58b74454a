# power-plant

A verified library for a launchpad chain, written in Verus.

- `curve`: the bonding curve a token launches on. Buys, sells, and the raise at
  which it sells out.
- `dex`: a constant-product exchange with per-pool fee routing, locked liquidity,
  pools that only a launch may open, and a marketplace where solvers bid on
  intents.
- `launch_treasury`: treasuries that collect a launch's share of the fees, stake it
  in one pooled vault, sell the rewards, and buy the launch's token to burn it,
  until a launch that nobody trades retires.
- `settlement`: the marketplace's records and splits.
- `accounts`, `primitives`, `wide`, `table`, `sums`, `arith`: derived accounts,
  plain types, 256-bit arithmetic, keyed tables, and the lemmas under the rest.

Each operation is a transition of plain state whose contract gives the error it
comes back with, the state it leaves and the effects it asks for. What holds across
operations is stated as proof functions named `law_..`: in `dex/pool_laws.rs`,
`dex/backing_laws.rs`, `dex/market_laws.rs`, `dex/escrow_laws.rs`,
`launch_treasury/laws.rs` and `launch_treasury/queue_laws.rs`, and beside the
functions they are about in `curve.rs`, `settlement.rs`, `accounts.rs`,
`dex/types.rs`, `dex/migrations.rs` and the treasury modules.

Hashing, encoding, account derivation and 256-bit integers come from outside
crates. The functions that call them are in `accounts.rs` and `wide.rs`, each with a
contract that is taken on trust.

`app/` runs the library on a FRAME runtime: storage, origins, ledgers, staking and
storage upgrades. `tests/` drives it through a small in-memory chain.
