//! The arithmetic, records and state machines behind a chain's launchpad: bonding
//! curves that launch tokens, the exchange they trade on afterwards, and the
//! treasuries that stake a launch's fees and burn its token with the rewards.
//!
//! Nothing here touches a ledger. An operation takes what its host has read from
//! the chain, changes the library's state, and returns the effects that the host
//! is to carry out in their order. Where the host has to act in the middle, a
//! `plan_`, `quote_` or `legs_of_` function says how, and the operation itself is
//! given what came of it; what the host has done already is then among its effects.
//! A host that is refused an effect goes back to the state before the operation.

pub mod accounts;
pub mod arith;
pub mod curve;
pub mod dex;
pub mod launch_treasury;
pub mod primitives;
pub mod settlement;
pub mod sums;
pub mod table;
pub mod wide;
