//! Solver marketplace: the records it keeps and the arithmetic of its splits.

use crate::arith::{lemma_floor, lemma_floor_bounds, lemma_product_fits, min_int, monus};
use crate::wide::U256;
use vstd::prelude::*;

verus! {

/// Basis points of a slashed bond awarded to the slasher (10 %).
pub const SLASHER_REWARD_BPS: u32 = 1_000;

/// Basis points of a solver's profit taken as the protocol fee (20 %).
pub const SOLVER_PROFIT_FEE_BPS: u32 = 2_000;

/// Reputation gained per settled intent.
pub const REPUTATION_FILL_REWARD: i64 = 1;

/// Reputation lost per slash.
pub const REPUTATION_SLASH_PENALTY: i64 = -10;

/// Lifecycle status of an intent.
#[derive(Clone, Copy, Debug, PartialEq, Eq, Structural)]
pub enum IntentStatus {
    /// Awaiting solver commitment.
    Open,
    /// A solver has committed to fill this intent.
    Committed,
    /// Successfully settled.
    Settled,
    /// User cancelled before any commitment.
    Cancelled,
    /// Deadline passed without settlement; the user's funds went back.
    Expired,
}

/// A user-submitted trading intent.
#[derive(Clone, Copy, Debug, PartialEq, Eq)]
pub struct Intent<AccountId, AssetKind, Balance, BlockNumber> {
    /// Monotonically increasing id.
    pub id: u64,
    /// User who submitted the intent; receives the output on settlement.
    pub user: AccountId,
    /// Asset the user is selling.
    pub token_in: AssetKind,
    /// Asset the user wants to receive.
    pub token_out: AssetKind,
    /// Exact amount of `token_in` the user is providing.
    pub amount_in: Balance,
    /// Minimum acceptable output. A commitment must match or exceed this.
    pub min_amount_out: Balance,
    /// Block at or after which the intent is expired if unsettled.
    pub deadline: BlockNumber,
    /// Block at which the intent was submitted.
    pub submitted_at: BlockNumber,
    /// Current lifecycle status.
    pub status: IntentStatus,
}

/// Information about a registered solver.
#[derive(Clone, Copy, Debug, PartialEq, Eq)]
pub struct SolverInfo<AccountId, Balance, BlockNumber> {
    /// Monotonically increasing id.
    pub id: u64,
    /// Solver's on-chain account.
    pub account: AccountId,
    /// Bond held in escrow.
    pub bond: Balance,
    /// Net reputation; may be negative.
    pub reputation: i64,
    /// Count of intents this solver has settled.
    pub fills_completed: u64,
    /// Count of times this solver has been slashed.
    pub fills_slashed: u64,
    /// Count of committed, not yet settled or slashed, fills. Must be zero to
    /// deregister.
    pub active_commitments: u32,
    /// Block at which the solver registered.
    pub registered_at: BlockNumber,
    /// False after deregistration (bond refunded) or a slash.
    pub active: bool,
}

/// A solver's commitment to fill a specific intent. Exists only while the
/// intent is `Committed`.
#[derive(Clone, Copy, Debug, PartialEq, Eq)]
pub struct FillCommitment<AccountId, Balance, BlockNumber> {
    /// Id of the intent being filled.
    pub intent_id: u64,
    /// Id of the solver making the commitment.
    pub solver_id: u64,
    /// Solver's on-chain account.
    pub solver_account: AccountId,
    /// Amount the solver promises to deliver to the user.
    pub committed_amount_out: Balance,
    /// Block at which the commitment was registered.
    pub committed_at: BlockNumber,
    /// Last block at which the solver may settle.
    pub settle_by: BlockNumber,
}

/// `floor(amount * bps / 10_000)`, and never more than `amount`.
pub open spec fn bps_share(amount: int, bps: int) -> int {
    min_int(amount * bps / 10_000, amount)
}

/// `floor(amount * bps / 10_000)` in wide precision, and never more than `amount`.
fn bps_of_u128(amount: u128, bps: u32) -> (r: u128)
    ensures
        r == bps_share(amount as int, bps as int),
{
    proof {
        lemma_product_fits(amount as int, bps as int);
    }
    let share = U256::from_u128(amount).times(U256::from_u128(bps as u128)).over(
        U256::from_u128(10_000),
    );
    match share.to_u128() {
        Some(x) => if x <= amount {
            x
        } else {
            amount
        },
        None => amount,
    }
}

/// Split a slashed bond between slasher and protocol treasury.
///
/// `slasher_reward_bps` is in basis points of 10_000. Returns
/// `(to_treasury, to_slasher)`.
pub fn split_slashed_bond_u128(bond: u128, slasher_reward_bps: u32) -> (r: (u128, u128))
    ensures
        r.1 == bps_share(bond as int, slasher_reward_bps as int),
        r.0 == monus(bond as int, r.1 as int),
{
    let slasher_amount: u128 = bps_of_u128(bond, slasher_reward_bps);
    let treasury_amount: u128 = bond.saturating_sub(slasher_amount);
    (treasury_amount, slasher_amount)
}

/// Split solver profit between solver and protocol treasury.
///
/// `fee_bps` is in basis points of 10_000. Returns `(solver_net, protocol_fee)`.
pub fn split_solver_profit_u128(profit: u128, fee_bps: u32) -> (r: (u128, u128))
    ensures
        r.1 == bps_share(profit as int, fee_bps as int),
        r.0 == monus(profit as int, r.1 as int),
{
    let protocol_fee: u128 = bps_of_u128(profit, fee_bps);
    let solver_net: u128 = profit.saturating_sub(protocol_fee);
    (solver_net, protocol_fee)
}

/// A split hands out exactly the whole amount, and up to a rate of one the share is
/// that rate's.
pub proof fn law_split_conserves(amount: u128, bps: u32)
    ensures
        0 <= bps_share(amount as int, bps as int) <= amount,
        bps <= 10_000 ==> bps_share(amount as int, bps as int) == amount * bps / 10_000,
        monus(amount as int, bps_share(amount as int, bps as int)) + bps_share(
            amount as int,
            bps as int,
        ) == amount,
{
    assert(0 <= amount * bps) by (nonlinear_arith);
    lemma_floor(amount * bps, 10_000);
    if bps <= 10_000 {
        assert(amount * bps <= amount * 10_000) by (nonlinear_arith)
            requires
                bps <= 10_000,
        ;
        lemma_floor_bounds(amount * bps, 10_000, amount as int);
    }
}

} // verus!
