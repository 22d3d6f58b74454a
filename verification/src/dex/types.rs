//! Records, errors, events and effects of the exchange.

use crate::arith::{min_int, monus};
use crate::primitives::{AccountId, AssetKind, AssetPair, Balance, BlockNumber, Preservation};
use vstd::prelude::*;

verus! {

/// The pallet id every account of the exchange is derived from: `vtrs/dex`.
pub const PALLET_ID: [u8; 8] = [0x76, 0x74, 0x72, 0x73, 0x2f, 0x64, 0x65, 0x78];

/// Denominator for the fee tier, expressed in 10ths of a percent.
pub const FEE_DENOMINATOR: u32 = 1_000;

/// Liquidity locked for good on a pool's first deposit.
pub const MINIMUM_LIQUIDITY: u32 = 1_000;

/// Basis-point denominator for fee routing.
pub const BPS: u32 = 10_000;

/// Smallest whitelisted fee tier (0.1 %).
pub const MIN_FEE_TIER: u32 = 1;

/// Smallest tier the launchpad may seed a pool at.
pub const MIN_LAUNCH_FEE_TIER: u32 = 3;

/// Basis points of every swap a pool keeps for its liquidity providers, where
/// its tier can spare that much.
pub const MIN_POOL_BPS: u16 = 10;

/// What a pool of `fee_tier` keeps of each swap, at the least: [`MIN_POOL_BPS`],
/// or half the tier where the tier is too small to spare that much.
pub open spec fn pool_floor(fee_tier: int) -> int {
    min_int(MIN_POOL_BPS as int, min_int(fee_tier * 10, u16::MAX as int) / 2)
}

/// A tier in basis points, stopping at `u32::MAX`.
fn tier_times_ten(fee_tier: u32) -> (r: u32)
    ensures
        r == min_int(fee_tier * 10, u32::MAX as int),
{
    match fee_tier.checked_mul(10) {
        Some(bps) => bps,
        None => u32::MAX,
    }
}

/// See [`pool_floor`].
pub fn pool_floor_bps(fee_tier: u32) -> (r: u16)
    ensures
        r == pool_floor(fee_tier as int),
{
    let scaled: u32 = tier_times_ten(fee_tier);
    let tier_bps: u32 = if scaled <= 65_535 {
        scaled
    } else {
        65_535
    };
    let half: u16 = (tier_bps / 2) as u16;
    if MIN_POOL_BPS <= half {
        MIN_POOL_BPS
    } else {
        half
    }
}

/// How a pool's swap fee is split, in basis points of the swap. The pool keeps
/// what its tier leaves over. Every pool carries the split it was made with.
#[derive(Clone, Copy, Debug, PartialEq, Eq, Structural)]
pub struct FeeRouting {
    /// Share sent to the protocol fee recipient.
    pub protocol_bps: u16,
    /// Share accrued for the pool's creator.
    pub creator_bps: u16,
    /// Share pushed to the launch's treasury.
    pub treasury_bps: u16,
}

impl FeeRouting {
    /// The split that routes nothing.
    pub open spec fn none() -> FeeRouting {
        FeeRouting { protocol_bps: 0, creator_bps: 0, treasury_bps: 0 }
    }

    /// The three shares together, as far as they fit in `u16`.
    pub open spec fn routed(&self) -> int {
        min_int(self.protocol_bps + self.creator_bps + self.treasury_bps, u16::MAX as int)
    }

    /// The routed shares and the pool's own floor fit the tier.
    pub open spec fn valid_for(&self, fee_tier: int) -> bool {
        self.routed() <= monus(min_int(fee_tier * 10, u32::MAX as int), pool_floor(fee_tier))
    }

    /// The routed shares fit the tier.
    pub open spec fn fits(&self, fee_tier: int) -> bool {
        self.routed() <= min_int(fee_tier * 10, u32::MAX as int)
    }

    /// `protocol_bps + creator_bps + treasury_bps`, stopping at `u16::MAX`.
    pub fn routed_bps(&self) -> (r: u16)
        ensures
            r == self.routed(),
    {
        self.protocol_bps.saturating_add(self.creator_bps).saturating_add(self.treasury_bps)
    }

    /// Whether a pool of `fee_tier` may be made with this split.
    pub fn is_valid_for(&self, fee_tier: u32) -> (r: bool)
        ensures
            r == self.valid_for(fee_tier as int),
    {
        self.routed_bps() as u32 <= tier_times_ten(fee_tier).saturating_sub(
            pool_floor_bps(fee_tier) as u32,
        )
    }

    /// Whether a pool of `fee_tier` routes no more than it charges.
    pub fn fits_tier(&self, fee_tier: u32) -> (r: bool)
        ensures
            r == self.fits(fee_tier as int),
    {
        self.routed_bps() as u32 <= tier_times_ten(fee_tier)
    }
}

impl Default for FeeRouting {
    /// The split that routes nothing.
    fn default() -> (r: FeeRouting)
        ensures
            r == FeeRouting::none(),
    {
        FeeRouting { protocol_bps: 0, creator_bps: 0, treasury_bps: 0 }
    }
}

/// A trading pair's reserves, fee tier and account.
///
/// The stored reserves are those of the last operation on the pool. A price
/// starts from the pool account's live balances, which also hold the pool's
/// share of every fee since.
#[derive(Clone, Copy, Debug, PartialEq, Eq)]
pub struct PoolInfo<Balance, AccountId> {
    /// Recorded reserve of the pair's first asset.
    pub reserve_a: Balance,
    /// Recorded reserve of the pair's second asset.
    pub reserve_b: Balance,
    /// Swap fee tier, in 10ths of a percent.
    pub fee_tier: u32,
    /// Fees collected over the pool's lifetime.
    pub total_fees_collected: Balance,
    /// Account that holds the pool's reserves.
    pub pool_account: AccountId,
    /// The fee split the pool was made with.
    pub routing: FeeRouting,
}

/// One liquidity provider's position in a pool.
#[derive(Clone, Copy, Debug, PartialEq, Eq)]
pub struct LiquidityPosition<Balance, BlockNumber> {
    /// Shares owned by the provider.
    pub shares: Balance,
    /// Block at which the position was opened.
    pub entry_block: BlockNumber,
    /// Block until which the position is locked, if it is.
    pub locked_until: Option<BlockNumber>,
}

/// What an exchange is set up with.
#[derive(Clone, Copy, Debug, PartialEq, Eq)]
pub struct Config {
    /// The native asset, in which routed fees and bonds are paid.
    pub native_asset: AssetKind,
    /// The energy asset.
    pub energy_asset: AssetKind,
    /// First asset id of the range whose pools only the launchpad may seed.
    pub reserved_first: u128,
    /// Last asset id of that range.
    pub reserved_last: u128,
    /// Who receives what a reserved pool's account holds before it is seeded.
    pub excess_recipient: AccountId,
    /// Who receives protocol fees while no recipient is set.
    pub default_protocol_fee_recipient: AccountId,
    /// Bid window while none is set, in blocks.
    pub default_bid_window_blocks: BlockNumber,
    /// Settlement window while none is set, in blocks.
    pub default_settlement_window_blocks: BlockNumber,
    /// Solver bond while none is set.
    pub default_solver_bond_amount: Balance,
}

impl Config {
    /// Only the launchpad may seed a pool of this asset.
    pub open spec fn reserves(&self, asset: AssetKind) -> bool {
        match asset {
            AssetKind::Native => false,
            AssetKind::WithId(id) => self.reserved_first <= id <= self.reserved_last,
        }
    }

    /// Whether only the launchpad may seed a pool of this asset.
    pub fn is_reserved(&self, asset: &AssetKind) -> (r: bool)
        ensures
            r == self.reserves(*asset),
    {
        match *asset {
            AssetKind::Native => false,
            AssetKind::WithId(id) => self.reserved_first <= id && id <= self.reserved_last,
        }
    }
}

#[derive(Clone, Copy, Debug, PartialEq, Eq, Structural)]
pub enum Error {
    /// A pool already exists for this asset pair.
    PoolAlreadyExists,
    /// No pool exists for this asset pair.
    PoolNotFound,
    /// The pool does not hold enough liquidity to satisfy the operation.
    InsufficientLiquidity,
    /// The caller does not own enough shares.
    InsufficientShares,
    /// Calculated output falls outside the caller's slippage bounds.
    SlippageExceeded,
    /// The position is currently locked.
    PoolLocked,
    /// The provided fee tier is not accepted.
    InvalidFeeTier,
    /// Amount can't be zero.
    ZeroAmount,
    /// An overflow happened.
    Overflow,
    /// The first deposit is too small to exceed [`MINIMUM_LIQUIDITY`].
    InsufficientInitialLiquidity,
    /// The pair contains a reserved asset; such pools only come from a seed.
    ReservedAsset,
    /// A seed of an asset that is not reserved, or against one that is.
    NotReservedAsset,
    /// The reserved pool already holds liquidity and cannot be seeded again.
    PoolAlreadySeeded,
    /// A liquidity lock can be extended but never shortened.
    LockCannotBeShortened,
    /// A pre-seed balance could not be delivered to the excess recipient.
    ExcessRecipientCannotReceive,
    /// The split is more than the pool's tier can carry beside its floor.
    InvalidFeeRouting,
    /// No default split is set for this tier.
    NoDefaultFeeRouting,
    /// No creator is known for this asset.
    NoCreatorForAsset,
    /// The caller is not the asset's creator fee recipient.
    NotCreatorFeeRecipient,
    /// Caller is not a registered solver.
    SolverNotRegistered,
    /// Account has already registered as a solver.
    SolverAlreadyRegistered,
    /// Solver exists but is not currently active.
    SolverNotActive,
    /// Caller does not hold enough to post the bond.
    InsufficientBondFunds,
    /// No intent with the given id.
    IntentNotFound,
    /// Operation requires the intent to be `Open`.
    IntentNotOpen,
    /// Operation requires the intent to be `Committed`.
    IntentNotCommitted,
    /// Intent's deadline has passed.
    IntentExpired,
    /// Caller is not who submitted the intent.
    NotIntentOwner,
    /// Bid window has closed for this intent.
    BidWindowClosed,
    /// Committed amount out is below the intent's minimum.
    BelowMinAmountOut,
    /// Incoming bid is not strictly better than the existing one.
    BidNotBetter,
    /// Caller is not the solver that committed to this intent.
    NotCommittedSolver,
    /// Settlement deadline has already passed.
    SettlementWindowPassed,
    /// Settlement deadline has not yet passed.
    SettlementWindowNotPassed,
    /// Solver still has active commitments; cannot deregister yet.
    ActiveCommitmentsExist,
    /// Deadline is not in the future.
    InvalidDeadline,
    /// Deadline has not yet passed; refund is not yet available.
    DeadlineNotPassed,
    /// Amount parameter is zero or otherwise invalid.
    InvalidAmount,
    /// Swap output did not meet the user's slippage bound.
    SlippageProtectionFailed,
}

#[allow(inconsistent_fields)]
#[derive(Clone, Copy, Debug, PartialEq, Eq)]
pub enum Event {
    /// A new pool has been created.
    PoolCreated { asset_a: AssetKind, asset_b: AssetKind, fee_tier: u32 },
    /// Liquidity has been added to a pool.
    LiquidityAdded {
        provider: AccountId,
        asset_a: AssetKind,
        asset_b: AssetKind,
        amount_a: Balance,
        amount_b: Balance,
        shares_minted: Balance,
    },
    /// Liquidity has been removed from a pool.
    LiquidityRemoved {
        provider: AccountId,
        asset_a: AssetKind,
        asset_b: AssetKind,
        amount_a: Balance,
        amount_b: Balance,
        shares_burned: Balance,
    },
    /// A swap has been executed against a pool.
    SwapExecuted {
        who: AccountId,
        asset_in: AssetKind,
        asset_out: AssetKind,
        amount_in: Balance,
        amount_out: Balance,
        fee: Balance,
    },
    /// Fees have been collected by a pool.
    FeesCollected { pool: AssetPair, amount: Balance, recipient: AccountId },
    /// Routed slices of a swap fee.
    FeesRouted { pool: AssetPair, protocol: Balance, creator: Balance, treasury: Balance },
    /// A creator claimed their accrued share for a pool.
    CreatorFeesClaimed { pool: AssetPair, recipient: AccountId, amount: Balance },
    /// Accrued protocol fees were paid to the current recipient.
    ProtocolFeesWithdrawn { recipient: AccountId, amount: Balance },
    /// The split for pools of a tier created from now on has changed.
    DefaultFeeRoutingSet { fee_tier: u32, routing: FeeRouting },
    /// The recipient of protocol fees has changed; `None` is the default one.
    ProtocolFeeRecipientSet { recipient: Option<AccountId> },
    /// A liquidity position has been locked until a given block.
    LiquidityLocked { who: AccountId, pool: AssetPair, locked_until: BlockNumber },
    /// A balance found in a reserved pool's account before seeding was moved out.
    PreSeedBalanceSwept { pool: AssetPair, asset: AssetKind, amount: Balance, to: AccountId },
    /// A reserved pool was seeded and its first position locked for good.
    ReservedPoolSeeded {
        who: AccountId,
        asset: AssetKind,
        quote: AssetKind,
        amount_asset: Balance,
        amount_quote: Balance,
        shares: Balance,
    },
    /// A new solver registered and posted a bond.
    SolverRegistered { solver_id: u64, account: AccountId, bond: Balance },
    /// A solver deregistered; bond refunded.
    SolverDeregistered { solver_id: u64, account: AccountId, bond_refunded: Balance },
    /// A new intent was submitted.
    IntentSubmitted {
        intent_id: u64,
        user: AccountId,
        token_in: AssetKind,
        token_out: AssetKind,
        amount_in: Balance,
        min_amount_out: Balance,
        deadline: BlockNumber,
    },
    /// A user cancelled an intent before any commitment.
    IntentCancelled { intent_id: u64, user: AccountId },
    /// A solver committed to fill an intent.
    FillCommitted {
        intent_id: u64,
        solver_id: u64,
        committed_amount_out: Balance,
        settle_by: BlockNumber,
    },
    /// An intent was settled.
    IntentSettled {
        intent_id: u64,
        solver_id: u64,
        user: AccountId,
        amount_out_to_user: Balance,
        solver_net_profit: Balance,
        protocol_fee: Balance,
    },
    /// A solver was slashed for failing to settle within the window.
    SolverSlashed {
        solver_id: u64,
        intent_id: u64,
        slashed_amount: Balance,
        to_treasury: Balance,
        to_slasher: Balance,
        slasher: AccountId,
    },
    /// An expired intent was refunded to its owner.
    IntentRefunded { intent_id: u64, user: AccountId, amount_refunded: Balance },
    /// The bid window has changed.
    BidWindowUpdated { new_value: BlockNumber },
    /// The settlement window has changed.
    SettlementWindowUpdated { new_value: BlockNumber },
    /// The solver bond amount has changed.
    SolverBondAmountUpdated { new_value: Balance },
}

/// A movement of funds the ledger is asked to make.
#[derive(Clone, Copy, Debug, PartialEq, Eq)]
pub struct Transfer {
    pub asset: AssetKind,
    pub from: AccountId,
    pub to: AccountId,
    pub amount: Balance,
    pub preservation: Preservation,
    /// The error the operation ends in when the ledger refuses, where it is not
    /// the ledger's own.
    pub on_failure: Option<Error>,
}

/// What an operation asks of the world around the exchange, in order. When the
/// ledger refuses a transfer the whole operation is undone.
#[derive(Clone, Copy, Debug, PartialEq, Eq)]
pub enum Effect {
    /// Move funds.
    Transfer(Transfer),
    /// Tell the treasury sink what was pushed to it for `asset`.
    NoteFee { asset: AssetKind, amount: Balance },
    /// Emit an event.
    Emit(Event),
}

/// A transfer that fails with the ledger's own error.
pub open spec fn plain_transfer(
    asset: AssetKind,
    from: AccountId,
    to: AccountId,
    amount: Balance,
    preservation: Preservation,
) -> Effect {
    Effect::Transfer(Transfer { asset, from, to, amount, preservation, on_failure: None })
}

/// A transfer that fails with `error`.
pub open spec fn transfer_or(
    asset: AssetKind,
    from: AccountId,
    to: AccountId,
    amount: Balance,
    preservation: Preservation,
    error: Error,
) -> Effect {
    Effect::Transfer(Transfer { asset, from, to, amount, preservation, on_failure: Some(error) })
}

/// See [`plain_transfer`].
pub(crate) fn make_transfer(
    asset: AssetKind,
    from: AccountId,
    to: AccountId,
    amount: Balance,
    preservation: Preservation,
) -> (r: Effect)
    ensures
        r == plain_transfer(asset, from, to, amount, preservation),
{
    Effect::Transfer(Transfer { asset, from, to, amount, preservation, on_failure: None })
}

/// See [`transfer_or`].
pub(crate) fn make_transfer_or(
    asset: AssetKind,
    from: AccountId,
    to: AccountId,
    amount: Balance,
    preservation: Preservation,
    error: Error,
) -> (r: Effect)
    ensures
        r == transfer_or(asset, from, to, amount, preservation, error),
{
    Effect::Transfer(Transfer { asset, from, to, amount, preservation, on_failure: Some(error) })
}

/// A split that a pool may be made with also fits the pool's tier, and leaves
/// the pool its floor.
pub proof fn law_valid_split_leaves_floor(routing: FeeRouting, fee_tier: u32)
    requires
        routing.valid_for(fee_tier as int),
        fee_tier <= 6_553,
    ensures
        routing.fits(fee_tier as int),
        routing.protocol_bps + routing.creator_bps + routing.treasury_bps + pool_floor(
            fee_tier as int,
        ) <= fee_tier * 10,
{
}

} // verus!
