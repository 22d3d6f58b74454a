//! Records, errors, events and effects of the launch treasuries.

use crate::primitives::{AccountId, AssetKind, Balance, BlockNumber, Preservation};
use vstd::prelude::*;

verus! {

/// Id of a launch.
pub type LaunchId = u64;

/// Index of a staking era.
pub type EraIndex = u32;

/// Fixed-point scale of the reward accumulator: LNRG base units per share,
/// times this.
pub const SCALE: u128 = 1_000_000_000_000_000_000;

/// Basis-point denominator.
pub const BPS: u128 = 10_000;

/// Operational terms. Live, except `dormancy_blocks`, which each treasury keeps
/// as it stood when the treasury was first funded.
#[derive(Clone, Copy, Debug, PartialEq, Eq)]
pub struct TreasuryTerms<Balance, BlockNumber> {
    /// Blocks without a trade on the venue after which a launch may retire.
    pub dormancy_blocks: BlockNumber,
    /// Staking refuses a smaller amount.
    pub min_stake: Balance,
    /// A burn slice may move the venue price by at most this, in bps.
    pub max_burn_impact_bps: u16,
    /// Blocks between two burn slices of one launch.
    pub min_burn_interval: BlockNumber,
    /// Share of the VTRS a compound realises that goes to its caller, in bps.
    pub keeper_bounty_bps: u16,
}

/// Where a treasury stands in its life.
#[derive(Clone, Copy, Debug, PartialEq, Eq, Structural)]
pub enum TreasuryStatus {
    Active,
    /// Shares redeemed and unbonded; the chunk matures at `chunk_era`.
    Retiring { chunk_era: EraIndex },
    /// Principal withdrawn and waiting to be burned.
    Retired,
}

/// One launch's treasury.
#[derive(Clone, Copy, Debug, PartialEq, Eq)]
pub struct TreasuryRecord<Balance, BlockNumber> {
    /// VTRS received from fees, free in the vault, not yet bonded.
    pub pending: Balance,
    /// Claim on the pooled stake: `shares * active / total shares`.
    pub shares: Balance,
    /// `shares * LNRG per share / SCALE` at the last checkpoint; rounded up where
    /// shares were added, so that they claim nothing attributed before them.
    pub lnrg_debt: u128,
    /// LNRG attributed and not yet sold.
    pub lnrg_accrued: Balance,
    /// VTRS realised and not yet burned.
    pub pending_burn: Balance,
    /// Block of the last burn slice.
    pub last_burn_block: BlockNumber,
    /// Dormancy this treasury retires after.
    pub dormancy_blocks: BlockNumber,
    pub status: TreasuryStatus,
}

/// Where a launch stands on its way to its own pool.
#[derive(Clone, Copy, Debug, PartialEq, Eq, Structural)]
pub enum Phase {
    /// The curve sells.
    Trading,
    /// The curve has sold out and waits for its pool.
    Complete,
    /// The pool trades.
    Graduated,
}

/// What the treasuries are set up with.
#[derive(Clone, Copy, Debug, PartialEq, Eq)]
pub struct TreasuryConfig {
    /// The id the vault is derived from.
    pub pallet_id: [u8; 8],
    /// The native asset.
    pub native_asset: AssetKind,
    /// The asset that staking pays in.
    pub lnrg_asset: AssetKind,
    /// Most validators the vault cooperates with.
    pub max_targets: u32,
    /// Most entries of the retiring queue.
    pub max_unlocking_chunks: u32,
    /// Who receives a closing treasury's dust.
    pub protocol_recipient: AccountId,
}

#[derive(Clone, Copy, Debug, PartialEq, Eq, Structural)]
pub enum Error {
    /// No treasury for this launch.
    NoTreasury,
    /// The pending amount is below the least stake.
    BelowMinStake,
    /// The venue traded within the dormancy.
    NotDormant,
    NotActive,
    NotRetiring,
    /// The unbond chunk has not matured.
    NotMatured,
    /// Too few blocks since this launch's last slice.
    TooSoon,
    /// No target can be cooperated with.
    NoTargets,
    /// There are shares and no stake behind them.
    VaultInsolvent,
    /// The retiring queue is full.
    QueueFull,
    /// The call would do nothing.
    NothingToDo,
    TermsOutOfBounds,
    ArithmeticOverflow,
}

/// `sp_runtime`'s error of a dispatched call: what the staking ledger answers. It is
/// carried through and never looked into.
#[verifier::external_type_specification]
#[verifier::external_body]
pub struct ExDispatchError(sp_runtime::DispatchError);

/// Why the vault does not cooperate with its stake.
#[derive(Clone, Copy, Debug, PartialEq, Eq)]
pub enum StaleReason {
    /// There is nothing to submit.
    Treasury(Error),
    /// The staking ledger refused it.
    Ledger(sp_runtime::DispatchError),
}

#[allow(inconsistent_fields)]
#[derive(Clone, Debug, PartialEq, Eq)]
pub enum Event {
    /// A fee slice reached the vault for this launch.
    FeeNoted { launch_id: LaunchId, amount: Balance },
    Staked { launch_id: LaunchId, amount: Balance, shares: Balance },
    /// The vault cooperates with these stakes.
    Retargeted { targets: Vec<(AccountId, Balance)> },
    /// A bond change was not followed by cooperation; the bond stands.
    CooperationStale { reason: StaleReason },
    Harvested { lnrg: Balance },
    Compounded {
        launch_id: LaunchId,
        lnrg_sold: Balance,
        vtrs_realised: Balance,
        bounty: Balance,
        vtrs_burned_in: Balance,
        tokens_burned: Balance,
    },
    Retiring { launch_id: LaunchId, amount: Balance, chunk_era: EraIndex },
    Retired { launch_id: LaunchId, amount: Balance },
    /// A retired treasury's remainder went to the protocol recipient.
    DustSwept { launch_id: LaunchId, amount: Balance },
    TermsSet,
    /// The targets have been replaced by these.
    TargetsSet { targets: Vec<AccountId> },
}

/// What an operation asks of the world around the treasuries, in order. When one
/// of them is refused the whole operation is undone.
#[derive(Clone, Debug, PartialEq, Eq)]
pub enum Effect {
    /// Bond `value` of the vault's VTRS for the first time.
    Bond { value: Balance },
    /// Bond `value` more of the vault's VTRS.
    BondExtra { value: Balance },
    /// Stop cooperating.
    Chill,
    /// Unbond `value`.
    Unbond { value: Balance },
    /// Burn `amount` of the launch's token out of the vault.
    BurnTokens { amount: Balance },
    /// Move native funds out of the vault.
    Pay { to: AccountId, amount: Balance, preservation: Preservation },
    /// Emit an event.
    Emit(Event),
}

} // verus!
