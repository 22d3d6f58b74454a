//! What settings allow, what pools start with, and who is paid accrued fees.

use super::flows::{inflow, lemma_inflow_two};
use super::governance::{claim_effects, claim_error, routing_error, withdraw_effects};
use super::liquidity::{create_error, new_routing, with_empty_pool};
use super::migrations::{
    defaults_after_split, move_steps, routed_nothing, widened, widened_pool, MoveStep,
    OldFeeRouting, OldPoolInfo, UnroutedPool,
};
use super::state::{fee_escrow, pool_account, DexState, Pool};
use super::swap::{quote_error, swap_error, tier_bps, SwapContext, SwapRequest};
use super::types::{pool_floor, Config, Error, FeeRouting};
use crate::accounts::{canonical, law_canonical_pair};
use crate::primitives::{AccountId, AssetKind, Balance};
use vstd::prelude::*;

verus! {

/// What a tier charges, and what a split may take of it. A pool keeps ten basis points
/// of its tier, or half of a smaller one; a pool from before that rule only has to
/// charge what it routes. A split counts for no more than `u16` holds, and so does what
/// a tier charges, which only its low sixteen bits decide.
pub proof fn law_tier_bounds_the_split(routing: FeeRouting, fee_tier: u32)
    ensures
        ({
            let all = routing.protocol_bps + routing.creator_bps + routing.treasury_bps;
            let routed = if all <= 65_535 {
                all
            } else {
                65_535
            };
            let keeps = if fee_tier >= 2 {
                10int
            } else {
                5 * fee_tier
            };
            let whole = if fee_tier * 10 <= u32::MAX {
                fee_tier * 10
            } else {
                u32::MAX as int
            };
            &&& fee_tier <= 6_553 ==> tier_bps(fee_tier) == fee_tier * 10
            &&& 6_553 < fee_tier < 65_536 ==> tier_bps(fee_tier) == 65_535
            &&& fee_tier >= 65_536 ==> tier_bps(fee_tier) == tier_bps((fee_tier - 65_536) as u32)
            &&& pool_floor(fee_tier as int) == keeps
            &&& routing.valid_for(fee_tier as int) <==> routed + keeps <= whole
            &&& routing.fits(fee_tier as int) <==> routed <= whole
        }),
{
}

/// A default split can be set for the three tiers. The smallest can spare five basis
/// points, for the protocol alone; the others twenty and ninety, however divided.
pub proof fn law_default_split_is_bounded(fee_tier: u32, routing: FeeRouting)
    ensures
        ({
            let routed = routing.protocol_bps + routing.creator_bps + routing.treasury_bps;
            &&& routing_error(fee_tier, routing) is None <==> {
                ||| fee_tier == 1 && routing.protocol_bps <= 5 && routing.creator_bps == 0
                    && routing.treasury_bps == 0
                ||| fee_tier == 3 && routed <= 20
                ||| fee_tier == 10 && routed <= 90
            }
            &&& routing_error(fee_tier, routing) == Some(Error::InvalidFeeTier) <==> fee_tier != 1
                && fee_tier != 3 && fee_tier != 10
        }),
{
}

/// A pool can be made for two assets that are not reserved and have none, at one of the
/// three tiers, and starts empty at the account of its pair. It routes the protocol's
/// share of the tier's default where one side is native, and nothing else. No other
/// pool changes.
pub proof fn law_new_pool_starts_empty(
    st: DexState,
    asset_a: AssetKind,
    asset_b: AssetKind,
    fee_tier: u32,
)
    ensures
        ({
            let pair = canonical(asset_a, asset_b);
            let native = st.config.native_asset;
            let d = st.default_fee_routing[fee_tier];
            let set = st.default_fee_routing.dom().contains(fee_tier) && (pair.0 == native
                || pair.1 == native);
            let next = with_empty_pool(
                st,
                pair,
                fee_tier,
                new_routing(st, pair, fee_tier, false),
            );
            &&& create_error(st, asset_a, asset_b, fee_tier) is None <==> {
                &&& !st.config.reserves(asset_a) && !st.config.reserves(asset_b)
                &&& fee_tier == 1 || fee_tier == 3 || fee_tier == 10
                &&& !st.pools.dom().contains(pair)
                &&& set ==> d.protocol_bps <= if fee_tier == 1 {
                    5
                } else if fee_tier == 3 {
                    20
                } else {
                    90int
                }
            }
            &&& next.pools == st.pools.insert(
                pair,
                Pool {
                    reserve_a: 0,
                    reserve_b: 0,
                    fee_tier,
                    total_fees_collected: 0,
                    pool_account: pool_account(pair),
                    routing: FeeRouting {
                        protocol_bps: if set {
                            d.protocol_bps
                        } else {
                            0
                        },
                        creator_bps: 0,
                        treasury_bps: 0,
                    },
                },
            )
            &&& next.total_liquidity == st.total_liquidity.insert(pair, 0)
            &&& next == (DexState {
                pools: next.pools,
                total_liquidity: next.total_liquidity,
                ..st
            })
        }),
{
    law_canonical_pair(asset_a, asset_b);
}

/// The reserved assets are those whose id lies in the reserved range.
pub proof fn law_reserved_range(config: Config, id: u128)
    ensures
        config.reserves(AssetKind::WithId(id)) <==> config.reserved_first <= id
            <= config.reserved_last,
        !config.reserves(AssetKind::Native),
{
}

/// A setting that was made stands; one that was not is the runtime's default.
pub proof fn law_settings_fall_back(st: DexState)
    ensures
        st.bid_window_blocks == Some(st.bid_window()) || st.bid_window_blocks is None
            && st.bid_window() == st.config.default_bid_window_blocks,
        st.settlement_window_blocks == Some(st.settlement_window())
            || st.settlement_window_blocks is None && st.settlement_window()
            == st.config.default_settlement_window_blocks,
        st.solver_bond_amount == Some(st.solver_bond()) || st.solver_bond_amount is None
            && st.solver_bond() == st.config.default_solver_bond_amount,
        st.protocol_fee_recipient == Some(st.fee_recipient()) || st.protocol_fee_recipient is None
            && st.fee_recipient() == st.config.default_protocol_fee_recipient,
{
}

/// Creator fees go to whoever is known as the asset's creator, whole, and to nobody
/// else; protocol fees go, whole, to whoever is set to receive them, or else to the
/// runtime's default. (Neither is the escrow itself.)
pub proof fn law_accrued_fees_are_paid_whole(
    st: DexState,
    who: AccountId,
    asset: AssetKind,
    recipient: Option<AccountId>,
)
    ensures
        ({
            let pair = canonical(asset, st.config.native_asset);
            let native = st.config.native_asset;
            let accrued = st.creator_fees_unclaimed[pair];
            let payee = match st.protocol_fee_recipient {
                Some(r) => r,
                None => st.config.default_protocol_fee_recipient,
            };
            &&& claim_error(st, who, asset, recipient) is None <==> {
                &&& recipient == Some(who)
                &&& st.creator_fees_unclaimed.dom().contains(pair) && accrued > 0
            }
            &&& recipient is None ==> claim_error(st, who, asset, recipient) == Some(
                Error::NoCreatorForAsset,
            )
            &&& recipient is Some && recipient != Some(who) ==> claim_error(
                st,
                who,
                asset,
                recipient,
            ) == Some(Error::NotCreatorFeeRecipient)
            &&& who != fee_escrow() ==> {
                &&& inflow(claim_effects(st, who, asset), native, who) == accrued
                &&& inflow(claim_effects(st, who, asset), native, fee_escrow()) == -accrued
            }
            &&& payee != fee_escrow() ==> {
                &&& inflow(withdraw_effects(st), native, payee) == st.protocol_fees_unclaimed
                &&& inflow(withdraw_effects(st), native, fee_escrow())
                    == -st.protocol_fees_unclaimed
            }
        }),
{
    let native = st.config.native_asset;
    let payee = match st.protocol_fee_recipient {
        Some(r) => r,
        None => st.config.default_protocol_fee_recipient,
    };
    let c = claim_effects(st, who, asset);
    assert(c =~= seq![c[0], c[1]]);
    lemma_inflow_two(c[0], c[1], native, who);
    lemma_inflow_two(c[0], c[1], native, fee_escrow());
    let w = withdraw_effects(st);
    assert(w =~= seq![w[0], w[1]]);
    lemma_inflow_two(w[0], w[1], native, payee);
    lemma_inflow_two(w[0], w[1], native, fee_escrow());
}

/// Why a swap has no price: nothing is offered, there is no pool, or a side of it is
/// empty.
pub proof fn law_swap_needs_a_pool(st: DexState, req: SwapRequest, ctx: SwapContext)
    ensures
        req.amount_in == 0 ==> quote_error(st, req, ctx) == Some(Error::ZeroAmount),
        req.amount_in > 0 ==> (quote_error(st, req, ctx) == Some(Error::PoolNotFound)
            <==> !st.pools.dom().contains(canonical(req.asset_in, req.asset_out))),
        req.amount_in > 0 && st.pools.dom().contains(canonical(req.asset_in, req.asset_out)) ==> (
        quote_error(st, req, ctx) == Some(Error::InsufficientLiquidity) <==> ctx.held_a == 0
            || ctx.held_b == 0),
        quote_error(st, req, ctx) is Some ==> swap_error(st, req, ctx) == quote_error(st, req, ctx),
{
}

/// Records from before keep every amount through an upgrade: a pool without a split
/// routes nothing, and a split without a treasury share feeds none.
pub proof fn law_upgrades_keep_records(
    bare: UnroutedPool<Balance, AccountId>,
    old: OldPoolInfo<Balance, AccountId>,
    split: OldFeeRouting,
)
    ensures
        ({
            let a = routed_nothing(bare);
            let b = widened_pool(old);
            let w = widened(split);
            &&& a.reserve_a == bare.reserve_a && a.reserve_b == bare.reserve_b
            &&& a.fee_tier == bare.fee_tier && a.pool_account == bare.pool_account
            &&& a.total_fees_collected == bare.total_fees_collected
            &&& a.routing.protocol_bps + a.routing.creator_bps + a.routing.treasury_bps == 0
            &&& b.reserve_a == old.reserve_a && b.reserve_b == old.reserve_b
            &&& b.fee_tier == old.fee_tier && b.pool_account == old.pool_account
            &&& b.total_fees_collected == old.total_fees_collected
            &&& b.routing.protocol_bps == old.routing.protocol_bps
            &&& b.routing.creator_bps == old.routing.creator_bps
            &&& b.routing.treasury_bps == 0
            &&& w.protocol_bps == split.protocol_bps && w.creator_bps == split.creator_bps
            &&& w.treasury_bps == 0
        }),
{
}

/// The single default split becomes the middle tier's where that tier can spare it, and
/// is dropped where it cannot. The other tiers keep what they had.
pub proof fn law_single_split_moves_to_the_launch_tier(
    defaults: Map<u32, FeeRouting>,
    single: Option<FeeRouting>,
    tier: u32,
)
    ensures
        ({
            let after = defaults_after_split(defaults, single);
            &&& tier != 3 ==> (after.dom().contains(tier) <==> defaults.dom().contains(tier))
                && after[tier] == defaults[tier]
            &&& single matches Some(r) ==> if r.protocol_bps + r.creator_bps + r.treasury_bps
                <= 20 {
                after.dom().contains(3) && after[3] == r
            } else {
                after == defaults
            }
            &&& single is None ==> after == defaults
        }),
{
}

/// Moving a pool's reserves takes all of both assets. Where one is native, what can go
/// first of it keeps the old account alive until the other has left.
pub proof fn law_moves_take_everything(native: AssetKind, pair: (AssetKind, AssetKind))
    ensures
        ({
            let steps = move_steps(native, pair);
            &&& steps.contains(MoveStep::All(pair.0)) && steps.contains(MoveStep::All(pair.1))
            &&& pair.0 == native || pair.1 == native ==> steps[0] == MoveStep::KeepAlive(native)
                && steps.last() == MoveStep::All(native)
            &&& forall|i: int|
                0 <= i < steps.len() ==> match #[trigger] steps[i] {
                    MoveStep::KeepAlive(a) => a == native,
                    MoveStep::All(a) => a == pair.0 || a == pair.1,
                }
        }),
{
    let steps = move_steps(native, pair);
    let n = steps.len() as int;
    assert(steps[n - 1] == steps.last());
    if n == 3 {
        assert(steps[1] == steps[1]);
    } else {
        assert(steps[0] == steps[0]);
    }
}

} // verus!
