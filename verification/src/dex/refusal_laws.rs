//! What a refusal says. Every refusal names a fault that is there, and the first one
//! in the order in which a request is looked at.

use super::governance::{claim_error, routing_error};
use super::liquidity::{
    create_error, deposit_error, deposit_plan, lock_error, requested_deposit, withdrawal_error,
    Deposit, DepositRequest, WithdrawalRequest,
};
use super::market::{
    cancel_error, commit_error, deregister_error, refund_error, settle_error, settle_plan_error,
    slash_error, submit_error, IntentRequest,
};
use super::seed::{seed_error, SeedRequest};
use super::state::DexState;
use super::swap::{quote_error, request_math, swap_error, SwapContext, SwapRequest};
use super::types::{Error, FeeRouting};
use crate::accounts::{canonical, lemma_pair_order};
use crate::arith::{lemma_floor, lemma_floor_bounds};
use crate::primitives::{AccountId, AssetKind, AssetPair, Balance, BlockNumber};
use crate::settlement::IntentStatus;
use vstd::prelude::*;

verus! {

/// Why a pool cannot be created.
pub proof fn law_create_refusals(
    st: DexState,
    asset_a: AssetKind,
    asset_b: AssetKind,
    fee_tier: u32,
)
    ensures
        ({
            let reserved = st.config.reserves(asset_a) || st.config.reserves(asset_b);
            let tier = fee_tier == 1 || fee_tier == 3 || fee_tier == 10;
            let there = st.pools.dom().contains(canonical(asset_a, asset_b));
            match create_error(st, asset_a, asset_b, fee_tier) {
                None => !reserved && tier && !there,
                Some(Error::ReservedAsset) => reserved,
                Some(Error::InvalidFeeTier) => !reserved && !tier,
                Some(Error::PoolAlreadyExists) => !reserved && tier && there,
                Some(Error::InvalidFeeRouting) => {
                    &&& !reserved && tier && !there
                    &&& st.default_fee_routing.dom().contains(fee_tier)
                    &&& st.default_fee_routing[fee_tier].protocol_bps > 0
                },
                Some(_) => false,
            }
        }),
{
}

/// Why a deposit cannot be priced. The first one needs more than a thousand shares; a
/// later one needs something on both sides.
pub proof fn law_pricing_refusals(total: int, reserve_a: int, reserve_b: int, a: int, b: int)
    requires
        0 <= total,
        0 <= reserve_a <= u128::MAX,
        0 <= reserve_b <= u128::MAX,
        0 <= a <= u128::MAX,
        0 <= b <= u128::MAX,
    ensures
        match deposit_plan(total, reserve_a, reserve_b, a, b) {
            Ok(_) => total > 0 ==> reserve_a > 0 && reserve_b > 0,
            Err(Error::InsufficientInitialLiquidity) => total == 0,
            Err(Error::InsufficientLiquidity) => total > 0 && (reserve_a == 0 || reserve_b == 0),
            Err(Error::Overflow) => {
                &&& total > 0 && reserve_a > 0
                &&& {
                    ||| a * reserve_b >= (u128::MAX + 1) * reserve_a
                    ||| a * total >= (u128::MAX + 1) * reserve_a
                    ||| b * total >= (u128::MAX + 1) * reserve_b
                }
            },
            Err(_) => false,
        },
{
    if total > 0 && reserve_a > 0 {
        let optimal = a * reserve_b / reserve_a;
        lemma_floor_bounds(a * reserve_b, reserve_a, u128::MAX + 1);
        assert(0 <= a * reserve_b && 0 <= b * reserve_a) by (nonlinear_arith)
            requires
                0 <= a,
                0 <= b,
                0 <= reserve_a,
                0 <= reserve_b,
        ;
        lemma_floor(a * reserve_b, reserve_a);
        if reserve_b == 0 {
            assert(a * reserve_b == 0) by (nonlinear_arith)
                requires
                    reserve_b == 0,
            ;
            assert(optimal == 0);
        }
        let (x, y) = if optimal <= b {
            (a, optimal)
        } else {
            (b * reserve_a / reserve_b, b)
        };
        if optimal > b {
            assert((b + 1) * reserve_a <= a * reserve_b) by (nonlinear_arith)
                requires
                    optimal * reserve_a <= a * reserve_b,
                    b + 1 <= optimal,
                    0 < reserve_a,
            ;
            lemma_floor(b * reserve_a, reserve_b);
            assert(x <= a) by (nonlinear_arith)
                requires
                    x * reserve_b <= b * reserve_a,
                    (b + 1) * reserve_a <= a * reserve_b,
                    0 < reserve_a,
                    0 < reserve_b,
            ;
        }
        lemma_floor_bounds(x * total, reserve_a, u128::MAX + 1);
        assert(x * total <= a * total && y * total <= b * total) by (nonlinear_arith)
            requires
                x <= a,
                y <= b,
                0 <= total,
        ;
        if reserve_b > 0 {
            lemma_floor_bounds(y * total, reserve_b, u128::MAX + 1);
        }
    }
}

/// Why a deposit is refused.
pub proof fn law_deposit_refusals(
    st: DexState,
    req: DepositRequest,
    held_a: Balance,
    held_b: Balance,
)
    ensures
        ({
            let pair = canonical(req.asset_a, req.asset_b);
            let zero = req.amount_a == 0 || req.amount_b == 0;
            let found = st.pools.dom().contains(pair);
            let (min_a, min_b) = if pair == (req.asset_a, req.asset_b) {
                (req.amount_a_min, req.amount_b_min)
            } else {
                (req.amount_b_min, req.amount_a_min)
            };
            let priced = requested_deposit(st, req, held_a, held_b);
            let d = priced->Ok_0;
            match deposit_error(st, req, held_a, held_b) {
                None => {
                    &&& !zero && found && priced is Ok && d.shares > 0
                    &&& d.amount_a >= min_a && d.amount_b >= min_b
                },
                Some(e) => if zero {
                    e == Error::ZeroAmount
                } else if !found {
                    e == Error::PoolNotFound
                } else if priced is Err {
                    priced == Err::<Deposit, Error>(e)
                } else if d.shares == 0 {
                    e == Error::ZeroAmount
                } else if d.amount_a < min_a || d.amount_b < min_b {
                    e == Error::SlippageExceeded
                } else {
                    e == Error::Overflow
                },
            }
        }),
{
    lemma_pair_order(req.asset_a, req.asset_b);
}

/// Why a withdrawal is refused.
pub proof fn law_withdrawal_refusals(
    st: DexState,
    req: WithdrawalRequest,
    held_a: Balance,
    held_b: Balance,
    now: BlockNumber,
)
    ensures
        ({
            let pair = canonical(req.asset_a, req.asset_b);
            let key = (req.who, pair);
            let found = st.pools.dom().contains(pair) && st.total_liquidity.dom().contains(pair);
            let total = st.total_liquidity[pair] as int;
            let owns = st.liquidity_positions.dom().contains(key)
                && st.liquidity_positions[key].shares >= req.shares;
            let locked = st.liquidity_positions[key].locked_until matches Some(end) && now < end;
            let (min_a, min_b) = if pair == (req.asset_a, req.asset_b) {
                (req.amount_a_min, req.amount_b_min)
            } else {
                (req.amount_b_min, req.amount_a_min)
            };
            let open = req.shares > 0 && found && total > 0 && owns && !locked;
            match withdrawal_error(st, req, held_a, held_b, now) {
                None => open,
                Some(Error::ZeroAmount) => req.shares == 0,
                Some(Error::PoolNotFound) => req.shares > 0 && !found,
                Some(Error::InsufficientLiquidity) => {
                    &&& req.shares > 0 && found
                    &&& total > 0 ==> open && req.shares > total
                },
                Some(Error::InsufficientShares) => req.shares > 0 && found && total > 0 && !owns,
                Some(Error::PoolLocked) => req.shares > 0 && found && total > 0 && owns && locked,
                Some(Error::SlippageExceeded) => {
                    &&& open
                    &&& req.shares * held_a < min_a * total || req.shares * held_b < min_b * total
                },
                Some(Error::Overflow) => {
                    &&& open
                    &&& req.shares > total
                },
                Some(_) => false,
            }
        }),
{
    lemma_pair_order(req.asset_a, req.asset_b);
    let pair = canonical(req.asset_a, req.asset_b);
    let total = st.total_liquidity[pair] as int;
    let (min_a, min_b) = if pair == (req.asset_a, req.asset_b) {
        (req.amount_a_min, req.amount_b_min)
    } else {
        (req.amount_b_min, req.amount_a_min)
    };
    if total > 0 {
        lemma_worth(req.shares, held_a, total, min_a);
        lemma_worth(req.shares, held_b, total, min_b);
    }
}

proof fn lemma_worth(shares: Balance, held: Balance, total: int, min: Balance)
    requires
        0 < total,
    ensures
        shares * held >= min * total ==> shares * held / total >= min,
        shares <= total ==> shares * held / total <= held,
{
    lemma_floor_bounds(shares * held, total, min as int);
    lemma_floor_bounds(shares * held, total, held as int);
    if shares <= total {
        assert(shares * held <= held * total) by (nonlinear_arith)
            requires
                shares <= total,
        ;
    }
}

/// Why a lock is refused.
pub proof fn law_lock_refusals(
    st: DexState,
    who: AccountId,
    pair: AssetPair,
    lock_until: BlockNumber,
)
    ensures
        ({
            let owns = st.liquidity_positions.dom().contains((who, pair));
            let shortened = st.liquidity_positions[(who, pair)].locked_until matches Some(end)
                && lock_until < end;
            match lock_error(st, who, pair, lock_until) {
                None => owns && !shortened,
                Some(Error::InsufficientShares) => !owns,
                Some(Error::LockCannotBeShortened) => owns && shortened,
                Some(_) => false,
            }
        }),
{
}

/// Why a seed is refused.
pub proof fn law_seed_refusals(st: DexState, req: SeedRequest)
    ensures
        ({
            let pair = canonical(req.asset, req.quote);
            let zero = req.amount_asset == 0 || req.amount_quote == 0;
            let reserved = st.config.reserves(req.asset) && !st.config.reserves(req.quote);
            let tier = req.fee_tier == 1 || req.fee_tier == 3 || req.fee_tier == 10;
            let fit = !zero && reserved && tier;
            let there = st.pools.dom().contains(pair);
            let pool = st.pools[pair];
            let shared = st.total_liquidity.dom().contains(pair) && st.total_liquidity[pair] > 0;
            let native = pair.0 == st.config.native_asset || pair.1 == st.config.native_asset;
            let set = st.default_fee_routing.dom().contains(req.fee_tier);
            match seed_error(st, req) {
                None => {
                    &&& fit
                    &&& there ==> !shared && pool.fee_tier == req.fee_tier && pool.reserve_a == 0
                        && pool.reserve_b == 0
                    &&& !there && native ==> set
                },
                Some(Error::ZeroAmount) => zero,
                Some(Error::NotReservedAsset) => !zero && !reserved,
                Some(Error::InvalidFeeTier) => {
                    &&& !zero && reserved
                    &&& tier ==> there && !shared && pool.fee_tier != req.fee_tier
                },
                Some(Error::NoDefaultFeeRouting) => fit && !there && native && !set,
                Some(Error::InvalidFeeRouting) => fit && !there && native && set,
                Some(Error::PoolAlreadySeeded) => {
                    &&& fit && there
                    &&& shared || (pool.fee_tier == req.fee_tier && (pool.reserve_a > 0
                        || pool.reserve_b > 0))
                },
                Some(Error::InsufficientInitialLiquidity) => {
                    &&& fit
                    &&& there ==> !shared && pool.fee_tier == req.fee_tier
                },
                Some(_) => false,
            }
        }),
{
}

/// Why a default split, or a claim on creator fees, is refused.
pub proof fn law_governance_refusals(
    st: DexState,
    fee_tier: u32,
    routing: FeeRouting,
    who: AccountId,
    asset: AssetKind,
    recipient: Option<AccountId>,
)
    ensures
        ({
            let tier = fee_tier == 1 || fee_tier == 3 || fee_tier == 10;
            match routing_error(fee_tier, routing) {
                None => tier,
                Some(Error::InvalidFeeTier) => !tier,
                Some(Error::InvalidFeeRouting) => tier,
                Some(_) => false,
            }
        }),
        ({
            let pair = canonical(asset, st.config.native_asset);
            let owed = st.creator_fees_unclaimed.dom().contains(pair)
                && st.creator_fees_unclaimed[pair] > 0;
            match claim_error(st, who, asset, recipient) {
                None => recipient == Some(who) && owed,
                Some(Error::NoCreatorForAsset) => recipient is None,
                Some(Error::NotCreatorFeeRecipient) => recipient is Some && recipient != Some(who),
                Some(Error::ZeroAmount) => recipient == Some(who) && !owed,
                Some(_) => false,
            }
        }),
{
}

/// Why a swap is refused.
pub proof fn law_swap_refusals(st: DexState, req: SwapRequest, ctx: SwapContext)
    ensures
        ({
            let found = st.pools.dom().contains(canonical(req.asset_in, req.asset_out));
            let filled = ctx.held_a > 0 && ctx.held_b > 0;
            let out = request_math(st, req, ctx).amount_out;
            match quote_error(st, req, ctx) {
                None => {
                    &&& req.amount_in > 0 && found && filled
                    &&& swap_error(st, req, ctx) is None || swap_error(st, req, ctx) == Some(
                        Error::Overflow,
                    )
                },
                Some(e) => {
                    &&& swap_error(st, req, ctx) == Some(e)
                    &&& req.amount_in == 0 ==> e == Error::ZeroAmount
                    &&& req.amount_in > 0 && !found ==> e == Error::PoolNotFound
                    &&& req.amount_in > 0 && found && !filled ==> e == Error::InsufficientLiquidity
                    &&& req.amount_in > 0 && found && filled ==> match e {
                        Error::Overflow => true,
                        Error::SlippageExceeded => 0 <= out < req.amount_out_min,
                        Error::ZeroAmount => out == 0 && req.amount_out_min == 0,
                        _ => false,
                    }
                },
            }
        }),
{
}

/// Why an intent is refused, and why one cannot be cancelled or refunded.
pub proof fn law_intent_refusals(
    st: DexState,
    req: IntentRequest,
    who: AccountId,
    id: u64,
    now: BlockNumber,
)
    ensures
        match submit_error(req, now) {
            None => req.amount_in > 0 && req.token_in != req.token_out && req.deadline > now,
            Some(Error::InvalidAmount) => req.amount_in == 0 || req.token_in == req.token_out,
            Some(Error::InvalidDeadline) => req.amount_in > 0 && req.token_in != req.token_out
                && req.deadline <= now,
            Some(_) => false,
        },
        ({
            let found = st.intents.dom().contains(id);
            let owner = st.intents[id].user == who;
            let open = st.intents[id].status == IntentStatus::Open;
            let held = st.intent_escrow_balances.dom().contains(id);
            let passed = now >= st.intents[id].deadline;
            &&& match cancel_error(st, who, id) {
                None => found && owner && open && held,
                Some(Error::IntentNotFound) => !found || (owner && open && !held),
                Some(Error::NotIntentOwner) => found && !owner,
                Some(Error::IntentNotOpen) => found && owner && !open,
                Some(_) => false,
            }
            &&& match refund_error(st, who, id, now) {
                None => found && owner && open && passed && held,
                Some(Error::IntentNotFound) => !found || (owner && open && passed && !held),
                Some(Error::NotIntentOwner) => found && !owner,
                Some(Error::IntentNotOpen) => found && owner && !open,
                Some(Error::DeadlineNotPassed) => found && owner && open && !passed,
                Some(_) => false,
            }
        }),
{
}

/// Why a solver cannot leave.
pub proof fn law_deregister_refusals(st: DexState, who: AccountId)
    ensures
        ({
            let solver_id = st.solver_account_to_id[who];
            let known = st.solver_account_to_id.dom().contains(who) && st.solvers.dom().contains(
                solver_id,
            );
            let s = st.solvers[solver_id];
            match deregister_error(st, who) {
                None => known && s.active && s.active_commitments == 0,
                Some(Error::SolverNotRegistered) => !known,
                Some(Error::SolverNotActive) => known && !s.active,
                Some(Error::ActiveCommitmentsExist) => known && s.active && s.active_commitments
                    > 0,
                Some(_) => false,
            }
        }),
{
}

/// Why a bid is refused.
pub proof fn law_bid_refusals(
    st: DexState,
    who: AccountId,
    id: u64,
    committed: Balance,
    now: BlockNumber,
)
    ensures
        ({
            let solver_id = st.solver_account_to_id[who];
            let known = st.solver_account_to_id.dom().contains(who) && st.solvers.dom().contains(
                solver_id,
            );
            let active = known && st.solvers[solver_id].active;
            let found = st.intents.dom().contains(id);
            let intent = st.intents[id];
            let fillable = intent.status == IntentStatus::Open || intent.status
                == IntentStatus::Committed;
            let enough = committed >= intent.min_amount_out;
            let closed = now > intent.submitted_at + st.bid_window();
            let expired = now >= intent.deadline;
            let beaten = st.fill_commitments.dom().contains(id)
                && st.fill_commitments[id].committed_amount_out >= committed;
            match commit_error(st, who, id, committed, now) {
                None => active && found && fillable && enough && !closed && !expired && !beaten,
                Some(Error::SolverNotRegistered) => !known,
                Some(Error::SolverNotActive) => known && !active,
                Some(Error::IntentNotFound) => active && !found,
                Some(Error::IntentNotOpen) => active && found && !fillable,
                Some(Error::BelowMinAmountOut) => active && found && fillable && !enough,
                Some(Error::BidWindowClosed) => active && found && fillable && enough && closed,
                Some(Error::IntentExpired) => active && found && fillable && enough && !closed
                    && expired,
                Some(Error::BidNotBetter) => active && found && fillable && enough && !closed
                    && !expired && beaten,
                Some(_) => false,
            }
        }),
{
}

/// Why a committed intent cannot be settled, and why its solver cannot be slashed.
pub proof fn law_settlement_refusals(
    st: DexState,
    who: AccountId,
    id: u64,
    now: BlockNumber,
    ctx: SwapContext,
)
    ensures
        ({
            let c = st.fill_commitments[id];
            let bid = st.fill_commitments.dom().contains(id);
            let own = c.solver_account == who;
            let late = now > c.settle_by;
            let found = st.intents.dom().contains(id);
            let committed = st.intents[id].status == IntentStatus::Committed;
            let known = st.solvers.dom().contains(c.solver_id);
            let held = st.intent_escrow_balances.dom().contains(id);
            &&& match settle_plan_error(st, who, id, now) {
                None => bid && own && !late && found && committed,
                Some(Error::IntentNotCommitted) => !bid || (own && !late && found && !committed),
                Some(Error::NotCommittedSolver) => bid && !own,
                Some(Error::SettlementWindowPassed) => bid && own && late,
                Some(Error::IntentNotFound) => bid && own && !late && !found,
                Some(_) => false,
            }
            &&& match slash_error(st, id, now) {
                None => bid && late && found && committed && known && held,
                Some(Error::IntentNotCommitted) => !bid || (late && found && !committed),
                Some(Error::SettlementWindowNotPassed) => bid && !late,
                Some(Error::IntentNotFound) => bid && late && (!found || (committed && known
                    && !held)),
                Some(Error::SolverNotRegistered) => bid && late && found && committed && !known,
                Some(_) => false,
            }
            &&& settle_plan_error(st, who, id, ctx.now) is Some ==> settle_error(st, who, id, ctx)
                == settle_plan_error(st, who, id, ctx.now)
        }),
{
}

} // verus!
