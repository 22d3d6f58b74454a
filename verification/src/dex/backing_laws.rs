//! What pools record is what their accounts hold.

use super::flows::{
    inflow, lemma_inflow_concat, lemma_inflow_one, lemma_inflow_three, lemma_inflow_two,
};
use super::liquidity::{
    deposit_effects, deposit_error, deposit_next, withdrawal_effects, withdrawal_error,
    withdrawal_next, DepositRequest, WithdrawalRequest,
};
use super::pool_laws::{law_swap_keeps_k, law_swap_leaves_pool_backed};
use super::seed::{
    seed_effects, seed_error, seed_next, seed_pair, seed_pool, sweep_effects, SeedRequest,
};
use super::state::DexState;
use super::swap::{
    is_flipped, live_in, live_out, pool_after_swap, requested_pool, swap_effects, swap_error,
    swap_next, SwapContext, SwapRequest,
};
use crate::accounts::canonical;
use crate::primitives::{AccountId, AssetKind, AssetPair, Balance, BlockNumber};
use vstd::prelude::*;

verus! {

/// A deposit leaves the pool's account with exactly the recorded reserves, more
/// than before. The two assets differ, and the provider is not the pool itself.
pub proof fn law_deposit_leaves_pool_backed(
    st: DexState,
    req: DepositRequest,
    held_a: Balance,
    held_b: Balance,
    now: BlockNumber,
)
    requires
        deposit_error(st, req, held_a, held_b) is None,
        req.asset_a != req.asset_b,
        req.who != st.pools[canonical(req.asset_a, req.asset_b)].pool_account,
    ensures
        ({
            let pair = canonical(req.asset_a, req.asset_b);
            let account = st.pools[pair].pool_account;
            let effects = deposit_effects(st, req, held_a, held_b);
            let after = deposit_next(st, req, held_a, held_b, now).pools[pair];
            &&& held_a + inflow(effects, pair.0, account) == after.reserve_a >= held_a
            &&& held_b + inflow(effects, pair.1, account) == after.reserve_b >= held_b
        }),
{
    let pair = canonical(req.asset_a, req.asset_b);
    let account = st.pools[pair].pool_account;
    let e = deposit_effects(st, req, held_a, held_b);
    assert(e =~= seq![e[0], e[1], e[2]]);
    lemma_inflow_three(e[0], e[1], e[2], pair.0, account);
    lemma_inflow_three(e[0], e[1], e[2], pair.1, account);
}

/// A withdrawal leaves the pool's account with exactly the recorded reserves. The
/// two assets differ, and the provider is not the pool itself.
pub proof fn law_withdrawal_leaves_pool_backed(
    st: DexState,
    req: WithdrawalRequest,
    held_a: Balance,
    held_b: Balance,
    now: BlockNumber,
)
    requires
        withdrawal_error(st, req, held_a, held_b, now) is None,
        req.asset_a != req.asset_b,
        req.who != st.pools[canonical(req.asset_a, req.asset_b)].pool_account,
    ensures
        ({
            let pair = canonical(req.asset_a, req.asset_b);
            let account = st.pools[pair].pool_account;
            let effects = withdrawal_effects(st, req, held_a, held_b);
            let after = withdrawal_next(st, req, held_a, held_b).pools[pair];
            &&& held_a + inflow(effects, pair.0, account) == after.reserve_a
            &&& held_b + inflow(effects, pair.1, account) == after.reserve_b
        }),
{
    let pair = canonical(req.asset_a, req.asset_b);
    let account = st.pools[pair].pool_account;
    let e = withdrawal_effects(st, req, held_a, held_b);
    assert(e =~= seq![e[0], e[1], e[2]]);
    lemma_inflow_three(e[0], e[1], e[2], pair.0, account);
    lemma_inflow_three(e[0], e[1], e[2], pair.1, account);
}

/// A seed leaves the pool's account with exactly the seeded amounts, whatever was
/// parked there. Neither the seeder nor the recipient of what is swept out is the
/// pool itself.
pub proof fn law_seed_leaves_pool_backed(
    st: DexState,
    req: SeedRequest,
    held_asset: Balance,
    held_quote: Balance,
    now: BlockNumber,
)
    requires
        seed_error(st, req) is None,
        req.who != seed_pool(st, req).pool_account,
        st.config.excess_recipient != seed_pool(st, req).pool_account,
    ensures
        ({
            let pair = seed_pair(req);
            let account = seed_pool(st, req).pool_account;
            let effects = seed_effects(st, req, held_asset, held_quote);
            let after = seed_next(st, req, now).pools[pair];
            &&& held_asset + inflow(effects, req.asset, account) == req.amount_asset
            &&& held_quote + inflow(effects, req.quote, account) == req.amount_quote
            &&& after.reserve_a == if pair.0 == req.asset {
                req.amount_asset
            } else {
                req.amount_quote
            }
            &&& after.reserve_b == if pair.0 == req.asset {
                req.amount_quote
            } else {
                req.amount_asset
            }
        }),
{
    lemma_seed_inflow(st, req, held_asset, held_quote, req.asset);
    lemma_seed_inflow(st, req, held_asset, held_quote, req.quote);
}

/// A seed is paid by the seeder, and whatever was parked at the pool's account goes to
/// the one who receives excess. (The three accounts are different ones.)
pub proof fn law_seed_is_paid_by_the_seeder(
    st: DexState,
    req: SeedRequest,
    held_asset: Balance,
    held_quote: Balance,
)
    requires
        seed_error(st, req) is None,
        req.who != seed_pool(st, req).pool_account,
        st.config.excess_recipient != seed_pool(st, req).pool_account,
        st.config.excess_recipient != req.who,
    ensures
        ({
            let effects = seed_effects(st, req, held_asset, held_quote);
            let excess = st.config.excess_recipient;
            &&& inflow(effects, req.asset, req.who) == -req.amount_asset
            &&& inflow(effects, req.quote, req.who) == -req.amount_quote
            &&& inflow(effects, req.asset, excess) == held_asset
            &&& inflow(effects, req.quote, excess) == held_quote
        }),
{
    lemma_seed_moves(st, req, held_asset, held_quote, req.asset, req.who);
    lemma_seed_moves(st, req, held_asset, held_quote, req.quote, req.who);
    lemma_seed_moves(
        st,
        req,
        held_asset,
        held_quote,
        req.asset,
        st.config.excess_recipient,
    );
    lemma_seed_moves(
        st,
        req,
        held_asset,
        held_quote,
        req.quote,
        st.config.excess_recipient,
    );
}

/// What a seed's effects add to the seeder or to the one who receives excess.
proof fn lemma_seed_moves(
    st: DexState,
    req: SeedRequest,
    held_asset: Balance,
    held_quote: Balance,
    asset: AssetKind,
    account: AccountId,
)
    requires
        seed_error(st, req) is None,
        account != seed_pool(st, req).pool_account,
        account == req.who || account == st.config.excess_recipient,
        st.config.excess_recipient != req.who,
    ensures
        inflow(seed_effects(st, req, held_asset, held_quote), asset, account) == (if account
            == req.who {
            (if asset == req.asset {
                -req.amount_asset
            } else {
                0
            }) - (if asset == req.quote {
                req.amount_quote as int
            } else {
                0
            })
        } else {
            (if asset == req.asset {
                held_asset as int
            } else {
                0
            }) + (if asset == req.quote {
                held_quote as int
            } else {
                0
            })
        }),
{
    let pair = seed_pair(req);
    let from = seed_pool(st, req).pool_account;
    let to = st.config.excess_recipient;
    let all = seed_effects(st, req, held_asset, held_quote);
    let first = sweep_effects(pair, from, to, req.asset, held_asset);
    let second = sweep_effects(pair, from, to, req.quote, held_quote);
    let opening = if st.pools.dom().contains(pair) {
        Seq::empty()
    } else {
        seq![all[0]]
    };
    let n = all.len() as int;
    let legs = seq![all[n - 5], all[n - 4]];
    let events = seq![all[n - 3], all[n - 2], all[n - 1]];
    assert(all =~= opening + first + second + legs + events);
    lemma_inflow_concat(opening + first + second + legs, events, asset, account);
    lemma_inflow_concat(opening + first + second, legs, asset, account);
    lemma_inflow_concat(opening + first, second, asset, account);
    lemma_inflow_concat(opening, first, asset, account);
    lemma_inflow_three(all[n - 3], all[n - 2], all[n - 1], asset, account);
    lemma_inflow_two(all[n - 5], all[n - 4], asset, account);
    if held_asset != 0 {
        assert(first =~= seq![first[0], first[1]]);
        lemma_inflow_two(first[0], first[1], asset, account);
    }
    if held_quote != 0 {
        assert(second =~= seq![second[0], second[1]]);
        lemma_inflow_two(second[0], second[1], asset, account);
    }
    if !st.pools.dom().contains(pair) {
        lemma_inflow_one(all[0], asset, account);
    }
}

/// What sweeping adds to the pool's account.
proof fn lemma_sweep_inflow(
    pair: AssetPair,
    account: AccountId,
    to: AccountId,
    swept: AssetKind,
    held: Balance,
    asset: AssetKind,
)
    requires
        to != account,
    ensures
        inflow(sweep_effects(pair, account, to, swept, held), asset, account) == (if asset
            == swept {
            -held
        } else {
            0
        }),
{
    let e = sweep_effects(pair, account, to, swept, held);
    if held != 0 {
        assert(e =~= seq![e[0], e[1]]);
        lemma_inflow_two(e[0], e[1], asset, account);
    }
}

/// What a seed's effects add to the pool's account.
proof fn lemma_seed_inflow(
    st: DexState,
    req: SeedRequest,
    held_asset: Balance,
    held_quote: Balance,
    asset: AssetKind,
)
    requires
        seed_error(st, req) is None,
        req.who != seed_pool(st, req).pool_account,
        st.config.excess_recipient != seed_pool(st, req).pool_account,
    ensures
        inflow(
            seed_effects(st, req, held_asset, held_quote),
            asset,
            seed_pool(st, req).pool_account,
        ) == (if asset == req.asset {
            req.amount_asset - held_asset
        } else {
            0
        }) + (if asset == req.quote {
            req.amount_quote - held_quote
        } else {
            0
        }),
{
    let pair = seed_pair(req);
    let account = seed_pool(st, req).pool_account;
    let to = st.config.excess_recipient;
    let all = seed_effects(st, req, held_asset, held_quote);
    let first = sweep_effects(pair, account, to, req.asset, held_asset);
    let second = sweep_effects(pair, account, to, req.quote, held_quote);
    let opening = if st.pools.dom().contains(pair) {
        Seq::empty()
    } else {
        seq![all[0]]
    };
    let n = all.len() as int;
    let legs = seq![all[n - 5], all[n - 4]];
    let events = seq![all[n - 3], all[n - 2], all[n - 1]];
    assert(all =~= opening + first + second + legs + events);
    lemma_inflow_concat(opening + first + second + legs, events, asset, account);
    lemma_inflow_concat(opening + first + second, legs, asset, account);
    lemma_inflow_concat(opening + first, second, asset, account);
    lemma_inflow_concat(opening, first, asset, account);
    lemma_inflow_three(all[n - 3], all[n - 2], all[n - 1], asset, account);
    lemma_inflow_two(all[n - 5], all[n - 4], asset, account);
    lemma_sweep_inflow(pair, account, to, req.asset, held_asset, asset);
    lemma_sweep_inflow(pair, account, to, req.quote, held_quote, asset);
    if !st.pools.dom().contains(pair) {
        lemma_inflow_one(all[0], asset, account);
    }
}

/// A swap never lowers the product of what the pool's account holds, on the same
/// conditions as its reserves stay backed.
pub proof fn law_swap_keeps_held_k(st: DexState, req: SwapRequest, ctx: SwapContext)
    requires
        swap_error(st, req, ctx) is None,
        req.asset_in != req.asset_out,
        requested_pool(st, req).routing.fits(requested_pool(st, req).fee_tier as int),
        requested_pool(st, req).fee_tier <= 1_000,
        req.who != requested_pool(st, req).pool_account,
        req.recipient != requested_pool(st, req).pool_account,
    ensures
        ({
            let account = requested_pool(st, req).pool_account;
            let effects = swap_effects(st, req, ctx);
            let (held_in, held_out) = (live_in(req, ctx), live_out(req, ctx));
            (held_in + inflow(effects, req.asset_in, account)) * (held_out + inflow(
                effects,
                req.asset_out,
                account,
            )) >= held_in * held_out
        }),
{
    law_swap_keeps_k(st, req, ctx);
    law_swap_leaves_pool_backed(st, req, ctx);
    let account = requested_pool(st, req).pool_account;
    let effects = swap_effects(st, req, ctx);
    let after = pool_after_swap(st, req, ctx);
    let (held_in, held_out) = (live_in(req, ctx) as int, live_out(req, ctx) as int);
    let (kept_in, kept_out) = if is_flipped(req) {
        (after.reserve_b as int, after.reserve_a as int)
    } else {
        (after.reserve_a as int, after.reserve_b as int)
    };
    let x = held_in + inflow(effects, req.asset_in, account);
    let y = held_out + inflow(effects, req.asset_out, account);
    assert(kept_in * kept_out >= held_in * held_out) by {
        assert(after.reserve_a * after.reserve_b == after.reserve_b * after.reserve_a)
            by (nonlinear_arith);
        assert(ctx.held_a * ctx.held_b == ctx.held_b * ctx.held_a) by (nonlinear_arith);
    }
    assert(x * y >= kept_in * kept_out) by (nonlinear_arith)
        requires
            x >= kept_in,
            y >= kept_out,
            kept_in >= 0,
            kept_out >= 0,
    ;
}

/// A swap that is no trade leaves every pool's last trade where it was.
pub proof fn law_buyback_is_no_trade(st: DexState, req: SwapRequest, ctx: SwapContext)
    requires
        !req.is_trade,
    ensures
        swap_next(st, req, ctx).last_swap_block == st.last_swap_block,
{
}

} // verus!
