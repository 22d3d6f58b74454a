//! What holds of pools and liquidity across operations.

use super::flows::{
    effect_inflow, inflow, lemma_inflow_concat, lemma_inflow_one, lemma_inflow_three,
    lemma_inflow_two,
};
use super::liquidity::{
    create_error, deposit_error, deposit_next, deposit_plan, lock_error, lock_next, new_routing,
    share_value, withdrawal_error, withdrawal_next, with_empty_pool, DepositRequest,
    WithdrawalRequest,
};
use super::pricing::{is_sqrt, lemma_slice, slice_of, sqrt_floor};
use super::seed::{seed_amounts, seed_error, seed_next, seed_pair, SeedRequest};
use super::state::{fee_escrow, value_or, DexState, Pool, Position};
use super::swap::{
    is_flipped, lemma_quote_ranges, live_in, live_out, pool_after_swap, quote_of, request_math,
    requested_pool, routes_escrow, routes_vault, swap_effects, swap_error, swap_events, swap_legs,
    swap_next, swap_routes, SwapContext, SwapRequest,
};
use super::types::{Error, BPS, FEE_DENOMINATOR, MINIMUM_LIQUIDITY};
use crate::accounts::canonical;
use crate::arith::{lemma_floor, lemma_floor_bounds, min_int};
use crate::primitives::{AccountId, AssetKind, AssetPair, Balance, BlockNumber};
use crate::sums::{lemma_sum_bounds, lemma_sum_insert, lemma_sum_remove, sum_map};
use vstd::prelude::*;

verus! {

/// A swap never lowers the product of the reserves.
pub proof fn law_swap_keeps_k(st: DexState, req: SwapRequest, ctx: SwapContext)
    requires
        swap_error(st, req, ctx) is None,
    ensures
        ({
            let pool = pool_after_swap(st, req, ctx);
            &&& pool.reserve_a * pool.reserve_b >= ctx.held_a * ctx.held_b
            &&& pool.reserve_a > 0 && pool.reserve_b > 0
        }),
{
    lemma_quote_ranges(st, req, ctx);
    let q = quote_of(st, req, ctx);
    let a = live_in(req, ctx) + q.net_in;
    let b = live_out(req, ctx) - q.gross_out;
    assert(a * b == b * a) by (nonlinear_arith);
    assert(ctx.held_a * ctx.held_b == ctx.held_b * ctx.held_a) by (nonlinear_arith);
}

/// With the native asset going in, the routed slices come out of the fee, as long
/// as the pool routes no more than its tier.
pub proof fn law_routed_within_fee(st: DexState, req: SwapRequest, ctx: SwapContext)
    requires
        swap_error(st, req, ctx) is None,
        req.asset_in == st.config.native_asset,
        req.asset_out != st.config.native_asset,
        requested_pool(st, req).routing.fits(requested_pool(st, req).fee_tier as int),
        requested_pool(st, req).fee_tier <= 1_000,
    ensures
        request_math(st, req, ctx).routed <= quote_of(st, req, ctx).fee,
{
    lemma_quote_ranges(st, req, ctx);
    let pool = requested_pool(st, req);
    let x = req.amount_in as int;
    let p = pool.routing.protocol_bps as int;
    let c = pool.routing.creator_bps as int;
    let t = pool.routing.treasury_bps as int;
    lemma_slices_within(x, p, c, t, pool.fee_tier as int);
}

/// Slices rounded down one by one are at most the fee they are taken of.
proof fn lemma_slices_within(x: int, p: int, c: int, t: int, tier: int)
    requires
        0 <= x,
        0 <= p,
        0 <= c,
        0 <= t,
        0 <= tier,
        p + c + t <= tier * 10,
    ensures
        slice_of(x, p) + slice_of(x, c) + slice_of(x, t) <= x * tier / FEE_DENOMINATOR as int,
{
    lemma_slice(x, p);
    lemma_slice(x, c);
    lemma_slice(x, t);
    lemma_floor(x * p, BPS as int);
    lemma_floor(x * c, BPS as int);
    lemma_floor(x * t, BPS as int);
    let s = slice_of(x, p) + slice_of(x, c) + slice_of(x, t);
    assert(x * p + x * c + x * t <= x * tier * 10) by (nonlinear_arith)
        requires
            0 <= x,
            p + c + t <= tier * 10,
    ;
    lemma_floor_bounds(x * tier, FEE_DENOMINATOR as int, s);
}

/// After a swap the pool's account still holds at least the recorded reserves,
/// whichever slices moved, as long as the pool routes no more than its tier and
/// neither trader nor recipient is the pool itself.
pub proof fn law_swap_leaves_pool_backed(st: DexState, req: SwapRequest, ctx: SwapContext)
    requires
        swap_error(st, req, ctx) is None,
        req.asset_in != req.asset_out,
        requested_pool(st, req).routing.fits(requested_pool(st, req).fee_tier as int),
        requested_pool(st, req).fee_tier <= 1_000,
        req.who != requested_pool(st, req).pool_account,
        req.recipient != requested_pool(st, req).pool_account,
    ensures
        ({
            let account = requested_pool(st, req).pool_account;
            let effects = swap_effects(st, req, ctx);
            let after = pool_after_swap(st, req, ctx);
            let (held_in, held_out) = (live_in(req, ctx), live_out(req, ctx));
            let (kept_in, kept_out) = if is_flipped(req) {
                (after.reserve_b, after.reserve_a)
            } else {
                (after.reserve_a, after.reserve_b)
            };
            &&& held_in + inflow(effects, req.asset_in, account) >= kept_in
            &&& held_out + inflow(effects, req.asset_out, account) >= kept_out
        }),
{
    lemma_quote_ranges(st, req, ctx);
    let q = quote_of(st, req, ctx);
    let account = requested_pool(st, req).pool_account;
    let native = st.config.native_asset;
    if req.asset_in == native {
        law_routed_within_fee(st, req, ctx);
    }
    lemma_swap_inflow(st, req, ctx, req.asset_in, account);
    lemma_swap_inflow(st, req, ctx, req.asset_out, account);
}

/// What a swap's effects add to an account, spelled out.
pub(crate) proof fn lemma_swap_inflow(
    st: DexState,
    req: SwapRequest,
    ctx: SwapContext,
    asset: AssetKind,
    account: AccountId,
)
    ensures
        ({
            let q = quote_of(st, req, ctx);
            inflow(swap_effects(st, req, ctx), asset, account) == effect_inflow(
                swap_legs(req, q)[0],
                asset,
                account,
            ) + effect_inflow(swap_legs(req, q)[1], asset, account) + (if routes_escrow(
                q,
                ctx,
            ) {
                effect_inflow(
                    super::types::plain_transfer(
                        st.config.native_asset,
                        q.pool_account,
                        fee_escrow(),
                        (q.protocol + q.creator) as u128,
                        crate::primitives::Preservation::Expendable,
                    ),
                    asset,
                    account,
                )
            } else {
                0
            }) + (if routes_vault(q, ctx) {
                effect_inflow(
                    super::types::plain_transfer(
                        st.config.native_asset,
                        q.pool_account,
                        ctx.sink->0,
                        q.treasury,
                        crate::primitives::Preservation::Expendable,
                    ),
                    asset,
                    account,
                )
            } else {
                0
            })
        }),
{
    let q = quote_of(st, req, ctx);
    let legs = swap_legs(req, q);
    let routes = swap_routes(st, req, ctx, q);
    let events = swap_events(req, q);
    lemma_inflow_concat(legs + routes, events, asset, account);
    lemma_inflow_concat(legs, routes, asset, account);
    assert(legs =~= seq![legs[0], legs[1]]);
    lemma_inflow_two(legs[0], legs[1], asset, account);
    assert(inflow(events, asset, account) == 0) by {
        if q.protocol + q.creator + q.treasury > 0 {
            assert(events =~= seq![events[0], events[1], events[2]]);
            lemma_inflow_three(events[0], events[1], events[2], asset, account);
        } else {
            assert(events =~= seq![events[0], events[1]]);
            lemma_inflow_two(events[0], events[1], asset, account);
        }
    }
    let escrow_part = if routes_escrow(q, ctx) {
        seq![routes[0]]
    } else {
        Seq::empty()
    };
    let n = escrow_part.len() as int;
    let vault_part = if routes_vault(q, ctx) {
        seq![routes[n], routes[n + 1]]
    } else {
        Seq::empty()
    };
    assert(routes =~= escrow_part + vault_part);
    lemma_inflow_concat(escrow_part, vault_part, asset, account);
    if routes_escrow(q, ctx) {
        lemma_inflow_one(routes[0], asset, account);
    }
    if routes_vault(q, ctx) {
        lemma_inflow_two(routes[n], routes[n + 1], asset, account);
    }
}

/// A swap brings the fee escrow at least what it adds to the unclaimed totals.
/// The accounts involved are not the escrow itself, and the totals have room.
pub proof fn law_unclaimed_fees_are_backed(st: DexState, req: SwapRequest, ctx: SwapContext)
    requires
        swap_error(st, req, ctx) is None,
        req.who != fee_escrow(),
        requested_pool(st, req).pool_account != fee_escrow(),
        st.protocol_fees_unclaimed + quote_of(st, req, ctx).protocol <= u128::MAX,
        value_or(st.creator_fees_unclaimed, quote_of(st, req, ctx).pair, 0) + quote_of(
            st,
            req,
            ctx,
        ).creator <= u128::MAX,
    ensures
        ({
            let next = swap_next(st, req, ctx);
            let pair = quote_of(st, req, ctx).pair;
            inflow(swap_effects(st, req, ctx), st.config.native_asset, fee_escrow())
                >= next.protocol_fees_unclaimed - st.protocol_fees_unclaimed + value_or(
                next.creator_fees_unclaimed,
                pair,
                0,
            ) - value_or(st.creator_fees_unclaimed, pair, 0)
        }),
{
    lemma_quote_ranges(st, req, ctx);
    lemma_swap_inflow(st, req, ctx, st.config.native_asset, fee_escrow());
}

/// What `shares` redeem for never falls through somebody else's deposit or
/// withdrawal: the reserve per share does not.
pub proof fn law_deposit_keeps_share_value(total: int, reserve_a: int, reserve_b: int, a: int, b: int)
    requires
        0 < total <= u128::MAX,
        0 <= reserve_a <= u128::MAX,
        0 <= reserve_b <= u128::MAX,
        0 <= a <= u128::MAX,
        0 <= b <= u128::MAX,
        deposit_plan(total, reserve_a, reserve_b, a, b) is Ok,
    ensures
        ({
            let d = deposit_plan(total, reserve_a, reserve_b, a, b)->Ok_0;
            &&& (reserve_a + d.amount_a) * total >= reserve_a * (total + d.new_shares)
            &&& (reserve_b + d.amount_b) * total >= reserve_b * (total + d.new_shares)
            &&& d.amount_a <= a && d.amount_b <= b
            &&& d.shares == d.new_shares
        }),
{
    lemma_later_deposit(total, reserve_a, reserve_b, a, b);
    let d = deposit_plan(total, reserve_a, reserve_b, a, b)->Ok_0;
    let (x, y, s) = (d.amount_a as int, d.amount_b as int, d.new_shares as int);
    assert((reserve_a + x) * total >= reserve_a * (total + s)) by (nonlinear_arith)
        requires
            s * reserve_a <= x * total,
    ;
    assert((reserve_b + y) * total >= reserve_b * (total + s)) by (nonlinear_arith)
        requires
            s * reserve_b <= y * total,
    ;
}

/// What a later deposit takes and gives, in inequalities.
pub(crate) proof fn lemma_later_deposit(total: int, reserve_a: int, reserve_b: int, a: int, b: int)
    requires
        0 < total <= u128::MAX,
        0 <= reserve_a <= u128::MAX,
        0 <= reserve_b <= u128::MAX,
        0 <= a <= u128::MAX,
        0 <= b <= u128::MAX,
        deposit_plan(total, reserve_a, reserve_b, a, b) is Ok,
    ensures
        ({
            let d = deposit_plan(total, reserve_a, reserve_b, a, b)->Ok_0;
            &&& d.new_shares * reserve_a <= d.amount_a * total
            &&& d.new_shares * reserve_b <= d.amount_b * total
            &&& d.amount_a <= a && d.amount_b <= b
            &&& d.shares == d.new_shares
        }),
{
    let n = a * reserve_b;
    assert(0 <= n) by (nonlinear_arith)
        requires
            n == a * reserve_b,
            0 <= a,
            0 <= reserve_b,
    ;
    lemma_floor(n, reserve_a);
    let optimal_b = n / reserve_a;
    let m = b * reserve_a;
    assert(0 <= m) by (nonlinear_arith)
        requires
            m == b * reserve_a,
            0 <= b,
            0 <= reserve_a,
    ;
    let (x, y) = if optimal_b <= b {
        (a, optimal_b)
    } else {
        (m / reserve_b, b)
    };
    if optimal_b > b {
        assert(m < a * reserve_b) by (nonlinear_arith)
            requires
                optimal_b * reserve_a <= n,
                b < optimal_b,
                n == a * reserve_b,
                m == b * reserve_a,
                reserve_a > 0,
        ;
        lemma_floor(m, reserve_b);
        lemma_floor_bounds(m, reserve_b, a);
    }
    let sa = x * total / reserve_a;
    let sb = y * total / reserve_b;
    assert(0 <= x * total && 0 <= y * total) by (nonlinear_arith)
        requires
            0 <= x,
            0 <= y,
            0 < total,
    ;
    lemma_floor(x * total, reserve_a);
    lemma_floor(y * total, reserve_b);
    let s = min_int(sa, sb);
    assert(s * reserve_a <= x * total) by (nonlinear_arith)
        requires
            s <= sa,
            sa * reserve_a <= x * total,
            0 < reserve_a,
    ;
    assert(s * reserve_b <= y * total) by (nonlinear_arith)
        requires
            s <= sb,
            sb * reserve_b <= y * total,
            0 < reserve_b,
    ;
}

/// Withdrawing the shares a deposit gave, with nothing in between, never returns
/// more than was put in. A first deposit goes into a pool that holds nothing.
pub proof fn law_deposit_and_withdraw_never_gains(
    total: int,
    reserve_a: int,
    reserve_b: int,
    a: int,
    b: int,
)
    requires
        0 <= total <= u128::MAX,
        0 <= reserve_a <= u128::MAX,
        0 <= reserve_b <= u128::MAX,
        0 <= a <= u128::MAX,
        0 <= b <= u128::MAX,
        total == 0 ==> reserve_a == 0 && reserve_b == 0,
        deposit_plan(total, reserve_a, reserve_b, a, b) is Ok,
    ensures
        ({
            let d = deposit_plan(total, reserve_a, reserve_b, a, b)->Ok_0;
            let after = total + d.new_shares;
            &&& after > 0 ==> share_value(d.shares as int, reserve_a + d.amount_a, after)
                <= d.amount_a
            &&& after > 0 ==> share_value(d.shares as int, reserve_b + d.amount_b, after)
                <= d.amount_b
        }),
{
    let d = deposit_plan(total, reserve_a, reserve_b, a, b)->Ok_0;
    let (x, y, s, n) = (
        d.amount_a as int,
        d.amount_b as int,
        d.shares as int,
        d.new_shares as int,
    );
    let after = total + n;
    if after > 0 {
        if total == 0 {
            lemma_first_deposit(a, b);
        } else {
            lemma_later_deposit(total, reserve_a, reserve_b, a, b);
        }
        assert(s * (reserve_a + x) <= x * after) by (nonlinear_arith)
            requires
                s * reserve_a <= x * total,
                s <= n,
                0 <= x,
                after == total + n,
        ;
        assert(s * (reserve_b + y) <= y * after) by (nonlinear_arith)
            requires
                s * reserve_b <= y * total,
                s <= n,
                0 <= y,
                after == total + n,
        ;
        lemma_floor_bounds(s * (reserve_a + x), after, x);
        lemma_floor_bounds(s * (reserve_b + y), after, y);
    }
}

/// The shares of a first deposit.
proof fn lemma_first_deposit(a: int, b: int)
    requires
        0 <= a <= u128::MAX,
        0 <= b <= u128::MAX,
        deposit_plan(0, 0, 0, a, b) is Ok,
    ensures
        ({
            let d = deposit_plan(0, 0, 0, a, b)->Ok_0;
            &&& d.amount_a == a && d.amount_b == b
            &&& d.new_shares == sqrt_floor(a * b) && d.shares == d.new_shares - MINIMUM_LIQUIDITY
            &&& d.shares * 0 <= a * 0 && d.shares * 0 <= b * 0
        }),
{
    lemma_sqrt_exists(a, b);
    let d = deposit_plan(0, 0, 0, a, b)->Ok_0;
    assert(d.shares * 0 == 0 && a * 0 == 0 && b * 0 == 0);
}

/// The square root of a product of two balances is a balance.
pub(crate) proof fn lemma_sqrt_exists(a: int, b: int)
    requires
        0 <= a <= u128::MAX,
        0 <= b <= u128::MAX,
    ensures
        is_sqrt(sqrt_floor(a * b), a * b),
        0 <= sqrt_floor(a * b) <= u128::MAX,
{
    assert(0 <= a * b) by (nonlinear_arith)
        requires
            0 <= a,
            0 <= b,
    ;
    lemma_some_sqrt(a * b);
    let r = sqrt_floor(a * b);
    assert(r <= u128::MAX) by (nonlinear_arith)
        requires
            r * r <= a * b,
            0 <= a <= u128::MAX,
            0 <= b <= u128::MAX,
            0 <= r,
    ;
}

/// Every number that is not negative has a rounded square root.
proof fn lemma_some_sqrt(p: int)
    requires
        0 <= p,
    ensures
        exists|r: int| is_sqrt(r, p),
    decreases p,
{
    if p == 0 {
        assert(is_sqrt(0, 0));
    } else {
        let m = p - 1;
        lemma_some_sqrt(m);
        let r = choose|r: int| is_sqrt(r, m);
        if p < (r + 1) * (r + 1) {
            assert(is_sqrt(r, p));
        } else {
            assert(p < (r + 2) * (r + 2)) by (nonlinear_arith)
                requires
                    p - 1 < (r + 1) * (r + 1),
                    0 <= r,
            ;
            assert(is_sqrt(r + 1, p));
        }
    }
}

/// A withdrawal never lowers what the shares that stay are worth.
pub proof fn law_withdrawal_keeps_share_value(shares: int, reserve: int, total: int)
    requires
        0 <= shares <= total,
        0 < total,
        0 <= reserve,
    ensures
        0 <= share_value(shares, reserve, total) <= reserve,
        (reserve - share_value(shares, reserve, total)) * total >= reserve * (total - shares),
{
    let n = shares * reserve;
    assert(0 <= n && n <= reserve * total) by (nonlinear_arith)
        requires
            n == shares * reserve,
            0 <= shares <= total,
            0 <= reserve,
    ;
    lemma_floor(n, total);
    lemma_floor_bounds(n, total, reserve);
    let v = n / total;
    assert((reserve - v) * total >= reserve * (total - shares)) by (nonlinear_arith)
        requires
            v * total <= n,
            n == shares * reserve,
    ;
}

/// A position's part of a pair's shares.
pub open spec fn pair_shares(pair: AssetPair) -> spec_fn((AccountId, AssetPair), Position) -> int {
    |key: (AccountId, AssetPair), p: Position|
        if key.1 == pair {
            p.shares as int
        } else {
            0
        }
}

/// A pair's positions account for its shares: all of them, but for the minimum
/// liquidity nobody owns once there are any.
pub open spec fn shares_add_up(st: DexState, pair: AssetPair) -> bool {
    let total = value_or(st.total_liquidity, pair, 0);
    let owned = sum_map(st.liquidity_positions, pair_shares(pair));
    &&& st.liquidity_positions.dom().finite()
    &&& total == 0 ==> owned == 0
    &&& total > 0 ==> total == owned + MINIMUM_LIQUIDITY
}

/// No position is worth more than its pair's shares.
proof fn lemma_position_bound(st: DexState, who: AccountId, pair: AssetPair)
    requires
        shares_add_up(st, pair),
        st.liquidity_positions.dom().contains((who, pair)),
    ensures
        st.liquidity_positions[(who, pair)].shares <= sum_map(
            st.liquidity_positions,
            pair_shares(pair),
        ),
{
    let m = st.liquidity_positions;
    let f = pair_shares(pair);
    assert forall|k: (AccountId, AssetPair)| m.dom().contains(k) implies #[trigger] f(k, m[k])
        >= 0 by {}
    lemma_sum_bounds(m, f);
    assert(f((who, pair), m[(who, pair)]) == m[(who, pair)].shares);
}

/// A deposit keeps every pair's positions accounting for its shares.
pub proof fn law_deposit_keeps_shares(
    st: DexState,
    req: DepositRequest,
    held_a: Balance,
    held_b: Balance,
    now: BlockNumber,
    pair: AssetPair,
)
    requires
        shares_add_up(st, pair),
        shares_add_up(st, canonical(req.asset_a, req.asset_b)),
        deposit_error(st, req, held_a, held_b) is None,
    ensures
        shares_add_up(deposit_next(st, req, held_a, held_b, now), pair),
{
    let at = canonical(req.asset_a, req.asset_b);
    let key = (req.who, at);
    let next = deposit_next(st, req, held_a, held_b, now);
    let position = next.liquidity_positions[key];
    let (a, b) = super::liquidity::in_pair_order(
        req.asset_a,
        req.asset_b,
        req.amount_a,
        req.amount_b,
    );
    lemma_sum_insert(st.liquidity_positions, key, position, pair_shares(pair));
    let total = value_or(st.total_liquidity, at, 0);
    if total == 0 {
        lemma_sqrt_exists(a as int, b as int);
        if st.liquidity_positions.dom().contains(key) {
            lemma_position_bound(st, req.who, at);
        }
    }
}

/// A withdrawal keeps every pair's positions accounting for its shares. The
/// minimum liquidity stays behind.
pub proof fn law_withdrawal_keeps_shares(
    st: DexState,
    req: WithdrawalRequest,
    held_a: Balance,
    held_b: Balance,
    now: BlockNumber,
    pair: AssetPair,
)
    requires
        shares_add_up(st, pair),
        shares_add_up(st, canonical(req.asset_a, req.asset_b)),
        withdrawal_error(st, req, held_a, held_b, now) is None,
    ensures
        shares_add_up(withdrawal_next(st, req, held_a, held_b), pair),
        withdrawal_next(st, req, held_a, held_b).total_liquidity[canonical(
            req.asset_a,
            req.asset_b,
        )] >= MINIMUM_LIQUIDITY,
{
    let at = canonical(req.asset_a, req.asset_b);
    let key = (req.who, at);
    let next = withdrawal_next(st, req, held_a, held_b);
    let position = st.liquidity_positions[key];
    lemma_position_bound(st, req.who, at);
    if position.shares == req.shares {
        lemma_sum_remove(st.liquidity_positions, key, pair_shares(pair));
    } else {
        lemma_sum_insert(
            st.liquidity_positions,
            key,
            next.liquidity_positions[key],
            pair_shares(pair),
        );
    }
}

/// A seed keeps every pair's positions accounting for its shares, where only
/// pools have shares.
pub proof fn law_seed_keeps_shares(
    st: DexState,
    req: SeedRequest,
    now: BlockNumber,
    pair: AssetPair,
)
    requires
        shares_add_up(st, pair),
        shares_add_up(st, seed_pair(req)),
        seed_error(st, req) is None,
        !st.pools.dom().contains(seed_pair(req)) ==> value_or(
            st.total_liquidity,
            seed_pair(req),
            0,
        ) == 0,
    ensures
        shares_add_up(seed_next(st, req, now), pair),
{
    let at = seed_pair(req);
    let key = (req.who, at);
    let next = seed_next(st, req, now);
    lemma_sqrt_exists(seed_amounts(req).0 as int, seed_amounts(req).1 as int);
    lemma_sum_insert(
        st.liquidity_positions,
        key,
        next.liquidity_positions[key],
        pair_shares(pair),
    );
    if st.liquidity_positions.dom().contains(key) {
        lemma_position_bound(st, req.who, at);
    }
}

/// A new pool keeps every pair's positions accounting for its shares, where only
/// pools have shares.
pub proof fn law_create_keeps_shares(
    st: DexState,
    asset_a: AssetKind,
    asset_b: AssetKind,
    fee_tier: u32,
    pair: AssetPair,
)
    requires
        shares_add_up(st, pair),
        create_error(st, asset_a, asset_b, fee_tier) is None,
        value_or(st.total_liquidity, canonical(asset_a, asset_b), 0) == 0,
    ensures
        shares_add_up(
            with_empty_pool(
                st,
                canonical(asset_a, asset_b),
                fee_tier,
                new_routing(st, canonical(asset_a, asset_b), fee_tier, false),
            ),
            pair,
        ),
{
}

/// A withdrawal within accounted shares is never refused for want of reserves or
/// by arithmetic: only for the reasons a provider can see.
pub proof fn law_withdrawal_errors_are_visible(
    st: DexState,
    req: WithdrawalRequest,
    held_a: Balance,
    held_b: Balance,
    now: BlockNumber,
)
    requires
        shares_add_up(st, canonical(req.asset_a, req.asset_b)),
    ensures
        withdrawal_error(st, req, held_a, held_b, now) != Some(Error::Overflow),
        withdrawal_error(st, req, held_a, held_b, now) == Some(Error::InsufficientLiquidity) ==>
            st.total_liquidity[canonical(req.asset_a, req.asset_b)] == 0,
{
    let at = canonical(req.asset_a, req.asset_b);
    let key = (req.who, at);
    if st.total_liquidity.dom().contains(at) && st.total_liquidity[at] > 0
        && st.liquidity_positions.dom().contains(key) && st.liquidity_positions[key].shares
        >= req.shares {
        lemma_position_bound(st, req.who, at);
        law_withdrawal_keeps_share_value(
            req.shares as int,
            held_a as int,
            st.total_liquidity[at] as int,
        );
        law_withdrawal_keeps_share_value(
            req.shares as int,
            held_b as int,
            st.total_liquidity[at] as int,
        );
    }
}

/// A lock is only ever extended, and one without an end holds at every block
/// before the last: nothing can be withdrawn under it, and a deposit leaves it
/// standing.
pub proof fn law_lock_is_monotone(
    st: DexState,
    who: AccountId,
    pair: AssetPair,
    lock_until: BlockNumber,
)
    requires
        lock_error(st, who, pair, lock_until) is None,
    ensures
        lock_next(st, who, pair, lock_until).liquidity_positions[(who, pair)].locked_until == Some(
            lock_until,
        ),
        st.liquidity_positions[(who, pair)].locked_until matches Some(before) ==> before
            <= lock_until,
        st.liquidity_positions[(who, pair)].locked_until == Some(u64::MAX) ==> lock_until
            == u64::MAX,
{
}

/// Nothing leaves a position that is locked for good.
pub proof fn law_locked_for_good(
    st: DexState,
    who: AccountId,
    pair: AssetPair,
    deposit: DepositRequest,
    withdrawal: WithdrawalRequest,
    held_a: Balance,
    held_b: Balance,
    now: BlockNumber,
)
    requires
        st.liquidity_positions.dom().contains((who, pair)),
        st.liquidity_positions[(who, pair)].locked_until == Some(u64::MAX),
        now < u64::MAX,
    ensures
        withdrawal.who == who && canonical(withdrawal.asset_a, withdrawal.asset_b) == pair ==>
            withdrawal_error(st, withdrawal, held_a, held_b, now) is Some,
        deposit_error(st, deposit, held_a, held_b) is None ==> {
            let after = deposit_next(st, deposit, held_a, held_b, now);
            &&& after.liquidity_positions.dom().contains((who, pair))
            &&& after.liquidity_positions[(who, pair)].locked_until == Some(u64::MAX)
            &&& after.liquidity_positions[(who, pair)].shares
                >= st.liquidity_positions[(who, pair)].shares
        },
        withdrawal_error(st, withdrawal, held_a, held_b, now) is None ==> {
            let after = withdrawal_next(st, withdrawal, held_a, held_b);
            &&& after.liquidity_positions.dom().contains((who, pair))
            &&& after.liquidity_positions[(who, pair)] == st.liquidity_positions[(who, pair)]
        },
{
}

/// A seed leaves its funder's position locked for good.
pub proof fn law_seed_locks_for_good(st: DexState, req: SeedRequest, now: BlockNumber)
    requires
        seed_error(st, req) is None,
    ensures
        seed_next(st, req, now).liquidity_positions[(req.who, seed_pair(req))].locked_until == Some(
            u64::MAX,
        ),
        seed_next(st, req, now).pools[seed_pair(req)].reserve_a == seed_amounts(req).0,
        seed_next(st, req, now).pools[seed_pair(req)].reserve_b == seed_amounts(req).1,
{
}

/// A reserved asset gets a pool by a seed and in no other way.
pub proof fn law_reserved_only_by_seed(
    st: DexState,
    asset_a: AssetKind,
    asset_b: AssetKind,
    fee_tier: u32,
    seed: SeedRequest,
)
    ensures
        st.config.reserves(asset_a) || st.config.reserves(asset_b) ==> create_error(
            st,
            asset_a,
            asset_b,
            fee_tier,
        ) == Some(Error::ReservedAsset),
        seed_error(st, seed) is None ==> st.config.reserves(seed.asset) && !st.config.reserves(
            seed.quote,
        ),
{
}

/// A pool keeps the tier, the account and the split it was made with, through
/// every operation that writes its record.
pub proof fn law_pool_terms_are_fixed(
    st: DexState,
    swap: SwapRequest,
    ctx: SwapContext,
    deposit: DepositRequest,
    withdrawal: WithdrawalRequest,
    seed: SeedRequest,
    held_a: Balance,
    held_b: Balance,
    now: BlockNumber,
    pair: AssetPair,
)
    requires
        st.pools.dom().contains(pair),
    ensures
        swap_error(st, swap, ctx) is None ==> same_terms(
            swap_next(st, swap, ctx).pools[pair],
            st.pools[pair],
        ),
        deposit_error(st, deposit, held_a, held_b) is None ==> same_terms(
            deposit_next(st, deposit, held_a, held_b, now).pools[pair],
            st.pools[pair],
        ),
        withdrawal_error(st, withdrawal, held_a, held_b, now) is None ==> same_terms(
            withdrawal_next(st, withdrawal, held_a, held_b).pools[pair],
            st.pools[pair],
        ),
        seed_error(st, seed) is None ==> same_terms(
            seed_next(st, seed, now).pools[pair],
            st.pools[pair],
        ),
{
}

/// Two records of one pool.
pub open spec fn same_terms(a: Pool, b: Pool) -> bool {
    a.fee_tier == b.fee_tier && a.pool_account == b.pool_account && a.routing == b.routing
}

/// A pool that comes into existence is made with a split its tier can carry.
pub proof fn law_new_pools_fit(
    st: DexState,
    asset_a: AssetKind,
    asset_b: AssetKind,
    fee_tier: u32,
    seed: SeedRequest,
    now: BlockNumber,
)
    ensures
        create_error(st, asset_a, asset_b, fee_tier) is None ==> {
            let pair = canonical(asset_a, asset_b);
            let routing = new_routing(st, pair, fee_tier, false);
            &&& with_empty_pool(st, pair, fee_tier, routing).pools[pair].routing.valid_for(
                fee_tier as int,
            )
            &&& routing.creator_bps == 0 && routing.treasury_bps == 0
        },
        seed_error(st, seed) is None && !st.pools.dom().contains(seed_pair(seed)) ==> seed_next(
            st,
            seed,
            now,
        ).pools[seed_pair(seed)].routing.valid_for(seed.fee_tier as int),
{
}

} // verus!
