//! What a swap gives, and where its fee goes.

use super::flows::inflow;
use super::pool_laws::lemma_swap_inflow;
use super::pool_manager::{house_request, trade_request};
use super::state::{fee_escrow, DexState, Pool};
use super::swap::{
    lemma_quote_ranges, quote_error, quote_of, swap_effects, swap_error, swap_next, SwapContext,
    SwapRequest,
};
use crate::accounts::canonical;
use crate::arith::{is_largest, lemma_floor, lemma_floor_is, max_int, min_int};
use crate::primitives::{AccountId, AssetKind, Balance, Preservation};
use vstd::prelude::*;

verus! {

/// What the pool's account holds of the asset going in and of the one coming out.
pub open spec fn live_sides(req: SwapRequest, ctx: SwapContext) -> (int, int) {
    if canonical(req.asset_in, req.asset_out).0 == req.asset_in {
        (ctx.held_a as int, ctx.held_b as int)
    } else {
        (ctx.held_b as int, ctx.held_a as int)
    }
}

/// The fee on the input of a swap is the most that the pool's tier allows, in tenths
/// of a percent; where the native asset comes out and part of the tier is routed, only
/// the rest of the tier is taken of the input.
pub proof fn law_fee_is_the_tiers(st: DexState, req: SwapRequest, ctx: SwapContext)
    requires
        quote_error(st, req, ctx) is None,
        st.pools[canonical(req.asset_in, req.asset_out)].fee_tier <= 1_000,
    ensures
        ({
            let pool = st.pools[canonical(req.asset_in, req.asset_out)];
            let r = pool.routing;
            let routed = r.protocol_bps + r.creator_bps + r.treasury_bps;
            let q = quote_of(st, req, ctx);
            &&& if req.asset_out == st.config.native_asset && routed > 0 {
                is_largest(
                    q.fee as int,
                    req.amount_in * max_int(pool.fee_tier * 10 - routed, 0),
                    10_000,
                )
            } else {
                is_largest(q.fee as int, req.amount_in * pool.fee_tier, 1_000)
            }
            &&& q.net_in + q.fee == req.amount_in
        }),
{
    let pool = st.pools[canonical(req.asset_in, req.asset_out)];
    let r = pool.routing;
    let routed = r.protocol_bps + r.creator_bps + r.treasury_bps;
    lemma_quote_ranges(st, req, ctx);
    let rest = max_int(pool.fee_tier * 10 - routed, 0);
    assert(0 <= req.amount_in * rest) by (nonlinear_arith)
        requires
            0 <= rest,
    ;
    assert(0 <= req.amount_in * pool.fee_tier) by (nonlinear_arith);
    lemma_floor(req.amount_in * rest, 10_000);
    lemma_floor(req.amount_in * pool.fee_tier, 1_000);
}

/// Out of the pool comes the most that keeps the product of its sides, once the input
/// is in it without the fee: one unit more would break it.
pub proof fn law_output_is_the_most_the_product_allows(
    st: DexState,
    req: SwapRequest,
    ctx: SwapContext,
)
    requires
        quote_error(st, req, ctx) is None,
    ensures
        ({
            let (held_in, held_out) = live_sides(req, ctx);
            let q = quote_of(st, req, ctx);
            let after = held_in + q.net_in;
            &&& after * (held_out - q.gross_out) >= held_in * held_out
            &&& after * (held_out - q.gross_out - 1) < held_in * held_out
            &&& 0 <= q.gross_out < held_out
        }),
{
    lemma_quote_ranges(st, req, ctx);
    let (i, o) = live_sides(req, ctx);
    let q = quote_of(st, req, ctx);
    let net = q.net_in as int;
    let g = q.gross_out as int;
    assert(0 <= o * net) by (nonlinear_arith)
        requires
            0 <= o,
            0 <= net,
    ;
    lemma_floor(o * net, i + net);
    assert((i + net) * (o - g) == i * o + o * net - g * (i + net)) by (nonlinear_arith);
    assert((i + net) * (o - g - 1) == i * o + o * net - (g + 1) * (i + net)) by (nonlinear_arith);
    assert(g < o) by (nonlinear_arith)
        requires
            g * (i + net) <= o * net,
            0 < i,
            0 < o,
            0 <= net,
            0 <= g,
    ;
}

/// The routed slices are the most that each share of the split allows, of the native
/// side of the swap: of the input where that is native, else of the gross output.
/// Without a native side nothing is routed. The treasury's slice goes to the protocol
/// where the asset has no sink. What is routed of the output does not reach the
/// recipient.
pub proof fn law_slices_follow_the_split(
    st: DexState,
    req: SwapRequest,
    ctx: SwapContext,
    p: int,
    t: int,
)
    requires
        quote_error(st, req, ctx) is None,
    ensures
        ({
            let native = st.config.native_asset;
            let r = st.pools[canonical(req.asset_in, req.asset_out)].routing;
            let q = quote_of(st, req, ctx);
            let base = if req.asset_in == native {
                req.amount_in as int
            } else {
                q.gross_out as int
            };
            let routed = q.protocol + q.creator + q.treasury;
            if req.asset_in == native || req.asset_out == native {
                &&& is_largest(q.creator as int, base * r.creator_bps, 10_000)
                &&& ctx.sink is Some ==> is_largest(
                    q.protocol as int,
                    base * r.protocol_bps,
                    10_000,
                ) && is_largest(q.treasury as int, base * r.treasury_bps, 10_000)
                &&& ctx.sink is None ==> q.treasury == 0
                &&& ctx.sink is None && is_largest(p, base * r.protocol_bps, 10_000) && is_largest(
                    t,
                    base * r.treasury_bps,
                    10_000,
                ) ==> q.protocol == p + t
                &&& q.amount_out == if req.asset_out == native {
                    q.gross_out - routed
                } else {
                    q.gross_out as int
                }
            } else {
                routed == 0 && q.amount_out == q.gross_out
            }
        }),
{
    lemma_quote_ranges(st, req, ctx);
    let native = st.config.native_asset;
    let r = st.pools[canonical(req.asset_in, req.asset_out)].routing;
    let q = quote_of(st, req, ctx);
    let base = if req.asset_in == native {
        req.amount_in as int
    } else {
        q.gross_out as int
    };
    let (bp, bc, bt) = (
        base * r.protocol_bps,
        base * r.creator_bps,
        base * r.treasury_bps,
    );
    assert(0 <= bp && 0 <= bc && 0 <= bt) by (nonlinear_arith)
        requires
            0 <= base,
            bp == base * r.protocol_bps,
            bc == base * r.creator_bps,
            bt == base * r.treasury_bps,
    ;
    lemma_floor(bp, 10_000);
    lemma_floor(bc, 10_000);
    lemma_floor(bt, 10_000);
    if req.asset_in == native || req.asset_out == native {
        if is_largest(p, bp, 10_000) && is_largest(t, bt, 10_000) {
            lemma_floor_is(bp, 10_000, p);
            lemma_floor_is(bt, 10_000, t);
        }
    } else {
        assert(q.gross_out * 0 / 10_000 == 0) by (nonlinear_arith);
    }
}

/// What a swap moves. The trader pays the input and the recipient gets the output, and
/// the pool's account pays for every slice that leaves it. The protocol's and the
/// creator's slices go to the fee escrow, and the treasury's to its sink, unless they
/// are too small to open an account that is not there. (The accounts are different
/// ones, and so are the assets.)
pub proof fn law_swap_moves_what_it_quotes(st: DexState, req: SwapRequest, ctx: SwapContext)
    requires
        swap_error(st, req, ctx) is None,
        req.asset_in != req.asset_out,
        ({
            let pool = quote_of(st, req, ctx).pool_account;
            &&& req.who != pool && req.recipient != pool && fee_escrow() != pool
            &&& req.who != fee_escrow() && req.recipient != fee_escrow()
            &&& ctx.sink matches Some(v) ==> v != pool && v != fee_escrow() && v != req.who && v
                != req.recipient
        }),
    ensures
        ({
            let q = quote_of(st, req, ctx);
            let native = st.config.native_asset;
            let e = swap_effects(st, req, ctx);
            let escrowed = q.protocol + q.creator;
            let to_escrow = if escrowed > 0 && (escrowed >= ctx.existential_deposit
                || ctx.escrow_exists) {
                escrowed
            } else {
                0
            };
            let to_sink = if ctx.sink is Some && q.treasury > 0 && (q.treasury
                >= ctx.existential_deposit || ctx.vault_exists) {
                q.treasury as int
            } else {
                0
            };
            &&& q.pool_account == st.pools[canonical(req.asset_in, req.asset_out)].pool_account
            &&& inflow(e, req.asset_in, req.who) == -req.amount_in
            &&& inflow(e, req.asset_out, req.recipient) == q.amount_out
            &&& inflow(e, native, fee_escrow()) == to_escrow
            &&& ctx.sink matches Some(v) ==> inflow(e, native, v) == to_sink
            &&& inflow(e, req.asset_in, q.pool_account) == req.amount_in - if req.asset_in
                == native {
                to_escrow + to_sink
            } else {
                0
            }
            &&& inflow(e, req.asset_out, q.pool_account) == -q.amount_out - if req.asset_out
                == native {
                to_escrow + to_sink
            } else {
                0
            }
            &&& q.input == if req.asset_in == native {
                req.input
            } else {
                Preservation::Expendable
            }
        }),
{
    lemma_quote_ranges(st, req, ctx);
    let q = quote_of(st, req, ctx);
    let native = st.config.native_asset;
    lemma_swap_inflow(st, req, ctx, req.asset_in, req.who);
    lemma_swap_inflow(st, req, ctx, req.asset_out, req.recipient);
    lemma_swap_inflow(st, req, ctx, native, fee_escrow());
    lemma_swap_inflow(st, req, ctx, req.asset_in, q.pool_account);
    lemma_swap_inflow(st, req, ctx, req.asset_out, q.pool_account);
    if let Some(v) = ctx.sink {
        lemma_swap_inflow(st, req, ctx, native, v);
    }
}

/// What a swap remembers. The reserves move by the input without the fee and by the
/// whole output, the fee is counted, and a person's swap is the pool's last one. What
/// went to the fee escrow is owed to the protocol and to the pool's creator; a slice
/// that did not go there is owed to nobody. Nothing else changes.
pub proof fn law_swap_remembers_what_it_moved(st: DexState, req: SwapRequest, ctx: SwapContext)
    requires
        swap_error(st, req, ctx) is None,
    ensures
        ({
            let pair = canonical(req.asset_in, req.asset_out);
            let (held_in, held_out) = live_sides(req, ctx);
            let q = quote_of(st, req, ctx);
            let next = swap_next(st, req, ctx);
            let (before, after) = (st.pools[pair], next.pools[pair]);
            let escrowed = q.protocol + q.creator;
            let routed = escrowed > 0 && (escrowed >= ctx.existential_deposit
                || ctx.escrow_exists);
            let accrued = if st.creator_fees_unclaimed.dom().contains(pair) {
                st.creator_fees_unclaimed[pair] as int
            } else {
                0
            };
            &&& if pair.0 == req.asset_in {
                after.reserve_a == held_in + q.net_in && after.reserve_b == held_out - q.gross_out
            } else {
                after.reserve_b == held_in + q.net_in && after.reserve_a == held_out - q.gross_out
            }
            &&& after == (Pool {
                reserve_a: after.reserve_a,
                reserve_b: after.reserve_b,
                total_fees_collected: (before.total_fees_collected + q.fee) as u128,
                ..before
            })
            &&& before.total_fees_collected + q.fee <= u128::MAX
            &&& next.pools.remove(pair) == st.pools.remove(pair)
            &&& next.last_swap_block == if req.is_trade {
                st.last_swap_block.insert(pair, ctx.now)
            } else {
                st.last_swap_block
            }
            &&& next.creator_fees_unclaimed.remove(pair) == st.creator_fees_unclaimed.remove(pair)
            &&& routed ==> next.protocol_fees_unclaimed == min_int(
                st.protocol_fees_unclaimed + q.protocol,
                u128::MAX as int,
            )
            &&& routed && q.creator > 0 ==> next.creator_fees_unclaimed.dom().contains(pair)
                && next.creator_fees_unclaimed[pair] == min_int(
                accrued + q.creator,
                u128::MAX as int,
            )
            &&& !routed ==> next.protocol_fees_unclaimed == st.protocol_fees_unclaimed
            &&& !routed || q.creator == 0 ==> next.creator_fees_unclaimed
                == st.creator_fees_unclaimed
            &&& next == (DexState {
                pools: next.pools,
                last_swap_block: next.last_swap_block,
                protocol_fees_unclaimed: next.protocol_fees_unclaimed,
                creator_fees_unclaimed: next.creator_fees_unclaimed,
                ..st
            })
        }),
{
    lemma_quote_ranges(st, req, ctx);
    let pair = canonical(req.asset_in, req.asset_out);
    let next = swap_next(st, req, ctx);
    assert(next.pools.remove(pair) =~= st.pools.remove(pair));
    assert(next.creator_fees_unclaimed.remove(pair) =~= st.creator_fees_unclaimed.remove(pair));
}

/// A swap is never made for less than the trader asked for, nor for nothing.
pub proof fn law_swap_keeps_the_minimum(st: DexState, req: SwapRequest, ctx: SwapContext)
    ensures
        quote_error(st, req, ctx) is None ==> {
            let q = quote_of(st, req, ctx);
            q.amount_out > 0 && q.amount_out >= req.amount_out_min
        },
        swap_error(st, req, ctx) is None ==> quote_error(st, req, ctx) is None,
{
    if quote_error(st, req, ctx) is None {
        lemma_quote_ranges(st, req, ctx);
    }
}

/// A swap is owed wherever its pool exists and holds both assets, and `out` is what the
/// fee, the product and the split leave of the input, is something, and meets the
/// minimum, as long as every sum fits in `u128`.
pub proof fn law_swap_is_owed(
    st: DexState,
    req: SwapRequest,
    ctx: SwapContext,
    fee: int,
    gross: int,
    p: int,
    c: int,
    t: int,
)
    requires
        req.amount_in > 0,
        ctx.held_a > 0 && ctx.held_b > 0,
        st.pools.dom().contains(canonical(req.asset_in, req.asset_out)),
        ({
            let pool = st.pools[canonical(req.asset_in, req.asset_out)];
            let r = pool.routing;
            let routed = r.protocol_bps + r.creator_bps + r.treasury_bps;
            let (held_in, held_out) = live_sides(req, ctx);
            let native = st.config.native_asset;
            let (native_in, native_out) = (req.asset_in == native, req.asset_out == native);
            let net = req.amount_in - fee;
            let base = if native_in {
                req.amount_in as int
            } else {
                gross
            };
            let out = if native_out {
                gross - (p + c + t)
            } else {
                gross
            };
            &&& pool.fee_tier <= 1_000 && routed <= pool.fee_tier * 10
            &&& if native_out && routed > 0 {
                is_largest(fee, req.amount_in * (pool.fee_tier * 10 - routed), 10_000)
            } else {
                is_largest(fee, req.amount_in * pool.fee_tier, 1_000)
            }
            &&& is_largest(gross, held_out * net, held_in + net)
            &&& if native_in || native_out {
                &&& is_largest(p, base * r.protocol_bps, 10_000)
                &&& is_largest(c, base * r.creator_bps, 10_000)
                &&& is_largest(t, base * r.treasury_bps, 10_000)
            } else {
                p == 0 && c == 0 && t == 0
            }
            &&& out > 0 && out >= req.amount_out_min
            &&& held_in + net <= u128::MAX
            &&& p + c + t <= u128::MAX
            &&& pool.total_fees_collected + fee <= u128::MAX
        }),
    ensures
        swap_error(st, req, ctx) is None,
        quote_of(st, req, ctx).fee == fee,
        quote_of(st, req, ctx).gross_out == gross,
{
    let pool = st.pools[canonical(req.asset_in, req.asset_out)];
    let r = pool.routing;
    let routed = r.protocol_bps + r.creator_bps + r.treasury_bps;
    let (held_in, held_out) = live_sides(req, ctx);
    let native = st.config.native_asset;
    let (native_in, native_out) = (req.asset_in == native, req.asset_out == native);
    let net = req.amount_in - fee;
    let base = if native_in {
        req.amount_in as int
    } else {
        gross
    };
    if native_out && routed > 0 {
        lemma_floor_is(req.amount_in * (pool.fee_tier * 10 - routed), 10_000, fee);
        assert(fee <= req.amount_in) by (nonlinear_arith)
            requires
                fee * 10_000 <= req.amount_in * (pool.fee_tier * 10 - routed),
                0 <= pool.fee_tier * 10 - routed <= 10_000,
        ;
    } else {
        lemma_floor_is(req.amount_in * pool.fee_tier, 1_000, fee);
        assert(fee <= req.amount_in) by (nonlinear_arith)
            requires
                fee * 1_000 <= req.amount_in * pool.fee_tier,
                0 <= pool.fee_tier <= 1_000,
        ;
    }
    lemma_floor_is(held_out * net, held_in + net, gross);
    assert(gross <= held_out) by (nonlinear_arith)
        requires
            gross * (held_in + net) <= held_out * net,
            0 < held_in,
            0 <= net,
            0 <= gross,
            0 < held_out,
    ;
    if native_in || native_out {
        lemma_floor_is(base * r.protocol_bps, 10_000, p);
        lemma_floor_is(base * r.creator_bps, 10_000, c);
        lemma_floor_is(base * r.treasury_bps, 10_000, t);
    } else {
        assert(gross * 0 / 10_000 == 0) by (nonlinear_arith);
    }
}

/// A person's swap is asked for as it stands, keeps the person's account alive and
/// counts as a trade. A swap of the house delivers to whoever pays and does not.
pub proof fn law_requests_are_passed_on(
    who: AccountId,
    asset_in: AssetKind,
    asset_out: AssetKind,
    amount_in: Balance,
    amount_out_min: Balance,
    recipient: AccountId,
)
    ensures
        trade_request(who, asset_in, asset_out, amount_in, amount_out_min, recipient) == (
        SwapRequest {
            who,
            asset_in,
            asset_out,
            amount_in,
            amount_out_min,
            recipient,
            is_trade: true,
            input: Preservation::Preserve,
        }),
        house_request(who, asset_in, asset_out, amount_in, amount_out_min) == (SwapRequest {
            who,
            asset_in,
            asset_out,
            amount_in,
            amount_out_min,
            recipient: who,
            is_trade: false,
            input: Preservation::Preserve,
        }),
{
}

} // verus!
