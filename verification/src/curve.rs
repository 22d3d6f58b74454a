//! Constant-product bonding-curve pricing.
//!
//! Pure functions over `u128` state with [`U256`] intermediates. Every division
//! rounds in the curve's favour:
//!
//! * fees round up (the trader pays more);
//! * tokens out of the curve round down;
//! * quote out of the curve rounds down;
//! * on a crossing buy the quote needed for the last tokens rounds up.
//!
//! With `Q = virtual_quote + real_quote` and
//! `Tk = token_floor + tokens_remaining`, the product `k = Q * Tk` therefore
//! never decreases across a trade: see [`law_buy_keeps_k`] and
//! [`law_sell_keeps_k`].

use crate::arith::{
    ceil_div, is_least, lemma_ceil, lemma_ceil_bounds, lemma_ceil_monotone, lemma_product_fits, max_int,
};
use crate::wide::U256;
use vstd::prelude::*;

verus! {

/// Basis-point denominator.
pub const BPS: u128 = 10_000;

/// Largest quote input accepted by a single trade. Keeps `q_in * fee_bps`
/// inside `u128` with a wide margin and is never binding in practice.
pub const MAX_TRADE_IN: u128 = 10_000_000_000_000_000_000_000_000_000_000_000;

/// Snapshot of a launch's pricing terms.
#[derive(Clone, Copy, Debug, PartialEq, Eq, Structural)]
pub struct Terms {
    /// Virtual quote reserve.
    pub virtual_quote: u128,
    /// Virtual token reserve left when the curve sells out.
    pub token_floor: u128,
    /// Trading fee on the quote leg, in basis points.
    pub fee_bps: u128,
}

/// Mutable curve state the pricing reads.
#[derive(Clone, Copy, Debug, PartialEq, Eq, Structural)]
pub struct State {
    pub real_quote: u128,
    pub tokens_remaining: u128,
}

#[derive(Clone, Copy, Debug, PartialEq, Eq, Structural)]
pub struct BuyQuote {
    /// Tokens delivered to the buyer.
    pub tokens_out: u128,
    /// Quote taken from the buyer, gross (net + fee).
    pub quote_used: u128,
    /// Quote absorbed by the curve (`real_quote += quote_net_used`).
    pub quote_net_used: u128,
    /// Fee, on top of `quote_net_used`.
    pub fee: u128,
    /// True when this buy exhausted the sellable allocation.
    pub crossed: bool,
}

#[derive(Clone, Copy, Debug, PartialEq, Eq, Structural)]
pub struct SellQuote {
    /// Quote leaving the curve (`real_quote -= quote_gross`).
    pub quote_gross: u128,
    /// Fee taken out of `quote_gross`.
    pub fee: u128,
    /// Quote paid to the seller (`quote_gross - fee`).
    pub quote_out: u128,
}

#[derive(Clone, Copy, Debug, PartialEq, Eq, Structural)]
pub enum MathError {
    ZeroAmount,
    /// A `u128` bound was exceeded.
    Overflow,
    /// The trade would deliver nothing to the trader.
    Unquotable,
    /// Curve state does not satisfy the invariants the pricing relies on.
    BadState,
}

/// `Q`, the quote side including the phantom reserve.
pub open spec fn quote_side(t: Terms, s: State) -> int {
    t.virtual_quote + s.real_quote
}

/// `Tk`, the token side including the virtual floor.
pub open spec fn token_side(t: Terms, s: State) -> int {
    t.token_floor + s.tokens_remaining
}

/// `k = Q * Tk`.
pub open spec fn curve_k(t: Terms, s: State) -> int {
    quote_side(t, s) * token_side(t, s)
}

/// Both sides are positive and fit in `u128`.
pub open spec fn has_reserves(t: Terms, s: State) -> bool {
    &&& 0 < quote_side(t, s) <= u128::MAX
    &&& 0 < token_side(t, s) <= u128::MAX
}

/// Fee on `amount`, rounded up.
pub open spec fn fee_of(amount: int, fee_bps: int) -> int {
    ceil_div(amount * fee_bps, BPS as int)
}

/// Fee on top of a net amount, rounded up: the inverse of [`fee_of`].
pub open spec fn fee_on_net(net: int, fee_bps: int) -> int {
    ceil_div(net * fee_bps, BPS - fee_bps)
}

/// Tokens the curve gives up for `net` quote: `Tk - ceil(k / (Q + net))`.
pub open spec fn tokens_for(t: Terms, s: State, net: int) -> int {
    token_side(t, s) - ceil_div(curve_k(t, s), quote_side(t, s) + net)
}

/// Quote the curve still needs before only the floor is left:
/// `ceil(k / token_floor) - Q`.
pub open spec fn net_to_sell_out(t: Terms, s: State) -> int {
    ceil_div(curve_k(t, s), t.token_floor as int) - quote_side(t, s)
}

/// Why a buy of `q_in` is refused, if it is.
pub open spec fn buy_error(t: Terms, s: State, q_in: u128) -> Option<MathError> {
    let net = q_in - fee_of(q_in as int, t.fee_bps as int);
    if q_in == 0 {
        Some(MathError::ZeroAmount)
    } else if q_in > MAX_TRADE_IN {
        Some(MathError::Overflow)
    } else if s.tokens_remaining == 0 || t.fee_bps >= BPS {
        Some(MathError::BadState)
    } else if net == 0 {
        Some(MathError::Unquotable)
    } else if !has_reserves(t, s) {
        Some(MathError::BadState)
    } else if quote_side(t, s) + net > u128::MAX {
        Some(MathError::Overflow)
    } else if tokens_for(t, s, net) == 0 {
        Some(MathError::Unquotable)
    } else {
        None
    }
}

/// `b` is the quote for a buy of `q_in`.
pub open spec fn is_buy(t: Terms, s: State, q_in: u128, b: BuyQuote) -> bool {
    let fee = fee_of(q_in as int, t.fee_bps as int);
    let out = tokens_for(t, s, q_in - fee);
    &&& buy_error(t, s, q_in) is None
    &&& b.quote_used == b.quote_net_used + b.fee
    &&& b.crossed <==> out >= s.tokens_remaining
    &&& !b.crossed ==> b.tokens_out == out && b.quote_used == q_in && b.fee == fee
    &&& b.crossed ==> {
        &&& b.tokens_out == s.tokens_remaining
        &&& b.quote_net_used == net_to_sell_out(t, s)
        &&& b.fee == fee_on_net(b.quote_net_used as int, t.fee_bps as int)
    }
}

/// Quote that leaves the curve for `t_in` tokens: down to
/// `ceil(k / (Tk + t_in))`, and never into the phantom reserve.
pub open spec fn gross_for(t: Terms, s: State, t_in: u128) -> int {
    quote_side(t, s) - max_int(
        ceil_div(curve_k(t, s), token_side(t, s) + t_in),
        t.virtual_quote as int,
    )
}

/// Why a sell of `t_in` is refused, if it is.
pub open spec fn sell_error(t: Terms, s: State, t_in: u128) -> Option<MathError> {
    let gross = gross_for(t, s, t_in);
    if t_in == 0 {
        Some(MathError::ZeroAmount)
    } else if t.fee_bps >= BPS || !has_reserves(t, s) {
        Some(MathError::BadState)
    } else if token_side(t, s) + t_in > u128::MAX {
        Some(MathError::Overflow)
    } else if gross == 0 {
        Some(MathError::Unquotable)
    } else if gross * t.fee_bps > u128::MAX {
        Some(MathError::Overflow)
    } else if gross == fee_of(gross, t.fee_bps as int) {
        Some(MathError::Unquotable)
    } else {
        None
    }
}

/// `q` is the quote for a sell of `t_in`.
pub open spec fn is_sell(t: Terms, s: State, t_in: u128, q: SellQuote) -> bool {
    &&& sell_error(t, s, t_in) is None
    &&& q.quote_gross == gross_for(t, s, t_in)
    &&& q.fee == fee_of(q.quote_gross as int, t.fee_bps as int)
    &&& q.quote_out == q.quote_gross - q.fee
}

/// The curve after a buy has been applied to it.
pub open spec fn after_buy(s: State, b: BuyQuote) -> State {
    State {
        real_quote: (s.real_quote + b.quote_net_used) as u128,
        tokens_remaining: (s.tokens_remaining - b.tokens_out) as u128,
    }
}

/// The curve after a sell has been applied to it.
pub open spec fn after_sell(s: State, t_in: u128, q: SellQuote) -> State {
    State {
        real_quote: (s.real_quote - q.quote_gross) as u128,
        tokens_remaining: (s.tokens_remaining + t_in) as u128,
    }
}

/// Quote raised when a curve that starts with `sellable` tokens sells out.
pub open spec fn raise_of(t: Terms, sellable: int) -> int {
    ceil_div(t.virtual_quote * (t.token_floor + sellable), t.token_floor as int) - t.virtual_quote
}

/// `ceil(amount * fee_bps / BPS)`: the fee rounds up.
pub fn fee_on(amount: u128, fee_bps: u128) -> (r: Result<u128, MathError>)
    ensures
        match r {
            Ok(fee) => amount * fee_bps <= u128::MAX && fee == fee_of(
                amount as int,
                fee_bps as int,
            ),
            Err(e) => amount * fee_bps > u128::MAX && e == MathError::Overflow,
        },
{
    if fee_bps == 0 {
        proof {
            assert(amount * fee_bps == 0) by (nonlinear_arith)
                requires
                    fee_bps == 0,
            ;
        }
        return Ok(0);
    }
    match amount.checked_mul(fee_bps) {
        None => Err(MathError::Overflow),
        Some(n) => {
            let d: u128 = BPS;
            Ok(n / d + if n % d == 0 { 0 } else { 1 })
        },
    }
}

/// Virtual reserves and their product.
fn reserves(t: &Terms, s: &State) -> (r: Result<(u128, u128, U256), MathError>)
    ensures
        match r {
            Ok((q, tk, k)) => has_reserves(*t, *s) && q == quote_side(*t, *s) && tk == token_side(
                *t,
                *s,
            ) && k@ == curve_k(*t, *s),
            Err(e) => !has_reserves(*t, *s) && e == MathError::BadState,
        },
{
    let q: u128 = match t.virtual_quote.checked_add(s.real_quote) {
        Some(q) => q,
        None => return Err(MathError::BadState),
    };
    let tk: u128 = match t.token_floor.checked_add(s.tokens_remaining) {
        Some(tk) => tk,
        None => return Err(MathError::BadState),
    };
    if q == 0 || tk == 0 {
        return Err(MathError::BadState);
    }
    proof {
        lemma_product_fits(q as int, tk as int);
    }
    Ok((q, tk, U256::from_u128(q).times(U256::from_u128(tk))))
}

/// What the pricing of a buy gives in numbers, once its fee leaves something.
proof fn lemma_buy(t: Terms, s: State, q_in: int, fee: int)
    requires
        has_reserves(t, s),
        s.tokens_remaining > 0,
        0 <= t.fee_bps < BPS,
        fee == fee_of(q_in, t.fee_bps as int),
        0 <= fee < q_in,
    ensures
        0 <= curve_k(t, s),
        0 <= ceil_div(curve_k(t, s), quote_side(t, s) + q_in - fee) <= token_side(t, s),
        tokens_for(t, s, q_in - fee) >= s.tokens_remaining ==> {
            &&& t.token_floor > 0
            &&& 0 < net_to_sell_out(t, s) <= q_in - fee
            &&& 0 <= fee_on_net(net_to_sell_out(t, s), t.fee_bps as int) <= fee
        },
{
    let q = quote_side(t, s);
    let tk = token_side(t, s);
    let k = curve_k(t, s);
    let net = q_in - fee;
    assert(0 < k && k <= tk * (q + net)) by (nonlinear_arith)
        requires
            q > 0,
            tk > 0,
            net > 0,
            k == q * tk,
    ;
    lemma_ceil(k, q + net);
    lemma_ceil_bounds(k, q + net, tk);
    if tokens_for(t, s, net) >= s.tokens_remaining {
        let floor = t.token_floor as int;
        let c = ceil_div(k, q + net);
        assert(k <= floor * (q + net)) by (nonlinear_arith)
            requires
                k <= c * (q + net),
                c <= floor,
                q + net > 0,
        ;
        assert(floor > 0) by (nonlinear_arith)
            requires
                0 < k,
                k <= floor * (q + net),
                q + net > 0,
        ;
        assert((q + net) * floor == floor * (q + net)) by (nonlinear_arith);
        lemma_ceil_bounds(k, floor, q + net);
        assert(k > q * floor) by (nonlinear_arith)
            requires
                k == q * tk,
                tk > floor,
                q > 0,
        ;
        lemma_ceil_bounds(k, floor, q);
        let used = net_to_sell_out(t, s);
        let f = t.fee_bps as int;
        lemma_ceil(q_in * f, BPS as int);
        assert(0 <= used * f && used * f <= fee * (BPS - f)) by (nonlinear_arith)
            requires
                0 < used <= q_in - fee,
                0 <= f < BPS,
                q_in * f <= fee * BPS,
        ;
        lemma_ceil(used * f, BPS - f);
        lemma_ceil_bounds(used * f, BPS - f, fee);
    }
}

/// The fee on an amount is at most the amount when the rate is under one.
proof fn lemma_fee(amount: int, fee_bps: int)
    requires
        0 <= amount,
        0 <= fee_bps < BPS,
    ensures
        0 <= fee_of(amount, fee_bps) <= amount,
{
    assert(0 <= amount * fee_bps && amount * fee_bps <= amount * BPS) by (nonlinear_arith)
        requires
            0 <= amount,
            0 <= fee_bps < BPS,
    ;
    lemma_ceil(amount * fee_bps, BPS as int);
    lemma_ceil_bounds(amount * fee_bps, BPS as int, amount);
}

/// Quote for an exact-quote-in buy. Does not mutate state.
pub fn quote_buy(t: &Terms, s: &State, q_in: u128) -> (r: Result<BuyQuote, MathError>)
    ensures
        match r {
            Ok(b) => is_buy(*t, *s, q_in, b),
            Err(e) => buy_error(*t, *s, q_in) == Some(e),
        },
{
    if q_in == 0 {
        return Err(MathError::ZeroAmount);
    }
    if q_in > MAX_TRADE_IN {
        return Err(MathError::Overflow);
    }
    if s.tokens_remaining == 0 {
        return Err(MathError::BadState);
    }
    if t.fee_bps >= BPS {
        return Err(MathError::BadState);
    }
    proof {
        lemma_fee(q_in as int, t.fee_bps as int);
        assert(q_in * t.fee_bps <= MAX_TRADE_IN * BPS) by (nonlinear_arith)
            requires
                q_in <= MAX_TRADE_IN,
                t.fee_bps < BPS,
        ;
    }
    // The fee rounds up; the net is what reaches the curve.
    let fee: u128 = match fee_on(q_in, t.fee_bps) {
        Ok(fee) => fee,
        Err(e) => return Err(e),
    };
    let q_net: u128 = q_in - fee;
    if q_net == 0 {
        return Err(MathError::Unquotable);
    }
    let (q, tk, k): (u128, u128, U256) = match reserves(t, s) {
        Ok(x) => x,
        Err(e) => return Err(e),
    };
    let denom: u128 = match q.checked_add(q_net) {
        Some(d) => d,
        None => return Err(MathError::Overflow),
    };
    proof {
        lemma_buy(*t, *s, q_in as int, fee as int);
        lemma_product_fits(q as int, tk as int);
    }
    // The token side rounds up, so fewer tokens leave.
    let tk_new: u128 = match k.ceil_div(U256::from_u128(denom)).to_u128() {
        Some(x) => x,
        None => return Err(MathError::Overflow),
    };
    let t_out: u128 = tk - tk_new;
    if t_out == 0 {
        return Err(MathError::Unquotable);
    }
    if t_out < s.tokens_remaining {
        return Ok(
            BuyQuote {
                tokens_out: t_out,
                quote_used: q_in,
                quote_net_used: q_net,
                fee,
                crossed: false,
            },
        );
    }
    // Crossing: deliver exactly what is left, and charge exactly what the curve
    // needs to reach its floor plus the fee on that amount, both rounded up.
    let q_end: u128 = match k.ceil_div(U256::from_u128(t.token_floor)).to_u128() {
        Some(x) => x,
        None => return Err(MathError::Overflow),
    };
    let quote_net_used: u128 = q_end - q;
    let d: u128 = BPS - t.fee_bps;
    proof {
        assert(quote_net_used * t.fee_bps <= MAX_TRADE_IN * BPS) by (nonlinear_arith)
            requires
                quote_net_used <= MAX_TRADE_IN,
                t.fee_bps < BPS,
        ;
        assert(0 <= quote_net_used * t.fee_bps) by (nonlinear_arith);
    }
    let n: u128 = quote_net_used * t.fee_bps;
    let fee_c: u128 = (n + (d - 1)) / d;
    Ok(
        BuyQuote {
            tokens_out: s.tokens_remaining,
            quote_used: quote_net_used + fee_c,
            quote_net_used,
            fee: fee_c,
            crossed: true,
        },
    )
}

/// Quote for an exact-tokens-in sell. Does not mutate state.
pub fn quote_sell(t: &Terms, s: &State, t_in: u128) -> (r: Result<SellQuote, MathError>)
    ensures
        match r {
            Ok(q) => is_sell(*t, *s, t_in, q),
            Err(e) => sell_error(*t, *s, t_in) == Some(e),
        },
{
    if t_in == 0 {
        return Err(MathError::ZeroAmount);
    }
    if t.fee_bps >= BPS {
        return Err(MathError::BadState);
    }
    let (q, tk, k): (u128, u128, U256) = match reserves(t, s) {
        Ok(x) => x,
        Err(e) => return Err(e),
    };
    let denom: u128 = match tk.checked_add(t_in) {
        Some(d) => d,
        None => return Err(MathError::Overflow),
    };
    proof {
        lemma_product_fits(q as int, tk as int);
        assert(0 < k@ && k@ <= q * denom) by (nonlinear_arith)
            requires
                k@ == q * tk,
                q > 0,
                0 < tk <= denom,
        ;
        lemma_ceil(k@, denom as int);
        lemma_ceil_bounds(k@, denom as int, q as int);
    }
    // The quote side rounds up, so less quote leaves; never below the phantom
    // reserve.
    let q_ceil: u128 = match k.ceil_div(U256::from_u128(denom)).to_u128() {
        Some(x) => x,
        None => return Err(MathError::Overflow),
    };
    let q_new: u128 = if q_ceil >= t.virtual_quote {
        q_ceil
    } else {
        t.virtual_quote
    };
    let quote_gross: u128 = q - q_new;
    if quote_gross == 0 {
        return Err(MathError::Unquotable);
    }
    proof {
        lemma_fee(quote_gross as int, t.fee_bps as int);
    }
    let fee: u128 = match fee_on(quote_gross, t.fee_bps) {
        Ok(fee) => fee,
        Err(e) => return Err(e),
    };
    let quote_out: u128 = quote_gross - fee;
    if quote_out == 0 {
        return Err(MathError::Unquotable);
    }
    Ok(SellQuote { quote_gross, fee, quote_out })
}

/// `k` for a state.
pub fn invariant_k(t: &Terms, s: &State) -> (r: Option<U256>)
    ensures
        match r {
            Some(k) => has_reserves(*t, *s) && k@ == curve_k(*t, *s),
            None => !has_reserves(*t, *s),
        },
{
    match reserves(t, s) {
        Ok((_, _, k)) => Some(k),
        Err(_) => None,
    }
}

/// Quote raised when the curve sells out; nothing when a sum leaves `u128`.
pub fn raise_at_sellout(t: &Terms, sellable: u128) -> (r: Option<u128>)
    requires
        t.token_floor > 0,
    ensures
        match r {
            Some(raise) => {
                &&& t.token_floor + sellable <= u128::MAX
                &&& t.virtual_quote + raise <= u128::MAX
                &&& raise == raise_of(*t, sellable as int)
            },
            None => t.token_floor + sellable > u128::MAX || t.virtual_quote + raise_of(
                *t,
                sellable as int,
            ) > u128::MAX,
        },
{
    let vt: u128 = match t.token_floor.checked_add(sellable) {
        Some(vt) => vt,
        None => return None,
    };
    let ghost k = t.virtual_quote * vt;
    proof {
        lemma_product_fits(t.virtual_quote as int, vt as int);
        assert(k >= t.virtual_quote * t.token_floor) by (nonlinear_arith)
            requires
                k == t.virtual_quote * vt,
                vt >= t.token_floor,
                t.virtual_quote >= 0,
        ;
        lemma_ceil_bounds(k, t.token_floor as int, t.virtual_quote as int);
    }
    let product = U256::from_u128(t.virtual_quote).times(U256::from_u128(vt));
    match product.ceil_div(U256::from_u128(t.token_floor)).to_u128() {
        Some(q_end) => Some(q_end - t.virtual_quote),
        None => None,
    }
}

/// A buy that leaves tokens on the curve takes the whole offer. Its fee is the least
/// that covers the rate, and out come the most tokens that keep `k` once the rest is
/// in: one token more would break it.
pub proof fn law_buy_gives_the_most(t: Terms, s: State, q_in: u128, b: BuyQuote)
    requires
        is_buy(t, s, q_in, b),
        !b.crossed,
    ensures
        ({
            let q = t.virtual_quote + s.real_quote;
            let tk = t.token_floor + s.tokens_remaining;
            &&& b.quote_used == q_in && b.quote_net_used + b.fee == q_in
            &&& is_least(b.fee as int, q_in * t.fee_bps, 10_000)
            &&& (q + b.quote_net_used) * (tk - b.tokens_out) >= q * tk
            &&& (q + b.quote_net_used) * (tk - b.tokens_out - 1) < q * tk
        }),
{
    let q = t.virtual_quote + s.real_quote;
    let tk = t.token_floor + s.tokens_remaining;
    lemma_fee(q_in as int, t.fee_bps as int);
    assert(0 <= q_in * t.fee_bps) by (nonlinear_arith);
    lemma_ceil(q_in * t.fee_bps, BPS as int);
    let after = q + b.quote_net_used;
    let left = tk - b.tokens_out;
    lemma_ceil(q * tk, after);
    assert(left * after == after * left && (left - 1) * after == after * (left - 1))
        by (nonlinear_arith);
}

/// A buy that empties the curve takes the least quote that brings `k` down to the token
/// floor, and the least fee that covers the rate on top of it. It crosses exactly where
/// the most tokens that the offer could buy are all there are, or more.
pub proof fn law_crossing_takes_the_least(t: Terms, s: State, q_in: u128, b: BuyQuote)
    requires
        is_buy(t, s, q_in, b),
    ensures
        ({
            let q = t.virtual_quote + s.real_quote;
            let tk = t.token_floor + s.tokens_remaining;
            let fee = ceil_div(q_in * t.fee_bps, 10_000);
            &&& b.crossed <==> (q + q_in - fee) * t.token_floor >= q * tk
            &&& b.crossed ==> {
                &&& b.tokens_out == s.tokens_remaining
                &&& (q + b.quote_net_used) * t.token_floor >= q * tk
                &&& (q + b.quote_net_used - 1) * t.token_floor < q * tk
                &&& is_least(
                    b.fee as int,
                    b.quote_net_used * t.fee_bps,
                    10_000 - t.fee_bps,
                )
                &&& b.quote_used == b.quote_net_used + b.fee
            }
        }),
{
    let q = t.virtual_quote + s.real_quote;
    let tk = t.token_floor + s.tokens_remaining;
    let fee = fee_of(q_in as int, t.fee_bps as int);
    lemma_fee(q_in as int, t.fee_bps as int);
    lemma_buy(t, s, q_in as int, fee);
    let after = q + q_in - fee;
    let floor = t.token_floor as int;
    lemma_ceil(q * tk, after);
    lemma_ceil_bounds(q * tk, after, floor);
    assert(after * floor == floor * after) by (nonlinear_arith);
    if b.crossed {
        lemma_ceil(q * tk, floor);
        let used = b.quote_net_used as int;
        assert(0 <= used * t.fee_bps) by (nonlinear_arith)
            requires
                0 <= used,
        ;
        lemma_ceil(used * t.fee_bps, BPS - t.fee_bps);
    }
}

/// A buy is owed wherever the curve has tokens and a rate under one, and the offer, not
/// above the largest trade, leaves something of it after the fee that buys at least one
/// token without a sum leaving `u128`.
pub proof fn law_buy_is_owed(t: Terms, s: State, q_in: u128, fee: int)
    requires
        0 < q_in <= 10_000_000_000_000_000_000_000_000_000_000_000,
        s.tokens_remaining > 0,
        t.fee_bps < 10_000,
        0 < t.virtual_quote + s.real_quote <= u128::MAX,
        0 < t.token_floor + s.tokens_remaining <= u128::MAX,
        is_least(fee, q_in * t.fee_bps, 10_000),
        fee < q_in,
        t.virtual_quote + s.real_quote + q_in - fee <= u128::MAX,
        ({
            let q = t.virtual_quote + s.real_quote;
            let tk = t.token_floor + s.tokens_remaining;
            (q + q_in - fee) * (tk - 1) >= q * tk
        }),
    ensures
        buy_error(t, s, q_in) is None,
{
    let q = t.virtual_quote + s.real_quote;
    let tk = t.token_floor + s.tokens_remaining;
    lemma_ceil_bounds(q_in * t.fee_bps, BPS as int, fee);
    lemma_ceil_bounds(q_in * t.fee_bps, BPS as int, fee - 1);
    let after = q + q_in - fee;
    assert(after * (tk - 1) == (tk - 1) * after) by (nonlinear_arith);
    lemma_ceil_bounds(q * tk, after, tk - 1);
}

/// A sell pays the most that keeps `k` once the tokens are back, and no more than the
/// curve has taken in; its fee is the least that covers the rate.
pub proof fn law_sell_gives_the_most(t: Terms, s: State, t_in: u128, b: SellQuote)
    requires
        is_sell(t, s, t_in, b),
    ensures
        ({
            let q = t.virtual_quote + s.real_quote;
            let tk = t.token_floor + s.tokens_remaining;
            &&& (q - b.quote_gross) * (tk + t_in) >= q * tk
            &&& b.quote_gross <= s.real_quote
            &&& (q - b.quote_gross - 1) * (tk + t_in) < q * tk || b.quote_gross == s.real_quote
            &&& is_least(b.fee as int, b.quote_gross * t.fee_bps, 10_000)
            &&& b.quote_out == b.quote_gross - b.fee && b.quote_out > 0
        }),
{
    law_sell_keeps_k(t, s, t_in, b);
    let q = t.virtual_quote + s.real_quote;
    let tk = t.token_floor + s.tokens_remaining;
    lemma_ceil(q * tk, tk + t_in);
    let left = q - b.quote_gross;
    let c = ceil_div(q * tk, tk + t_in);
    assert(left * (tk + t_in) >= c * (tk + t_in)) by (nonlinear_arith)
        requires
            left >= c,
            tk + t_in > 0,
    ;
    lemma_fee(b.quote_gross as int, t.fee_bps as int);
    assert(0 <= b.quote_gross * t.fee_bps) by (nonlinear_arith);
    lemma_ceil(b.quote_gross * t.fee_bps, BPS as int);
}

/// A sell is owed wherever the curve has reserves and a rate under one, and `gross`,
/// which keeps `k` and which the curve has taken in, leaves the seller something after
/// the fee, without a sum or a product leaving `u128`.
pub proof fn law_sell_is_owed(t: Terms, s: State, t_in: u128, gross: int, fee: int)
    requires
        t_in > 0,
        t.fee_bps < 10_000,
        0 < t.virtual_quote + s.real_quote <= u128::MAX,
        0 < t.token_floor + s.tokens_remaining,
        t.token_floor + s.tokens_remaining + t_in <= u128::MAX,
        0 < gross <= s.real_quote,
        is_least(fee, gross * t.fee_bps, 10_000),
        fee < gross,
        s.real_quote * t.fee_bps <= u128::MAX,
        ({
            let q = t.virtual_quote + s.real_quote;
            let tk = t.token_floor + s.tokens_remaining;
            &&& (q - gross) * (tk + t_in) >= q * tk
            &&& (q - gross - 1) * (tk + t_in) < q * tk || gross == s.real_quote
        }),
    ensures
        sell_error(t, s, t_in) is None,
        forall|b: SellQuote| is_sell(t, s, t_in, b) ==> #[trigger] b.quote_gross == gross,
{
    let q = t.virtual_quote + s.real_quote;
    let tk = t.token_floor + s.tokens_remaining;
    let c = ceil_div(q * tk, tk + t_in);
    lemma_ceil_bounds(q * tk, tk + t_in, q - gross);
    lemma_ceil_bounds(q * tk, tk + t_in, q - gross - 1);
    assert(gross_for(t, s, t_in) == gross);
    lemma_ceil_bounds(gross * t.fee_bps, BPS as int, fee);
    lemma_ceil_bounds(gross * t.fee_bps, BPS as int, fee - 1);
    assert(gross * t.fee_bps <= s.real_quote * t.fee_bps) by (nonlinear_arith)
        requires
            gross <= s.real_quote,
    ;
}

/// What a curve raises by the time it sells out is the least that brings its opening
/// product down to the token floor.
pub proof fn law_raise_is_the_least(t: Terms, sellable: u128)
    requires
        t.token_floor > 0,
    ensures
        ({
            let k = t.virtual_quote * (t.token_floor + sellable);
            let r = raise_of(t, sellable as int);
            &&& 0 <= r
            &&& (t.virtual_quote + r) * t.token_floor >= k
            &&& (t.virtual_quote + r - 1) * t.token_floor < k || t.virtual_quote == 0
        }),
{
    let k = t.virtual_quote * (t.token_floor + sellable);
    assert(k >= t.virtual_quote * t.token_floor) by (nonlinear_arith)
        requires
            k == t.virtual_quote * (t.token_floor + sellable),
    ;
    lemma_ceil(k, t.token_floor as int);
    lemma_ceil_bounds(k, t.token_floor as int, t.virtual_quote as int);
}

/// Why a buy is not quoted. Every refusal names a fault that is there, and the first one
/// in the order in which a trade is looked at; what cannot be quoted is an offer that the
/// fee eats up, or that buys no token.
pub proof fn law_buy_refusals(t: Terms, s: State, q_in: u128, fee: int)
    requires
        is_least(fee, q_in * t.fee_bps, 10_000),
    ensures
        ({
            let q = t.virtual_quote + s.real_quote;
            let tk = t.token_floor + s.tokens_remaining;
            let within = 0 < q_in <= 10_000_000_000_000_000_000_000_000_000_000_000;
            let open = within && s.tokens_remaining > 0 && t.fee_bps < 10_000;
            let sound = 0 < q <= u128::MAX && 0 < tk <= u128::MAX;
            match buy_error(t, s, q_in) {
                None => open && sound && fee < q_in && q + q_in - fee <= u128::MAX,
                Some(MathError::ZeroAmount) => q_in == 0,
                Some(MathError::Overflow) => {
                    &&& q_in > 0
                    &&& within ==> open && sound && fee < q_in && q + q_in - fee > u128::MAX
                },
                Some(MathError::BadState) => within && (!open || (fee < q_in && !sound)),
                Some(MathError::Unquotable) => {
                    &&& open
                    &&& fee < q_in ==> sound && (q + q_in - fee) * (tk - 1) < q * tk
                },
            }
        }),
{
    let q = t.virtual_quote + s.real_quote;
    let tk = t.token_floor + s.tokens_remaining;
    lemma_ceil_bounds(q_in * t.fee_bps, BPS as int, fee);
    lemma_ceil_bounds(q_in * t.fee_bps, BPS as int, fee - 1);
    if t.fee_bps < 10_000 {
        lemma_fee(q_in as int, t.fee_bps as int);
    }
    let after = q + q_in - fee;
    if after > 0 {
        lemma_ceil_bounds(q * tk, after, tk - 1);
        assert(after * (tk - 1) == (tk - 1) * after) by (nonlinear_arith);
    }
}

/// Why a sell is not quoted.
pub proof fn law_sell_refusals(t: Terms, s: State, t_in: u128)
    ensures
        ({
            let q = t.virtual_quote + s.real_quote;
            let tk = t.token_floor + s.tokens_remaining;
            let sound = t.fee_bps < 10_000 && 0 < q <= u128::MAX && 0 < tk <= u128::MAX;
            match sell_error(t, s, t_in) {
                None => t_in > 0 && sound && tk + t_in <= u128::MAX && s.real_quote > 0,
                Some(MathError::ZeroAmount) => t_in == 0,
                Some(MathError::BadState) => t_in > 0 && !sound,
                Some(MathError::Overflow) => {
                    &&& t_in > 0 && sound
                    &&& tk + t_in > u128::MAX || s.real_quote * t.fee_bps > u128::MAX
                },
                Some(MathError::Unquotable) => {
                    &&& t_in > 0 && sound && tk + t_in <= u128::MAX
                    &&& s.real_quote == 0 || t.fee_bps > 0 || (q - 1) * (tk + t_in) < q * tk
                },
            }
        }),
{
    let q = t.virtual_quote + s.real_quote;
    let tk = t.token_floor + s.tokens_remaining;
    let gross = gross_for(t, s, t_in);
    if 0 < tk + t_in {
        lemma_ceil_bounds(q * tk, tk + t_in, q - 1);
        lemma_ceil_bounds(q * tk, tk + t_in, q);
        assert(q * tk <= q * (tk + t_in)) by (nonlinear_arith)
            requires
                0 <= q,
                0 <= t_in,
        ;
    }
    assert(gross * t.fee_bps <= s.real_quote * t.fee_bps) by (nonlinear_arith)
        requires
            gross <= s.real_quote,
    ;
    if t.fee_bps == 0 {
        assert(gross * t.fee_bps == 0) by (nonlinear_arith)
            requires
                t.fee_bps == 0,
        ;
    }
}

/// A buy never charges more than was offered, never delivers more than is left,
/// and crosses exactly when it empties the curve.
pub proof fn law_buy_within_offer(t: Terms, s: State, q_in: u128, b: BuyQuote)
    requires
        is_buy(t, s, q_in, b),
    ensures
        0 < b.quote_net_used <= b.quote_used <= q_in,
        0 < b.tokens_out <= s.tokens_remaining,
        b.crossed <==> b.tokens_out == s.tokens_remaining,
        s.real_quote + b.quote_net_used <= u128::MAX,
{
    lemma_fee(q_in as int, t.fee_bps as int);
    lemma_buy(t, s, q_in as int, fee_of(q_in as int, t.fee_bps as int));
}

/// A buy never lowers `k`.
pub proof fn law_buy_keeps_k(t: Terms, s: State, q_in: u128, b: BuyQuote)
    requires
        is_buy(t, s, q_in, b),
    ensures
        curve_k(t, after_buy(s, b)) >= curve_k(t, s),
{
    law_buy_within_offer(t, s, q_in, b);
    let k = curve_k(t, s);
    let q = quote_side(t, s);
    let tk1 = token_side(t, s) - b.tokens_out;
    let q1 = q + b.quote_net_used;
    if b.crossed {
        lemma_fee(q_in as int, t.fee_bps as int);
        lemma_buy(t, s, q_in as int, fee_of(q_in as int, t.fee_bps as int));
        lemma_ceil(k, t.token_floor as int);
    } else {
        lemma_ceil(k, q1);
        assert(q1 * tk1 == tk1 * q1) by (nonlinear_arith);
    }
}

/// A sell never lowers `k`, and never pays out more than the curve really holds.
pub proof fn law_sell_keeps_k(t: Terms, s: State, t_in: u128, q: SellQuote)
    requires
        is_sell(t, s, t_in, q),
    ensures
        q.quote_out <= q.quote_gross <= s.real_quote,
        curve_k(t, after_sell(s, t_in, q)) >= curve_k(t, s),
{
    let k = curve_k(t, s);
    let tk1 = token_side(t, s) + t_in;
    let q1 = quote_side(t, s) - q.quote_gross;
    lemma_ceil(k, tk1);
    assert(q1 * tk1 >= ceil_div(k, tk1) * tk1) by (nonlinear_arith)
        requires
            q1 >= ceil_div(k, tk1),
            tk1 > 0,
    ;
}

/// Selling back what was just bought never pays more than the buy put into the
/// curve, so never more than the buyer was charged.
pub proof fn law_round_trip_never_pays(
    t: Terms,
    s: State,
    q_in: u128,
    b: BuyQuote,
    sold: SellQuote,
)
    requires
        is_buy(t, s, q_in, b),
        is_sell(t, after_buy(s, b), b.tokens_out, sold),
    ensures
        sold.quote_gross <= b.quote_net_used,
        sold.quote_out <= b.quote_used,
{
    law_buy_within_offer(t, s, q_in, b);
    law_buy_keeps_k(t, s, q_in, b);
    law_sell_keeps_k(t, after_buy(s, b), b.tokens_out, sold);
    let s1 = after_buy(s, b);
    let tk = token_side(t, s);
    assert(token_side(t, s1) + b.tokens_out == tk);
    lemma_ceil_monotone(curve_k(t, s), curve_k(t, s1), tk);
    lemma_ceil_bounds(curve_k(t, s), tk, quote_side(t, s));
}

/// The buy that crosses brings the quote raised to at least
/// [`raise_at_sellout`], from any state whose `k` has not fallen below the
/// opening one; from the opening state it is exactly that.
pub proof fn law_crossing_raises_target(
    t: Terms,
    s: State,
    sellable: u128,
    q_in: u128,
    b: BuyQuote,
)
    requires
        is_buy(t, s, q_in, b),
        b.crossed,
        curve_k(t, s) >= t.virtual_quote * (t.token_floor + sellable),
    ensures
        s.real_quote + b.quote_net_used >= raise_of(t, sellable as int),
        s.real_quote == 0 && s.tokens_remaining == sellable ==> b.quote_net_used == raise_of(
            t,
            sellable as int,
        ),
{
    lemma_fee(q_in as int, t.fee_bps as int);
    lemma_buy(t, s, q_in as int, fee_of(q_in as int, t.fee_bps as int));
    lemma_ceil_monotone(
        t.virtual_quote * (t.token_floor + sellable),
        curve_k(t, s),
        t.token_floor as int,
    );
}

} // verus!
