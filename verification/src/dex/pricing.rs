//! The exchange's arithmetic: every product of two balances is taken in 256
//! bits, and every division rounds down.

use super::types::{Error, BPS};
use crate::arith::{lemma_floor, lemma_floor_bounds, lemma_product_fits};
use crate::primitives::Balance;
use crate::wide::U256;
use vstd::prelude::*;

verus! {

/// `r` is the square root of `p`, rounded down.
pub open spec fn is_sqrt(r: int, p: int) -> bool {
    0 <= r && r * r <= p < (r + 1) * (r + 1)
}

/// The square root of `p`, rounded down.
pub open spec fn sqrt_floor(p: int) -> int {
    choose|r: int| is_sqrt(r, p)
}

/// There is only one rounded square root.
pub proof fn lemma_sqrt_unique(r: int, p: int)
    requires
        is_sqrt(r, p),
    ensures
        sqrt_floor(p) == r,
{
    let s = sqrt_floor(p);
    assert(is_sqrt(s, p));
    assert(s == r) by (nonlinear_arith)
        requires
            0 <= r,
            0 <= s,
            r * r < (s + 1) * (s + 1),
            s * s < (r + 1) * (r + 1),
    ;
}

/// `bps` of `amount`, rounded down.
pub open spec fn slice_of(amount: int, bps: int) -> int {
    amount * bps / BPS as int
}

/// `a * b / c`, rounded down.
pub fn mul_div_floor(a: Balance, b: Balance, c: Balance) -> (r: Result<Balance, Error>)
    ensures
        match r {
            Ok(x) => c != 0 && x == a * b / c as int,
            Err(e) => {
                ||| c == 0 && e == Error::InsufficientLiquidity
                ||| c != 0 && a * b / c as int > u128::MAX && e == Error::Overflow
            },
        },
{
    proof {
        lemma_product_fits(a as int, b as int);
    }
    if c == 0 {
        return Err(Error::InsufficientLiquidity);
    }
    let quotient = U256::from_u128(a).times(U256::from_u128(b)).over(U256::from_u128(c));
    match quotient.to_u128() {
        Some(x) => Ok(x),
        None => Err(Error::Overflow),
    }
}

/// The square root of `a * b`, rounded down.
pub fn sqrt_of_product(a: Balance, b: Balance) -> (r: Balance)
    ensures
        is_sqrt(r as int, a * b),
        r == sqrt_floor(a * b),
{
    proof {
        lemma_product_fits(a as int, b as int);
    }
    let root = U256::from_u128(a).times(U256::from_u128(b)).integer_sqrt();
    proof {
        root.lemma_range();
        let x = root@;
        assert(x <= u128::MAX) by (nonlinear_arith)
            requires
                0 <= x,
                x * x <= a * b,
                0 <= a <= u128::MAX,
                0 <= b <= u128::MAX,
        ;
        lemma_sqrt_unique(root@, a * b);
    }
    match root.to_u128() {
        Some(x) => x,
        None => 0,
    }
}

/// `bps` of `amount`, rounded down.
pub fn bps_of(amount: Balance, bps: u16) -> (r: Result<Balance, Error>)
    ensures
        match r {
            Ok(x) => x == slice_of(amount as int, bps as int),
            Err(e) => slice_of(amount as int, bps as int) > u128::MAX && e == Error::Overflow,
        },
{
    if bps == 0 {
        assert(slice_of(amount as int, 0) == 0) by (nonlinear_arith);
        return Ok(0);
    }
    mul_div_floor(amount, bps as u128, BPS as u128)
}

/// A slice is not negative, and at a rate of at most one it is at most the
/// amount.
pub proof fn lemma_slice(amount: int, bps: int)
    requires
        0 <= amount,
        0 <= bps,
    ensures
        0 <= slice_of(amount, bps),
        bps <= BPS ==> slice_of(amount, bps) <= amount,
{
    assert(0 <= amount * bps) by (nonlinear_arith)
        requires
            0 <= amount,
            0 <= bps,
    ;
    lemma_floor(amount * bps, BPS as int);
    if bps <= BPS {
        assert(amount * bps <= amount * BPS) by (nonlinear_arith)
            requires
                0 <= amount,
                0 <= bps <= BPS,
        ;
        lemma_floor_bounds(amount * bps, BPS as int, amount);
    }
}

} // verus!
