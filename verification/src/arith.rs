//! Rounding arithmetic on mathematical integers, and the facts about it that
//! the pricing proofs rest on.

use vstd::arithmetic::div_mod::{
    lemma_div_is_ordered, lemma_fundamental_div_mod, lemma_fundamental_div_mod_converse,
};
use vstd::prelude::*;

verus! {

/// `n / d` rounded up, for `d > 0`.
pub open spec fn ceil_div(n: int, d: int) -> int {
    (n + d - 1) / d
}

pub open spec fn min_int(a: int, b: int) -> int {
    if a <= b {
        a
    } else {
        b
    }
}

pub open spec fn max_int(a: int, b: int) -> int {
    if a >= b {
        a
    } else {
        b
    }
}

/// `q` is the largest number whose product with `d` stays within `n`.
pub open spec fn is_largest(q: int, n: int, d: int) -> bool {
    0 <= q && q * d <= n && n < (q + 1) * d
}

/// `q` is the least number whose product with `d` covers `n`.
pub open spec fn is_least(q: int, n: int, d: int) -> bool {
    0 <= q && n <= q * d && (q - 1) * d < n
}

/// `a - b`, stopping at zero.
pub open spec fn monus(a: int, b: int) -> int {
    if a >= b {
        a - b
    } else {
        0
    }
}

/// `a + b`, stopping at `u128::MAX`.
pub open spec fn sat_add(a: u128, b: u128) -> u128 {
    min_int(a + b, u128::MAX as int) as u128
}

/// `a - b`, stopping at zero.
pub open spec fn sat_sub(a: u128, b: u128) -> u128 {
    monus(a as int, b as int) as u128
}

/// What rounding down keeps: `(n / d) * d <= n < (n / d + 1) * d`.
pub proof fn lemma_floor(n: int, d: int)
    requires
        0 < d,
    ensures
        (n / d) * d <= n < (n / d + 1) * d,
        0 <= n ==> 0 <= n / d <= n,
        0 <= n ==> (n / d) * d >= 0,
{
    lemma_fundamental_div_mod(n, d);
    let q = n / d;
    assert(d * q == q * d && (q + 1) * d == q * d + d) by (nonlinear_arith);
    if 0 <= n {
        assert(0 <= q) by (nonlinear_arith)
            requires
                (q + 1) * d > n,
                n >= 0,
                d > 0,
        ;
        assert(q <= n) by (nonlinear_arith)
            requires
                q * d <= n,
                q >= 0,
                d >= 1,
        ;
        assert(q * d >= 0) by (nonlinear_arith)
            requires
                q >= 0,
                d > 0,
        ;
    }
}

/// The floor is the largest multiplier that stays at or under `n`.
pub proof fn lemma_floor_is(n: int, d: int, q: int)
    requires
        0 < d,
        q * d <= n < (q + 1) * d,
    ensures
        n / d == q,
{
    assert((q + 1) * d == q * d + d && q * d == d * q) by (nonlinear_arith);
    lemma_fundamental_div_mod_converse(n, d, q, n - q * d);
}

/// A bound `n <= b * d` bounds the floor, and `n >= b * d` bounds it below.
pub proof fn lemma_floor_bounds(n: int, d: int, b: int)
    requires
        0 < d,
    ensures
        n < b * d ==> n / d < b,
        n <= b * d ==> n / d <= b,
        n >= b * d ==> n / d >= b,
{
    lemma_floor(n, d);
    let q = n / d;
    if n < b * d {
        assert(q < b) by (nonlinear_arith)
            requires
                q * d < b * d,
                d > 0,
        ;
    }
    if n <= b * d {
        assert(q <= b) by (nonlinear_arith)
            requires
                q * d <= b * d,
                d > 0,
        ;
    }
    if n >= b * d {
        assert(q >= b) by (nonlinear_arith)
            requires
                (q + 1) * d > b * d,
                d > 0,
        ;
    }
}

/// What rounding up keeps: the ceiling is the least multiplier that covers `n`.
pub proof fn lemma_ceil(n: int, d: int)
    requires
        0 < d,
    ensures
        (ceil_div(n, d) - 1) * d < n <= ceil_div(n, d) * d,
        0 <= n ==> 0 <= ceil_div(n, d) <= n,
        0 < n ==> 0 < ceil_div(n, d),
{
    lemma_floor(n + d - 1, d);
    let c = ceil_div(n, d);
    assert((c + 1) * d == c * d + d && (c - 1) * d == c * d - d) by (nonlinear_arith);
    if 0 <= n {
        if 0 < n {
            assert(0 < c) by (nonlinear_arith)
                requires
                    c * d >= n,
                    n > 0,
                    d > 0,
            ;
            assert(c <= n) by (nonlinear_arith)
                requires
                    c * d - d < n,
                    c > 0,
                    d >= 1,
                    n >= 1,
            ;
        } else {
            lemma_floor_is(d - 1, d, 0);
        }
    }
}

/// `b * d >= n` bounds the ceiling above, and `b * d < n` bounds it below.
pub proof fn lemma_ceil_bounds(n: int, d: int, b: int)
    requires
        0 < d,
    ensures
        n <= b * d ==> ceil_div(n, d) <= b,
        n > b * d ==> ceil_div(n, d) > b,
        n >= b * d ==> ceil_div(n, d) >= b,
{
    lemma_ceil(n, d);
    let c = ceil_div(n, d);
    if n <= b * d {
        assert(c <= b) by (nonlinear_arith)
            requires
                (c - 1) * d < b * d,
                d > 0,
        ;
    }
    if n > b * d {
        assert(c > b) by (nonlinear_arith)
            requires
                c * d > b * d,
                d > 0,
        ;
    }
    if n >= b * d {
        assert(c >= b) by (nonlinear_arith)
            requires
                c * d >= b * d,
                d > 0,
        ;
    }
}

/// Rounding up never decreases when the numerator grows.
pub proof fn lemma_ceil_monotone(n: int, m: int, d: int)
    requires
        0 < d,
        n <= m,
    ensures
        ceil_div(n, d) <= ceil_div(m, d),
{
    lemma_div_is_ordered(n + d - 1, m + d - 1, d);
}

/// The product of two `u128` values fits in 256 bits with `2^129` to spare.
pub proof fn lemma_product_fits(a: int, b: int)
    requires
        0 <= a <= u128::MAX,
        0 <= b <= u128::MAX,
    ensures
        0 <= a * b <= 0xffff_ffff_ffff_ffff_ffff_ffff_ffff_fffe_0000_0000_0000_0000_0000_0000_0000_0001int,
{
    assert(0 <= a * b <= u128::MAX * u128::MAX) by (nonlinear_arith)
        requires
            0 <= a <= u128::MAX,
            0 <= b <= u128::MAX,
    ;
    assert(u128::MAX * u128::MAX
        == 0xffff_ffff_ffff_ffff_ffff_ffff_ffff_fffe_0000_0000_0000_0000_0000_0000_0000_0001int)
        by (nonlinear_arith);
}

} // verus!
