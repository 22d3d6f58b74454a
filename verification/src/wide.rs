//! 256-bit integers.
//!
//! [`U256`] holds the four 64-bit limbs of a `sp_core::U256`, least significant
//! first, and every operation on it is one operation of that type.

use crate::arith::{ceil_div, lemma_ceil};
use vstd::prelude::*;

verus! {

/// A 256-bit unsigned integer, as little-endian 64-bit limbs.
#[derive(Clone, Copy, Debug, PartialEq, Eq)]
pub struct U256 {
    pub limbs: [u64; 4],
}

/// `2^256`.
pub open spec fn wide_limit() -> int {
    0x1_0000_0000_0000_0000_0000_0000_0000_0000_0000_0000_0000_0000_0000_0000_0000_0000int
}

impl View for U256 {
    type V = int;

    open spec fn view(&self) -> int {
        self.limbs@[0] + self.limbs@[1] * 0x1_0000_0000_0000_0000
            + self.limbs@[2] * 0x1_0000_0000_0000_0000_0000_0000_0000_0000int
            + self.limbs@[3] * 0x1_0000_0000_0000_0000_0000_0000_0000_0000_0000_0000_0000_0000int
    }
}

impl U256 {
    /// `sp_core::U256::from(u128)`: the same number, in 256 bits.
    #[verifier::external_body]
    pub(crate) fn from_u128(x: u128) -> (r: U256)
        ensures
            r@ == x,
    {
        U256 { limbs: sp_core::U256::from(x).0 }
    }

    /// `+` of `sp_core::U256`, which is exact unless the sum leaves 256 bits;
    /// such a sum panics and is left out.
    #[verifier::external_body]
    pub(crate) fn plus(self, other: U256) -> (r: U256)
        requires
            self@ + other@ < wide_limit(),
        ensures
            r@ == self@ + other@,
    {
        U256 { limbs: (sp_core::U256(self.limbs) + sp_core::U256(other.limbs)).0 }
    }

    /// `-` of `sp_core::U256`, which is exact unless the difference is negative;
    /// such a difference panics and is left out.
    #[verifier::external_body]
    pub(crate) fn minus(self, other: U256) -> (r: U256)
        requires
            self@ >= other@,
        ensures
            r@ == self@ - other@,
    {
        U256 { limbs: (sp_core::U256(self.limbs) - sp_core::U256(other.limbs)).0 }
    }

    /// `*` of `sp_core::U256`, which is exact unless the product leaves 256 bits;
    /// such a product panics and is left out.
    #[verifier::external_body]
    pub(crate) fn times(self, other: U256) -> (r: U256)
        requires
            self@ * other@ < wide_limit(),
        ensures
            r@ == self@ * other@,
    {
        U256 { limbs: (sp_core::U256(self.limbs) * sp_core::U256(other.limbs)).0 }
    }

    /// `/` of `sp_core::U256`: the quotient rounded down. A zero divisor panics
    /// and is left out.
    #[verifier::external_body]
    pub(crate) fn over(self, other: U256) -> (r: U256)
        requires
            other@ != 0,
        ensures
            r@ == self@ / other@,
    {
        U256 { limbs: (sp_core::U256(self.limbs) / sp_core::U256(other.limbs)).0 }
    }

    /// `u128::try_from(sp_core::U256)`: the same number when it fits in 128 bits,
    /// an error (here `None`) when it does not.
    #[verifier::external_body]
    pub(crate) fn to_u128(self) -> (r: Option<u128>)
        ensures
            match r {
                Some(x) => x == self@,
                None => self@ > u128::MAX,
            },
    {
        u128::try_from(sp_core::U256(self.limbs)).ok()
    }

    /// `sp_core::U256::integer_sqrt`: the square root rounded down.
    #[verifier::external_body]
    pub(crate) fn integer_sqrt(self) -> (r: U256)
        ensures
            r@ * r@ <= self@ < (r@ + 1) * (r@ + 1),
    {
        U256 { limbs: sp_core::U256(self.limbs).integer_sqrt().0 }
    }

    /// Every value is a number of 256 bits.
    pub proof fn lemma_range(&self)
        ensures
            0 <= self@ < wide_limit(),
    {
    }

    /// `self / d` rounded up.
    pub(crate) fn ceil_div(self, d: U256) -> (r: U256)
        requires
            0 < d@,
            self@ + d@ <= wide_limit(),
        ensures
            r@ == ceil_div(self@, d@),
    {
        proof {
            lemma_ceil(self@, d@);
            self.lemma_range();
        }
        // `n + (d - 1)` is `n + d - 1` without leaving 256 bits on the way.
        self.plus(d.minus(U256::from_u128(1))).over(d)
    }
}

} // verus!
