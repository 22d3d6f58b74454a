//! The plain values both pallets are written over.

use vstd::prelude::*;

verus! {

/// An amount of any asset, in its smallest unit.
pub type Balance = u128;

/// A block height.
pub type BlockNumber = u64;

/// A twenty-byte account id.
#[derive(Clone, Copy, Debug, PartialEq, Eq)]
pub struct AccountId {
    pub bytes: [u8; 20],
}

/// The native asset, or one of the registry's assets.
#[derive(Clone, Copy, Debug, PartialEq, Eq, Structural)]
pub enum AssetKind {
    Native,
    WithId(u128),
}

/// An (ordered) pair of assets.
pub type AssetPair = (AssetKind, AssetKind);

/// Whether a transfer may take the sender's account below its minimum.
#[derive(Clone, Copy, Debug, PartialEq, Eq, Structural)]
pub enum Preservation {
    /// The sender's account may be emptied and reaped.
    Expendable,
    /// The sender's account must survive the transfer.
    Preserve,
}

/// Values that can be told apart at run time, for use as table keys.
pub trait Key: Sized {
    fn same(&self, other: &Self) -> (r: bool)
        ensures
            r == (*self == *other),
    ;
}

impl Key for u32 {
    fn same(&self, other: &Self) -> (r: bool) {
        *self == *other
    }
}

impl Key for u64 {
    fn same(&self, other: &Self) -> (r: bool) {
        *self == *other
    }
}

impl Key for AssetKind {
    fn same(&self, other: &Self) -> (r: bool) {
        *self == *other
    }
}

impl Key for AccountId {
    fn same(&self, other: &Self) -> (r: bool) {
        let mut i: usize = 0;
        while i < 20
            invariant
                0 <= i <= 20,
                forall|j: int| 0 <= j < i ==> self.bytes@[j] == other.bytes@[j],
            decreases 20 - i,
        {
            if self.bytes[i] != other.bytes[i] {
                return false;
            }
            i = i + 1;
        }
        assert(self.bytes =~= other.bytes);
        true
    }
}

impl<A: Key, B: Key> Key for (A, B) {
    fn same(&self, other: &Self) -> (r: bool) {
        self.0.same(&other.0) && self.1.same(&other.1)
    }
}

} // verus!
