//! Prices as bit patterns, and their order.

use vstd::prelude::*;

verus! {

/// Bit patterns below this bound have a clear sign bit.
pub const SIGN_BIT: u64 = 0x8000_0000_0000_0000;

/// A price, held as the 64 bits of a binary64 number.
///
/// The library never computes with prices; it stores them, hands them back,
/// and compares them. The comparison is the total order of IEEE 754: negative
/// values below positive ones, `-0` below `+0`, and every bit pattern in one
/// fixed place.
#[derive(Clone, Copy, Debug, PartialEq, Eq, Structural)]
pub struct Price {
    pub bits: u64,
}

impl Price {
    /// The place of this price in the total order: a larger rank is a higher price.
    pub open spec fn rank(self) -> int {
        if self.bits < SIGN_BIT {
            self.bits + SIGN_BIT
        } else {
            u64::MAX - self.bits
        }
    }

    /// The higher of two prices, the first where they are one.
    pub open spec fn higher(self, other: Price) -> Price {
        if other.rank() > self.rank() {
            other
        } else {
            self
        }
    }

    /// The lower of two prices, the first where they are one.
    pub open spec fn lower(self, other: Price) -> Price {
        if other.rank() < self.rank() {
            other
        } else {
            self
        }
    }

    /// The price that a bit pattern stands for.
    pub fn from_bits(bits: u64) -> (p: Price)
        ensures
            p.bits == bits,
    {
        Price { bits }
    }

    /// The bit pattern of the price, as it is stored.
    pub fn to_bits(self) -> (bits: u64)
        ensures
            bits == self.bits,
    {
        self.bits
    }

    /// The rank as a machine integer.
    pub fn order_key(self) -> (k: u64)
        ensures
            k == self.rank(),
    {
        if self.bits < SIGN_BIT {
            self.bits + SIGN_BIT
        } else {
            u64::MAX - self.bits
        }
    }

    /// The higher of two prices.
    pub fn max(self, other: Price) -> (p: Price)
        ensures
            p == self.higher(other),
    {
        if other.order_key() > self.order_key() {
            other
        } else {
            self
        }
    }

    /// The lower of two prices.
    pub fn min(self, other: Price) -> (p: Price)
        ensures
            p == self.lower(other),
    {
        if other.order_key() < self.order_key() {
            other
        } else {
            self
        }
    }
}

/// No two prices share a rank: the order is total, and prices of one rank are
/// one price.
pub proof fn lemma_rank_injective(a: Price, b: Price)
    ensures
        0 <= a.rank() <= u64::MAX,
        a.rank() == b.rank() <==> a == b,
{
}

} // verus!
