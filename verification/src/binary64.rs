//! Real numbers as binary64 bit patterns.
//!
//! A real attribute value or bound is carried as the 64 bits of its
//! double-precision encoding: one sign bit, eleven exponent bits, fifty-two
//! fraction bits. Ordering two such patterns needs no arithmetic on the
//! numbers themselves: among patterns that are numbers, the sign and the
//! remaining 63 bits read as an integer order them as the numbers are ordered.

use vstd::prelude::*;

verus! {

/// The sign bit of a binary64 pattern.
pub const SIGN_BIT: u64 = 0x8000_0000_0000_0000;

/// The magnitude bits of an infinity: all exponent bits set, no fraction bit.
pub const INFINITY_BITS: u64 = 0x7ff0_0000_0000_0000;

/// A double-precision number, held as its bit pattern.
#[derive(Debug, Clone, Copy, PartialEq, Eq, Structural)]
pub struct Binary64 {
    pub bits: u64,
}

impl Binary64 {
    /// The pattern without its sign bit.
    pub open spec fn magnitude(self) -> int {
        if self.bits >= SIGN_BIT {
            self.bits - SIGN_BIT
        } else {
            self.bits as int
        }
    }

    /// The sign bit is set.
    pub open spec fn negative(self) -> bool {
        self.bits >= SIGN_BIT
    }

    /// The pattern is not a number: all exponent bits set and some fraction bit.
    pub open spec fn nan(self) -> bool {
        self.magnitude() > INFINITY_BITS
    }

    /// An integer that orders the patterns that are numbers as the numbers
    /// themselves are ordered. Both zeros map to 0.
    pub open spec fn ordinal(self) -> int {
        if self.negative() {
            -self.magnitude()
        } else {
            self.magnitude()
        }
    }

    /// `self <= other` as numbers. False when either is not a number.
    pub open spec fn le(self, other: Binary64) -> bool {
        !self.nan() && !other.nan() && self.ordinal() <= other.ordinal()
    }

    /// Wraps a bit pattern.
    pub fn from_bits(bits: u64) -> (number: Binary64)
        ensures
            number.bits == bits,
    {
        Binary64 { bits }
    }

    /// The bit pattern.
    pub fn to_bits(self) -> (bits: u64)
        ensures
            bits == self.bits,
    {
        self.bits
    }

    /// Whether the pattern is not a number.
    pub fn is_nan(self) -> (answer: bool)
        ensures
            answer == self.nan(),
    {
        if self.bits >= SIGN_BIT {
            self.bits - SIGN_BIT > INFINITY_BITS
        } else {
            self.bits > INFINITY_BITS
        }
    }

    /// Whether `self <= other` as numbers.
    pub fn is_le(self, other: Binary64) -> (answer: bool)
        ensures
            answer == self.le(other),
    {
        if self.is_nan() || other.is_nan() {
            return false;
        }
        let self_negative = self.bits >= SIGN_BIT;
        let other_negative = other.bits >= SIGN_BIT;
        if self_negative {
            if other_negative {
                other.bits <= self.bits
            } else {
                true
            }
        } else {
            if other_negative {
                self.bits == 0 && other.bits == SIGN_BIT
            } else {
                self.bits <= other.bits
            }
        }
    }

    /// Whether `self` lies within the bounds that are present.
    pub fn is_within(self, min: Option<Binary64>, max: Option<Binary64>) -> (answer: bool)
        ensures
            answer == self.within(min, max),
    {
        let above = match min {
            Some(low) => low.is_le(self),
            None => true,
        };
        let below = match max {
            Some(high) => self.is_le(high),
            None => true,
        };
        above && below
    }

    /// `self` lies within the bounds that are present.
    pub open spec fn within(self, min: Option<Binary64>, max: Option<Binary64>) -> bool {
        &&& min matches Some(low) ==> low.le(self)
        &&& max matches Some(high) ==> self.le(high)
    }
}

/// Among numbers the order is reflexive, transitive and total, and two
/// numbers that bound each other differ at most in the sign of zero.
pub proof fn lemma_real_order(a: Binary64, b: Binary64, c: Binary64)
    ensures
        !a.nan() ==> a.le(a),
        a.le(b) && b.le(c) ==> a.le(c),
        !a.nan() && !b.nan() ==> a.le(b) || b.le(a),
        a.le(b) && b.le(a) ==> a == b || (a.magnitude() == 0 && b.magnitude() == 0),
{
}

} // verus!
