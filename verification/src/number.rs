//! Floating-point numbers held as their bit patterns.
//!
//! The library carries such numbers from a setting to the arithmetic of the
//! application and back. What it decides about them itself (comparing,
//! clamping) it reads off the bits: among numbers of one sign, the IEEE 754
//! patterns are ordered like the integers they spell.

use vstd::prelude::*;

verus! {

/// The sign bit of a double-precision number.
pub const DOUBLE_SIGN: u64 = 0x8000_0000_0000_0000;

/// The pattern of the double-precision infinity.
pub const DOUBLE_INFINITY: u64 = 0x7ff0_0000_0000_0000;

/// The sign bit of a single-precision number.
pub const SINGLE_SIGN: u32 = 0x8000_0000;

/// The pattern of the single-precision infinity.
pub const SINGLE_INFINITY: u32 = 0x7f80_0000;

/// A double-precision number.
#[derive(Clone, Copy, Debug, PartialEq, Eq, Structural)]
pub struct Double {
    pub bits: u64,
}

/// The pattern of 0.0.
pub const ZERO_BITS: u64 = 0;

/// The pattern of 1.0.
pub const ONE_BITS: u64 = 0x3ff0_0000_0000_0000;

impl Double {
    /// True when the sign bit is set.
    pub open spec fn is_negative(self) -> bool {
        self.bits >= DOUBLE_SIGN
    }

    /// The pattern without its sign bit.
    pub open spec fn magnitude(self) -> int {
        if self.is_negative() {
            self.bits - DOUBLE_SIGN
        } else {
            self.bits as int
        }
    }

    /// True of the patterns that are no number.
    pub open spec fn is_nan(self) -> bool {
        self.magnitude() > DOUBLE_INFINITY
    }

    /// The place of a number among all the numbers, both zeros sharing one.
    pub open spec fn rank(self) -> int {
        if self.is_negative() {
            -self.magnitude()
        } else {
            self.magnitude()
        }
    }

    /// The numeric `<`: false whenever one side is no number.
    pub open spec fn below(self, other: Double) -> bool {
        !self.is_nan() && !other.is_nan() && self.rank() < other.rank()
    }

    /// The numeric `<`.
    pub fn is_below(self, other: Double) -> (b: bool)
        ensures
            b == self.below(other),
    {
        let a_negative: bool = self.bits >= DOUBLE_SIGN;
        let b_negative: bool = other.bits >= DOUBLE_SIGN;
        let a: u64 = if a_negative {
            self.bits - DOUBLE_SIGN
        } else {
            self.bits
        };
        let b: u64 = if b_negative {
            other.bits - DOUBLE_SIGN
        } else {
            other.bits
        };
        if a > DOUBLE_INFINITY || b > DOUBLE_INFINITY {
            false
        } else if a_negative && b_negative {
            b < a
        } else if a_negative {
            a > 0 || b > 0
        } else if b_negative {
            false
        } else {
            a < b
        }
    }

    /// What `clamped` returns: the nearest bound of a number outside
    /// `low..=high`, everything else unchanged.
    pub open spec fn clamped_spec(self, low: Double, high: Double) -> Double {
        if self.below(low) {
            low
        } else if high.below(self) {
            high
        } else {
            self
        }
    }

    /// Brings a number outside `low..=high` to the nearest bound.
    pub fn clamped(self, low: Double, high: Double) -> (r: Double)
        ensures
            r == self.clamped_spec(low, high),
    {
        if self.is_below(low) {
            low
        } else if high.is_below(self) {
            high
        } else {
            self
        }
    }
}

/// A single-precision number.
#[derive(Clone, Copy, Debug, PartialEq, Eq, Structural)]
pub struct Single {
    pub bits: u32,
}

impl Single {
    /// True of both zeros.
    pub open spec fn is_zero_spec(self) -> bool {
        self.bits == 0 || self.bits == SINGLE_SIGN
    }

    /// True of the numbers above zero.
    pub open spec fn is_positive_spec(self) -> bool {
        0 < self.bits <= SINGLE_INFINITY
    }

    /// The numeric `== 0`.
    #[verifier::when_used_as_spec(is_zero_spec)]
    pub fn is_zero(self) -> (b: bool)
        ensures
            b == self.is_zero_spec(),
    {
        self.bits == 0 || self.bits == SINGLE_SIGN
    }

    /// The numeric `> 0`.
    #[verifier::when_used_as_spec(is_positive_spec)]
    pub fn is_positive(self) -> (b: bool)
        ensures
            b == self.is_positive_spec(),
    {
        0 < self.bits && self.bits <= SINGLE_INFINITY
    }
}

} // verus!
