//! Real numbers as the library carries them.
//!
//! Every observed value, rule strength and correlation coefficient is an IEEE 754
//! double-precision number. The library never computes with such a number; it stores it,
//! hands it on, and compares it. All three can be done exactly on the 64-bit pattern of
//! the number, so that pattern is what the library holds. Sums, products, quotients and
//! square roots are left to the caller.

use vstd::prelude::*;

verus! {

/// Pattern of `+0.0`.
pub const ZERO_BITS: u64 = 0;

/// Pattern of `0.5`.
pub const HALF_BITS: u64 = 0x3FE0_0000_0000_0000;

/// Pattern of `1.0`.
pub const ONE_BITS: u64 = 0x3FF0_0000_0000_0000;

/// Pattern of `-1.0`.
pub const MINUS_ONE_BITS: u64 = 0xBFF0_0000_0000_0000;

/// Pattern of positive infinity; every larger magnitude is a NaN.
pub const INFINITY_BITS: u64 = 0x7FF0_0000_0000_0000;

/// The sign bit, which is also the pattern of `-0.0`.
pub const SIGN_BIT: u64 = 0x8000_0000_0000_0000;

/// A double-precision number, held as its IEEE 754 bit pattern.
#[derive(Clone, Copy, Debug, PartialEq, Eq, Structural)]
pub struct Scalar {
    pub bits: u64,
}

impl Scalar {
    /// The pattern with the sign bit cleared: the pattern of the absolute value.
    pub open spec fn magnitude(self) -> int {
        if self.bits >= SIGN_BIT {
            self.bits - SIGN_BIT
        } else {
            self.bits as int
        }
    }

    /// Whether the sign bit is set.
    pub open spec fn is_negative(self) -> bool {
        self.bits >= SIGN_BIT
    }

    /// Whether the pattern encodes no number.
    pub open spec fn is_nan(self) -> bool {
        self.magnitude() > INFINITY_BITS
    }

    /// An integer that orders the numbers as their values do: for `a` and `b` that are not
    /// NaN, `a < b` as numbers exactly when `a.rank() < b.rank()`. Both zeros have rank 0.
    pub open spec fn rank(self) -> int {
        if self.is_negative() {
            -self.magnitude()
        } else {
            self.magnitude()
        }
    }

    /// Whether the number lies in the closed interval from 0 to 1.
    pub open spec fn in_unit_interval(self) -> bool {
        !self.is_nan() && 0 <= self.rank() <= ONE_BITS
    }

    /// Whether the number lies in the interval from 0 to 1 without its upper end.
    pub open spec fn in_half_open_unit_interval(self) -> bool {
        !self.is_nan() && 0 <= self.rank() < ONE_BITS
    }

    /// The nearest number in the closed interval from 0 to 1. A NaN has no nearest number
    /// and goes to zero, as it does when the larger of it and 0 is taken first and the
    /// smaller of that and 1 second.
    pub open spec fn clamped(self) -> Scalar {
        if self.is_nan() || self.rank() <= 0 {
            Scalar { bits: ZERO_BITS }
        } else if self.rank() >= ONE_BITS {
            Scalar { bits: ONE_BITS }
        } else {
            self
        }
    }

    /// Whether the number lies in the closed interval from -1 to 1.
    pub open spec fn in_signed_unit_interval(self) -> bool {
        !self.is_nan() && -ONE_BITS <= self.rank() <= ONE_BITS
    }

    /// The nearest number in the closed interval from -1 to 1. A NaN has no nearest
    /// number and goes to zero.
    pub open spec fn clamped_signed(self) -> Scalar {
        if self.is_nan() {
            Scalar { bits: ZERO_BITS }
        } else if self.rank() > ONE_BITS {
            Scalar { bits: ONE_BITS }
        } else if self.rank() < -ONE_BITS {
            Scalar { bits: MINUS_ONE_BITS }
        } else {
            self
        }
    }

    /// Whether the absolute value is greater than one half. A NaN is greater than nothing.
    pub open spec fn magnitude_exceeds_half(self) -> bool {
        !self.is_nan() && self.magnitude() > HALF_BITS
    }

    /// Clamps the number to the closed interval from 0 to 1.
    pub fn clamp_unit(self) -> (r: Scalar)
        ensures
            r == self.clamped(),
            r.in_unit_interval(),
            self.in_unit_interval() && !self.is_negative() ==> r == self,
    {
        if self.bits >= SIGN_BIT || self.bits > INFINITY_BITS {
            Scalar { bits: ZERO_BITS }
        } else if self.bits >= ONE_BITS {
            Scalar { bits: ONE_BITS }
        } else {
            self
        }
    }

    /// Clamps the number to the closed interval from -1 to 1.
    pub fn clamp_signed_unit(self) -> (r: Scalar)
        ensures
            r == self.clamped_signed(),
            r.in_signed_unit_interval(),
            self.in_signed_unit_interval() ==> r == self,
    {
        let negative: bool = self.bits >= SIGN_BIT;
        let magnitude: u64 = if negative {
            self.bits - SIGN_BIT
        } else {
            self.bits
        };
        if magnitude > INFINITY_BITS {
            Scalar { bits: ZERO_BITS }
        } else if magnitude > ONE_BITS {
            if negative {
                Scalar { bits: MINUS_ONE_BITS }
            } else {
                Scalar { bits: ONE_BITS }
            }
        } else {
            self
        }
    }

    /// Tells whether the absolute value is greater than one half.
    pub fn exceeds_half(self) -> (r: bool)
        ensures
            r == self.magnitude_exceeds_half(),
    {
        let magnitude: u64 = if self.bits >= SIGN_BIT {
            self.bits - SIGN_BIT
        } else {
            self.bits
        };
        HALF_BITS < magnitude && magnitude <= INFINITY_BITS
    }
}

} // verus!
