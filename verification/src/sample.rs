//! A signal sample, held as the bit pattern of an IEEE 754 binary32 number.
//!
//! The library never does floating-point arithmetic. It stores samples,
//! moves them, and compares them against a threshold; the comparison is
//! defined here on the bit pattern.

use vstd::prelude::*;

verus! {

/// The bits below the sign bit: exponent and fraction.
pub const MAGNITUDE_SPAN: u32 = 0x8000_0000;

/// The magnitude of infinity. Every larger magnitude is a NaN.
pub const INFINITY_MAGNITUDE: u32 = 0x7f80_0000;

/// One sample value.
#[derive(Clone, Copy, Debug)]
pub struct Sample {
    pub bits: u32,
}

impl Sample {
    /// Exponent and fraction, read as an unsigned integer. For numbers that
    /// are not NaN it grows with the absolute value.
    pub open spec fn magnitude(self) -> int {
        self.bits as int % MAGNITUDE_SPAN as int
    }

    /// True when the sign bit is set.
    pub open spec fn is_negative(self) -> bool {
        self.bits >= MAGNITUDE_SPAN
    }

    /// True when the pattern encodes no number.
    pub open spec fn is_nan(self) -> bool {
        self.magnitude() > INFINITY_MAGNITUDE as int
    }

    /// Position of the value on the number line: two values that are not
    /// NaN compare as their ranks do. Both zeros have rank 0.
    pub open spec fn rank(self) -> int {
        if self.is_negative() {
            -self.magnitude()
        } else {
            self.magnitude()
        }
    }

    /// `self < other` as IEEE 754 defines it: false when either is NaN.
    pub open spec fn lt(self, other: Sample) -> bool {
        !self.is_nan() && !other.is_nan() && self.rank() < other.rank()
    }

    /// `self > other` as IEEE 754 defines it: false when either is NaN.
    pub open spec fn gt(self, other: Sample) -> bool {
        other.lt(self)
    }

    /// The sample with the given bit pattern.
    pub fn from_bits(bits: u32) -> (s: Sample)
        ensures
            s.bits == bits,
    {
        Sample { bits }
    }

    /// The bit pattern of the sample.
    pub fn to_bits(self) -> (bits: u32)
        ensures
            bits == self.bits,
    {
        self.bits
    }

    /// Positive zero.
    pub fn zero() -> (s: Sample)
        ensures
            s.bits == 0,
            s.rank() == 0,
            !s.is_nan(),
    {
        Sample { bits: 0 }
    }

    /// Whether the pattern encodes no number.
    pub fn is_not_a_number(self) -> (r: bool)
        ensures
            r == self.is_nan(),
    {
        self.bits % MAGNITUDE_SPAN > INFINITY_MAGNITUDE
    }

    /// Whether `self` is below `other`.
    pub fn is_below(self, other: Sample) -> (r: bool)
        ensures
            r == self.lt(other),
    {
        if self.is_not_a_number() || other.is_not_a_number() {
            return false;
        }
        let a: u32 = self.bits % MAGNITUDE_SPAN;
        let b: u32 = other.bits % MAGNITUDE_SPAN;
        let a_neg: bool = self.bits >= MAGNITUDE_SPAN;
        let b_neg: bool = other.bits >= MAGNITUDE_SPAN;
        if a_neg {
            if b_neg {
                b < a
            } else {
                a > 0 || b > 0
            }
        } else {
            if b_neg {
                false
            } else {
                a < b
            }
        }
    }

    /// Whether `self` is above `other`.
    pub fn is_above(self, other: Sample) -> (r: bool)
        ensures
            r == self.gt(other),
    {
        other.is_below(self)
    }
}

/// Ordering samples is strict: nothing is below itself, and of two samples
/// at most one is below the other.
pub proof fn lemma_order_is_strict(a: Sample, b: Sample)
    ensures
        !a.lt(a),
        !(a.lt(b) && b.lt(a)),
        !(a.lt(b) && a.gt(b)),
{
}

/// Ordering samples is transitive.
pub proof fn lemma_order_is_transitive(a: Sample, b: Sample, c: Sample)
    requires
        a.lt(b),
        b.lt(c),
    ensures
        a.lt(c),
{
}

} // verus!
