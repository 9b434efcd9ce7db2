//! Numbers as the library carries them.
//!
//! Metric values and time stamps are IEEE 754 double-precision numbers.
//! The library never does arithmetic on them: it passes values through
//! and puts time stamps in order. Both need no more than the 64 bits of
//! the number, so that is what a `Scalar` holds.

use vstd::arithmetic::div_mod::lemma_div_is_ordered_by_denominator;
use vstd::arithmetic::power2::{lemma2_to64, lemma_pow2_strictly_increases, pow2};
use vstd::bits::lemma_u64_shr_is_div;
use vstd::prelude::*;

verus! {

/// The sign bit of a double.
pub const SIGN_BIT: u64 = 0x8000_0000_0000_0000;

/// The bit pattern of positive infinity: every exponent bit set, no
/// fraction bit. A magnitude above it is not a number.
pub const INFINITY_BITS: u64 = 0x7ff0_0000_0000_0000;

/// The number of fraction patterns: 2 to the 52. The magnitude of a
/// double is its exponent field times this, plus its fraction field.
pub const FRACTION_RANGE: u64 = 0x10_0000_0000_0000;

/// The exponent field of 1: a number is the fraction field with a
/// leading one, read as a binary number below 2, times 2 to the
/// exponent field less this.
pub const EXPONENT_BIAS: u64 = 1023;

/// A double-precision number, held by its bit pattern.
///
/// `==` on scalars compares bit patterns: it tells `-0` from `+0`, which
/// `order_key` does not.
#[derive(Clone, Copy, Debug, PartialEq, Eq, Structural)]
pub struct Scalar {
    pub bits: u64,
}

impl Scalar {
    /// The pattern without its sign bit.
    pub open spec fn magnitude(self) -> int {
        if self.bits >= SIGN_BIT {
            self.bits - SIGN_BIT
        } else {
            self.bits as int
        }
    }

    /// The sign bit is set.
    pub open spec fn sign(self) -> bool {
        self.bits >= SIGN_BIT
    }

    /// The pattern encodes no number.
    pub open spec fn nan(self) -> bool {
        self.magnitude() > INFINITY_BITS
    }

    /// An integer that orders scalars as the numbers they encode.
    ///
    /// Doubles are sign and magnitude, and among numbers of one sign the
    /// magnitudes order as the patterns do. So the key of a non-negative
    /// number is its magnitude and the key of a negative one the
    /// magnitude negated; both zeros get key 0 and compare equal. What
    /// is not a number has no place in that order; it is put above
    /// positive infinity, all such patterns on one key.
    pub open spec fn order_key(self) -> int {
        if self.nan() {
            INFINITY_BITS + 1
        } else if self.sign() {
            -self.magnitude()
        } else {
            self.magnitude()
        }
    }

    /// The exponent field.
    pub open spec fn exponent(self) -> int {
        self.magnitude() / (FRACTION_RANGE as int)
    }

    /// The fraction field.
    pub open spec fn fraction(self) -> int {
        self.magnitude() % (FRACTION_RANGE as int)
    }

    /// The number as a whole number of 32 bits without sign: its whole
    /// part where that fits, the nearest bound where it does not, and 0
    /// for what is not a number.
    ///
    /// A number below 1 has the whole part 0. From 1 on the number is
    /// the fraction field with a leading one, shifted by the exponent:
    /// its whole part is what stands left of the point, and from an
    /// exponent of 32 on that is too much for 32 bits.
    pub open spec fn truncated(self) -> int {
        if self.nan() || self.sign() || self.exponent() < EXPONENT_BIAS {
            0
        } else if self.exponent() >= EXPONENT_BIAS + 32 {
            u32::MAX as int
        } else {
            (FRACTION_RANGE + self.fraction()) / (pow2((EXPONENT_BIAS + 52 - self.exponent()) as nat) as int)
        }
    }

    /// The scalar with the given bit pattern.
    pub fn from_bits(bits: u64) -> (s: Scalar)
        ensures
            s.bits == bits,
    {
        Scalar { bits }
    }

    /// The bit pattern.
    pub fn to_bits(self) -> (bits: u64)
        ensures
            bits == self.bits,
    {
        self.bits
    }

    /// Positive zero, the value that stands in for an absent metric.
    pub fn zero() -> (s: Scalar)
        ensures
            s.bits == 0,
            s.order_key() == 0,
    {
        Scalar { bits: 0 }
    }

    /// Whether the pattern encodes no number.
    pub fn is_nan(self) -> (r: bool)
        ensures
            r == self.nan(),
    {
        let magnitude: u64 = if self.bits >= SIGN_BIT {
            self.bits - SIGN_BIT
        } else {
            self.bits
        };
        magnitude > INFINITY_BITS
    }

    /// The order key as a machine integer.
    pub fn sort_key(self) -> (k: i64)
        ensures
            k == self.order_key(),
    {
        if self.bits >= SIGN_BIT {
            let magnitude: u64 = self.bits - SIGN_BIT;
            if magnitude > INFINITY_BITS {
                0x7ff0_0000_0000_0001i64
            } else {
                let m: i64 = magnitude as i64;
                -m
            }
        } else if self.bits > INFINITY_BITS {
            0x7ff0_0000_0000_0001i64
        } else {
            self.bits as i64
        }
    }

    /// Whether `self` comes no later than `other` in the order of
    /// `order_key`.
    pub fn le(self, other: Scalar) -> (r: bool)
        ensures
            r == (self.order_key() <= other.order_key()),
    {
        self.sort_key() <= other.sort_key()
    }

    /// The number as a whole number of 32 bits without sign.
    pub fn to_u32(self) -> (n: u32)
        ensures
            n == self.truncated(),
    {
        if self.bits >= SIGN_BIT || self.bits > INFINITY_BITS {
            return 0;
        }
        let exponent: u64 = self.bits / FRACTION_RANGE;
        let fraction: u64 = self.bits % FRACTION_RANGE;
        if exponent < EXPONENT_BIAS {
            0
        } else if exponent >= EXPONENT_BIAS + 32 {
            u32::MAX
        } else {
            let shift: u64 = EXPONENT_BIAS + 52 - exponent;
            let digits: u64 = FRACTION_RANGE + fraction;
            let whole: u64 = digits >> shift;
            proof {
                lemma_u64_shr_is_div(digits, shift);
                lemma2_to64();
                if shift > 21 {
                    lemma_pow2_strictly_increases(21, shift as nat);
                }
                lemma_div_is_ordered_by_denominator(
                    digits as int,
                    pow2(21) as int,
                    pow2(shift as nat) as int,
                );
            }
            whole as u32
        }
    }

    /// Whether the scalar encodes a number above zero.
    pub fn is_positive(self) -> (r: bool)
        ensures
            r == (!self.nan() && self.order_key() > 0),
    {
        !self.is_nan() && self.sort_key() > 0
    }
}

} // verus!
