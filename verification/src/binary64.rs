//! IEEE-754 binary64 numbers, held by their bit patterns and compared
//! without floating-point arithmetic.
//!
//! A number's value is defined from its three fields as the format defines
//! it. The comparisons are stated over values, computed on bit patterns, and
//! proved to agree.

use vstd::arithmetic::power2::{
    lemma_pow2_pos,
    lemma_pow2_strictly_increases,
    lemma_pow2_unfold,
    pow2,
};
use vstd::prelude::*;

verus! {

/// The number of fractions under one exponent: two to the power 52.
pub const FRACTION_SPAN: u64 = 0x10_0000_0000_0000;

/// The sign bit of a binary64 bit pattern.
pub const SIGN_MASK: u64 = 0x8000_0000_0000_0000;

/// The bit pattern of positive infinity; a larger magnitude is a NaN.
pub const INFINITY_BITS: u64 = 0x7ff0_0000_0000_0000;

/// A binary64 number, given by its 64 bits: one sign bit, eleven exponent
/// bits, fifty-two fraction bits. Two of them are equal under `==` when
/// their bits are; `ge`, `le` and `gt` compare them as numbers.
#[derive(Clone, Copy, Debug, PartialEq, Eq, Structural)]
pub struct Binary64 {
    pub bits: u64,
}

impl Binary64 {
    /// The bit pattern with the sign bit cleared.
    pub open spec fn magnitude(self) -> int {
        if self.bits >= SIGN_MASK {
            self.bits - SIGN_MASK
        } else {
            self.bits as int
        }
    }

    /// Whether the bit pattern encodes no number.
    pub open spec fn nan(self) -> bool {
        self.magnitude() > INFINITY_BITS
    }

    /// The exponent field: the eleven bits behind the sign bit.
    pub open spec fn exponent(self) -> int {
        self.magnitude() / (FRACTION_SPAN as int)
    }

    /// The fraction field: the lowest fifty-two bits.
    pub open spec fn fraction(self) -> int {
        self.magnitude() % (FRACTION_SPAN as int)
    }

    /// The absolute value of the number, in units of the smallest positive
    /// number that the format holds, two to the power -1074. A number with
    /// exponent field zero is its fraction in these units; any other is its
    /// fraction and the hidden leading bit, doubled once for each step of the
    /// exponent beyond the first. For an infinity this is beyond the size of
    /// every number; for a NaN it has no meaning.
    pub open spec fn size(self) -> int {
        if self.exponent() == 0 {
            self.fraction()
        } else {
            (FRACTION_SPAN + self.fraction()) * pow2((self.exponent() - 1) as nat)
        }
    }

    /// The value of the number in the same units, with its sign.
    pub open spec fn value(self) -> int {
        if self.bits >= SIGN_MASK {
            -self.size()
        } else {
            self.size()
        }
    }

    /// `self >= other` as the format compares: by value, and false when
    /// either is a NaN.
    pub open spec fn at_least(self, other: Binary64) -> bool {
        !self.nan() && !other.nan() && self.value() >= other.value()
    }

    /// `self <= other` as the format compares: by value, and false when
    /// either is a NaN.
    pub open spec fn at_most(self, other: Binary64) -> bool {
        !self.nan() && !other.nan() && self.value() <= other.value()
    }

    /// `self > other` as the format compares: by value, and false when
    /// either is a NaN.
    pub open spec fn exceeds(self, other: Binary64) -> bool {
        !self.nan() && !other.nan() && self.value() > other.value()
    }

    /// The magnitude with the sign of the number: an integer that is read
    /// off the bits without arithmetic, and orders the numbers as their
    /// values do.
    pub open spec fn rank(self) -> int {
        if self.bits >= SIGN_MASK {
            -self.magnitude()
        } else {
            self.magnitude()
        }
    }

    /// Of two magnitudes the greater belongs to the number of greater size.
    pub proof fn lemma_size_grows(self, other: Binary64)
        requires
            self.magnitude() < other.magnitude(),
        ensures
            0 <= self.size() < other.size(),
    {
        let span = FRACTION_SPAN as int;
        let (low_exp, low_frac) = (self.exponent(), self.fraction());
        let (high_exp, high_frac) = (other.exponent(), other.fraction());
        assert(low_exp < high_exp || (low_exp == high_exp && low_frac < high_frac)) by (
            nonlinear_arith)
            requires
                self.magnitude() < other.magnitude(),
                low_exp == self.magnitude() / span,
                low_frac == self.magnitude() % span,
                high_exp == other.magnitude() / span,
                high_frac == other.magnitude() % span,
                span == 0x10_0000_0000_0000,
        ;
        assert(0 <= low_exp && 0 <= low_frac < span && 0 <= high_frac < span) by (nonlinear_arith)
            requires
                0 <= self.magnitude(),
                0 <= other.magnitude(),
                low_exp == self.magnitude() / span,
                low_frac == self.magnitude() % span,
                high_frac == other.magnitude() % span,
                span == 0x10_0000_0000_0000,
        ;
        if low_exp == 0 {
            if high_exp > 0 {
                let high_power = pow2((high_exp - 1) as nat) as int;
                lemma_pow2_pos((high_exp - 1) as nat);
                assert(span <= (span + high_frac) * high_power) by (nonlinear_arith)
                    requires
                        1 <= high_power,
                        0 <= high_frac,
                        0 < span,
                ;
            }
        } else {
            let low_power = pow2((low_exp - 1) as nat) as int;
            let high_power = pow2((high_exp - 1) as nat) as int;
            lemma_pow2_pos((low_exp - 1) as nat);
            assert(0 <= (span + low_frac) * low_power) by (nonlinear_arith)
                requires
                    1 <= low_power,
                    0 <= low_frac,
                    0 < span,
            ;
            if low_exp == high_exp {
                assert((span + low_frac) * low_power < (span + high_frac) * low_power) by (
                    nonlinear_arith)
                    requires
                        1 <= low_power,
                        low_frac < high_frac,
                ;
            } else {
                lemma_pow2_unfold(low_exp as nat);
                if low_exp < high_exp - 1 {
                    lemma_pow2_strictly_increases(low_exp as nat, (high_exp - 1) as nat);
                }
                assert((span + low_frac) * low_power < (span + high_frac) * high_power) by (
                    nonlinear_arith)
                    requires
                        1 <= low_power,
                        2 * low_power <= high_power,
                        0 <= low_frac < span,
                        0 <= high_frac,
                ;
            }
        }
    }

    /// The rank orders the numbers as their values are ordered: of two
    /// numbers the greater has the greater rank, and numbers of one value,
    /// as the two zeros are, have one rank. So each comparison can be made on
    /// the ranks.
    pub proof fn law_rank_orders_values(self, other: Binary64)
        ensures
            (self.rank() < other.rank()) == (self.value() < other.value()),
            (self.rank() == other.rank()) == (self.value() == other.value()),
            self.at_least(other) == (!self.nan() && !other.nan() && self.rank() >= other.rank()),
            self.at_most(other) == (!self.nan() && !other.nan() && self.rank() <= other.rank()),
            self.exceeds(other) == (!self.nan() && !other.nan() && self.rank() > other.rank()),
    {
        if self.magnitude() < other.magnitude() {
            self.lemma_size_grows(other);
        } else if other.magnitude() < self.magnitude() {
            other.lemma_size_grows(self);
        }
        let zero = Binary64 { bits: 0 };
        assert(zero.size() == 0) by {
            assert(zero.exponent() == 0 && zero.fraction() == 0) by (nonlinear_arith)
                requires
                    zero.magnitude() == 0,
                    zero.exponent() == zero.magnitude() / 0x10_0000_0000_0000,
                    zero.fraction() == zero.magnitude() % 0x10_0000_0000_0000,
            ;
        }
        if self.magnitude() > 0 {
            zero.lemma_size_grows(self);
        } else {
            assert(self.exponent() == zero.exponent() && self.fraction() == zero.fraction());
        }
        if other.magnitude() > 0 {
            zero.lemma_size_grows(other);
        } else {
            assert(other.exponent() == zero.exponent() && other.fraction() == zero.fraction());
        }
    }

    /// The number with the given bit pattern.
    pub fn from_bits(bits: u64) -> (x: Binary64)
        ensures
            x.bits == bits,
    {
        Binary64 { bits }
    }

    /// The bit pattern of the number.
    pub fn to_bits(&self) -> (bits: u64)
        ensures
            bits == self.bits,
    {
        self.bits
    }

    /// Whether the number is a NaN.
    pub fn is_nan(&self) -> (r: bool)
        ensures
            r == self.nan(),
    {
        let magnitude: u64 = if self.bits >= SIGN_MASK {
            self.bits - SIGN_MASK
        } else {
            self.bits
        };
        magnitude > INFINITY_BITS
    }

    fn rank_of(&self) -> (r: i64)
        ensures
            r == self.rank(),
    {
        if self.bits >= SIGN_MASK {
            let magnitude: u64 = self.bits - SIGN_MASK;
            -(magnitude as i64)
        } else {
            self.bits as i64
        }
    }

    /// `self >= other`.
    pub fn ge(&self, other: &Binary64) -> (r: bool)
        ensures
            r == self.at_least(*other),
    {
        proof {
            self.law_rank_orders_values(*other);
        }
        !self.is_nan() && !other.is_nan() && self.rank_of() >= other.rank_of()
    }

    /// `self <= other`.
    pub fn le(&self, other: &Binary64) -> (r: bool)
        ensures
            r == self.at_most(*other),
    {
        proof {
            self.law_rank_orders_values(*other);
        }
        !self.is_nan() && !other.is_nan() && self.rank_of() <= other.rank_of()
    }

    /// `self > other`.
    pub fn gt(&self, other: &Binary64) -> (r: bool)
        ensures
            r == self.exceeds(*other),
    {
        proof {
            self.law_rank_orders_values(*other);
        }
        !self.is_nan() && !other.is_nan() && self.rank_of() > other.rank_of()
    }
}

} // verus!
