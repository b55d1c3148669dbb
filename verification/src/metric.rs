//! Measured quantities.
//!
//! A metric is an IEEE 754 binary64 number, held by its bit pattern. The
//! library orders metrics and tests them against limits; it does not compute
//! with them.

use vstd::prelude::*;

verus! {

/// An IEEE 754 binary64 number, by its bits.
#[derive(Debug, Clone, Copy, PartialEq, Eq, Structural)]
pub struct Metric {
    pub bits: u64,
}

/// The sign bit.
pub const SIGN: u64 = 0x8000_0000_0000_0000;

/// The magnitude of an infinity. Numbers lie below it, what is not a number
/// above it.
pub const INFINITE: u64 = 0x7ff0_0000_0000_0000;

impl Metric {
    /// Zero.
    pub open spec fn zero() -> Metric {
        Metric { bits: 0 }
    }

    /// The bits without the sign.
    pub open spec fn magnitude(self) -> u64 {
        if self.bits >= SIGN {
            (self.bits - SIGN) as u64
        } else {
            self.bits
        }
    }

    /// Where the metric stands among the numbers: for two numbers of one sign
    /// the bits grow with the magnitude, and the two zeros are one.
    pub open spec fn rank(self) -> int {
        if self.bits >= SIGN {
            -(self.magnitude() as int)
        } else {
            self.magnitude() as int
        }
    }

    pub open spec fn not_a_number(self) -> bool {
        self.magnitude() > INFINITE
    }

    pub open spec fn finite(self) -> bool {
        self.magnitude() < INFINITE
    }

    /// `self < other`.
    pub open spec fn below(self, other: Metric) -> bool {
        !self.not_a_number() && !other.not_a_number() && self.rank() < other.rank()
    }

    /// `self <= other`.
    pub open spec fn at_most(self, other: Metric) -> bool {
        !self.not_a_number() && !other.not_a_number() && self.rank() <= other.rank()
    }

    fn split(&self) -> (parts: (bool, u64))
        ensures
            parts.0 == (self.bits >= SIGN),
            parts.1 == self.magnitude(),
    {
        if self.bits >= SIGN {
            (true, self.bits - SIGN)
        } else {
            (false, self.bits)
        }
    }

    pub fn is_finite(&self) -> (result: bool)
        ensures
            result == self.finite(),
    {
        self.split().1 < INFINITE
    }

    /// `self < other`.
    pub fn is_below(&self, other: &Metric) -> (result: bool)
        ensures
            result == self.below(*other),
    {
        let (left_negative, left): (bool, u64) = self.split();
        let (right_negative, right): (bool, u64) = other.split();
        if left > INFINITE || right > INFINITE {
            return false;
        }
        if left_negative {
            if right_negative {
                right < left
            } else {
                left > 0 || right > 0
            }
        } else {
            !right_negative && left < right
        }
    }

    /// `self <= other`.
    pub fn is_at_most(&self, other: &Metric) -> (result: bool)
        ensures
            result == self.at_most(*other),
    {
        let (left_negative, left): (bool, u64) = self.split();
        let (right_negative, right): (bool, u64) = other.split();
        if left > INFINITE || right > INFINITE {
            return false;
        }
        if left_negative {
            !right_negative || right <= left
        } else if right_negative {
            left == 0 && right == 0
        } else {
            left <= right
        }
    }
}

/// A number is below another, above it, or they rank the same; what is not a
/// number is in no order.
pub proof fn law_metrics_are_ordered(left: Metric, right: Metric)
    ensures
        !(left.below(right) && right.below(left)),
        left.at_most(right) <==> left.below(right) || (!left.not_a_number()
            && !right.not_a_number() && left.rank() == right.rank()),
        !left.not_a_number() && !right.not_a_number() ==> left.at_most(right) || right.below(left),
        left.not_a_number() ==> !left.at_most(right) && !right.at_most(left),
{
}

impl Metric {
    /// The number that the bits stand for, in units of the smallest one above zero: the
    /// fraction where the exponent is zero, else the fraction and its hidden bit, shifted
    /// by one less than the exponent.
    pub open spec fn units(self) -> int {
        let exponent = self.magnitude() as int / 0x10_0000_0000_0000;
        let fraction = self.magnitude() as int % 0x10_0000_0000_0000;
        let size = if exponent == 0 {
            fraction
        } else {
            (0x10_0000_0000_0000 + fraction) * vstd::arithmetic::power2::pow2(
                (exponent - 1) as nat,
            )
        };
        if self.bits >= 0x8000_0000_0000_0000 {
            -size
        } else {
            size
        }
    }
}

proof fn lemma_greater_bits_greater_number(low: int, high: int)
    requires
        0 <= low < high,
    ensures
        ({
            let unit = 0x10_0000_0000_0000int;
            let size = |bits: int|
                if bits / unit == 0 {
                    bits % unit
                } else {
                    (unit + bits % unit) * vstd::arithmetic::power2::pow2((bits / unit - 1) as nat)
                };
            0 <= size(low) < size(high)
        }),
{
    let unit = 0x10_0000_0000_0000int;
    let (low_exponent, low_fraction) = (low / unit, low % unit);
    let (high_exponent, high_fraction) = (high / unit, high % unit);
    assert(low_exponent <= high_exponent);
    if low_exponent > 0 {
        let scale = vstd::arithmetic::power2::pow2((low_exponent - 1) as nat) as int;
        vstd::arithmetic::power2::lemma_pow2_pos((low_exponent - 1) as nat);
        if low_exponent == high_exponent {
            assert((unit + low_fraction) * scale < (unit + high_fraction) * scale)
                by (nonlinear_arith)
                requires
                    scale > 0,
                    low_fraction < high_fraction,
            ;
        } else {
            let greater = vstd::arithmetic::power2::pow2((high_exponent - 1) as nat) as int;
            vstd::arithmetic::power2::lemma_pow2_unfold(low_exponent as nat);
            if low_exponent < high_exponent - 1 {
                vstd::arithmetic::power2::lemma_pow2_strictly_increases(
                    low_exponent as nat,
                    (high_exponent - 1) as nat,
                );
            }
            assert(greater >= 2 * scale);
            assert((unit + low_fraction) * scale < (unit + high_fraction) * greater)
                by (nonlinear_arith)
                requires
                    scale > 0,
                    greater >= 2 * scale,
                    0 <= low_fraction < unit,
                    0 <= high_fraction,
                    unit > 0,
            ;
        }
        assert((unit + low_fraction) * scale >= 0) by (nonlinear_arith)
            requires
                scale > 0,
                low_fraction >= 0,
                unit > 0,
        ;
    } else if high_exponent > 0 {
        let greater = vstd::arithmetic::power2::pow2((high_exponent - 1) as nat) as int;
        vstd::arithmetic::power2::lemma_pow2_pos((high_exponent - 1) as nat);
        assert((unit + high_fraction) * greater >= unit) by (nonlinear_arith)
            requires
                greater >= 1,
                high_fraction >= 0,
                unit > 0,
        ;
    }
}

/// Two numbers are compared by what they stand for.
pub proof fn law_metrics_compare_as_numbers(left: Metric, right: Metric)
    requires
        !left.not_a_number(),
        !right.not_a_number(),
    ensures
        left.below(right) <==> left.units() < right.units(),
        left.at_most(right) <==> left.units() <= right.units(),
        left.rank() >= 0 <==> left.units() >= 0,
        left.rank() == 0 <==> left.units() == 0,
{
    let (a, b) = (left.magnitude() as int, right.magnitude() as int);
    if a < b {
        lemma_greater_bits_greater_number(a, b);
    } else if b < a {
        lemma_greater_bits_greater_number(b, a);
    }
    if a > 0 {
        lemma_greater_bits_greater_number(0, a);
    }
    if b > 0 {
        lemma_greater_bits_greater_number(0, b);
    }
}

/// What is not a number is neither below, nor at most, anything else, and nothing is at
/// most it. Infinities are numbers that are not finite.
pub proof fn law_what_is_not_a_number_compares_with_nothing(metric: Metric, other: Metric)
    requires
        metric.not_a_number(),
    ensures
        metric.bits % 0x8000_0000_0000_0000 > 0x7ff0_0000_0000_0000,
        !metric.below(other) && !other.below(metric),
        !metric.at_most(other) && !other.at_most(metric),
        !metric.finite(),
        !(Metric { bits: 0x7ff0_0000_0000_0000 }).finite(),
        !(Metric { bits: 0xfff0_0000_0000_0000 }).finite(),
        !(Metric { bits: 0x7ff0_0000_0000_0000 }).not_a_number(),
        (Metric { bits: 0x7fef_ffff_ffff_ffff }).finite(),
{
}

} // verus!
