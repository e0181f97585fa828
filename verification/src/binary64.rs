//! Binary floating-point numbers as plain bit patterns.
//!
//! Coordinates, areas, opacities and physical sizes reach the library as IEEE 754
//! double-precision numbers. The library only ever compares them, so it keeps the
//! bit pattern and compares that; what a comparison means is stated over the exact
//! value that the pattern encodes.

use vstd::arithmetic::power2;
use vstd::prelude::*;

verus! {

/// The bit pattern of positive infinity; larger magnitudes are not numbers.
pub const INFINITY_BITS: u64 = 0x7ff0_0000_0000_0000;

/// The bit that holds the sign.
pub const SIGN_BIT: u64 = 0x8000_0000_0000_0000;

/// A double-precision number, held as its bit pattern.
#[derive(Debug, Clone, Copy, PartialEq, Eq, Structural)]
pub struct Binary64 {
    /// Sign, exponent and fraction, from the highest bit down.
    pub bits: u64,
}

/// The value of the non-negative pattern `magnitude`, counted in the smallest
/// positive number that the format can hold. Infinity counts as the number that
/// would follow the largest finite one.
pub open spec fn magnitude_units(magnitude: nat) -> nat {
    let exponent: nat = magnitude / 0x10_0000_0000_0000;
    let fraction: nat = magnitude % 0x10_0000_0000_0000;
    if exponent == 0 {
        fraction
    } else {
        (0x10_0000_0000_0000 + fraction) * power2::pow2((exponent - 1) as nat)
    }
}

/// A larger pattern stands for a larger value.
pub proof fn lemma_magnitude_order(smaller: nat, larger: nat)
    requires
        smaller < larger,
    ensures
        magnitude_units(smaller) < magnitude_units(larger),
{
    let unit: nat = 0x10_0000_0000_0000;
    let e1 = smaller / unit;
    let f1 = smaller % unit;
    let e2 = larger / unit;
    let f2 = larger % unit;
    assert(e1 <= e2);
    if e1 == e2 {
        if e1 > 0 {
            let p = power2::pow2((e1 - 1) as nat);
            power2::lemma_pow2_pos((e1 - 1) as nat);
            assert((unit + f1) * p < (unit + f2) * p) by (nonlinear_arith)
                requires
                    f1 < f2,
                    p > 0,
            ;
        }
    } else {
        let q = power2::pow2((e2 - 1) as nat);
        power2::lemma_pow2_pos((e2 - 1) as nat);
        assert(unit * q <= (unit + f2) * q) by (nonlinear_arith)
            requires
                q > 0,
                f2 >= 0,
        ;
        if e1 == 0 {
            assert(unit <= unit * q) by (nonlinear_arith)
                requires
                    q >= 1,
                    unit > 0,
            ;
        } else {
            let p = power2::pow2((e1 - 1) as nat);
            power2::lemma_pow2_pos((e1 - 1) as nat);
            power2::lemma_pow2_unfold(e1);
            if e1 < e2 - 1 {
                power2::lemma_pow2_strictly_increases(e1, (e2 - 1) as nat);
            }
            assert(2 * p <= q);
            assert((unit + f1) * p < unit * q) by (nonlinear_arith)
                requires
                    f1 < unit,
                    0 < p,
                    2 * p <= q,
            ;
        }
    }
}

/// Patterns and values are in the same order.
pub proof fn lemma_magnitude_order_iff(first: nat, second: nat)
    ensures
        first < second <==> magnitude_units(first) < magnitude_units(second),
        first == second <==> magnitude_units(first) == magnitude_units(second),
{
    if first < second {
        lemma_magnitude_order(first, second);
    } else if second < first {
        lemma_magnitude_order(second, first);
    }
}

impl Binary64 {
    /// Whether the sign bit is set.
    pub open spec fn is_negative(self) -> bool {
        self.bits >= SIGN_BIT
    }

    /// The pattern without its sign bit.
    pub open spec fn magnitude(self) -> nat {
        if self.bits >= SIGN_BIT {
            (self.bits - SIGN_BIT) as nat
        } else {
            self.bits as nat
        }
    }

    /// Whether the pattern stands for no number at all.
    pub open spec fn is_nan(self) -> bool {
        self.magnitude() > INFINITY_BITS
    }

    /// Whether the pattern stands for a number other than the infinities.
    pub open spec fn finite(self) -> bool {
        self.magnitude() < INFINITY_BITS
    }

    /// The exact value, in units of the smallest positive number.
    pub open spec fn units(self) -> int {
        if self.is_negative() {
            -(magnitude_units(self.magnitude()) as int)
        } else {
            magnitude_units(self.magnitude()) as int
        }
    }

    /// Numeric order: false as soon as one side is not a number.
    pub open spec fn less(self, other: Binary64) -> bool {
        !self.is_nan() && !other.is_nan() && self.units() < other.units()
    }

    /// Numeric equality: the two zeros are equal, and what is not a number equals nothing.
    pub open spec fn same(self, other: Binary64) -> bool {
        !self.is_nan() && !other.is_nan() && self.units() == other.units()
    }

    /// The absolute value.
    pub open spec fn absolute(self) -> Binary64 {
        Binary64 { bits: self.magnitude() as u64 }
    }

    /// The absolute value.
    pub fn abs(self) -> (result: Binary64)
        ensures
            result == self.absolute(),
            !result.is_negative(),
            result.magnitude() == self.magnitude(),
    {
        if self.bits >= SIGN_BIT {
            Binary64 { bits: self.bits - SIGN_BIT }
        } else {
            self
        }
    }

    /// Whether the sign bit is clear.
    pub fn is_sign_positive(self) -> (result: bool)
        ensures
            result == !self.is_negative(),
    {
        self.bits < SIGN_BIT
    }

    /// Whether this is a number other than the infinities.
    pub fn is_finite(self) -> (result: bool)
        ensures
            result == self.finite(),
    {
        self.abs().bits < INFINITY_BITS
    }

    /// Numeric `<`.
    pub fn is_less_than(self, other: Binary64) -> (result: bool)
        ensures
            result == self.less(other),
    {
        let own: u64 = self.abs().bits;
        let others: u64 = other.abs().bits;
        proof {
            lemma_magnitude_order_iff(own as nat, others as nat);
            lemma_magnitude_order_iff(others as nat, own as nat);
            lemma_magnitude_order_iff(own as nat, 0);
            lemma_magnitude_order_iff(others as nat, 0);
            assert(magnitude_units(0) == 0);
        }
        if own > INFINITY_BITS || others > INFINITY_BITS {
            false
        } else if self.is_sign_positive() {
            other.is_sign_positive() && own < others
        } else if other.is_sign_positive() {
            own != 0 || others != 0
        } else {
            others < own
        }
    }

    /// Numeric `<=`.
    pub fn is_at_most(self, other: Binary64) -> (result: bool)
        ensures
            result == (self.less(other) || self.same(other)),
    {
        self.is_less_than(other) || self.equals(other)
    }

    /// Numeric `==`.
    pub fn equals(self, other: Binary64) -> (result: bool)
        ensures
            result == self.same(other),
    {
        let own: u64 = self.abs().bits;
        let others: u64 = other.abs().bits;
        proof {
            lemma_magnitude_order_iff(own as nat, others as nat);
            lemma_magnitude_order_iff(own as nat, 0);
            lemma_magnitude_order_iff(others as nat, 0);
            assert(magnitude_units(0) == 0);
        }
        if own > INFINITY_BITS || others > INFINITY_BITS {
            false
        } else if own == 0 && others == 0 {
            true
        } else {
            self.bits == other.bits
        }
    }

    /// Whether this is a number above zero other than infinity.
    pub fn is_positive_and_finite(self) -> (result: bool)
        ensures
            result == (self.finite() && self.units() > 0),
    {
        assert(magnitude_units(0) == 0);
        self.is_finite() && (Binary64 { bits: 0 }).is_less_than(self)
    }
}

/// A pattern of sign, exponent and fraction stands for the number that the format gives it:
/// the fraction alone at exponent zero, else one and the fraction, doubled once for every
/// exponent above one. The largest exponent is that of infinity and of what is no number.
pub proof fn law_patterns_stand_for_their_numbers(
    number: Binary64,
    negative: bool,
    exponent: nat,
    fraction: nat,
)
    requires
        exponent < 2048,
        fraction < 0x10_0000_0000_0000,
        number.bits == exponent * 0x10_0000_0000_0000 + fraction + if negative {
            0x8000_0000_0000_0000int
        } else {
            0
        },
    ensures
        number.is_negative() == negative,
        number.is_nan() == (exponent == 2047 && fraction > 0),
        number.finite() == (exponent < 2047),
        exponent == 0 ==> number.units() == if negative {
            -fraction
        } else {
            fraction as int
        },
        exponent > 0 ==> number.units() == (0x10_0000_0000_0000 + fraction) * power2::pow2(
            (exponent - 1) as nat,
        ) * if negative {
            -1int
        } else {
            1int
        },
        number.absolute().bits == exponent * 0x10_0000_0000_0000 + fraction,
{
    let unit: nat = 0x10_0000_0000_0000;
    let magnitude = exponent * unit + fraction;
    assert(magnitude / unit == exponent && magnitude % unit == fraction);
    assert(number.magnitude() == magnitude);
    if exponent > 0 {
        let value = (unit + fraction) * power2::pow2((exponent - 1) as nat);
        assert(value * -1 == -value);
    }
}

/// Of two numbers exactly one is less than the other, or they are the same; what is no number
/// is neither. Order and sameness are those of the values.
pub proof fn law_numbers_are_ordered_by_value(first: Binary64, second: Binary64)
    ensures
        first.is_nan() || second.is_nan() ==> !first.less(second) && !first.same(second),
        !first.is_nan() && !second.is_nan() ==> {
            &&& first.less(second) || first.same(second) || second.less(first)
            &&& first.less(second) ==> first.units() < second.units()
            &&& first.same(second) ==> first.units() == second.units()
        },
{
}

} // verus!
