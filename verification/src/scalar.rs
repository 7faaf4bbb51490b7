//! Real numbers as the integrator hands them over: each one an IEEE 754
//! binary64 value, carried by its 64-bit encoding.
//!
//! The encoding is sign and magnitude: the top bit is the sign, the other 63
//! bits grow with the absolute value, the infinities lie above every finite
//! magnitude and the NaNs above the infinities. Order and equality of the
//! numbers can therefore be read off the encodings with integer comparisons
//! alone, which is what the executable functions do. That the order so read
//! is the order of the values that the encodings stand for is proved at the
//! end of the module.

use vstd::prelude::*;
use vstd::arithmetic::power2::pow2;
use vstd::arithmetic::power2::lemma_pow2_pos;
use vstd::arithmetic::power2::lemma_pow2_unfold;

verus! {

/// The encoding's sign bit.
pub const SIGN_BIT: u64 = 0x8000_0000_0000_0000;

/// The magnitude of an infinity: all exponent bits set, no fraction bit.
pub const INFINITE_MAGNITUDE: u64 = 0x7ff0_0000_0000_0000;

/// The magnitude of the smallest normal number: the lowest exponent bit.
/// Below it lie the fraction's 52 bits.
pub const HIDDEN_BIT: u64 = 0x10_0000_0000_0000;

/// A binary64 number, identified by its encoding.
///
/// `==` on this type compares encodings; `same_value` and `lt` compare the
/// numbers.
#[derive(Clone, Copy, Debug, PartialEq, Eq, Structural)]
pub struct Scalar {
    pub bits: u64,
}

impl Scalar {
    /// The encoding without its sign bit.
    pub open spec fn magnitude(self) -> u64 {
        if self.bits >= SIGN_BIT {
            (self.bits - SIGN_BIT) as u64
        } else {
            self.bits
        }
    }

    /// The sign bit is set. This holds of negative numbers, of negative zero
    /// and of half of the NaNs.
    pub open spec fn negative(self) -> bool {
        self.bits >= SIGN_BIT
    }

    /// Not a number.
    pub open spec fn nan(self) -> bool {
        self.magnitude() > INFINITE_MAGNITUDE
    }

    /// Zero, subnormal or normal: neither an infinity nor a NaN.
    pub open spec fn finite(self) -> bool {
        self.magnitude() < INFINITE_MAGNITUDE
    }

    /// The exponent field: the eleven bits below the sign.
    pub open spec fn exponent(self) -> int {
        self.magnitude() as int / HIDDEN_BIT as int
    }

    /// The fraction field: the lowest 52 bits.
    pub open spec fn fraction(self) -> int {
        self.magnitude() as int % HIDDEN_BIT as int
    }

    /// The absolute value of a finite number, counted in units of the
    /// smallest positive number, which is 2 to the power of -1074. A
    /// subnormal number is its fraction in such units; a normal number is
    /// its fraction with the hidden bit in front, doubled once for each
    /// exponent above one.
    pub open spec fn units(self) -> nat
        recommends
            self.finite(),
    {
        if self.exponent() == 0 {
            self.fraction() as nat
        } else {
            ((HIDDEN_BIT + self.fraction()) * pow2((self.exponent() - 1) as nat)) as nat
        }
    }

    /// The value of a finite number in the same units, with its sign.
    pub open spec fn signed_units(self) -> int
        recommends
            self.finite(),
    {
        if self.negative() {
            -(self.units() as int)
        } else {
            self.units() as int
        }
    }

    /// The real number that a finite encoding stands for.
    pub open spec fn value(self) -> real
        recommends
            self.finite(),
    {
        self.signed_units() as real / pow2(1074) as real
    }

    /// The number's place on the number line, as an integer that is ordered
    /// as the numbers are: both zeros at 0, the positive numbers above by
    /// their magnitude, the negative ones below. Meaningless for a NaN.
    pub open spec fn rank(self) -> int {
        if self.negative() {
            -(self.magnitude() as int)
        } else {
            self.magnitude() as int
        }
    }

    /// `self < other` as numbers. False whenever either is a NaN.
    pub open spec fn less(self, other: Scalar) -> bool {
        !self.nan() && !other.nan() && self.rank() < other.rank()
    }

    /// `self == other` as numbers: the two zeros are the same value, and a
    /// NaN is the same as nothing, itself included.
    pub open spec fn same(self, other: Scalar) -> bool {
        !self.nan() && !other.nan() && self.rank() == other.rank()
    }

    /// `self <= other` as numbers.
    pub open spec fn at_most(self, other: Scalar) -> bool {
        self.less(other) || self.same(other)
    }

    /// The number with the given encoding.
    pub fn from_bits(bits: u64) -> (r: Scalar)
        ensures
            r.bits == bits,
    {
        Scalar { bits }
    }

    /// The number's encoding.
    pub fn to_bits(&self) -> (bits: u64)
        ensures
            bits == self.bits,
    {
        self.bits
    }

    fn magnitude_bits(&self) -> (m: u64)
        ensures
            m == self.magnitude(),
    {
        if self.bits >= SIGN_BIT {
            self.bits - SIGN_BIT
        } else {
            self.bits
        }
    }

    pub fn is_sign_negative(&self) -> (r: bool)
        ensures
            r == self.negative(),
    {
        self.bits >= SIGN_BIT
    }

    pub fn is_nan(&self) -> (r: bool)
        ensures
            r == self.nan(),
    {
        self.magnitude_bits() > INFINITE_MAGNITUDE
    }

    pub fn is_finite(&self) -> (r: bool)
        ensures
            r == self.finite(),
    {
        self.magnitude_bits() < INFINITE_MAGNITUDE
    }

    /// Whether `self < other` as numbers.
    pub fn lt(&self, other: &Scalar) -> (r: bool)
        ensures
            r == self.less(*other),
    {
        if self.is_nan() || other.is_nan() {
            return false;
        }
        let a: u64 = self.magnitude_bits();
        let b: u64 = other.magnitude_bits();
        if self.is_sign_negative() {
            if other.is_sign_negative() {
                b < a
            } else {
                a > 0 || b > 0
            }
        } else {
            !other.is_sign_negative() && a < b
        }
    }

    /// Whether `self == other` as numbers.
    pub fn same_value(&self, other: &Scalar) -> (r: bool)
        ensures
            r == self.same(*other),
    {
        if self.is_nan() || other.is_nan() {
            return false;
        }
        let a: u64 = self.magnitude_bits();
        let b: u64 = other.magnitude_bits();
        if self.is_sign_negative() == other.is_sign_negative() {
            a == b
        } else {
            a == 0 && b == 0
        }
    }

    /// Whether `self <= other` as numbers.
    pub fn le(&self, other: &Scalar) -> (r: bool)
        ensures
            r == self.at_most(*other),
    {
        self.lt(other) || self.same_value(other)
    }
}

/// The order of the numbers is a strict order on everything but the NaNs:
/// nothing is below itself, and what is below something that is below a
/// third is below the third.
pub proof fn lemma_less_is_strict_order(a: Scalar, b: Scalar, c: Scalar)
    ensures
        !a.less(a),
        a.less(b) && b.less(c) ==> a.less(c),
        a.less(b) ==> !b.less(a) && !a.same(b),
        !a.nan() && !b.nan() ==> a.less(b) || a.same(b) || b.less(a),
{
}

proof fn lemma_next_magnitude_is_larger(a: Scalar, b: Scalar)
    requires
        b.finite(),
        a.magnitude() + 1 == b.magnitude(),
    ensures
        a.units() < b.units(),
{
    let e = a.exponent();
    let f = a.fraction();
    if f + 1 < HIDDEN_BIT {
        assert(b.exponent() == e && b.fraction() == f + 1);
        if e > 0 {
            let scale = pow2((e - 1) as nat);
            lemma_pow2_pos((e - 1) as nat);
            assert((HIDDEN_BIT + f) * scale < (HIDDEN_BIT + f + 1) * scale) by (nonlinear_arith)
                requires
                    scale > 0,
            ;
        }
    } else {
        assert(b.exponent() == e + 1 && b.fraction() == 0);
        if e > 0 {
            let scale = pow2((e - 1) as nat);
            lemma_pow2_pos((e - 1) as nat);
            lemma_pow2_unfold(e as nat);
            assert((HIDDEN_BIT + f) * scale < HIDDEN_BIT * (2 * scale)) by (nonlinear_arith)
                requires
                    scale > 0,
                    f + 1 == HIDDEN_BIT,
            ;
        } else {
            assert(pow2(0) == 1) by {
                vstd::arithmetic::power2::lemma2_to64();
            }
        }
    }
}

/// Among finite numbers a larger magnitude is a larger absolute value.
pub proof fn lemma_units_increase(a: Scalar, b: Scalar)
    requires
        b.finite(),
        a.magnitude() < b.magnitude(),
    ensures
        a.units() < b.units(),
    decreases b.magnitude() - a.magnitude(),
{
    if a.magnitude() + 1 == b.magnitude() {
        lemma_next_magnitude_is_larger(a, b);
    } else {
        let between = Scalar { bits: (b.magnitude() - 1) as u64 };
        assert(between.magnitude() == b.magnitude() - 1);
        lemma_units_increase(a, between);
        lemma_next_magnitude_is_larger(between, b);
    }
}

/// The order read off the encodings is the order of the values: of two
/// finite numbers, one is below the other exactly if its value is the
/// smaller one, and they are the same exactly if their values are equal.
pub proof fn lemma_order_is_the_order_of_values(a: Scalar, b: Scalar)
    requires
        a.finite(),
        b.finite(),
    ensures
        a.less(b) <==> a.value() < b.value(),
        a.same(b) <==> a.value() == b.value(),
{
    let zero = Scalar { bits: 0 };
    assert(zero.units() == 0);
    if a.magnitude() < b.magnitude() {
        lemma_units_increase(a, b);
    }
    if b.magnitude() < a.magnitude() {
        lemma_units_increase(b, a);
    }
    if 0 < a.magnitude() {
        lemma_units_increase(zero, a);
    }
    if 0 < b.magnitude() {
        lemma_units_increase(zero, b);
    }
    assert(a.rank() < b.rank() <==> a.signed_units() < b.signed_units());
    assert(a.rank() == b.rank() <==> a.signed_units() == b.signed_units());
    let unit = pow2(1074) as real;
    let x = a.signed_units() as real;
    let y = b.signed_units() as real;
    lemma_pow2_pos(1074);
    assert(unit > 0real);
    assert(x < y <==> x / unit < y / unit) by (nonlinear_arith)
        requires
            unit > 0real,
    ;
    assert(x == y <==> x / unit == y / unit) by (nonlinear_arith)
        requires
            unit > 0real,
    ;
    assert(a.signed_units() < b.signed_units() <==> x < y);
    assert(a.signed_units() == b.signed_units() <==> x == y);
}

} // verus!
