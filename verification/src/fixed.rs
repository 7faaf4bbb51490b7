//! Numbers on a binary grid: a number below two in magnitude, cut off after
//! its hundredth binary place and held as an integer count of such places.
//!
//! Sums of such counts are exact, which sums of rounded numbers are not. A
//! number of at least 2 to the power of -48 in magnitude lies on the grid
//! and loses nothing; a smaller one loses less than one place.

use vstd::prelude::*;
use vstd::arithmetic::div_mod::lemma_basic_div;
use vstd::arithmetic::div_mod::lemma_div_by_multiple;
use vstd::arithmetic::div_mod::lemma_div_multiples_vanish_quotient;
use vstd::arithmetic::power2::lemma2_to64;
use vstd::arithmetic::power2::lemma2_to64_rest;
use vstd::arithmetic::power2::lemma_pow2_adds;
use vstd::arithmetic::power2::lemma_pow2_pos;
use vstd::arithmetic::power2::lemma_pow2_strictly_increases;
use vstd::arithmetic::power2::lemma_pow2_unfold;
use vstd::arithmetic::power2::pow2;
use crate::scalar::Scalar;
use crate::scalar::HIDDEN_BIT;
use crate::scalar::SIGN_BIT;

verus! {

/// The number of binary places that are kept.
pub const PLACES: u64 = 100;

/// The number one as a count of places: 2 to the power of `PLACES`.
pub const ONE: i128 = 0x10_0000_0000_0000_0000_0000_0000;

/// The number is finite and below two in magnitude.
pub open spec fn below_two(x: Scalar) -> bool {
    x.exponent() <= 1023
}

/// The number as a count of places, cut off towards zero. A place is 2 to
/// the power of 974 of the units in which `Scalar::units` counts, since
/// those are 2 to the power of -1074 each.
pub open spec fn truncated(x: Scalar) -> int
    recommends
        below_two(x),
{
    let count = (x.units() / pow2(974)) as int;
    if x.negative() {
        -count
    } else {
        count
    }
}

/// `ONE` is 2 to the power of `PLACES`.
pub proof fn lemma_one_is_a_power_of_two()
    ensures
        pow2(PLACES as nat) == ONE,
{
    lemma2_to64();
    lemma2_to64_rest();
    lemma_pow2_adds(64, 36);
}

fn power_of_two(k: u64) -> (p: u128)
    requires
        k <= PLACES,
    ensures
        p == pow2(k as nat),
{
    let mut p: u128 = 1;
    let mut i: u64 = 0;
    proof {
        lemma2_to64();
    }
    while i < k
        invariant
            i <= k <= PLACES,
            p == pow2(i as nat),
        decreases k - i,
    {
        proof {
            lemma_pow2_unfold((i + 1) as nat);
            lemma_one_is_a_power_of_two();
            if i + 1 < 100 {
                lemma_pow2_strictly_increases((i + 1) as nat, 100);
            }
        }
        p = p * 2;
        i += 1;
    }
    p
}

/// The number as a count of places, if it is below two in magnitude.
pub fn to_fixed(x: &Scalar) -> (count: Option<i128>)
    ensures
        count.is_some() == below_two(*x),
        count matches Some(c) ==> c == truncated(*x),
{
    let negative: bool = x.bits >= SIGN_BIT;
    let magnitude: u64 = if negative {
        x.bits - SIGN_BIT
    } else {
        x.bits
    };
    let exponent: u64 = magnitude / HIDDEN_BIT;
    let fraction: u64 = magnitude % HIDDEN_BIT;
    if exponent > 1023 {
        return None;
    }
    let significand: u64 = HIDDEN_BIT + fraction;
    let count: u128 = if exponent == 0 {
        proof {
            lemma2_to64_rest();
            lemma_pow2_strictly_increases(52, 974);
            lemma_basic_div(fraction as int, pow2(974) as int);
        }
        0
    } else if exponent >= 975 {
        let scale: u128 = power_of_two(exponent - 975);
        proof {
            let k = (exponent - 975) as nat;
            lemma2_to64_rest();
            if k < 48 {
                lemma_pow2_strictly_increases(k, 48);
            }
            lemma_pow2_adds(k, 974);
            lemma_pow2_pos(974);
            assert(significand * scale <= 0x20_0000_0000_0000 * 0x1_0000_0000_0000)
                by (nonlinear_arith)
                requires
                    significand <= 0x20_0000_0000_0000,
                    scale <= 0x1_0000_0000_0000,
            ;
            assert(significand * pow2((exponent - 1) as nat) == (significand * scale) * pow2(974))
                by (nonlinear_arith)
                requires
                    pow2((exponent - 1) as nat) == scale * pow2(974),
            ;
            lemma_div_by_multiple(significand * scale, pow2(974) as int);
        }
        significand as u128 * scale
    } else if 975 - exponent >= 53 {
        proof {
            let low = pow2((exponent - 1) as nat);
            let j = (975 - exponent) as nat;
            lemma_pow2_adds((exponent - 1) as nat, j);
            lemma_pow2_pos((exponent - 1) as nat);
            lemma_pow2_pos(j);
            lemma2_to64_rest();
            if 53 < j {
                lemma_pow2_strictly_increases(53, j);
            }
            lemma_div_multiples_vanish_quotient(low as int, significand as int, pow2(j) as int);
            lemma_basic_div(significand as int, pow2(j) as int);
            assert(significand * low == low * significand) by (nonlinear_arith);
        }
        0
    } else {
        let scale: u128 = power_of_two(975 - exponent);
        proof {
            let low = pow2((exponent - 1) as nat);
            let j = (975 - exponent) as nat;
            lemma_pow2_adds((exponent - 1) as nat, j);
            lemma_pow2_pos((exponent - 1) as nat);
            lemma_pow2_pos(j);
            lemma_div_multiples_vanish_quotient(low as int, significand as int, pow2(j) as int);
            assert(significand * low == low * significand) by (nonlinear_arith);
        }
        significand as u128 / scale
    };
    proof {
        lemma2_to64_rest();
    }
    if negative {
        Some(-(count as i128))
    } else {
        Some(count as i128)
    }
}

/// A number below two is fewer than 2 to the power of 101 places.
pub proof fn lemma_count_is_bounded(x: Scalar)
    requires
        below_two(x),
    ensures
        -0x20_0000_0000_0000_0000_0000_0000 < truncated(x) < 0x20_0000_0000_0000_0000_0000_0000,
{
    let significand = HIDDEN_BIT + x.fraction();
    let e = x.exponent();
    lemma2_to64_rest();
    lemma_one_is_a_power_of_two();
    lemma_pow2_unfold(101);
    lemma_pow2_adds(53, 48);
    lemma_pow2_pos(974);
    if e == 0 {
        lemma_pow2_strictly_increases(52, 974);
        lemma_basic_div(x.fraction(), pow2(974) as int);
    } else {
        let low = pow2((e - 1) as nat);
        lemma_pow2_pos((e - 1) as nat);
        if e - 1 < 1022 {
            lemma_pow2_strictly_increases((e - 1) as nat, 1022);
        }
        lemma_pow2_adds(48, 974);
        assert(x.units() < pow2(101) * pow2(974)) by (nonlinear_arith)
            requires
                x.units() == significand * low,
                0 < significand < pow2(53),
                0 < low <= pow2(1022),
                pow2(1022) == pow2(48) * pow2(974),
                pow2(101) == pow2(53) * pow2(48),
        ;
        vstd::arithmetic::div_mod::lemma_div_by_multiple_is_strongly_ordered(
            x.units() as int,
            (pow2(101) * pow2(974)) as int,
            pow2(101) as int,
            pow2(974) as int,
        );
        lemma_div_by_multiple(pow2(101) as int, pow2(974) as int);
    }
}

/// Cutting off loses less than one place and keeps the sign: the count lies
/// between zero and the number's value in places, less than one away from
/// the latter.
pub proof fn lemma_truncation_loses_less_than_a_place(x: Scalar)
    requires
        below_two(x),
    ensures
        !x.negative() ==> truncated(x) as real <= x.value() * (pow2(100) as real) < truncated(x) as real
            + 1real,
        x.negative() ==> truncated(x) as real - 1real < x.value() * (pow2(100) as real)
            <= truncated(x) as real,
{
    let grid = pow2(974);
    let one = pow2(100);
    let unit = pow2(1074);
    lemma_pow2_adds(974, 100);
    lemma_pow2_pos(974);
    lemma_pow2_pos(100);
    lemma_pow2_pos(1074);
    let units = x.units();
    let count = units / grid;
    let rest = units % grid;
    vstd::arithmetic::div_mod::lemma_fundamental_div_mod(units as int, grid as int);
    vstd::arithmetic::div_mod::lemma_mod_pos_bound(units as int, grid as int);
    assert(units == grid * count + rest);
    let g = grid as real;
    let o = one as real;
    let w = unit as real;
    let c = count as real;
    let r = rest as real;
    let n = units as real;
    assert(w == g * o) by (nonlinear_arith)
        requires
            unit == grid * one,
            g == grid as real,
            o == one as real,
            w == unit as real,
    ;
    assert(n == g * c + r) by (nonlinear_arith)
        requires
            units == grid * count + rest,
            g == grid as real,
            c == count as real,
            r == rest as real,
            n == units as real,
    ;
    let size = (n / w) * o;
    assert(c <= size < c + 1real) by (nonlinear_arith)
        requires
            size == (n / w) * o,
            w == g * o,
            n == g * c + r,
            0real <= r < g,
            g > 0real,
            o > 0real,
    ;
    if x.negative() {
        assert(x.signed_units() as real == -n);
        assert((-n / w) * o == -size) by (nonlinear_arith)
            requires
                size == (n / w) * o,
                w > 0real,
        ;
    }
}

} // verus!
