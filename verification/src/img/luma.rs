//! The brightness rule that turns an RGB pixel into one bit.
//!
//! Brightness is the weighted sum `0.299 R + 0.587 G + 0.114 B`, evaluated the
//! way single-precision hardware evaluates it: the three weights are the
//! nearest single-precision numbers, each product and each of the two sums is
//! rounded to 24 significant bits (ties to even), and the result is truncated
//! to an integer. Everything here is integer arithmetic on multiples of
//! `2^-27`, which is fine enough to hold every intermediate value exactly.

use vstd::prelude::*;
use vstd::arithmetic::div_mod::lemma_fundamental_div_mod;

verus! {

/// How many units make up the value one: values are counted in units of `2^-27`.
pub const UNITS_PER_ONE: u64 = 0x800_0000;

/// The single-precision number nearest to 0.299, in units.
pub const WEIGHT_RED: u64 = 40131100;

/// The single-precision number nearest to 0.587, in units.
pub const WEIGHT_GREEN: u64 = 78785808;

/// The single-precision number nearest to 0.114, in units.
pub const WEIGHT_BLUE: u64 = 15300821;

/// The spacing of 24-bit significands around `x`: 1 below `2^24`, and doubling
/// with every further binary digit of `x`.
pub open spec fn ulp(x: nat) -> nat
    decreases x,
{
    if x < 0x100_0000 {
        1
    } else {
        2 * ulp(x / 2)
    }
}

/// `x` rounded to the nearest multiple of `unit`; a tie goes to the even multiple.
pub open spec fn round_to_unit(x: nat, unit: nat) -> nat {
    let q = x / unit;
    let rest = x % unit;
    if 2 * rest > unit || (2 * rest == unit && q % 2 == 1) {
        (q + 1) * unit
    } else {
        q * unit
    }
}

/// `x` rounded to 24 significant binary digits, ties to even.
pub open spec fn round24(x: nat) -> nat {
    round_to_unit(x, ulp(x))
}

/// Brightness of a pixel in units, before truncation.
pub open spec fn luma_units(r: u8, g: u8, b: u8) -> nat {
    round24(
        round24(round24(WEIGHT_RED as nat * r as nat) + round24(WEIGHT_GREEN as nat * g as nat))
            + round24(WEIGHT_BLUE as nat * b as nat),
    )
}

/// Brightness of a pixel, truncated to an integer.
pub open spec fn luma(r: u8, g: u8, b: u8) -> nat {
    luma_units(r, g, b) / (UNITS_PER_ONE as nat)
}

/// A pixel is on exactly when its brightness is strictly above the threshold.
pub open spec fn white(r: u8, g: u8, b: u8, threshold: u8) -> bool {
    luma(r, g, b) > threshold
}

/// The spacing is positive and at most `x / 2^23`.
pub proof fn lemma_ulp_bounds(x: nat)
    ensures
        ulp(x) >= 1,
        x < 0x100_0000 ==> ulp(x) == 1,
        x >= 0x100_0000 ==> ulp(x) * 0x100_0000 <= 2 * x,
    decreases x,
{
    if x >= 0x100_0000 {
        lemma_ulp_bounds(x / 2);
    }
}

/// Rounding moves a value by at most half a unit, and lands on a multiple of the unit.
pub proof fn lemma_round_to_unit_bounds(x: nat, unit: nat)
    requires
        unit >= 1,
    ensures
        2 * round_to_unit(x, unit) <= 2 * x + unit,
        2 * x <= 2 * round_to_unit(x, unit) + unit,
        round_to_unit(x, unit) == (x / unit) * unit || round_to_unit(x, unit) == (x / unit + 1)
            * unit,
{
    lemma_fundamental_div_mod(x as int, unit as int);
    let q = x / unit;
    assert((q + 1) * unit == q * unit + unit) by (nonlinear_arith);
    assert(unit * q == q * unit) by (nonlinear_arith);
}

/// Rounding to 24 digits moves a value below `2^36` by at most 4096 units.
pub proof fn lemma_round24_bounds(x: nat)
    requires
        x < 0x10_0000_0000,
    ensures
        round24(x) <= x + 4096,
        x <= round24(x) + 4096,
{
    lemma_ulp_bounds(x);
    lemma_round_to_unit_bounds(x, ulp(x));
}

/// The weighted products of a pixel are the weights times the channels, and
/// none of the five roundings moves a value by more than 4096 units: every
/// intermediate value stays below `2^36`, and the brightness in units is
/// within `5 * 4096` of the sum of the products.
pub proof fn lemma_luma_units_near_sum(r: u8, g: u8, b: u8)
    ensures
        WEIGHT_RED * r == 40131100 * r <= 40131100 * 255,
        WEIGHT_GREEN * g == 78785808 * g <= 78785808 * 255,
        WEIGHT_BLUE * b == 15300821 * b <= 15300821 * 255,
        round24((WEIGHT_RED * r) as nat) <= 40131100 * 255 + 4096,
        round24((WEIGHT_GREEN * g) as nat) <= 78785808 * 255 + 4096,
        round24((WEIGHT_BLUE * b) as nat) <= 15300821 * 255 + 4096,
        round24((WEIGHT_RED * r) as nat) + round24((WEIGHT_GREEN * g) as nat) < 0x10_0000_0000,
        round24(round24((WEIGHT_RED * r) as nat) + round24((WEIGHT_GREEN * g) as nat)) + round24(
            (WEIGHT_BLUE * b) as nat,
        ) < 0x10_0000_0000,
        40131100 * r + 78785808 * g + 15300821 * b - 5 * 4096 <= luma_units(r, g, b) <= 40131100
            * r + 78785808 * g + 15300821 * b + 5 * 4096,
{
    let pr = WEIGHT_RED as nat * r as nat;
    let pg = WEIGHT_GREEN as nat * g as nat;
    let pb = WEIGHT_BLUE as nat * b as nat;
    assert(pr == 40131100 * r && pr <= 40131100 * 255) by (nonlinear_arith)
        requires
            pr == 40131100 * r as nat,
            r <= 255,
    ;
    assert(pg == 78785808 * g && pg <= 78785808 * 255) by (nonlinear_arith)
        requires
            pg == 78785808 * g as nat,
            g <= 255,
    ;
    assert(pb == 15300821 * b && pb <= 15300821 * 255) by (nonlinear_arith)
        requires
            pb == 15300821 * b as nat,
            b <= 255,
    ;
    lemma_round24_bounds(pr);
    lemma_round24_bounds(pg);
    lemma_round24_bounds(pb);
    let s1 = round24(pr) + round24(pg);
    lemma_round24_bounds(s1);
    let s2 = round24(s1) + round24(pb);
    lemma_round24_bounds(s2);
}

/// Brightness never exceeds 255.
pub proof fn lemma_luma_at_most_255(r: u8, g: u8, b: u8)
    ensures
        luma_units(r, g, b) < 256 * UNITS_PER_ONE,
        luma(r, g, b) <= 255,
{
    lemma_luma_units_near_sum(r, g, b);
}

/// The weighted sum of a pixel with the weights as whole thousandths:
/// `299 R + 587 G + 114 B`.
pub open spec fn weighted_thousandths(r: u8, g: u8, b: u8) -> nat {
    (299 * r + 587 * g + 114 * b) as nat
}

/// How brightness relates to the exact weighted sum `0.299 R + 0.587 G +
/// 0.114 B`: it is that sum rounded down, except that where the sum is a
/// whole number the brightness may be one less.
pub proof fn lemma_luma_near_exact(r: u8, g: u8, b: u8)
    ensures
        luma(r, g, b) == weighted_thousandths(r, g, b) / 1000 || (weighted_thousandths(r, g, b)
            % 1000 == 0 && luma(r, g, b) + 1 == weighted_thousandths(r, g, b) / 1000),
        weighted_thousandths(r, g, b) % 1000 != 0 ==> luma(r, g, b) == weighted_thousandths(
            r,
            g,
            b,
        ) / 1000,
{
    lemma_luma_units_near_sum(r, g, b);
    let units = luma_units(r, g, b) as int;
    let n = weighted_thousandths(r, g, b) as int;
    let one = UNITS_PER_ONE as int;
    let sum = 40131100 * r + 78785808 * g + 15300821 * b;
    assert(1000 * sum == one * n - 672 * r + 1664 * g + 8 * b);
    assert(one * n - one < 1000 * units < one * n + one);
    let e = n / 1000;
    let m = n % 1000;
    assert(n == 1000 * e + m);
    if m != 0 {
        assert(one * (1000 * e) <= one * n - one) by (nonlinear_arith)
            requires
                n == 1000 * e + m,
                m >= 1,
                one > 0,
        ;
        assert(one * n + one <= one * (1000 * (e + 1))) by (nonlinear_arith)
            requires
                n == 1000 * e + m,
                m <= 999,
                one > 0,
        ;
        assert(one * (1000 * e) == 1000 * (one * e)) by (nonlinear_arith);
        assert(one * (1000 * (e + 1)) == 1000 * (one * (e + 1))) by (nonlinear_arith);
        assert(one * e <= units < one * (e + 1));
        assert(units / one == e) by (nonlinear_arith)
            requires
                one * e <= units < one * (e + 1),
                one > 0,
        ;
    } else {
        assert(one * n == 1000 * (one * e)) by (nonlinear_arith)
            requires
                n == 1000 * e,
        ;
        assert(one * e - one < units < one * e + one);
        if units >= one * e {
            assert(units / one == e) by (nonlinear_arith)
                requires
                    one * e <= units < one * e + one,
                    one > 0,
            ;
        } else {
            assert(units / one == e - 1) by (nonlinear_arith)
                requires
                    one * e - one <= units < one * e,
                    one > 0,
            ;
        }
    }
}

/// The spacing of 24-bit significands around `x`.
fn spacing(x: u64) -> (u: u64)
    requires
        x < 0x10_0000_0000,
    ensures
        u == ulp(x as nat),
        1 <= u <= 0x2000,
{
    let mut u: u64 = 1;
    let mut y: u64 = x;
    while y >= 0x100_0000
        invariant
            1 <= u,
            u * y <= x,
            x < 0x10_0000_0000,
            ulp(x as nat) == u * ulp(y as nat),
        decreases y,
    {
        proof {
            let uy = ulp((y / 2) as nat);
            assert(u * (2 * uy) == (2 * u) * uy) by (nonlinear_arith);
            assert((2 * u) * (y / 2) <= u * y) by (nonlinear_arith)
                requires
                    u >= 1,
                    y >= 0,
            ;
            assert(u * 0x100_0000 <= u * y) by (nonlinear_arith)
                requires
                    y >= 0x100_0000,
                    u >= 1,
            ;
        }
        y = y / 2;
        u = u * 2;
    }
    proof {
        lemma_ulp_bounds(x as nat);
        assert(u * 1 == u) by (nonlinear_arith);
    }
    u
}

/// `x` rounded to 24 significant binary digits, ties to even.
fn round_to_24_bits(x: u64) -> (rounded: u64)
    requires
        x < 0x10_0000_0000,
    ensures
        rounded == round24(x as nat),
        rounded <= x + 4096,
{
    let unit = spacing(x);
    let q: u64 = x / unit;
    let rest: u64 = x % unit;
    proof {
        lemma_round24_bounds(x as nat);
        lemma_round_to_unit_bounds(x as nat, unit as nat);
    }
    if 2 * rest > unit || (2 * rest == unit && q % 2 == 1) {
        (q + 1) * unit
    } else {
        q * unit
    }
}

/// Brightness of a pixel, truncated to an integer.
pub fn luma_of(r: u8, g: u8, b: u8) -> (y: u8)
    ensures
        y == luma(r, g, b),
{
    proof {
        lemma_luma_units_near_sum(r, g, b);
        lemma_luma_at_most_255(r, g, b);
    }
    let red: u64 = round_to_24_bits(WEIGHT_RED * (r as u64));
    let green: u64 = round_to_24_bits(WEIGHT_GREEN * (g as u64));
    let blue: u64 = round_to_24_bits(WEIGHT_BLUE * (b as u64));
    let first: u64 = round_to_24_bits(red + green);
    let total: u64 = round_to_24_bits(first + blue);
    (total / UNITS_PER_ONE) as u8
}

/// Whether a pixel counts as on under the given threshold.
pub fn is_white(r: u8, g: u8, b: u8, threshold: u8) -> (on: bool)
    ensures
        on == white(r, g, b, threshold),
{
    luma_of(r, g, b) > threshold
}

} // verus!
