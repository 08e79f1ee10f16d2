//! Position solver: from orbital elements to a planar Cartesian offset.
//!
//! All math is integer fixed point.  Angles enter in micro-degrees, the
//! trigonometric scale is [`TRIG_ONE`] (`10^9` is `1.0`).  The sine uses the
//! classical rational approximation `4x(180-x) / (40500 - x(180-x))` on
//! `[0, 180]` degrees, which is exact at `0`, `90` and `180` degrees.
//! Kepler's equation `E - e sin E = M` is solved by a fixed budget of five
//! Newton iterations seeded with `E = M` (a deliberate bounded-cost choice,
//! not a convergence-checked loop).  The eccentric anomaly is turned into
//! the true anomaly through `cos v = (cos E - e)/(1 - e cos E)` and
//! `sin v = sqrt(1-e^2) sin E/(1 - e cos E)`, the orbital radius through
//! `r = a(1-e^2)/(1+e cos v)`; for a circular orbit the radius is exactly
//! the semi-major axis.

use vstd::prelude::*;
use crate::num::{is_sqrt_floor, isqrt, lemma_sqrt_floor_is, sqrt_floor};
use crate::orbital::OrbitalParameters;
use crate::num::FEMTO_ONE;

verus! {

/// `1.0` in the trigonometric scale.
pub const TRIG_ONE: i64 = 1_000_000_000;

/// `TRIG_ONE` squared.
pub const TRIG_SQ: i128 = 1_000_000_000_000_000_000;

/// `TRIG_ONE` cubed.
pub const TRIG_CUBE: i128 = 1_000_000_000_000_000_000_000_000_000;

/// Half a turn in micro-degrees.
pub const HALF_TURN_MICRO: u64 = 180_000_000;

/// A quarter turn in micro-degrees.
pub const QUARTER_TURN_MICRO: u64 = 90_000_000;

/// A full turn in micro-degrees.
pub const TURN_MICRO: u64 = 360_000_000;

/// Micro-degrees per radian, rounded: `180 / pi * 10^6`.
pub const RAD_TO_MICRO_DEG: i128 = 57_295_780;

/// Denominator constant of the sine approximation, in micro-degree units.
pub const SINE_DEN: u128 = 40_500_000_000_000_000;

/// A planar offset from the orbital focus, in whole kilometres.
#[derive(PartialEq, Eq, Structural, Clone, Copy, Debug)]
pub struct Position {
    pub x: i128,
    pub y: i128,
}

/// Division rounding toward zero, for a positive divisor.
pub open spec fn tdiv(a: int, b: int) -> int {
    if a >= 0 {
        a / b
    } else {
        -((-a) / b)
    }
}

proof fn lemma_tdiv_mag(a: int, b: int)
    requires
        b >= 1,
    ensures
        a >= 0 ==> 0 <= tdiv(a, b) <= a,
        a < 0 ==> a <= tdiv(a, b) <= 0,
{
    if a >= 0 {
        vstd::arithmetic::div_mod::lemma_div_nonincreasing(a, b);
        vstd::arithmetic::div_mod::lemma_div_pos_is_pos(a, b);
    } else {
        vstd::arithmetic::div_mod::lemma_div_nonincreasing(-a, b);
        vstd::arithmetic::div_mod::lemma_div_pos_is_pos(-a, b);
    }
}

/// `|a| <= b * k` bounds the quotient by `k`.
proof fn lemma_tdiv_bounded(a: int, b: int, k: int)
    requires
        b >= 1,
        k >= 0,
        a <= b * k,
        -(b * k) <= a,
    ensures
        -k <= tdiv(a, b) <= k,
{
    if a >= 0 {
        vstd::arithmetic::div_mod::lemma_div_is_ordered(a, b * k, b);
        vstd::arithmetic::div_mod::lemma_div_multiples_vanish(k, b);
        lemma_tdiv_mag(a, b);
    } else {
        vstd::arithmetic::div_mod::lemma_div_is_ordered(-a, b * k, b);
        vstd::arithmetic::div_mod::lemma_div_multiples_vanish(k, b);
        lemma_tdiv_mag(a, b);
    }
}

fn tdiv_exec(a: i128, b: i128) -> (r: i128)
    requires
        b >= 1,
        a > i128::MIN,
    ensures
        r as int == tdiv(a as int, b as int),
{
    if a >= 0 {
        ((a as u128) / (b as u128)) as i128
    } else {
        proof {
            vstd::arithmetic::div_mod::lemma_div_nonincreasing(-(a as int), b as int);
            vstd::arithmetic::div_mod::lemma_div_pos_is_pos(-(a as int), b as int);
        }
        -((((-a) as u128) / (b as u128)) as i128)
    }
}

/// The sine approximation on `[0, 180]` degrees, at the trigonometric
/// scale.
pub open spec fn spec_sin_half(x: int) -> int {
    let p = x * (HALF_TURN_MICRO as int - x);
    4 * p * (TRIG_ONE as int) / (SINE_DEN as int - p)
}

/// Sine of an angle in `[0, 360]` micro-degrees, at the trigonometric
/// scale.
pub open spec fn spec_sin_micro(x: int) -> int {
    if x <= HALF_TURN_MICRO as int {
        spec_sin_half(x)
    } else {
        -spec_sin_half(x - HALF_TURN_MICRO as int)
    }
}

/// Cosine, as the sine shifted a quarter turn.
pub open spec fn spec_cos_micro(x: int) -> int {
    spec_sin_micro((x + QUARTER_TURN_MICRO as int) % (TURN_MICRO as int))
}

fn sin_half(x: u64) -> (r: i64)
    requires
        x <= HALF_TURN_MICRO,
    ensures
        r as int == spec_sin_half(x as int),
        0 <= r <= TRIG_ONE,
{
    let d: u64 = HALF_TURN_MICRO - x;
    proof {
        assert((x as int) * (d as int) <= 8_100_000_000_000_000) by (nonlinear_arith)
            requires x as int + d as int == 180_000_000, x as int >= 0, d as int >= 0;
        assert((x as int) * (d as int) >= 0) by (nonlinear_arith)
            requires x as int >= 0, d as int >= 0;
    }
    let p: u128 = (x as u128) * (d as u128);
    let num: u128 = 4 * p * 1_000_000_000;
    let den: u128 = SINE_DEN - p;
    let q = num / den;
    proof {
        assert(num <= den * (TRIG_ONE as int)) by (nonlinear_arith)
            requires
                num == 4 * p * 1_000_000_000,
                den == SINE_DEN as int - p,
                p <= 8_100_000_000_000_000,
                SINE_DEN == 40_500_000_000_000_000,
                TRIG_ONE == 1_000_000_000;
        vstd::arithmetic::div_mod::lemma_div_is_ordered(num as int, den * (TRIG_ONE as int), den as int);
        vstd::arithmetic::div_mod::lemma_div_multiples_vanish(TRIG_ONE as int, den as int);
        vstd::arithmetic::div_mod::lemma_div_pos_is_pos(num as int, den as int);
    }
    q as i64
}

/// Sine of an angle given in micro-degrees.
pub fn sin_micro(x: u64) -> (r: i64)
    requires
        x <= TURN_MICRO,
    ensures
        r as int == spec_sin_micro(x as int),
        -TRIG_ONE <= r <= TRIG_ONE,
{
    if x <= HALF_TURN_MICRO {
        sin_half(x)
    } else {
        -sin_half(x - HALF_TURN_MICRO)
    }
}

/// Cosine of an angle given in micro-degrees.
pub fn cos_micro(x: u64) -> (r: i64)
    requires
        x <= TURN_MICRO,
    ensures
        r as int == spec_cos_micro(x as int),
        -TRIG_ONE <= r <= TRIG_ONE,
{
    let y = (x + QUARTER_TURN_MICRO) % TURN_MICRO;
    proof {
        vstd::arithmetic::div_mod::lemma_mod_division_less_than_divisor(
            x as int + QUARTER_TURN_MICRO as int,
            TURN_MICRO as int,
        );
        vstd::arithmetic::div_mod::lemma_mod_bound(
            x as int + QUARTER_TURN_MICRO as int,
            TURN_MICRO as int,
        );
    }
    sin_micro(y)
}

/// One Newton iteration on Kepler's equation, in micro-degrees; the next
/// iterate is clamped to one turn.
pub open spec fn spec_newton_iter(ek: int, m: int, e9: int) -> int {
    let s = spec_sin_micro(ek);
    let c = spec_cos_micro(ek);
    let term = tdiv(RAD_TO_MICRO_DEG as int * e9 * s, TRIG_SQ as int);
    let f = ek - m - term;
    let den = TRIG_SQ as int - e9 * c;
    let delta = tdiv(f * (TRIG_SQ as int), den);
    let enew = ek - delta;
    if enew < 0 {
        0
    } else if enew > TURN_MICRO as int {
        TURN_MICRO as int
    } else {
        enew
    }
}

/// `n` Newton iterations seeded with `E = M`.
pub open spec fn spec_newton_n(n: nat, m: int, e9: int) -> int
    decreases n,
{
    if n == 0 {
        m
    } else {
        spec_newton_iter(spec_newton_n((n - 1) as nat, m, e9), m, e9)
    }
}

fn newton_iter(ek: u64, m: u64, e9: u64) -> (r: u64)
    requires
        ek <= TURN_MICRO,
        m <= TURN_MICRO,
        e9 < TRIG_ONE,
    ensures
        r as int == spec_newton_iter(ek as int, m as int, e9 as int),
        r <= TURN_MICRO,
{
    let s: i64 = sin_micro(ek);
    let c: i64 = cos_micro(ek);
    proof {
        let ev: int = e9 as int;
        let sv: int = s as int;
        assert(-(57_295_780 * 1_000_000_000_000_000_000) <= 57_295_780 * ev * sv
            <= 57_295_780 * 1_000_000_000_000_000_000) by (nonlinear_arith)
            requires
                0 <= ev,
                ev < 1_000_000_000,
                sv >= -1_000_000_000,
                sv <= 1_000_000_000;
    }
    let prod: i128 = RAD_TO_MICRO_DEG * (e9 as i128) * (s as i128);
    let term: i128 = tdiv_exec(prod, TRIG_SQ);
    proof {
        lemma_tdiv_bounded(prod as int, TRIG_SQ as int, RAD_TO_MICRO_DEG as int);
    }
    let f: i128 = ek as i128 - m as i128 - term;
    proof {
        let ev: int = e9 as int;
        let cv: int = c as int;
        assert(-1_000_000_000_000_000_000 <= ev * cv && ev * cv < 1_000_000_000_000_000_000)
            by (nonlinear_arith)
            requires
                0 <= ev,
                ev < 1_000_000_000,
                cv >= -1_000_000_000,
                cv <= 1_000_000_000;
    }
    let den: i128 = TRIG_SQ - (e9 as i128) * (c as i128);
    let delta: i128 = tdiv_exec(f * TRIG_SQ, den);
    proof {
        lemma_tdiv_mag((f * TRIG_SQ) as int, den as int);
    }
    let enew: i128 = ek as i128 - delta;
    if enew < 0 {
        0
    } else if enew > TURN_MICRO as i128 {
        TURN_MICRO
    } else {
        enew as u64
    }
}

/// With zero eccentricity Newton's method is exact and stays at the seed.
pub proof fn lemma_newton_circular(n: nat, m: int)
    requires
        0 <= m <= TURN_MICRO as int,
    ensures
        spec_newton_n(n, m, 0) == m,
    decreases n,
{
    if n > 0 {
        lemma_newton_circular((n - 1) as nat, m);
        let ek = spec_newton_n((n - 1) as nat, m, 0);
        assert(ek == m);
        assert(RAD_TO_MICRO_DEG as int * 0 * spec_sin_micro(ek) == 0) by (nonlinear_arith);
        assert(tdiv(0, TRIG_SQ as int) == 0) by {
            vstd::arithmetic::div_mod::lemma_div_of0(TRIG_SQ as int);
        }
        assert(0 as int * spec_cos_micro(ek) == 0) by (nonlinear_arith);
        let f = ek - m - 0;
        assert(f == 0);
        assert(f * (TRIG_SQ as int) == 0);
        assert(tdiv(0, TRIG_SQ as int) == 0);
        assert(spec_newton_iter(m, m, 0) == m);
    }
}

/// Cosine of the true anomaly at the trigonometric scale, from the
/// eccentricity and the cosine of the eccentric anomaly.
pub open spec fn spec_true_cos(e9: int, c: int) -> int {
    tdiv((c - e9) * (TRIG_SQ as int), TRIG_SQ as int - e9 * c)
}

/// Sine of the true anomaly at the trigonometric scale.
pub open spec fn spec_true_sin(e9: int, s: int, c: int) -> int {
    tdiv(sqrt_floor(TRIG_SQ as int - e9 * e9) * s * (TRIG_ONE as int), TRIG_SQ as int - e9 * c)
}

/// Orbital radius in kilometres: `a (1 - e^2) / (1 + e cos v)`.
pub open spec fn spec_radius(a: int, e9: int, cnu: int) -> int {
    a * (TRIG_SQ as int - e9 * e9) / (TRIG_SQ as int + e9 * cnu)
}

/// The denominator `1 - e cos E` is positive and at least `TRIG_ONE` in
/// scaled units.
proof fn lemma_ecc_den(e9: int, c: int)
    requires
        0 <= e9 < TRIG_ONE as int,
        -(TRIG_ONE as int) <= c <= TRIG_ONE as int,
    ensures
        TRIG_ONE as int <= TRIG_SQ as int - e9 * c <= 2 * TRIG_SQ as int,
{
    assert(e9 * c <= TRIG_SQ as int - TRIG_ONE as int && -(TRIG_SQ as int) <= e9 * c)
        by (nonlinear_arith)
        requires
            0 <= e9,
            e9 < 1_000_000_000,
            c >= -1_000_000_000,
            c <= 1_000_000_000;
}

/// The cosine of the true anomaly stays within the trigonometric scale.
proof fn lemma_true_cos_bound(e9: int, c: int)
    requires
        0 <= e9 < TRIG_ONE as int,
        -(TRIG_ONE as int) <= c <= TRIG_ONE as int,
    ensures
        -(TRIG_ONE as int) <= spec_true_cos(e9, c) <= TRIG_ONE as int,
{
    let den = TRIG_SQ as int - e9 * c;
    lemma_ecc_den(e9, c);
    assert((c - e9) * (TRIG_SQ as int) <= den * (TRIG_ONE as int) && -(den * (TRIG_ONE as int))
        <= (c - e9) * (TRIG_SQ as int)) by (nonlinear_arith)
        requires
            den == 1_000_000_000_000_000_000 - e9 * c,
            0 <= e9,
            e9 < 1_000_000_000,
            c >= -1_000_000_000,
            c <= 1_000_000_000;
    lemma_tdiv_bounded((c - e9) * (TRIG_SQ as int), den, TRIG_ONE as int);
}

/// The sine of the true anomaly stays within one extra trigonometric
/// factor.
proof fn lemma_true_sin_bound(e9: int, s: int, c: int)
    requires
        0 <= e9 < TRIG_ONE as int,
        -(TRIG_ONE as int) <= s <= TRIG_ONE as int,
        -(TRIG_ONE as int) <= c <= TRIG_ONE as int,
    ensures
        -(TRIG_SQ as int) <= spec_true_sin(e9, s, c) <= TRIG_SQ as int,
{
    let den = TRIG_SQ as int - e9 * c;
    lemma_ecc_den(e9, c);
    let rad = TRIG_SQ as int - e9 * e9;
    assert(0 < rad <= TRIG_SQ as int) by (nonlinear_arith)
        requires rad == 1_000_000_000_000_000_000 - e9 * e9, 0 <= e9, e9 < 1_000_000_000;
    let q = sqrt_floor(rad);
    lemma_sqrt_q_bound(rad);
    assert(q * s * (TRIG_ONE as int) <= den * (TRIG_SQ as int) && -(den * (TRIG_SQ as int)) <= q
        * s * (TRIG_ONE as int)) by (nonlinear_arith)
        requires
            0 <= q <= 1_000_000_000,
            s >= -1_000_000_000,
            s <= 1_000_000_000,
            den >= 1_000_000_000;
    lemma_tdiv_bounded(q * s * (TRIG_ONE as int), den, TRIG_SQ as int);
}

/// The floor square root of anything at most `TRIG_SQ` is at most
/// `TRIG_ONE`.
proof fn lemma_sqrt_q_bound(rad: int)
    requires
        0 <= rad <= TRIG_SQ as int,
    ensures
        0 <= sqrt_floor(rad) <= TRIG_ONE as int,
{
    let q0 = choose|r: int| is_sqrt_floor(rad, r);
    lemma_sqrt_exists(rad as nat);
    assert(is_sqrt_floor(rad, q0));
    lemma_sqrt_floor_is(rad, q0);
    assert(q0 * q0 <= TRIG_SQ as int);
    assert(q0 <= TRIG_ONE as int) by (nonlinear_arith)
        requires q0 >= 0, q0 * q0 <= 1_000_000_000_000_000_000;
}

/// Every nonnegative integer has a floor square root.
proof fn lemma_sqrt_exists(n: nat)
    ensures
        exists|r: int| is_sqrt_floor(n as int, r),
    decreases n,
{
    if n == 0 {
        assert(is_sqrt_floor(0, 0));
    } else {
        lemma_sqrt_exists((n - 1) as nat);
        let prev: int = n as int - 1;
        let r = choose|r: int| is_sqrt_floor(prev, r);
        if (r + 1) * (r + 1) <= n {
            assert(is_sqrt_floor(n as int, r + 1)) by (nonlinear_arith)
                requires
                    r >= 0,
                    (r + 1) * (r + 1) <= n,
                    n as int - 1 < (r + 1) * (r + 1);
        } else {
            assert(is_sqrt_floor(n as int, r));
        }
    }
}

fn true_cos(e9: u64, c: i64) -> (r: i64)
    requires
        e9 < TRIG_ONE,
        -TRIG_ONE <= c <= TRIG_ONE,
    ensures
        r as int == spec_true_cos(e9 as int, c as int),
        -TRIG_ONE <= r <= TRIG_ONE,
{
    proof {
        lemma_ecc_den(e9 as int, c as int);
        lemma_true_cos_bound(e9 as int, c as int);
    }
    let den: i128 = TRIG_SQ - (e9 as i128) * (c as i128);
    let num: i128 = ((c as i128) - (e9 as i128)) * TRIG_SQ;
    let q = tdiv_exec(num, den);
    q as i64
}

fn true_sin(e9: u64, s: i64, c: i64) -> (r: i128)
    requires
        e9 < TRIG_ONE,
        -TRIG_ONE <= s <= TRIG_ONE,
        -TRIG_ONE <= c <= TRIG_ONE,
    ensures
        r as int == spec_true_sin(e9 as int, s as int, c as int),
        -TRIG_SQ <= r <= TRIG_SQ,
{
    proof {
        lemma_ecc_den(e9 as int, c as int);
        lemma_true_sin_bound(e9 as int, s as int, c as int);
        assert((e9 as int) * (e9 as int) <= TRIG_SQ as int) by (nonlinear_arith)
            requires 0 <= e9 as int, 1_000_000_000 > e9 as int;
    }
    let den: i128 = TRIG_SQ - (e9 as i128) * (c as i128);
    let rad: u128 = (TRIG_SQ as u128) - (e9 as u128) * (e9 as u128);
    let q: u128 = isqrt(rad);
    proof {
        lemma_sqrt_q_bound(rad as int);
        assert(q as int * (s as int) * (TRIG_ONE as int) <= TRIG_CUBE as int && -(
        TRIG_CUBE as int) <= q as int * (s as int) * (TRIG_ONE as int)) by (nonlinear_arith)
            requires
                0 <= q as int,
                q as int <= 1_000_000_000,
                s as int >= -1_000_000_000,
                s as int <= 1_000_000_000,
                TRIG_ONE == 1_000_000_000,
                TRIG_CUBE == 1_000_000_000_000_000_000_000_000_000;
    }
    let num: i128 = (q as i128) * (s as i128) * (TRIG_ONE as i128);
    tdiv_exec(num, den)
}

fn radius_km(a: u64, e9: u64, cnu: i64) -> (r: u128)
    requires
        e9 < TRIG_ONE,
        -TRIG_ONE <= cnu <= TRIG_ONE,
    ensures
        r as int == spec_radius(a as int, e9 as int, cnu as int),
        e9 == 0 ==> r == a,
        r <= 2 * (a as u128),
{
    proof {
        assert((e9 as int) * (e9 as int) <= TRIG_SQ as int) by (nonlinear_arith)
            requires 0 <= e9 as int, 1_000_000_000 > e9 as int;
        assert((a as int) * (TRIG_SQ as int - (e9 as int) * (e9 as int)) <= (a as int) * (
        TRIG_SQ as int)) by (nonlinear_arith)
            requires 0 <= a as int, 0 <= (e9 as int) * (e9 as int) <= TRIG_SQ as int;
        assert((a as int) * (TRIG_SQ as int) <= 340_282_366_920_938_463_463_374_607_431_768_211_455)
            by (nonlinear_arith)
            requires 0 <= a as int <= 18_446_744_073_709_551_615;
        assert(0 <= (a as int) * (TRIG_SQ as int - (e9 as int) * (e9 as int))) by (nonlinear_arith)
            requires 0 <= a as int, (e9 as int) * (e9 as int) <= TRIG_SQ as int;
        let ev: int = e9 as int;
        let cv: int = cnu as int;
        assert(-(TRIG_SQ as int) < ev * cv && ev * cv <= TRIG_SQ as int) by (nonlinear_arith)
            requires
                0 <= ev,
                ev < 1_000_000_000,
                cv >= -1_000_000_000,
                cv <= 1_000_000_000;
    }
    let num: u128 = (a as u128) * ((TRIG_SQ as u128) - (e9 as u128) * (e9 as u128));
    let den_i: i128 = TRIG_SQ + (e9 as i128) * (cnu as i128);
    proof {
        let ev: int = e9 as int;
        let cv: int = cnu as int;
        // 1 + e cos v stays at least 1 - e away from zero in scaled units.
        assert(ev * cv >= ev * -1_000_000_000) by (nonlinear_arith)
            requires
                0 <= ev,
                cv >= -1_000_000_000;
        assert(1_000_000_000_000_000_000 + ev * cv >= 1_000_000_000_000_000_000 - ev
            * 1_000_000_000) by (nonlinear_arith)
            requires ev * cv >= ev * -1_000_000_000;
        assert(1_000_000_000_000_000_000 - ev * 1_000_000_000 >= 1_000_000_000) by (nonlinear_arith)
            requires ev <= 999_999_999;
    }
    let den: u128 = den_i as u128;
    proof {
        let ev: int = e9 as int;
        let cv: int = cnu as int;
        // r <= 2a: a(T^2 - e^2) <= 2a(T^2 - eT) <= 2a * den.
        assert(num <= 2 * (a as int) * (1_000_000_000_000_000_000 - ev * 1_000_000_000))
            by (nonlinear_arith)
            requires
                num == (a as int) * (1_000_000_000_000_000_000 - ev * ev),
                0 <= ev,
                ev < 1_000_000_000,
                a >= 0;
        assert(2 * (a as int) * (1_000_000_000_000_000_000 - ev * 1_000_000_000) <= den * (2 * (
        a as int))) by (nonlinear_arith)
            requires
                den as int >= 1_000_000_000_000_000_000 - ev * 1_000_000_000,
                a >= 0;
        vstd::arithmetic::div_mod::lemma_div_is_ordered(
            num as int,
            den * (2 * (a as int)),
            den as int,
        );
        vstd::arithmetic::div_mod::lemma_div_multiples_vanish(2 * (a as int), den as int);
        vstd::arithmetic::div_mod::lemma_div_pos_is_pos(num as int, den as int);
    }
    let r = num / den;
    proof {
        if e9 == 0 {
            assert(den == TRIG_SQ as u128);
            assert(num == (a as u128) * (TRIG_SQ as u128));
            vstd::arithmetic::div_mod::lemma_div_multiples_vanish(a as int, TRIG_SQ as int);
            assert((TRIG_SQ as int) * (a as int) == (a as int) * (TRIG_SQ as int))
                by (nonlinear_arith);
        }
    }
    r
}

/// The mean anomaly of `p` in micro-degrees, reduced to one turn.
pub open spec fn spec_m_micro(p: OrbitalParameters) -> int {
    (p.mean_anomaly as int / 1_000_000_000) % (TURN_MICRO as int)
}

/// The eccentricity of `p` at the trigonometric scale.
pub open spec fn spec_e9(p: OrbitalParameters) -> int {
    p.eccentricity as int / 1_000_000
}

/// The eccentric anomaly of `p` after the five-iteration Newton budget.
pub open spec fn spec_ecc_anomaly(p: OrbitalParameters) -> int {
    spec_newton_n(5, spec_m_micro(p), spec_e9(p))
}

/// The orbital radius of `p` in kilometres.
pub open spec fn spec_orbital_radius(p: OrbitalParameters) -> int {
    spec_radius(
        p.semi_major_axis as int,
        spec_e9(p),
        spec_true_cos(spec_e9(p), spec_cos_micro(spec_ecc_anomaly(p))),
    )
}

/// The planar offset of `p` from its focus, in kilometres; `None` exactly
/// when the eccentricity is outside the supported `[0, 1)` domain.
pub open spec fn spec_position(p: OrbitalParameters) -> Option<Position> {
    if p.eccentricity >= FEMTO_ONE {
        None
    } else {
        let e9 = spec_e9(p);
        let ek = spec_ecc_anomaly(p);
        let cnu = spec_true_cos(e9, spec_cos_micro(ek));
        let snu = spec_true_sin(e9, spec_sin_micro(ek), spec_cos_micro(ek));
        let r = spec_orbital_radius(p);
        Some(
            Position {
                x: tdiv(r * cnu, TRIG_ONE as int) as i128,
                y: tdiv(r * snu, TRIG_ONE as int) as i128,
            },
        )
    }
}

/// Run the Newton budget and return the eccentric anomaly with the sine
/// and cosine of `p`'s true anomaly and the eccentricity at trig scale.
fn solve_true_anomaly(p: &OrbitalParameters) -> (r: (u64, i64, i128))
    requires
        p.eccentricity < FEMTO_ONE,
    ensures
        r.0 == spec_e9(*p),
        r.1 as int == spec_true_cos(spec_e9(*p), spec_cos_micro(spec_ecc_anomaly(*p))),
        r.2 as int == spec_true_sin(
            spec_e9(*p),
            spec_sin_micro(spec_ecc_anomaly(*p)),
            spec_cos_micro(spec_ecc_anomaly(*p)),
        ),
        -TRIG_ONE <= r.1 <= TRIG_ONE,
        -TRIG_SQ <= r.2 <= TRIG_SQ,
{
    let m: u64 = (p.mean_anomaly / 1_000_000_000) % TURN_MICRO;
    proof {
        vstd::arithmetic::div_mod::lemma_mod_division_less_than_divisor(
            p.mean_anomaly as int / 1_000_000_000,
            TURN_MICRO as int,
        );
        vstd::arithmetic::div_mod::lemma_mod_bound(
            p.mean_anomaly as int / 1_000_000_000,
            TURN_MICRO as int,
        );
        vstd::arithmetic::div_mod::lemma_div_is_ordered(
            p.eccentricity as int,
            FEMTO_ONE as int - 1,
            1_000_000,
        );
    }
    let e9: u64 = p.eccentricity / 1_000_000;
    let mut ek: u64 = m;
    let mut i: u64 = 0;
    while i < 5
        invariant
            i <= 5,
            ek as int == spec_newton_n(i as nat, m as int, e9 as int),
            ek <= TURN_MICRO,
            m < TURN_MICRO,
            e9 < TRIG_ONE,
        decreases 5 - i,
    {
        ek = newton_iter(ek, m, e9);
        i = i + 1;
    }
    let s = sin_micro(ek);
    let c = cos_micro(ek);
    let cnu = true_cos(e9, c);
    let snu = true_sin(e9, s, c);
    (e9, cnu, snu)
}

/// The orbital radius of `p` in kilometres: for a circular orbit it is
/// exactly the semi-major axis, whatever the mean anomaly.  `None` exactly
/// when the eccentricity is outside `[0, 1)`.
pub fn orbital_radius(p: &OrbitalParameters) -> (r: Option<u128>)
    ensures
        r is Some <==> p.eccentricity < FEMTO_ONE,
        r is Some ==> r->0 as int == spec_orbital_radius(*p),
        r is Some ==> r->0 <= 2 * (p.semi_major_axis as u128),
        p.eccentricity == 0 ==> r == Some(p.semi_major_axis as u128),
{
    if p.eccentricity >= FEMTO_ONE {
        return None;
    }
    let (e9, cnu, _snu) = solve_true_anomaly(p);
    Some(radius_km(p.semi_major_axis, e9, cnu))
}

/// The planar offset of `p` from its focus, in whole kilometres; `None`
/// exactly when the eccentricity is outside the supported `[0, 1)` domain.
pub fn compute_position(p: &OrbitalParameters) -> (r: Option<Position>)
    ensures
        r == spec_position(*p),
        r is Some <==> p.eccentricity < FEMTO_ONE,
{
    if p.eccentricity >= FEMTO_ONE {
        return None;
    }
    let (e9, cnu, snu) = solve_true_anomaly(p);
    let rad: u128 = radius_km(p.semi_major_axis, e9, cnu);
    proof {
        let rv: int = rad as int;
        assert(rv * (cnu as int) <= rv * 1_000_000_000 && -(rv * 1_000_000_000) <= rv * (
        cnu as int)) by (nonlinear_arith)
            requires
                0 <= rv,
                cnu as int >= -1_000_000_000,
                cnu as int <= 1_000_000_000;
        assert(rv * (snu as int) <= rv * 1_000_000_000_000_000_000 && -(rv
            * 1_000_000_000_000_000_000) <= rv * (snu as int)) by (nonlinear_arith)
            requires
                0 <= rv,
                snu as int >= -1_000_000_000_000_000_000,
                snu as int <= 1_000_000_000_000_000_000;
    }
    let x = tdiv_exec((rad as i128) * (cnu as i128), TRIG_ONE as i128);
    let y = tdiv_exec((rad as i128) * (snu as i128), TRIG_ONE as i128);
    Some(Position { x, y })
}

/// On a circular orbit the computed radius is exactly the semi-major axis,
/// for every mean anomaly.
pub proof fn lemma_circular_radius(p: OrbitalParameters)
    requires
        p.eccentricity == 0,
    ensures
        spec_orbital_radius(p) == p.semi_major_axis as int,
{
    let a = p.semi_major_axis as int;
    assert(spec_e9(p) == 0);
    let cnu = spec_true_cos(0, spec_cos_micro(spec_ecc_anomaly(p)));
    assert(0 * cnu == 0) by (nonlinear_arith);
    assert(spec_radius(a, 0, cnu) == a * (TRIG_SQ as int) / (TRIG_SQ as int));
    vstd::arithmetic::div_mod::lemma_div_multiples_vanish(a, TRIG_SQ as int);
    assert((TRIG_SQ as int) * a == a * (TRIG_SQ as int)) by (nonlinear_arith);
}

} // verus!
