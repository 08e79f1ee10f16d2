//! Two-body orbital elements and the time-stepping of the mean anomaly.
//!
//! Angles are held in femto-degrees (`10^-15` degree), so one full turn is
//! [`TURN_FEMTO`].  The semi-major axis is held in whole kilometres, the
//! eccentricity in femto-units (`10^15` is `1.0`).  Mean motion follows the
//! classical `360 / a^1.5` degrees per second, evaluated with an integer
//! floor square root, so stepping is exact modular arithmetic: stepping by
//! `t1` then `t2` lands on exactly the same angle as stepping once by
//! `t1 + t2`.

use vstd::prelude::*;
use crate::num::{isqrt, sqrt_floor};

verus! {

/// One full turn in femto-degrees: `360 * 10^15`.
pub const TURN_FEMTO: u64 = 360_000_000_000_000_000;

/// The orbital elements of one body.
pub struct OrbitalParameters {
    /// Semi-major axis in kilometres; `0` marks a stationary body and
    /// suppresses stepping.
    pub semi_major_axis: u64,
    /// Eccentricity in femto-units: `10^15` is `1.0`.  Values at or above
    /// `1.0` may be stored but are outside the position solver's domain.
    pub eccentricity: u64,
    /// Orientation of the major axis, in whole degrees.
    pub longitude_of_periapsis: u16,
    /// Current angular position along the orbit, in femto-degrees,
    /// normalized to `[0, TURN_FEMTO)`.
    pub mean_anomaly: u64,
}

impl OrbitalParameters {
    /// The stored mean anomaly lies in its canonical range.
    pub open spec fn well_formed(self) -> bool {
        self.mean_anomaly < TURN_FEMTO
    }

    /// Elements of a stationary body: all zero.
    pub fn stationary() -> (r: OrbitalParameters)
        ensures
            r == spec_stationary(),
    {
        OrbitalParameters {
            semi_major_axis: 0,
            eccentricity: 0,
            longitude_of_periapsis: 0,
            mean_anomaly: 0,
        }
    }

    /// Advance the mean anomaly by `elapsed_seconds`, leaving every other
    /// element unchanged.  A zero semi-major axis suppresses the step.
    pub fn step_forward(&mut self, elapsed_seconds: u64)
        ensures
            *final(self) == spec_step(*old(self), elapsed_seconds as int),
            old(self).semi_major_axis == 0 ==> *final(self) == *old(self),
            old(self).semi_major_axis > 0 ==> final(self).mean_anomaly < TURN_FEMTO,
            old(self).well_formed() ==> final(self).well_formed(),
    {
        if self.semi_major_axis == 0 {
            return;
        }
        let mm = mean_motion(self.semi_major_axis);
        proof {
            assert(mm as int * elapsed_seconds as int <= TURN_FEMTO as int * u64::MAX as int)
                by (nonlinear_arith)
                requires mm <= TURN_FEMTO, elapsed_seconds <= u64::MAX;
        }
        let total: u128 = self.mean_anomaly as u128 + mm as u128 * elapsed_seconds as u128;
        proof {
            vstd::arithmetic::div_mod::lemma_mod_division_less_than_divisor(
                total as int,
                TURN_FEMTO as int,
            );
        }
        self.mean_anomaly = (total % (TURN_FEMTO as u128)) as u64;
    }
}

pub open spec fn spec_stationary() -> OrbitalParameters {
    OrbitalParameters {
        semi_major_axis: 0,
        eccentricity: 0,
        longitude_of_periapsis: 0,
        mean_anomaly: 0,
    }
}

/// Mean motion in femto-degrees per second: `360 * 10^15 / a^1.5`, where
/// `a^1.5` is evaluated as `a * floor(sqrt(a))`.
pub open spec fn spec_mean_motion(a: int) -> int {
    TURN_FEMTO as int / (a * sqrt_floor(a))
}

/// What one step does: everything fixed but the mean anomaly, which grows
/// by mean motion times elapsed time and is reduced modulo a full turn.
pub open spec fn spec_step(s: OrbitalParameters, t: int) -> OrbitalParameters {
    if s.semi_major_axis == 0 {
        s
    } else {
        OrbitalParameters {
            mean_anomaly: ((s.mean_anomaly + spec_mean_motion(s.semi_major_axis as int) * t) % (
            TURN_FEMTO as int)) as u64,
            ..s
        }
    }
}

/// Mean motion of an orbit with semi-major axis `a` kilometres.
pub fn mean_motion(a: u64) -> (r: u64)
    requires
        a > 0,
    ensures
        r == spec_mean_motion(a as int),
        r <= TURN_FEMTO,
{
    let s = isqrt(a as u128);
    proof {
        assert(s * s <= a as int);
        assert(s <= a as int) by (nonlinear_arith)
            requires s * s <= a as int, a >= 1, s >= 0;
        assert(1 * 1 <= a as int);
        assert((a as int) * 1 <= (a as int) * s) by (nonlinear_arith)
            requires s >= 1, a >= 1;
        assert((a as int) * s <= (a as int) * (a as int)) by (nonlinear_arith)
            requires s <= a as int, a >= 0;
        assert((a as int) * (a as int) <= u128::MAX) by (nonlinear_arith)
            requires a <= u64::MAX;
    }
    let denom: u128 = (a as u128) * s;
    let r = (TURN_FEMTO as u128) / denom;
    proof {
        vstd::arithmetic::div_mod::lemma_div_nonincreasing(TURN_FEMTO as int, denom as int);
        vstd::arithmetic::div_mod::lemma_div_pos_is_pos(TURN_FEMTO as int, denom as int);
    }
    r as u64
}

/// A stationary body never moves: with a zero semi-major axis, stepping by
/// any duration leaves the elements untouched.
pub proof fn lemma_step_stationary(s: OrbitalParameters, t: int)
    requires
        s.semi_major_axis == 0,
    ensures
        spec_step(s, t) == s,
{
}

/// After any step of an orbiting body, the mean anomaly lies in
/// `[0, TURN_FEMTO)`.
pub proof fn lemma_step_in_range(s: OrbitalParameters, t: int)
    requires
        s.semi_major_axis > 0,
        t >= 0,
    ensures
        0 <= spec_step(s, t).mean_anomaly < TURN_FEMTO,
{
    let k = spec_mean_motion(s.semi_major_axis as int);
    vstd::arithmetic::div_mod::lemma_mod_division_less_than_divisor(
        s.mean_anomaly + k * t,
        TURN_FEMTO as int,
    );
}

/// Stepping preserves well-formedness.
pub proof fn lemma_step_wf(s: OrbitalParameters, t: int)
    requires
        s.well_formed(),
        t >= 0,
    ensures
        spec_step(s, t).well_formed(),
{
    if s.semi_major_axis > 0 {
        lemma_step_in_range(s, t);
    }
}

/// A zero-duration step is a no-op on well-formed elements.
pub proof fn lemma_step_zero(s: OrbitalParameters)
    requires
        s.well_formed(),
    ensures
        spec_step(s, 0) == s,
{
    if s.semi_major_axis > 0 {
        let k = spec_mean_motion(s.semi_major_axis as int);
        assert(k * 0 == 0);
        vstd::arithmetic::div_mod::lemma_small_mod(s.mean_anomaly as nat, TURN_FEMTO as nat);
    }
}

/// Stepping by `t1` then by `t2` gives exactly the elements of stepping
/// once by `t1 + t2`.
pub proof fn lemma_step_additive(s: OrbitalParameters, t1: int, t2: int)
    requires
        t1 >= 0,
        t2 >= 0,
    ensures
        spec_step(spec_step(s, t1), t2) == spec_step(s, t1 + t2),
{
    if s.semi_major_axis > 0 {
        let turn = TURN_FEMTO as int;
        let k = spec_mean_motion(s.semi_major_axis as int);
        let m = s.mean_anomaly as int;
        let s1 = spec_step(s, t1);
        vstd::arithmetic::div_mod::lemma_mod_division_less_than_divisor(m + k * t1, turn);
        vstd::arithmetic::div_mod::lemma_mod_bound(m + k * t1, turn);
        assert(s1.semi_major_axis == s.semi_major_axis);
        // ((m + k*t1) % turn + k*t2) % turn == (m + k*t1 + k*t2) % turn
        vstd::arithmetic::div_mod::lemma_add_mod_noop(m + k * t1, k * t2, turn);
        vstd::arithmetic::div_mod::lemma_mod_twice(m + k * t1, turn);
        vstd::arithmetic::div_mod::lemma_mod_twice(k * t2, turn);
        vstd::arithmetic::div_mod::lemma_add_mod_noop((m + k * t1) % turn, k * t2, turn);
        assert(k * t1 + k * t2 == k * (t1 + t2)) by (nonlinear_arith);
        assert(spec_step(s1, t2).mean_anomaly == spec_step(s, t1 + t2).mean_anomaly);
    }
}

} // verus!
