use magnetar_data::orbital::{mean_motion, OrbitalParameters, TURN_FEMTO};

fn elements(a: u64, ecc: u64, lop: u16, ma: u64) -> OrbitalParameters {
    OrbitalParameters {
        semi_major_axis: a,
        eccentricity: ecc,
        longitude_of_periapsis: lop,
        mean_anomaly: ma,
    }
}

#[test]
fn stationary_body_never_moves() {
    let mut p = elements(0, 0, 0, 123_456_789);
    p.step_forward(0);
    assert_eq!(p.mean_anomaly, 123_456_789);
    p.step_forward(1);
    assert_eq!(p.mean_anomaly, 123_456_789);
    p.step_forward(u64::MAX);
    assert_eq!(p.mean_anomaly, 123_456_789);
    assert_eq!(p.semi_major_axis, 0);
}

#[test]
fn stepped_anomaly_stays_in_range() {
    let mut p = elements(1, 0, 0, 0);
    for _ in 0..10 {
        p.step_forward(1_000_000_007);
        assert!(p.mean_anomaly < TURN_FEMTO);
    }
    let mut q = elements(149_600_000, 16_700_000_000_000, 0, 359_999_999_999_999_999);
    q.step_forward(u64::MAX);
    assert!(q.mean_anomaly < TURN_FEMTO);
}

#[test]
fn zero_duration_step_is_a_no_op() {
    let mut p = elements(149_600_000, 16_700_000_000_000, 7, 90_500_000_000_000_000);
    p.step_forward(0);
    assert_eq!(p.mean_anomaly, 90_500_000_000_000_000);
    assert_eq!(p.semi_major_axis, 149_600_000);
    assert_eq!(p.eccentricity, 16_700_000_000_000);
    assert_eq!(p.longitude_of_periapsis, 7);
}

#[test]
fn split_steps_equal_one_step() {
    let t1: u64 = 86_400 * 123 + 17;
    let t2: u64 = 3_600 * 999 + 5;
    let mut split = elements(149_600_000, 16_700_000_000_000, 0, 42);
    split.step_forward(t1);
    split.step_forward(t2);
    let mut whole = elements(149_600_000, 16_700_000_000_000, 0, 42);
    whole.step_forward(t1 + t2);
    assert_eq!(split.mean_anomaly, whole.mean_anomaly);
}

#[test]
fn mean_motion_of_unit_orbit_is_a_full_turn_per_second() {
    // a = 1 km: a^1.5 = 1, so one full turn each second.
    assert_eq!(mean_motion(1), TURN_FEMTO);
}

#[test]
fn one_full_period_returns_to_start() {
    // Earth-like orbit, started at zero anomaly, stepped by one orbital
    // period computed from the mean-motion formula.
    let a: u64 = 149_600_000;
    let mm = mean_motion(a);
    assert!(mm > 0);
    let period = TURN_FEMTO / mm;
    let mut p = elements(a, 16_700_000_000_000, 0, 0);
    p.step_forward(period);
    // The remaining distance to a full turn is below one second of motion.
    assert!(p.mean_anomaly == 0 || TURN_FEMTO - p.mean_anomaly < mm);
}
