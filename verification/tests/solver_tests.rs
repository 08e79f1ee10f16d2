use magnetar_data::num::FEMTO_ONE;
use magnetar_data::orbital::OrbitalParameters;
use magnetar_data::solver::{compute_position, cos_micro, orbital_radius, sin_micro, TRIG_ONE};

fn elements(a: u64, ecc: u64, ma: u64) -> OrbitalParameters {
    OrbitalParameters {
        semi_major_axis: a,
        eccentricity: ecc,
        longitude_of_periapsis: 0,
        mean_anomaly: ma,
    }
}

#[test]
fn sine_is_exact_at_the_cardinal_angles() {
    assert_eq!(sin_micro(0), 0);
    assert_eq!(sin_micro(90_000_000), TRIG_ONE);
    assert_eq!(sin_micro(180_000_000), 0);
    assert_eq!(sin_micro(270_000_000), -TRIG_ONE);
    assert_eq!(cos_micro(0), TRIG_ONE);
    assert_eq!(cos_micro(180_000_000), -TRIG_ONE);
}

#[test]
fn sine_tracks_the_real_function() {
    for deg in 0..360 {
        let x = (deg as u64) * 1_000_000;
        let approx = sin_micro(x) as f64 / TRIG_ONE as f64;
        let exact = (deg as f64).to_radians().sin();
        assert!((approx - exact).abs() < 0.003, "sin {} deg: {} vs {}", deg, approx, exact);
    }
}

#[test]
fn circular_orbit_radius_is_exactly_the_semi_major_axis() {
    let a: u64 = 149_600_000;
    for ma_deg in [0u64, 17, 45, 90, 133, 180, 271, 359] {
        let p = elements(a, 0, ma_deg * 1_000_000_000_000_000);
        assert_eq!(orbital_radius(&p), Some(a as u128));
    }
}

#[test]
fn circular_orbit_position_lies_on_the_circle() {
    let a: u64 = 149_600_000;
    for ma_deg in [0u64, 30, 60, 123, 240, 359] {
        let p = elements(a, 0, ma_deg * 1_000_000_000_000_000);
        let pos = compute_position(&p).unwrap();
        let dist = ((pos.x as f64).powi(2) + (pos.y as f64).powi(2)).sqrt();
        let rel = (dist - a as f64).abs() / a as f64;
        assert!(rel < 0.01, "anomaly {} deg: radius {} vs {}", ma_deg, dist, a);
    }
}

#[test]
fn eccentric_orbit_position_matches_kepler() {
    // Earth-like elements at a quarter of the period.
    let p = elements(149_600_000, 16_700_000_000_000, 90_000_000_000_000_000);
    let pos = compute_position(&p).unwrap();
    // Double-precision reference computation of the same algorithm.
    let e = 0.0167f64;
    let m = 90f64.to_radians();
    let mut big_e = m;
    for _ in 0..8 {
        big_e -= (big_e - e * big_e.sin() - m) / (1.0 - e * big_e.cos());
    }
    let nu = 2.0 * (((1.0 + e) / (1.0 - e)).sqrt() * (big_e / 2.0).tan()).atan();
    let r = 149_600_000.0 * (1.0 - e * e) / (1.0 + e * nu.cos());
    let (x, y) = (r * nu.cos(), r * nu.sin());
    assert!((pos.x as f64 - x).abs() < 0.01 * 149_600_000.0);
    assert!((pos.y as f64 - y).abs() < 0.01 * 149_600_000.0);
}

#[test]
fn out_of_domain_eccentricity_is_rejected() {
    let p = elements(149_600_000, FEMTO_ONE, 0);
    assert_eq!(compute_position(&p), None);
    assert!(orbital_radius(&p).is_none());
    let q = elements(149_600_000, FEMTO_ONE - 1, 0);
    assert!(compute_position(&q).is_some());
}

#[test]
fn position_at_periapsis_of_eccentric_orbit() {
    // At zero mean anomaly the body sits at periapsis: r = a(1 - e).
    let a: u64 = 1_000_000;
    let p = elements(a, 500_000_000_000_000, 0);
    let pos = compute_position(&p).unwrap();
    let expect = a as f64 * 0.5;
    assert!((pos.x as f64 - expect).abs() < 0.01 * expect);
    assert!((pos.y as f64).abs() < 0.01 * a as f64);
}
