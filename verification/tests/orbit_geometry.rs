//! Geometry of the four conic kinds, checked on concrete orbits.

use orbital::num::SCALE;
use orbital::{Orbit, OrbitKind};

fn ticks(x: f64) -> i64 {
    (x * SCALE as f64).round() as i64
}

#[test]
fn classification_boundaries() {
    // Exactly the documented bands, probed at and around each edge.
    assert!(matches!(OrbitKind::from_eccentricity(0), OrbitKind::Circle));
    assert!(matches!(OrbitKind::from_eccentricity(100), OrbitKind::Circle));
    assert!(matches!(OrbitKind::from_eccentricity(999), OrbitKind::Circle));
    assert!(matches!(OrbitKind::from_eccentricity(1_000), OrbitKind::Ellipse));
    assert!(matches!(
        OrbitKind::from_eccentricity(999_999_000),
        OrbitKind::Ellipse
    ));
    assert!(matches!(
        OrbitKind::from_eccentricity(999_999_001),
        OrbitKind::Parabola
    ));
    assert!(matches!(OrbitKind::from_eccentricity(SCALE), OrbitKind::Parabola));
    assert!(matches!(
        OrbitKind::from_eccentricity(1_000_000_999),
        OrbitKind::Parabola
    ));
    assert!(matches!(
        OrbitKind::from_eccentricity(1_000_001_000),
        OrbitKind::Hyperbola
    ));
}

#[test]
fn circular_orbit_of_radius_200() {
    let orbit = Orbit::circular(ticks(200.0));
    assert_eq!(orbit.epsilon, 0);
    assert!(matches!(orbit.kind(), OrbitKind::Circle));
    assert_eq!(orbit.perihelion(), ticks(200.0));
    assert_eq!(orbit.aphelion(), ticks(200.0));
    assert_eq!(orbit.semi_major(), ticks(200.0));
    assert_eq!(orbit.semi_minor(), ticks(200.0));
}

#[test]
fn elliptic_geometry() {
    // e = 0.5, p = 150: perihelion p/1.5 = 100, aphelion p/0.5 = 300.
    let orbit = Orbit { p: ticks(150.0), epsilon: ticks(0.5) };
    assert!(matches!(orbit.kind(), OrbitKind::Ellipse));
    assert_eq!(orbit.perihelion(), ticks(100.0));
    assert_eq!(orbit.aphelion(), ticks(300.0));
    // semi-major = p / (1 - e^2) = 150 / 0.75 = 200.
    assert_eq!(orbit.semi_major(), ticks(200.0));
    // semi-minor = p / sqrt(0.75); the square root truncates to whole
    // ticks, which the division inflates by a few hundred ticks (a few
    // parts in ten billion).
    let b = orbit.semi_minor();
    let expect = 150.0 / 0.75_f64.sqrt();
    assert!((b - ticks(expect)).abs() <= 300, "semi_minor {b}");
    // area = pi a b.
    let area = orbit.area();
    let expect_area = std::f64::consts::PI * 200.0 * expect;
    assert!((area as f64 / SCALE as f64 - expect_area).abs() < 1e-3);
}

#[test]
fn radius_at_angle() {
    let orbit = Orbit { p: ticks(150.0), epsilon: ticks(0.5) };
    // r at cos = 1 is the perihelion, at cos = -1 the aphelion, at a
    // right angle (cos = 0) the semi-latus rectum itself.
    assert_eq!(orbit.r(SCALE), orbit.perihelion());
    assert_eq!(orbit.r(-SCALE), orbit.aphelion());
    assert_eq!(orbit.r(0), orbit.p);
}

#[test]
fn hyperbolic_aphelion_is_negative() {
    // Beyond the asymptote the conic equation's denominator flips sign;
    // the documented convention is a negative radius that callers must
    // not use as a distance.
    let orbit = Orbit { p: ticks(200.0), epsilon: ticks(2.0) };
    assert!(matches!(orbit.kind(), OrbitKind::Hyperbola));
    assert!(orbit.aphelion() < 0);
    // semi-major falls back to p / (e^2 - 1) = 200 / 3.
    let a = orbit.semi_major();
    assert!((a - ticks(200.0 / 3.0)).abs() <= 2, "semi_major {a}");
}

#[test]
fn parabolic_semi_major_convention() {
    // For the parabola the shared formula divides by two: not a
    // geometric semi-major axis, but the documented convention.
    let orbit = Orbit { p: ticks(100.0), epsilon: SCALE };
    assert!(matches!(orbit.kind(), OrbitKind::Parabola));
    assert_eq!(orbit.semi_major(), ticks(50.0));
}

#[test]
fn mean_motion_of_circle() {
    let orbit = Orbit::circular(ticks(200.0));
    // sqrt(1/200)/200 = 0.000353553...
    let mm = orbit.mean_motion();
    assert_eq!(mm, 353_553);
}
