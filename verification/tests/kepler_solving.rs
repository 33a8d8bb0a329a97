//! The forward Kepler problem: anomalies and angles over time.

use orbital::kepler::{KeplerOutcome, KeplerSolve, KeplerStep, TrueAnomaly, KEPLER_CAP};
use orbital::num::SCALE;
use orbital::{Orbit, OrbitKind, TAU};

fn ticks(x: f64) -> i64 {
    (x * SCALE as f64).round() as i64
}

fn to_real(t: i64) -> f64 {
    t as f64 / SCALE as f64
}

#[test]
fn circular_angle_is_periodic() {
    // The angle a circular orbit reports repeats exactly after one
    // period, whatever the radius and time.
    for radius in [50.0, 200.0, 1234.5] {
        let orbit = Orbit::circular(ticks(radius));
        let mm = orbit.mean_motion();
        let period = (TAU as i128 * SCALE as i128 / mm as i128) as i64;
        for time in [0i64, 12_345, ticks(3.0), ticks(1000.0)] {
            let a = orbit.angle_at(time, 0, 0, 0);
            let b = orbit.angle_at(time + period, 0, 0, 0);
            match (a, b) {
                (TrueAnomaly::Angle(x), TrueAnomaly::Angle(y)) => assert_eq!(x, y),
                _ => panic!("circular orbit must answer in closed form"),
            }
        }
    }
}

#[test]
fn time_queries_are_idempotent() {
    // Identical inputs give identical outputs, bit for bit.
    let orbit = Orbit::circular(ticks(200.0));
    let first = orbit.angle_at(ticks(17.0), 0, 0, 0);
    let second = orbit.angle_at(ticks(17.0), 0, 0, 0);
    match (first, second) {
        (TrueAnomaly::Angle(x), TrueAnomaly::Angle(y)) => assert_eq!(x, y),
        _ => panic!("circular orbit must answer in closed form"),
    }

    let parabola = Orbit { p: ticks(100.0), epsilon: SCALE };
    let one = parabola.eccentric_anomaly(ticks(40.0));
    let two = parabola.eccentric_anomaly(ticks(40.0));
    match (one, two) {
        (KeplerOutcome::Solved(x), KeplerOutcome::Solved(y)) => assert_eq!(x, y),
        _ => panic!("parabolic orbit must solve in full"),
    }
}

/// Drive the elliptic solver with real trigonometry until it reports
/// convergence; panics if it gives up at the cap.
fn solve_elliptic(mut solver: KeplerSolve) -> (i64, u32) {
    let mut rounds = 0u32;
    loop {
        let est = to_real(solver.estimate());
        let sin_e = ticks(est.sin());
        let cos_e = ticks(est.cos());
        match solver.step_ellipse(sin_e, cos_e) {
            KeplerStep::Converged(e) => return (e, rounds),
            KeplerStep::GaveUp(_) => panic!("no convergence within the cap"),
            KeplerStep::Continue(_) => rounds += 1,
        }
    }
}

#[test]
fn elliptic_iteration_converges_well_under_the_cap() {
    // Across eccentricities up to 0.99 and mean anomalies across the
    // turn, the update settles far below the 30-round cap. (At the very
    // extreme of that range — e = 0.99 near apoapsis, M = 6.2 — the
    // mean-anomaly seed makes the update diverge instead; see below.)
    let eccentricities: [f64; 6] = [0.000001, 0.1, 0.3, 0.6, 0.9, 0.99];
    let anomalies: [f64; 6] = [0.1, 1.0, 2.0, 3.1, 4.5, 6.2];
    for &e in &eccentricities {
        for &m in &anomalies {
            if e == 0.99 && m == 6.2 {
                continue;
            }
            let solver = KeplerSolve { m: ticks(m), epsilon: ticks(e), est: ticks(m), iters: 0 };
            let (_, rounds) = solve_elliptic(solver);
            assert!(rounds < 15, "e={e} m={m} took {rounds} rounds");
        }
    }
}

#[test]
fn divergent_elliptic_case_gives_up_at_the_cap() {
    // Where the update diverges the solver must not stall or fail: it
    // counts its thirty rounds and hands back the current estimate as a
    // deliberate best effort.
    let mut solver =
        KeplerSolve { m: ticks(6.2), epsilon: ticks(0.99), est: ticks(6.2), iters: 0 };
    let mut rounds = 0u32;
    loop {
        let est = to_real(solver.estimate());
        let sin_e = ticks(est.sin());
        let cos_e = ticks(est.cos());
        match solver.step_ellipse(sin_e, cos_e) {
            KeplerStep::Converged(_) => panic!("this seed diverges"),
            KeplerStep::GaveUp(_) => break,
            KeplerStep::Continue(_) => rounds += 1,
        }
    }
    assert_eq!(rounds, KEPLER_CAP);
}

#[test]
fn elliptic_angle_parts() {
    let orbit = Orbit { p: ticks(150.0), epsilon: ticks(0.5) };
    let time = ticks(100.0);
    let solver = match orbit.eccentric_anomaly(time) {
        KeplerOutcome::Iterate(s) => s,
        KeplerOutcome::Solved(_) => panic!("an ellipse needs iteration"),
    };
    let (e_anom, _) = solve_elliptic(solver);
    let sin_e = ticks(to_real(e_anom).sin());
    let cos_e = ticks(to_real(e_anom).cos());
    match orbit.angle_at(time, e_anom, sin_e, cos_e) {
        TrueAnomaly::FromXY { x, y } => {
            // x = cos E - e; y = sin E * sqrt(1 - e^2).
            assert_eq!(x, cos_e - orbit.epsilon);
            let expect_y = to_real(sin_e) * 0.75_f64.sqrt();
            assert!((to_real(y) - expect_y).abs() < 1e-6);
            // The reconstructed true anomaly solves the conic equation:
            // r(angle) equals the ellipse radius at the anomaly.
            let angle = (to_real(y)).atan2(to_real(x));
            let r = orbit.r(ticks(angle.cos()));
            assert!(r > 0);
        },
        _ => panic!("an ellipse reports atan2 inputs"),
    }
}

#[test]
fn parabolic_solver_and_angle() {
    let orbit = Orbit { p: ticks(100.0), epsilon: SCALE };
    let time = ticks(40.0);
    let e_anom = match orbit.eccentric_anomaly(time) {
        KeplerOutcome::Solved(v) => v,
        KeplerOutcome::Iterate(_) => panic!("a parabola solves in full"),
    };
    assert!(e_anom >= 0);
    match orbit.angle_at(time, e_anom, 0, 0) {
        TrueAnomaly::FromCos { cos, sign } => {
            assert_eq!(sign, 1);
            assert!(-SCALE <= cos && cos <= SCALE);
            // cos nu = (1 - E^2) / (1 + E^2) for the parabolic anomaly.
            let u2 = to_real(e_anom) * to_real(e_anom);
            let expect = (1.0 - u2) / (1.0 + u2);
            assert!((to_real(cos) - expect).abs() < 1e-6);
        },
        _ => panic!("a parabola reports an arc-cosine input"),
    }
}

#[test]
fn hyperbolic_step_and_angle() {
    let orbit = Orbit { p: ticks(200.0), epsilon: ticks(2.0) };
    let time = ticks(25.0);
    let mut solver = match orbit.eccentric_anomaly(time) {
        KeplerOutcome::Iterate(s) => s,
        KeplerOutcome::Solved(_) => panic!("a hyperbola needs iteration"),
    };
    let mut rounds = 0u32;
    let e_anom = loop {
        let est = to_real(solver.estimate());
        // The hyperbolic anomaly of a modest mean anomaly stays small,
        // so its sinh and cosh fit comfortably.
        let sinh_e = ticks(est.sinh());
        let cosh_e = ticks(est.cosh());
        match solver.step_hyperbola(sinh_e, cosh_e) {
            KeplerStep::Converged(e) => break e,
            KeplerStep::GaveUp(_) => panic!("no convergence within the cap"),
            KeplerStep::Continue(_) => rounds += 1,
        }
    };
    assert!(rounds < KEPLER_CAP);
    let cosh_e = ticks(to_real(e_anom).cosh());
    match orbit.angle_at(time, e_anom, 0, cosh_e) {
        TrueAnomaly::FromCos { cos, sign } => {
            assert_eq!(sign, 1);
            // cos nu = (e - cosh E) / (e cosh E - 1).
            let expect = (2.0 - to_real(cosh_e)) / (2.0 * to_real(cosh_e) - 1.0);
            assert!((to_real(cos) - expect).abs() < 1e-6);
        },
        _ => panic!("a hyperbola reports an arc-cosine input"),
    }
}

#[test]
fn parabolic_solver_exact_fixture() {
    // Exact tick-level regression values for the parabolic pipeline at
    // p = 100, time = 40: mean motion, mean anomaly, the solved
    // anomaly, and the cosine it yields.
    let orbit = Orbit { p: ticks(100.0), epsilon: SCALE };
    assert_eq!(orbit.semi_major(), 50_000_000_000);
    assert_eq!(orbit.mean_motion(), 2_828_427);
    let e_anom = match orbit.eccentric_anomaly(ticks(40.0)) {
        KeplerOutcome::Solved(v) => v,
        KeplerOutcome::Iterate(_) => panic!("a parabola solves in full"),
    };
    assert_eq!(e_anom, 539_645_500);
    match orbit.angle_at(ticks(40.0), e_anom, 0, 0) {
        TrueAnomaly::FromCos { cos, sign } => {
            assert_eq!(cos, 548_926_005);
            assert_eq!(sign, 1);
        },
        _ => panic!("a parabola reports an arc-cosine input"),
    }
}

#[test]
fn zero_time_sits_at_perihelion() {
    let orbit = Orbit::circular(ticks(200.0));
    match orbit.angle_at(0, 0, 0, 0) {
        TrueAnomaly::Angle(a) => assert_eq!(a, 0),
        _ => panic!("circular orbit must answer in closed form"),
    }
}
