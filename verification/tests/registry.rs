//! The orbit registry: stable identifiers, removal, and the outline
//! sampling policy.

use orbital::num::SCALE;
use orbital::orbits::{outline_angles, Object, Orbits, DEG};
use orbital::{Orbit, OrbitKind};

fn ticks(x: f64) -> i64 {
    (x * SCALE as f64).round() as i64
}

fn object(radius: f64, angle: f64, t: f64) -> Object {
    Object { angle: ticks(angle), t: ticks(t), orbit: Orbit::circular(ticks(radius)) }
}

#[test]
fn insert_then_remove_returns_the_same_object() {
    let mut reg = Orbits::new();
    let obj = object(200.0, 0.25, 3.0);
    let id = reg.insert(obj);
    let removed = reg.remove(id);
    assert_eq!(removed, Some(obj));
    assert_eq!(reg.len(), 0);
    // A second removal of the same identifier reports absence.
    assert_eq!(reg.remove(id), None);
}

#[test]
fn removal_keeps_other_identifiers_stable() {
    let mut reg = Orbits::new();
    let a = object(100.0, 0.0, 0.0);
    let b = object(200.0, 1.0, 5.0);
    let c = object(300.0, 2.0, 9.0);
    let ida = reg.insert(a);
    let idb = reg.insert(b);
    let idc = reg.insert(c);
    assert_eq!(reg.remove(ida), Some(a));
    // The swap renumbers internal slots but never identifiers.
    assert_eq!(reg.len(), 2);
    assert_eq!(reg.remove(idc), Some(c));
    assert_eq!(reg.remove(idb), Some(b));
    assert_eq!(reg.len(), 0);
}

#[test]
fn removing_an_unknown_identifier_reports_absence() {
    let mut reg = Orbits::new();
    assert_eq!(reg.remove(0), None);
    assert_eq!(reg.remove(17), None);
}

#[test]
fn draw_shifts_each_query_time_by_the_object_offset() {
    let mut reg = Orbits::new();
    let a = object(100.0, 0.0, 3.0);
    let b = object(200.0, 1.0, 7.0);
    let ida = reg.insert(a);
    let idb = reg.insert(b);
    let items = reg.draw(ticks(10.0));
    assert_eq!(items.len(), 2);
    for item in items {
        if item.id == ida {
            assert_eq!(item.query_time, ticks(13.0));
        } else {
            assert_eq!(item.id, idb);
            assert_eq!(item.query_time, ticks(17.0));
        }
        assert!(matches!(item.kind, OrbitKind::Circle));
    }
}

#[test]
fn draw_reports_objects_in_a_fixed_order() {
    // Two draws of the same state yield the same sequence, and the
    // order is the dense storage order: insertion order until a removal
    // swaps the last entry into the freed slot.
    let mut reg = Orbits::new();
    let a = object(100.0, 0.0, 0.0);
    let b = object(200.0, 1.0, 5.0);
    let c = object(300.0, 2.0, 9.0);
    let ida = reg.insert(a);
    let idb = reg.insert(b);
    let idc = reg.insert(c);
    let once: Vec<usize> = reg.draw(0).into_iter().map(|item| item.id).collect();
    let again: Vec<usize> = reg.draw(0).into_iter().map(|item| item.id).collect();
    assert_eq!(once, again);
    assert_eq!(once, vec![ida, idb, idc]);
    reg.remove(ida);
    let after: Vec<usize> = reg.draw(0).into_iter().map(|item| item.id).collect();
    assert_eq!(after, vec![idc, idb]);
}

#[test]
fn apsidal_rotation_takes_any_value() {
    // The rotation is a direction (implicitly modulo one turn); the
    // registry accepts and returns any value of it unchanged.
    let mut reg = Orbits::new();
    let obj = Object { angle: i64::MIN, t: 0, orbit: Orbit::circular(ticks(100.0)) };
    let id = reg.insert(obj);
    assert_eq!(reg.remove(id), Some(obj));
}

#[test]
fn outline_sampling_takes_any_segment_count() {
    let angles = outline_angles(OrbitKind::Circle, 0, 1);
    assert_eq!(angles.len(), 1);
    assert_eq!(angles[0], orbital::TAU);
    let many = outline_angles(OrbitKind::Ellipse, 0, 1_000_000);
    assert_eq!(many.len(), 1_000_000);
    assert!(many.iter().all(|&a| 0 < a && a <= orbital::TAU));
}

#[test]
fn closed_outline_covers_the_full_turn() {
    let angles = outline_angles(OrbitKind::Ellipse, 0, 100);
    assert_eq!(angles.len(), 100);
    for (i, &a) in angles.iter().enumerate() {
        assert!(0 < a && a <= orbital::TAU);
        if i > 0 {
            assert!(a > angles[i - 1]);
        }
    }
}

#[test]
fn hyperbolic_outline_keeps_clear_of_the_asymptotes() {
    // e = 2: the asymptotic half-range is acos(-1/2) = 2 pi / 3. Every
    // sample keeps at least a degree away from it, and every sampled
    // radius is positive.
    let orbit = Orbit { p: ticks(200.0), epsilon: ticks(2.0) };
    let limit = ((-1.0_f64 / 2.0).acos() * SCALE as f64) as i64;
    let angles = outline_angles(OrbitKind::Hyperbola, limit, 64);
    assert_eq!(angles.len(), 64);
    for &a in &angles {
        assert!(-limit + DEG <= a && a <= limit - DEG, "angle {a}");
        let cos = ((a as f64 / SCALE as f64).cos() * SCALE as f64) as i64;
        let rad = orbit.r(cos);
        assert!(rad > 0, "radius {rad} at angle {a}");
    }
}

#[test]
fn parabolic_outline_stays_inside_the_limits() {
    let limit = (3.0f64 * SCALE as f64) as i64;
    let angles = outline_angles(OrbitKind::Parabola, limit, 7);
    assert_eq!(angles.len(), 7);
    for &a in &angles {
        assert!(-limit + DEG <= a && a <= limit - DEG);
    }
}
