use shape_cast_vehicle::bodies::{RigidBody, RigidBodyHandle};
use shape_cast_vehicle::math::{Isometry, Rotation, SdpMatrix3, Vector};
use shape_cast_vehicle::scalar::{Real, ONE_BITS};
use shape_cast_vehicle::vehicle::bump_stop::{
    bump_stop_candidates, bump_stop_system, resolve_bump_stop, BottomedWheel, BumpStopOutcome,
};
use shape_cast_vehicle::vehicle::controller::DynamicShapeCastVehicleController;
use shape_cast_vehicle::vehicle::wheel::{Wheel, WheelTuning};

fn r(n: i64) -> Real {
    Real::ratio(n, 1)
}

fn v(x: i64, y: i64, z: i64) -> Vector {
    Vector::new(r(x), r(y), r(z))
}

fn body(linvel: Vector) -> RigidBody {
    let half = Real::ratio(1, 2);
    RigidBody {
        dynamic: true,
        sleeping: false,
        position: Isometry { translation: Vector::zeros(), rotation: Rotation::identity() },
        linvel,
        angvel: Vector::zeros(),
        mass: r(2),
        inv_mass: half,
        effective_inv_mass: Vector::new(half, half, half),
        effective_world_inv_inertia: SdpMatrix3 {
            m11: r(1),
            m12: r(0),
            m13: r(0),
            m22: r(1),
            m23: r(0),
            m33: r(1),
        },
        local_com: Vector::zeros(),
    }
}

fn wheel(x: i64, bottomed_out: bool) -> Wheel {
    let mut c = DynamicShapeCastVehicleController::new(RigidBodyHandle { index: 0 });
    let w = c.add_wheel(
        v(0, 0, 0),
        v(0, -1, 0),
        v(0, 0, 1),
        r(1),
        r(1),
        r(1),
        &WheelTuning::default(),
    );
    w.shape_cast_info.contact_point_ws = v(x, 0, 0);
    w.shape_cast_info.contact_normal_ws = v(0, 1, 0);
    w.shape_cast_info.bottomed_out = bottomed_out;
    *w
}

fn bottomed(x: i64) -> BottomedWheel {
    BottomedWheel { contact: v(x, 0, 0), normal: v(0, 1, 0), rel_vel: r(-2) }
}

#[test]
fn bottomed_wheels_moving_inwards_are_stopped() {
    let wheels = vec![wheel(1, true), wheel(2, false), wheel(-1, true)];
    let falling = body(v(0, -2, 0));
    assert_eq!(bump_stop_candidates(&wheels, &falling), vec![bottomed(1), bottomed(-1)]);
    // Moving out, or at rest, a wheel needs no stop.
    assert_eq!(bump_stop_candidates(&wheels, &body(v(0, 2, 0))), vec![]);
    assert_eq!(bump_stop_candidates(&wheels, &body(v(0, 0, 0))), vec![]);
    // A chassis that rolls presses one side only.
    let mut rolling = body(v(0, 0, 0));
    rolling.angvel = v(0, 0, 1);
    let stopped = bump_stop_candidates(&wheels, &rolling);
    assert_eq!(stopped.len(), 1);
    assert_eq!(stopped[0].contact, v(-1, 0, 0));
    assert_eq!(stopped[0].rel_vel, r(-1));
}

#[test]
fn bump_stop_system_of_two_wheels() {
    let system = bump_stop_system(&vec![bottomed(1), bottomed(-1)], &body(v(0, -2, 0)));
    let (near, far) = (Real::ratio(3, 2), Real::ratio(-1, 2));
    assert_eq!(system.a, vec![vec![near, far], vec![far, near]]);
    assert_eq!(system.b, vec![r(2), r(2)]);
}

#[test]
fn pushing_solution_stops_the_chassis() {
    let mut candidates = vec![bottomed(1), bottomed(-1)];
    let mut chassis = body(v(3, -2, 0));
    let outcome = resolve_bump_stop(&mut candidates, &mut chassis, &Some(vec![r(2), r(2)]));
    assert_eq!(outcome, BumpStopOutcome::Stopped);
    assert_eq!(chassis, body(v(3, 0, 0)));
    assert_eq!(candidates.len(), 2);
}

#[test]
fn wheel_pulled_most_is_dropped() {
    let all = vec![bottomed(1), bottomed(2), bottomed(3)];
    for (solution, dropped) in [
        ([r(-1), r(-3), r(5)], 1),
        ([r(-3), r(-1), r(5)], 0),
        ([r(5), r(4), r(-1)], 2),
        // The first of equals goes.
        ([r(5), r(-1), r(-1)], 1),
    ] {
        let mut candidates = all.clone();
        let mut chassis = body(v(0, -2, 0));
        let outcome = resolve_bump_stop(&mut candidates, &mut chassis, &Some(solution.to_vec()));
        assert_eq!(outcome, BumpStopOutcome::SolveAgain);
        assert_eq!(chassis, body(v(0, -2, 0)));
        let mut expected = all.clone();
        expected.remove(dropped);
        assert_eq!(candidates, expected);
    }
}

#[test]
fn last_wheel_is_dropped_for_good() {
    let mut candidates = vec![bottomed(1)];
    let mut chassis = body(v(0, -2, 0));
    let outcome = resolve_bump_stop(&mut candidates, &mut chassis, &Some(vec![r(-1)]));
    assert_eq!(outcome, BumpStopOutcome::Stopped);
    assert_eq!(chassis, body(v(0, -2, 0)));
    assert_eq!(candidates, vec![]);
}

#[test]
fn singular_system_stops_wheels_one_by_one() {
    let mut candidates = vec![bottomed(0), bottomed(0)];
    let mut chassis = body(v(0, -2, 0));
    let outcome = resolve_bump_stop(&mut candidates, &mut chassis, &None);
    assert_eq!(outcome, BumpStopOutcome::Stopped);
    // Each takes an impulse of four.
    assert_eq!(chassis, body(v(0, 2, 0)));
}

#[test]
fn singular_system_has_a_smallest_denominator() {
    let mut candidates = vec![bottomed(0)];
    let mut chassis = body(v(0, -2, 0));
    chassis.inv_mass = r(0);
    let outcome = resolve_bump_stop(&mut candidates, &mut chassis, &None);
    assert_eq!(outcome, BumpStopOutcome::Stopped);
    // Two over a millionth, halved by the effective inverse mass.
    let gained = chassis.linvel.y.bits as f64 / ONE_BITS as f64 + 2.0;
    assert!((gained - 1.0e6).abs() < 200.0);
}

#[test]
fn solution_stops_tilted_wheels() {
    let unit = |x: i64, y: i64, z: i64| {
        v(x, y, z).try_normalize(Real::ratio(1, 100_000)).unwrap()
    };
    let mut chassis = body(v(1, -5, 2));
    chassis.angvel = v(1, 0, -1);
    let mut candidates: Vec<BottomedWheel> = [
        (Vector::new(r(1), r(-1), Real::ratio(1, 2)), unit(1, 9, 1)),
        (Vector::new(r(-2), r(-1), Real::ratio(1, 4)), unit(-1, 7, 2)),
    ]
    .iter()
    .map(|(contact, normal)| BottomedWheel {
        contact: *contact,
        normal: *normal,
        rel_vel: normal.dot(chassis.velocity_at_point(*contact)),
    })
    .collect();
    let before = candidates.clone();
    assert!(before.iter().all(|w| w.rel_vel.lt(Real::zero())));
    let system = bump_stop_system(&candidates, &chassis);
    let (a, b) = (&system.a, &system.b);
    let det = a[0][0].mul(a[1][1]).sub(a[0][1].mul(a[1][0]));
    let x = b[0].mul(a[1][1]).sub(a[0][1].mul(b[1])).div(det);
    let y = a[0][0].mul(b[1]).sub(b[0].mul(a[1][0])).div(det);
    let outcome = resolve_bump_stop(&mut candidates, &mut chassis, &Some(vec![x, y]));
    assert_eq!(outcome, BumpStopOutcome::Stopped);
    for w in before {
        let rest = w.normal.dot(chassis.velocity_at_point(w.contact));
        assert!((rest.bits as f64 / ONE_BITS as f64).abs() < 1.0e-6);
    }
}
