use shape_cast_vehicle::bodies::{
    Collider, ColliderHandle, ColliderSet, RigidBody, RigidBodyHandle, RigidBodySet,
};
use shape_cast_vehicle::math::{Isometry, Rotation, SdpMatrix3, Vector};
use shape_cast_vehicle::scalar::{Real, ONE_BITS};
use shape_cast_vehicle::vehicle::controller::DynamicShapeCastVehicleController;
use shape_cast_vehicle::vehicle::friction::{
    max_static_friction_slip, static_friction_erp, static_friction_max_speed,
};
use shape_cast_vehicle::vehicle::wheel::{WheelTuning, PI_BITS};

fn r(n: i64) -> Real {
    Real::ratio(n, 1)
}

fn q(n: i64, d: i64) -> Real {
    Real::ratio(n, d)
}

fn v(x: i64, y: i64, z: i64) -> Vector {
    Vector::new(r(x), r(y), r(z))
}

fn close(a: Real, b: f64) -> bool {
    (a.bits as f64 / ONE_BITS as f64 - b).abs() < 1.0e-6
}

fn body(linvel: Vector) -> RigidBody {
    let half = q(1, 2);
    RigidBody {
        dynamic: true,
        sleeping: false,
        position: Isometry { translation: Vector::zeros(), rotation: Rotation::identity() },
        linvel,
        angvel: Vector::zeros(),
        mass: r(2),
        inv_mass: half,
        effective_inv_mass: Vector::new(half, half, half),
        effective_world_inv_inertia: SdpMatrix3 {
            m11: r(1),
            m12: r(0),
            m13: r(0),
            m22: r(1),
            m23: r(0),
            m33: r(1),
        },
        local_com: Vector::zeros(),
    }
}

/// A chassis, a dynamic body and a fixed one.
fn bodies(linvel: Vector) -> RigidBodySet {
    let mut fixed = body(v(0, 0, 0));
    fixed.dynamic = false;
    fixed.inv_mass = r(0);
    fixed.effective_inv_mass = v(0, 0, 0);
    RigidBodySet { bodies: vec![body(linvel), body(v(0, 0, 0)), fixed] }
}

/// Ground that is attached to nothing, to the dynamic body, and to the fixed
/// one.
fn colliders() -> ColliderSet {
    ColliderSet {
        colliders: vec![
            Collider { parent: None },
            Collider { parent: Some(RigidBodyHandle { index: 1 }) },
            Collider { parent: Some(RigidBodyHandle { index: 2 }) },
        ],
    }
}

/// Wheels at the center of mass, whose grip is a fourth of a hundred at a time
/// step of a fourth.
fn vehicle(wheels: usize) -> DynamicShapeCastVehicleController {
    let mut c = DynamicShapeCastVehicleController::new(RigidBodyHandle { index: 0 });
    for _ in 0..wheels {
        let w = c.add_wheel(
            v(0, 0, 0),
            v(0, -1, 0),
            v(0, 0, 1),
            r(1),
            r(1),
            r(1),
            &WheelTuning::default(),
        );
        w.friction_slip = r(1);
        w.wheel_suspension_force = r(100);
        w.shape_cast_info.is_in_contact = true;
        w.shape_cast_info.ground_object = Some(ColliderHandle { index: 0 });
        w.shape_cast_info.contact_normal_ws = v(0, 1, 0);
        w.shape_cast_info.ground_normal_ws = v(0, 1, 0);
    }
    c
}

fn dt() -> Real {
    q(1, 4)
}

#[test]
fn friction_constants() {
    assert!(close(static_friction_max_speed(), 0.5));
    assert!(close(static_friction_erp(), 0.2));
    assert!(close(max_static_friction_slip(), 0.05));
}

#[test]
fn vehicle_without_wheels_has_no_friction() {
    let mut c = vehicle(0);
    c.forward_ws = vec![v(1, 2, 3)];
    let mut set = bodies(v(1, 2, 3));
    c.update_friction(&mut set, &colliders(), dt());
    assert_eq!(set.bodies, bodies(v(1, 2, 3)).bodies);
    assert_eq!(c.forward_ws, vec![v(1, 2, 3)]);
}

#[test]
fn wheel_directions_lie_on_the_ground() {
    let mut c = vehicle(1);
    c.wheels[0].wheel_axle_ws = v(0, 3, 4);
    c.update_friction(&mut bodies(v(0, 0, 0)), &colliders(), dt());
    assert_eq!(c.axle, vec![v(0, 0, 1)]);
    assert_eq!(c.forward_ws, vec![v(1, 0, 0)]);
    // An axle that stands on the ground has neither direction.
    c.wheels[0].wheel_axle_ws = v(0, 1, 0);
    c.update_friction(&mut bodies(v(0, 0, 0)), &colliders(), dt());
    assert_eq!(c.axle, vec![v(0, 0, 0)]);
    assert_eq!(c.forward_ws, vec![v(0, 0, 0)]);
}

#[test]
fn wheel_at_rest_sticks_where_it_is() {
    for ground in [0, 2] {
        let mut c = vehicle(1);
        c.wheels[0].shape_cast_info.ground_object = Some(ColliderHandle { index: ground });
        c.wheels[0].shape_cast_info.contact_point_ws = v(3, 0, 4);
        c.update_friction(&mut bodies(v(0, 0, 0)), &colliders(), dt());
        assert_eq!(c.wheels[0].static_friction_anchor, Some(v(3, 0, 4)));
        assert_eq!(c.wheels[0].forward_impulse, r(0));
        assert_eq!(c.wheels[0].side_impulse, r(0));
    }
}

#[test]
fn moving_driven_and_fast_wheels_do_not_stick() {
    let stuck = |change: fn(&mut DynamicShapeCastVehicleController)| {
        let mut c = vehicle(1);
        c.wheels[0].static_friction_anchor = Some(v(0, 0, 0));
        change(&mut c);
        c.update_friction(&mut bodies(v(0, 0, 0)), &colliders(), dt());
        c.wheels[0].static_friction_anchor.is_some()
    };
    assert!(stuck(|_| {}));
    assert!(!stuck(|c| c.wheels[0].engine_force = r(1)));
    assert!(!stuck(|c| c.chassis_speed = q(1, 2)));
    assert!(!stuck(|c| {
        c.wheels[0].shape_cast_info.ground_object = Some(ColliderHandle { index: 1 })
    }));
    assert!(!stuck(|c| c.wheels[0].shape_cast_info.ground_object = None));
}

#[test]
fn drift_from_the_anchor_is_driven_back() {
    let mut c = vehicle(1);
    c.wheels[0].static_friction_anchor = Some(Vector::new(q(-1, 32), r(0), r(0)));
    let mut set = bodies(v(0, 0, 0));
    c.update_friction(&mut set, &colliders(), dt());
    // A fifth of the drift in a fourth of a second, times a mass of two.
    assert!(close(c.wheels[0].forward_impulse, -0.2 / 32.0 * 4.0 * 2.0));
    assert!(close(set.bodies[0].linvel.x, -0.2 / 32.0 * 4.0));
    assert_eq!(c.wheels[0].static_friction_anchor, Some(Vector::new(q(-1, 32), r(0), r(0))));
}

#[test]
fn sideways_drift_is_driven_back_too() {
    let mut c = vehicle(1);
    c.wheels[0].static_friction_anchor = Some(Vector::new(r(0), r(0), q(-1, 32)));
    c.update_friction(&mut bodies(v(0, 0, 0)), &colliders(), dt());
    assert!(close(c.wheels[0].side_impulse, -0.2 * (0.2 / 32.0 * 4.0) * 2.0));
    assert_eq!(c.wheels[0].forward_impulse, r(0));
}

#[test]
fn tire_that_slipped_too_far_grips_anew() {
    let mut c = vehicle(1);
    c.wheels[0].static_friction_anchor = Some(Vector::new(q(-1, 16), r(0), r(0)));
    c.update_friction(&mut bodies(v(0, 0, 0)), &colliders(), dt());
    assert_eq!(c.wheels[0].static_friction_anchor, Some(v(0, 0, 0)));
    assert_eq!(c.wheels[0].forward_impulse, r(0));
}

#[test]
fn tire_that_broke_traction_grips_anew() {
    let mut c = vehicle(1);
    c.wheels[0].wheel_suspension_force = q(1, 8);
    c.wheels[0].static_friction_anchor = Some(Vector::new(q(-1, 32), r(0), r(0)));
    let mut set = bodies(Vector::new(q(1, 4), r(0), r(0)));
    c.update_friction(&mut set, &colliders(), dt());
    assert_eq!(c.wheels[0].static_friction_anchor, Some(v(0, 0, 0)));
    assert_eq!(c.wheels[0].forward_impulse, q(-1, 32));
}

#[test]
fn parked_wheel_holds_with_its_grip() {
    let mut c = vehicle(1);
    c.wheels[0].brake = q(1, 64);
    let mut set = bodies(Vector::new(q(1, 8), r(0), r(0)));
    c.update_friction(&mut set, &colliders(), dt());
    // A token brake does not weaken the grip: the chassis stops.
    assert_eq!(c.wheels[0].forward_impulse, q(-1, 4));
    assert_eq!(set.bodies[0].linvel, v(0, 0, 0));
}

#[test]
fn fast_wheel_coasts_or_brakes() {
    let mut c = vehicle(1);
    c.chassis_speed = r(10);
    let mut set = bodies(v(10, 0, 0));
    c.update_friction(&mut set, &colliders(), dt());
    assert_eq!(c.wheels[0].forward_impulse, r(0));
    assert_eq!(set.bodies[0].linvel, v(10, 0, 0));
    c.wheels[0].brake = r(4);
    c.update_friction(&mut set, &colliders(), dt());
    assert_eq!(c.wheels[0].forward_impulse, r(-4));
    assert_eq!(set.bodies[0].linvel, v(8, 0, 0));
}

#[test]
fn engine_pushes_forward() {
    let mut c = vehicle(1);
    c.wheels[0].engine_force = r(8);
    c.wheels[0].brake = r(100);
    let mut set = bodies(v(0, 0, 0));
    c.update_friction(&mut set, &colliders(), dt());
    assert_eq!(c.wheels[0].forward_impulse, r(2));
    assert_eq!(set.bodies[0].linvel, v(1, 0, 0));
}

#[test]
fn side_friction_is_shared() {
    for wheels in [1, 2, 4] {
        let mut c = vehicle(wheels);
        c.chassis_speed = r(1);
        c.wheels[0].side_friction_stiffness = q(1, 2);
        let mut set = bodies(v(0, 0, 1));
        c.update_friction(&mut set, &colliders(), dt());
        for (i, w) in c.wheels().iter().enumerate() {
            let stiffness = if i == 0 { 0.5 } else { 1.0 };
            assert!(close(w.side_impulse, -0.4 * stiffness / wheels as f64));
            assert_eq!(w.skid_info, r(1));
        }
    }
}

#[test]
fn side_friction_against_a_moving_body() {
    let mut c = vehicle(1);
    c.chassis_speed = r(1);
    c.wheels[0].shape_cast_info.ground_object = Some(ColliderHandle { index: 1 });
    let mut set = bodies(v(0, 0, 1));
    c.update_friction(&mut set, &colliders(), dt());
    // Both bodies answer, and the other one is not pushed.
    assert!(close(c.wheels[0].side_impulse, -0.2));
    assert_eq!(set.bodies[1], bodies(v(0, 0, 0)).bodies[1]);
}

#[test]
fn sliding_tire_applies_what_it_grips() {
    let mut c = vehicle(1);
    c.chassis_speed = r(5);
    c.wheels[0].wheel_suspension_force = r(1);
    c.update_friction(&mut bodies(v(0, 0, 5)), &colliders(), dt());
    assert!(close(c.wheels[0].skid_info, 0.125));
    assert!(close(c.wheels[0].side_impulse, -0.25));
    assert!(close(c.wheels[0].grip(dt()), 0.25));
}

#[test]
fn sliding_reduces_both_impulses() {
    let mut c = vehicle(2);
    c.chassis_speed = r(5);
    c.wheels[0].wheel_suspension_force = r(1);
    c.wheels[0].engine_force = r(8);
    c.update_friction(&mut bodies(v(0, 0, 5)), &colliders(), dt());
    // Half of the forward impulse counts: the load is the diagonal of a square.
    let skid = 0.25 / 2.0f64.sqrt();
    assert!(close(c.wheels[0].skid_info, skid));
    assert!(close(c.wheels[0].forward_impulse, 2.0 * skid));
    assert!(close(c.wheels[0].side_impulse, -skid));
    // The other tire grips.
    assert_eq!(c.wheels[1].skid_info, r(1));
    assert!(close(c.wheels[1].side_impulse, -1.0));
}

#[test]
fn straight_burnout_is_not_reduced() {
    let mut c = vehicle(1);
    c.wheels[0].wheel_suspension_force = r(1);
    c.wheels[0].engine_force = r(100);
    c.update_friction(&mut bodies(v(0, 0, 0)), &colliders(), dt());
    assert!(close(c.wheels[0].skid_info, 0.02));
    assert_eq!(c.wheels[0].forward_impulse, r(25));
}

#[test]
fn airborne_wheel_applies_nothing() {
    let mut c = vehicle(2);
    c.forward_ws = vec![v(5, 0, 0), v(6, 0, 0), v(7, 0, 0)];
    c.wheels[0].shape_cast_info.ground_object = None;
    c.wheels[0].engine_force = r(8);
    c.wheels[0].forward_impulse = r(1);
    c.wheels[0].side_impulse = r(1);
    let mut set = bodies(v(0, 0, 0));
    c.update_friction(&mut set, &colliders(), dt());
    assert_eq!(c.wheels[0].forward_impulse, r(0));
    assert_eq!(c.wheels[0].side_impulse, r(0));
    assert_eq!(c.wheels[0].skid_info, r(1));
    assert_eq!(set.bodies[0], body(v(0, 0, 0)));
    // Its former direction stays, the missing one is null.
    assert_eq!(c.forward_ws, vec![v(5, 0, 0), v(1, 0, 0)]);
    assert_eq!(c.axle, vec![v(0, 0, 0), v(0, 0, 1)]);
}

#[test]
fn anti_squat_raises_the_push() {
    for (anti_squat, pitch) in [(r(0), r(2)), (q(1, 2), r(1)), (r(1), r(0))] {
        let mut c = vehicle(1);
        c.wheels[0].shape_cast_info.contact_point_ws = v(0, -1, 0);
        c.wheels[0].engine_force = r(8);
        c.wheels[0].anti_squat = anti_squat;
        let mut set = bodies(v(0, 0, 0));
        c.update_friction(&mut set, &colliders(), dt());
        assert_eq!(set.bodies[0].linvel, v(1, 0, 0));
        assert_eq!(set.bodies[0].angvel, Vector::new(r(0), r(0), pitch));
    }
}

#[test]
fn roll_influence_lowers_the_side_push() {
    for (roll_influence, share) in [(r(0), 0.0), (q(1, 2), 0.5), (r(1), 1.0)] {
        let mut c = vehicle(1);
        c.chassis_speed = r(5);
        c.wheels[0].shape_cast_info.contact_point_ws = v(0, -1, 0);
        c.wheels[0].roll_influence = roll_influence;
        let mut set = bodies(v(0, 0, 3));
        c.update_friction(&mut set, &colliders(), dt());
        // A fifth of three over one and a half.
        assert!(close(c.wheels[0].side_impulse, -0.4));
        assert!(close(set.bodies[0].linvel.z, 2.8));
        assert!(close(set.bodies[0].angvel.x, 0.4 * share));
    }
}

#[test]
fn full_anti_squat_on_a_slope_does_not_pitch() {
    // The chassis and the ground lean by thirty degrees.
    let axis = Vector::new(r(0), r(0), Real::from_bits(PI_BITS).div(r(6)));
    let rotation = Rotation::new(axis);
    let up = rotation.rotate(v(0, 1, 0));
    let mut c = vehicle(1);
    c.wheels[0].shape_cast_info.ground_normal_ws = up;
    c.wheels[0].shape_cast_info.contact_point_ws = up.neg();
    c.wheels[0].engine_force = r(8);
    c.wheels[0].anti_squat = r(1);
    let mut set = bodies(v(0, 0, 0));
    set.bodies[0].position.rotation = rotation;
    c.update_friction(&mut set, &colliders(), dt());
    let forward = c.forward_ws[0];
    assert!(close(forward.x, 0.75f64.sqrt()) && close(forward.y, 0.5));
    // The drive stays on the ground.
    assert!(close(up.dot(forward), 0.0));
    assert!(close(up.dot(set.bodies[0].linvel), 0.0));
    assert!(close(forward.dot(set.bodies[0].linvel), 1.0));
    assert!(close(set.bodies[0].angvel.norm(), 0.0));
}

#[test]
fn heavy_load_is_brought_down_to_the_grip() {
    let mut c = vehicle(1);
    c.chassis_speed = r(5);
    c.wheels[0].wheel_suspension_force = r(4);
    c.wheels[0].engine_force = r(1 << 22);
    c.update_friction(&mut bodies(v(0, 0, 1)), &colliders(), dt());
    // A grip of one under a load of half of two to the twenty.
    assert!((c.wheels[0].forward_impulse.bits as f64 / ONE_BITS as f64 - 2.0).abs() < 1.0e-3);
    // A load far beyond the root of the range still slides on a large grip.
    let mut c = vehicle(1);
    c.chassis_speed = r(5);
    c.wheels[0].wheel_suspension_force = r(400_000);
    c.wheels[0].engine_force = r(1 << 22);
    c.update_friction(&mut bodies(v(0, 0, 1)), &colliders(), dt());
    let forward = c.wheels[0].forward_impulse.bits as f64 / ONE_BITS as f64;
    assert!((forward - 200_000.0).abs() < 1.0e-2);
}

#[test]
fn impulses_stay_on_the_friction_circle() {
    for (engine, sideways) in [(40, 3), (-7, 5), (1000, -20), (0, 9)] {
        let mut c = vehicle(2);
        c.chassis_speed = r(5);
        c.wheels[0].wheel_suspension_force = r(2);
        c.wheels[1].wheel_suspension_force = r(3);
        c.wheels[0].engine_force = r(engine);
        c.wheels[1].engine_force = r(engine);
        c.update_friction(&mut bodies(v(0, 0, sideways)), &colliders(), dt());
        for w in c.wheels() {
            let forward = w.forward_impulse.bits as f64 / ONE_BITS as f64 / 2.0;
            let side = w.side_impulse.bits as f64 / ONE_BITS as f64;
            let grip = w.grip(dt()).bits as f64 / ONE_BITS as f64;
            assert!(forward.hypot(side) <= grip + 1.0e-6);
        }
    }
}

#[test]
fn drifted_contact_is_pushed_towards_its_anchor() {
    for (x, z) in [(1, 0), (-1, 1), (1, -1), (0, 1)] {
        let mut c = vehicle(1);
        let contact = Vector::new(q(x, 64), r(0), q(z, 64));
        c.wheels[0].shape_cast_info.contact_point_ws = contact;
        c.wheels[0].static_friction_anchor = Some(v(0, 0, 0));
        c.update_friction(&mut bodies(v(0, 0, 0)), &colliders(), dt());
        let (forward, side) = (c.wheels[0].forward_impulse, c.wheels[0].side_impulse);
        assert_eq!(forward.bits.signum(), -x);
        assert_eq!(side.bits.signum(), -z);
    }
}

#[test]
fn directions_on_a_slope_are_square_to_each_other() {
    let mut c = vehicle(3);
    let unit = |x: i64, y: i64, z: i64| v(x, y, z).try_normalize(q(1, 100_000)).unwrap();
    let normals = [unit(1, 9, 2), unit(-2, 5, 1), unit(0, 3, 4)];
    let axles = [unit(0, 0, 1), unit(1, 2, 7), unit(3, 1, -1)];
    for i in 0..3 {
        c.wheels[i].shape_cast_info.ground_normal_ws = normals[i];
        c.wheels[i].wheel_axle_ws = axles[i];
    }
    c.update_friction(&mut bodies(v(0, 0, 0)), &colliders(), dt());
    for i in 0..3 {
        assert!(close(normals[i].dot(c.axle[i]), 0.0));
        assert!(close(normals[i].dot(c.forward_ws[i]), 0.0));
        assert!(close(c.axle[i].dot(c.forward_ws[i]), 0.0));
        assert!(close(c.axle[i].norm(), 1.0));
        assert!(close(c.forward_ws[i].norm(), 1.0));
    }
}
