use shape_cast_vehicle::bodies::{ColliderHandle, RigidBody, RigidBodyHandle};
use shape_cast_vehicle::math::{Isometry, Rotation, SdpMatrix3, Vector};
use shape_cast_vehicle::scalar::{Real, ONE_BITS};
use shape_cast_vehicle::vehicle::controller::DynamicShapeCastVehicleController;
use shape_cast_vehicle::vehicle::shape_cast::ShapeCastHit;
use shape_cast_vehicle::vehicle::wheel::{ShapeCastInfo, Wheel, WheelTuning, PI_BITS};

fn r(n: i64) -> Real {
    Real::ratio(n, 1)
}

fn q(n: i64, d: i64) -> Real {
    Real::ratio(n, d)
}

fn v(x: i64, y: i64, z: i64) -> Vector {
    Vector::new(r(x), r(y), r(z))
}

fn f(a: Real) -> f64 {
    a.bits as f64 / ONE_BITS as f64
}

fn close(a: Real, b: f64) -> bool {
    (f(a) - b).abs() < 1.0e-6
}

fn chassis() -> RigidBody {
    let one = Real::one();
    let zero = Real::zero();
    RigidBody {
        dynamic: true,
        sleeping: false,
        position: Isometry { translation: Vector::zeros(), rotation: Rotation::identity() },
        linvel: Vector::zeros(),
        angvel: Vector::zeros(),
        mass: r(2),
        inv_mass: q(1, 2),
        effective_inv_mass: Vector::new(q(1, 2), q(1, 2), q(1, 2)),
        effective_world_inv_inertia: SdpMatrix3 {
            m11: one,
            m12: zero,
            m13: zero,
            m22: one,
            m23: zero,
            m33: one,
        },
        local_com: Vector::zeros(),
    }
}

fn vehicle() -> DynamicShapeCastVehicleController {
    let mut c = DynamicShapeCastVehicleController::new(RigidBodyHandle { index: 0 });
    c.add_wheel(v(1, 0, 2), v(0, -1, 0), v(0, 0, 1), r(1), q(1, 2), q(1, 4), &WheelTuning::default());
    c
}

fn up_hit(toi: Real) -> Option<(ColliderHandle, ShapeCastHit)> {
    Some((
        ColliderHandle { index: 3 },
        ShapeCastHit {
            time_of_impact: toi,
            witness1: v(1, -2, 2),
            witness2: v(0, -1, 0),
            normal1: v(0, 1, 0),
        },
    ))
}

#[test]
fn new_vehicle_has_no_wheel() {
    let c = DynamicShapeCastVehicleController::new(RigidBodyHandle { index: 7 });
    assert_eq!(c.wheels().len(), 0);
    assert_eq!(c.forward_ws.len(), 0);
    assert_eq!(c.axle.len(), 0);
    assert_eq!(c.chassis.index, 7);
    assert_eq!(c.index_up_axis, 1);
    assert_eq!(c.index_forward_axis, 0);
    assert_eq!(c.current_vehicle_speed, Real::zero());
}

#[test]
fn default_tuning() {
    let t = WheelTuning::default();
    assert_eq!(t.suspension_stiffness, q(588, 100));
    assert_eq!(t.suspension_compression, q(83, 100));
    assert_eq!(t.suspension_damping, q(88, 100));
    assert_eq!(t.max_suspension_travel, r(5));
    assert_eq!(t.side_friction_stiffness, Real::one());
    assert_eq!(t.friction_slip, q(21, 2));
    assert_eq!(t.max_suspension_force, r(6000));
    assert!(close(t.suspension_stiffness, 5.88));
}

#[test]
fn added_wheel_is_described_by_its_arguments() {
    let mut c = vehicle();
    let w = c.wheels()[0];
    assert_eq!(*w.shape_cast_info(), ShapeCastInfo::default());
    assert_eq!(w.center(), Vector::zeros());
    assert_eq!(w.suspension(), v(0, -1, 0));
    assert_eq!(w.axle(), v(0, 0, 1));
    assert_eq!(w.chassis_connection_point_cs, v(1, 0, 2));
    assert_eq!(w.suspension_rest_length, r(1));
    assert_eq!(w.radius, q(1, 2));
    assert_eq!(w.width, q(1, 4));
    assert_eq!(w.damping_compression, q(83, 100));
    assert_eq!(w.damping_relaxation, q(88, 100));
    assert_eq!(w.roll_influence, q(1, 10));
    assert_eq!(w.anti_squat, q(1, 2));
    assert!((f(w.suspension_reject_angle) - 80.0f64.to_radians()).abs() < 1.0e-8);
    assert_eq!(w.suspension_reject_angle, w.surface_reject_angle);
    assert_eq!(w.static_friction_anchor, None);
    assert_eq!(w.engine_force, Real::zero());

    let second = c.add_wheel(
        v(0, 0, 0),
        v(0, -1, 0),
        v(0, 0, 1),
        r(3),
        r(1),
        r(1),
        &WheelTuning::default(),
    );
    second.brake = r(9);
    assert_eq!(c.wheels().len(), 2);
    assert_eq!(c.wheels()[0], w);
    assert_eq!(c.wheels()[1].brake, r(9));
    c.wheels_mut()[0].steering = r(1);
    assert_eq!(c.wheels()[0].steering, r(1));
}

#[test]
fn wheels_follow_the_chassis() {
    let mut c = vehicle();
    c.wheels_mut()[0].shape_cast_info.suspension_length = q(1, 2);
    c.wheels_mut()[0].shape_cast_info.is_in_contact = true;
    let mut body = chassis();
    body.position.translation = v(10, 20, 30);
    c.update_wheel_transform(&body, 0);
    let w = c.wheels()[0];
    assert!(!w.shape_cast_info().is_in_contact);
    assert_eq!(w.shape_cast_info().hard_point_ws, v(11, 20, 32));
    assert_eq!(w.suspension(), v(0, -1, 0));
    assert_eq!(w.axle(), v(0, 0, 1));
    assert_eq!(w.center(), Vector::new(r(11), q(39, 2), r(32)));
}

#[test]
fn steering_turns_the_axle() {
    let mut c = vehicle();
    c.wheels_mut()[0].steering = Real::from_bits(PI_BITS).div(r(2));
    c.update_wheel_transform(&chassis(), 0);
    let axle = c.wheels()[0].axle();
    // A quarter turn around the up direction takes z to x.
    assert!(close(axle.x, 1.0) && close(axle.y, 0.0) && close(axle.z, 0.0));
}

#[test]
fn cast_starts_one_radius_behind_the_hard_point() {
    let mut c = vehicle();
    c.update_wheel_transform(&chassis(), 0);
    let request = c.wheels()[0].shape_cast_request();
    assert_eq!(request.position.translation, Vector::new(r(1), q(1, 2), r(2)));
    assert_eq!(request.direction, v(0, -1, 0));
    assert_eq!(request.cylinder.half_height, q(1, 8));
    assert_eq!(request.cylinder.radius, q(1, 2));
    assert_eq!(request.options.max_time_of_impact, r(2));
    assert_eq!(request.options.target_distance, Real::zero());
    assert!(!request.options.stop_at_penetration);
    assert!(request.options.compute_impact_geometry_on_penetration);
}

#[test]
fn cast_cylinder_is_turned_to_the_axle() {
    let mut c = vehicle();
    let w = &mut c.wheels_mut()[0];
    let turned = w.shape_cast_request().position.rotation.rotate(v(0, 1, 0));
    let near = |a: Real, b: f64| (f(a) - b).abs() < 0.01;
    assert!(near(turned.x, 0.0) && near(turned.y, 0.0) && near(turned.z, 1.0));
    // An axle along the cylinder's own axis, or none at all, needs no turn.
    w.wheel_axle_ws = v(0, 3, 0);
    assert_eq!(w.shape_cast_request().position.rotation, Rotation::identity());
    w.wheel_axle_ws = Vector::zeros();
    assert_eq!(w.shape_cast_request().position.rotation, Rotation::identity());
    // An opposite axle has no smallest rotation.
    w.wheel_axle_ws = v(0, -1, 0);
    assert_eq!(w.shape_cast_request().position.rotation, Rotation::identity());
}

#[test]
fn wheel_stands_on_the_ground() {
    let mut c = vehicle();
    let mut body = chassis();
    body.linvel = v(0, -3, 0);
    c.update_wheel_transform(&body, 0);
    c.shape_cast(&body, 0, q(1, 60), up_hit(q(5, 4)));
    let w = c.wheels()[0];
    let info = w.shape_cast_info();
    assert!(info.is_in_contact);
    assert_eq!(info.ground_object, Some(ColliderHandle { index: 3 }));
    assert_eq!(info.suspension_length, q(3, 4));
    assert!(!info.bottomed_out);
    assert_eq!(info.bottom_out_overshoot, Real::zero());
    assert_eq!(info.contact_normal_ws, v(0, 1, 0));
    assert_eq!(info.ground_normal_ws, v(0, 1, 0));
    assert_eq!(info.contact_point_ws, v(1, -2, 2));
    assert_eq!(info.last_toi, q(5, 4));
    assert_eq!(info.last_cast_offset, q(1, 2));
    assert_eq!(info.last_witness2, v(0, -1, 0));
    assert_eq!(info.last_cast_start, Vector::new(r(1), q(1, 2), r(2)));
    assert_eq!(info.last_axle_ws, v(0, 0, 1));
    assert_eq!(w.clipped_inv_contact_dot_suspension, Real::one());
    assert_eq!(w.suspension_relative_velocity, r(-3));
}

#[test]
fn wheel_past_the_hard_point_is_bottomed_out() {
    let mut c = vehicle();
    c.shape_cast(&chassis(), 0, q(1, 60), up_hit(q(1, 4)));
    let info = c.wheels()[0].shape_cast_info;
    assert!(info.bottomed_out);
    assert_eq!(info.bottom_out_overshoot, q(1, 4));
    assert_eq!(info.suspension_length, Real::zero());
}

#[test]
fn suspension_is_no_longer_than_its_full_extension() {
    let mut c = vehicle();
    c.shape_cast(&chassis(), 0, q(1, 60), up_hit(r(50)));
    assert_eq!(c.wheels()[0].shape_cast_info.suspension_length, r(6));
}

#[test]
fn walls_and_ceilings_are_rejected() {
    for normal in [v(1, 0, 0), v(0, -1, 0)] {
        let mut c = vehicle();
        let (collider, mut hit) = up_hit(r(1)).unwrap();
        hit.normal1 = normal;
        c.shape_cast(&chassis(), 0, q(1, 60), Some((collider, hit)));
        assert!(!c.wheels()[0].shape_cast_info.is_in_contact);
        assert_eq!(c.wheels()[0].shape_cast_info.ground_object, None);
    }
}

#[test]
fn reject_angle_of_eighty_degrees() {
    // The cosine of eighty degrees is 0.17365.
    for (y, accepted) in [(q(174, 1000), true), (q(173, 1000), false)] {
        let mut c = vehicle();
        let (collider, mut hit) = up_hit(r(1)).unwrap();
        hit.normal1 = Vector::new(Real::one(), y, Real::zero());
        c.shape_cast(&chassis(), 0, q(1, 60), Some((collider, hit)));
        assert_eq!(c.wheels()[0].shape_cast_info.is_in_contact, accepted);
    }
}

#[test]
fn inverted_chassis_finds_no_ground() {
    for direction in [v(0, 1, 0), v(1, 0, 0)] {
        let mut c = vehicle();
        c.wheels_mut()[0].wheel_direction_ws = direction;
        c.shape_cast(&chassis(), 0, q(1, 60), up_hit(r(1)));
        assert!(!c.wheels()[0].shape_cast_info.is_in_contact);
    }
}

#[test]
fn hit_filter_takes_the_given_cosines() {
    let up = v(0, 1, 0);
    for (suspension_cos, surface_cos, accepted) in [
        (q(1, 2), q(1, 2), true),
        (r(1), q(1, 2), false),
        (q(1, 2), r(1), false),
    ] {
        let mut w = vehicle().wheels()[0];
        w.apply_cast(up_hit(r(1)), up, &chassis(), suspension_cos, surface_cos, Real::one());
        assert_eq!(w.shape_cast_info.is_in_contact, accepted);
        assert_eq!(w.shape_cast_info.ground_object.is_some(), accepted);
    }
}

#[test]
fn oblique_surface_pushes_along_the_suspension() {
    let mut w = vehicle().wheels()[0];
    let (collider, mut hit) = up_hit(r(1)).unwrap();
    hit.normal1 = Vector::new(r(1), q(1, 2), r(0));
    w.apply_cast(Some((collider, hit)), v(0, 1, 0), &chassis(), r(0), r(0), r(0));
    assert_eq!(w.shape_cast_info.contact_normal_ws, v(0, 1, 0));
    hit.normal1 = Vector::new(r(1), q(3, 4), r(0));
    w.apply_cast(Some((collider, hit)), v(0, 1, 0), &chassis(), r(0), r(0), r(0));
    assert_eq!(w.shape_cast_info.contact_normal_ws, hit.normal1);
    assert_eq!(w.clipped_inv_contact_dot_suspension, Real::one().div(q(3, 4)));
}

#[test]
fn slope_correction_is_ten_at_most() {
    let mut w = vehicle().wheels()[0];
    w.wheel_direction_ws = Vector::new(Real::zero(), q(-1, 16), Real::zero());
    w.apply_cast(up_hit(r(1)), v(0, 1, 0), &chassis(), r(0), r(0), r(0));
    assert_eq!(w.clipped_inv_contact_dot_suspension, r(10));
    assert_eq!(w.suspension_relative_velocity, Real::zero());
}

#[test]
fn free_suspension_droops_by_the_given_decay() {
    let mut w = vehicle().wheels()[0];
    w.shape_cast_info.suspension_length = r(2);
    w.shape_cast_info.bottomed_out = true;
    w.apply_cast(None, v(0, 1, 0), &chassis(), r(0), r(0), q(3, 4));
    // A quarter of the way from two to six.
    assert_eq!(w.shape_cast_info.suspension_length, r(3));
    assert!(!w.shape_cast_info.bottomed_out);
    assert_eq!(w.shape_cast_info.contact_normal_ws, v(0, 1, 0));
    assert_eq!(w.clipped_inv_contact_dot_suspension, Real::one());
    w.apply_cast(None, v(0, 1, 0), &chassis(), r(0), r(0), r(0));
    assert_eq!(w.shape_cast_info.suspension_length, r(6));
    w.apply_cast(None, v(0, 1, 0), &chassis(), r(0), r(0), r(1));
    assert_eq!(w.shape_cast_info.suspension_length, r(6));
}

#[test]
fn free_suspension_droops_with_time() {
    let mut c = vehicle();
    // One time constant.
    c.shape_cast(&chassis(), 0, q(1, 5), None);
    let expected = 6.0 * (1.0 - (-1.0f64).exp());
    assert!((f(c.wheels()[0].shape_cast_info.suspension_length) - expected).abs() < 1.0e-5);
    let mut c = vehicle();
    c.shape_cast(&chassis(), 0, Real::zero(), None);
    assert_eq!(c.wheels()[0].shape_cast_info.suspension_length, Real::zero());
}

fn sprung_wheel() -> Wheel {
    let mut w = vehicle().wheels()[0];
    w.suspension_stiffness = r(8);
    w.damping_compression = r(4);
    w.damping_relaxation = r(2);
    w.shape_cast_info.is_in_contact = true;
    w.shape_cast_info.suspension_length = q(1, 2);
    w.clipped_inv_contact_dot_suspension = Real::one();
    w
}

#[test]
fn spring_pushes_by_its_compression() {
    let mut c = vehicle();
    c.wheels[0] = sprung_wheel();
    c.update_suspension(r(3), q(1, 4));
    // 8 * (1 - 1/2) * 3.
    assert_eq!(c.wheels()[0].wheel_suspension_force, r(12));
}

#[test]
fn dampers_share_an_implicit_update() {
    let mut c = vehicle();
    c.wheels[0] = sprung_wheel();
    c.wheels[0].suspension_relative_velocity = r(-1);
    c.update_suspension(r(1), q(1, 4));
    // One damper of four: the factor is 1 / (1 + 1/4 * 4 * 1).
    assert_eq!(c.wheels()[0].wheel_suspension_force, r(6));
    let mut released = sprung_wheel();
    released.suspension_relative_velocity = r(1);
    c.wheels.push(released);
    c.wheels[0].shape_cast_info.is_in_contact = true;
    c.update_suspension(r(1), q(1, 2));
    // Two dampers: 1 / (1 + 1/2 * 4 * 2) and 1 / (1 + 1/2 * 2 * 2).
    assert!(close(c.wheels()[0].wheel_suspension_force, 4.0 + 4.0 / 5.0));
    assert!(close(c.wheels()[1].wheel_suspension_force, 4.0 - 2.0 / 3.0));
}

#[test]
fn suspension_never_pulls() {
    let mut c = vehicle();
    c.wheels[0] = sprung_wheel();
    c.wheels[0].shape_cast_info.suspension_length = r(5);
    c.update_suspension(r(3), q(1, 4));
    assert_eq!(c.wheels()[0].wheel_suspension_force, Real::zero());
    c.wheels[0] = sprung_wheel();
    c.wheels[0].shape_cast_info.is_in_contact = false;
    c.wheels[0].wheel_suspension_force = r(9);
    c.update_suspension(r(3), q(1, 4));
    assert_eq!(c.wheels()[0].wheel_suspension_force, Real::zero());
}

#[test]
fn suspension_travels_as_far_before_its_rest_as_after() {
    let mut c = vehicle();
    c.wheels_mut()[0].max_suspension_travel = q(1, 4);
    for (toi, length, bottomed) in [
        (r(1), q(3, 4), false),
        (q(11, 8), q(7, 8), false),
        (r(9), q(5, 4), false),
        (q(1, 4), q(3, 4), true),
    ] {
        c.shape_cast(&chassis(), 0, q(1, 60), up_hit(toi));
        assert_eq!(c.wheels()[0].shape_cast_info.suspension_length, length);
        assert_eq!(c.wheels()[0].shape_cast_info.bottomed_out, bottomed);
    }
    assert_eq!(c.wheels()[0].min_suspension_length(), q(3, 4));
    // A travel that is longer than the resting length ends at the hard point.
    assert_eq!(vehicle().wheels()[0].min_suspension_length(), r(0));
}

#[test]
fn droop_adds_up() {
    let droop = |length: Real, decay: Real| {
        let mut w = vehicle().wheels()[0];
        w.shape_cast_info.suspension_length = length;
        w.apply_cast(None, v(0, 1, 0), &chassis(), r(0), r(0), decay);
        w.shape_cast_info.suspension_length
    };
    let (a, b) = (q(7, 9), q(5, 11));
    let twice = droop(droop(q(1, 3), a), b);
    assert!((twice.bits - droop(q(1, 3), a.mul(b)).bits).abs() <= 8);
}

#[test]
fn turned_directions_keep_their_lengths() {
    let mut c = vehicle();
    c.wheels_mut()[0].direction_cs = v(1, -2, 2);
    c.wheels_mut()[0].axle_cs = v(2, 3, 6);
    c.wheels_mut()[0].steering = q(1, 3);
    let mut body = chassis();
    body.position.rotation = Rotation::new(Vector::new(q(1, 3), q(-1, 2), q(2, 3)));
    c.update_wheel_transform(&body, 0);
    let w = c.wheels()[0];
    assert!((f(w.suspension().norm()) - 3.0).abs() < 1.0e-5);
    assert!((f(w.axle().norm()) - 7.0).abs() < 1.0e-5);
    assert!((f(w.suspension().dot(w.axle())) - 8.0).abs() < 1.0e-4);
}
