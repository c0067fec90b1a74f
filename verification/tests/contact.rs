use shape_cast_vehicle::bodies::RigidBody;
use shape_cast_vehicle::math::{Isometry, Rotation, SdpMatrix3, Vector};
use shape_cast_vehicle::scalar::{Real, ONE_BITS};
use shape_cast_vehicle::vehicle::contact::{
    resolve_single_bilateral, resolve_single_unilateral, WheelContactPoint,
};

fn r(n: i64) -> Real {
    Real::ratio(n, 1)
}

fn v(x: i64, y: i64, z: i64) -> Vector {
    Vector::new(r(x), r(y), r(z))
}

fn close(a: Real, b: f64) -> bool {
    (a.bits as f64 / ONE_BITS as f64 - b).abs() < 1.0e-6
}

fn body(linvel: Vector) -> RigidBody {
    let half = Real::ratio(1, 2);
    RigidBody {
        dynamic: true,
        sleeping: false,
        position: Isometry { translation: Vector::zeros(), rotation: Rotation::identity() },
        linvel,
        angvel: Vector::zeros(),
        mass: r(2),
        inv_mass: half,
        effective_inv_mass: Vector::new(half, half, half),
        effective_world_inv_inertia: SdpMatrix3 {
            m11: r(1),
            m12: r(0),
            m13: r(0),
            m22: r(1),
            m23: r(0),
            m33: r(1),
        },
        local_com: Vector::zeros(),
    }
}

#[test]
fn rolling_friction_cancels_the_sliding_velocity() {
    let chassis = body(v(3, 0, 0));
    let contact = WheelContactPoint::new(&chassis, None, v(0, 0, 0), v(1, 0, 0), r(100));
    assert_eq!(contact.jac_diag_ab_inv, r(2));
    assert_eq!(contact.max_impulse, r(100));
    assert_eq!(contact.calc_rolling_friction(1, r(0)), r(-6));
    assert_eq!(contact.calc_rolling_friction(2, r(0)), r(-3));
    assert_eq!(contact.calc_rolling_friction(1, r(1)), r(-8));
    assert_eq!(contact.calc_rolling_friction(1, r(-3)), r(0));
}

#[test]
fn rolling_friction_is_clamped() {
    let chassis = body(v(3, 0, 0));
    let contact = WheelContactPoint::new(&chassis, None, v(0, 0, 0), v(1, 0, 0), r(4));
    assert_eq!(contact.calc_rolling_friction(1, r(0)), r(-4));
    assert_eq!(contact.calc_rolling_friction(1, r(-9)), r(4));
}

#[test]
fn a_lever_makes_a_contact_lighter() {
    let chassis = body(v(3, 0, 0));
    let contact = WheelContactPoint::new(&chassis, None, v(0, -1, 0), v(1, 0, 0), r(100));
    // Half of inverse mass and one of inverse inertia.
    assert!(close(contact.jac_diag_ab_inv, 1.0 / 1.5));
}

#[test]
fn rolling_friction_follows_moving_ground() {
    let chassis = body(v(3, 0, 0));
    let ground = body(v(1, 0, 0));
    let contact = WheelContactPoint::new(&chassis, Some(&ground), v(0, 0, 0), v(1, 0, 0), r(100));
    assert_eq!(contact.jac_diag_ab_inv, r(1));
    assert_eq!(contact.calc_rolling_friction(1, r(0)), r(-2));
}

#[test]
fn unilateral_resolution_damps_a_fifth() {
    let chassis = body(v(5, 7, 7));
    assert!(close(resolve_single_unilateral(&chassis, v(0, 0, 0), v(1, 0, 0), r(0)), -2.0));
    assert!(close(resolve_single_unilateral(&chassis, v(0, 0, 0), v(1, 0, 0), r(1)), -2.4));
    assert!(close(
        resolve_single_unilateral(&chassis, v(0, -1, 0), v(1, 0, 0), r(0)),
        -0.2 * 5.0 / 1.5
    ));
}

#[test]
fn bilateral_resolution_damps_the_relative_velocity() {
    let chassis = body(v(5, 0, 0));
    let ground = body(v(1, 0, 0));
    let at = |p1: Vector, p2: Vector, bias: Real| {
        resolve_single_bilateral(&chassis, p1, &ground, p2, v(1, 0, 0), bias)
    };
    assert!(close(at(v(0, 0, 0), v(0, 0, 0), r(0)), -0.8));
    assert!(close(at(v(0, 0, 0), v(0, 0, 0), r(1)), -1.0));
    // One more of inverse inertia on either side.
    assert!(close(at(v(0, -1, 0), v(0, 0, 0), r(0)), -0.4));
    assert!(close(at(v(0, 0, 0), v(0, -1, 0), r(0)), -0.4));
}

#[test]
fn immovable_body_takes_no_impulse() {
    let mut wall = body(v(5, 0, 0));
    wall.inv_mass = r(0);
    assert_eq!(resolve_single_unilateral(&wall, v(0, 0, 0), v(1, 0, 0), r(0)), r(0));
}

#[test]
fn rolling_friction_stops_its_point() {
    let mut chassis = body(v(3, 1, -2));
    chassis.angvel = v(1, -2, 1);
    let direction = v(2, 1, 3).try_normalize(Real::ratio(1, 100_000)).unwrap();
    let contact = v(1, -2, 1);
    let bias = Real::ratio(1, 3);
    let point = WheelContactPoint::new(&chassis, None, contact, direction, r(1000));
    let impulse = point.calc_rolling_friction(1, bias);
    let mut after = chassis;
    after.apply_impulse_at_point(direction.scale(impulse), contact);
    // The point now moves with the opposite of the bias.
    assert!(close(direction.dot(after.velocity_at_point(contact)), -1.0 / 3.0));
}

#[test]
fn bilateral_resolution_does_not_depend_on_the_order() {
    let mut chassis = body(v(5, 1, 0));
    chassis.angvel = v(1, 2, -1);
    let ground = body(v(1, -3, 2));
    let normal = v(1, 2, -2).try_normalize(Real::ratio(1, 100_000)).unwrap();
    let bias = Real::ratio(1, 7);
    let (p1, p2) = (v(1, -1, 2), v(0, 3, 1));
    let one = resolve_single_bilateral(&chassis, p1, &ground, p2, normal, bias);
    let other = resolve_single_bilateral(&ground, p2, &chassis, p1, normal.neg(), bias);
    assert_eq!(one, other);
    assert_ne!(one, r(0));
}

#[test]
fn two_fixed_bodies_exchange_nothing() {
    let mut fixed = body(v(5, 1, 0));
    fixed.inv_mass = r(0);
    fixed.effective_world_inv_inertia.m11 = r(0);
    fixed.effective_world_inv_inertia.m22 = r(0);
    fixed.effective_world_inv_inertia.m33 = r(0);
    let other = RigidBody { linvel: v(-3, 0, 0), ..fixed };
    let impulse =
        resolve_single_bilateral(&fixed, v(1, 1, 1), &other, v(0, 1, 0), v(1, 0, 0), r(1));
    assert_eq!(impulse, r(0));
}

#[test]
fn wheels_share_what_cancels_the_sliding() {
    let mut chassis = body(v(3, 1, -2));
    chassis.angvel = v(1, -2, 1);
    let mut ground = body(v(-1, 2, 1));
    ground.position.translation = v(2, -3, 0);
    let direction = v(2, 1, 3).try_normalize(Real::ratio(1, 100_000)).unwrap();
    let contact = v(1, -2, 1);
    let bias = Real::ratio(1, 3);
    let mut fixed = ground;
    fixed.dynamic = false;
    fixed.inv_mass = r(0);
    fixed.effective_world_inv_inertia = SdpMatrix3 {
        m11: r(0),
        m12: r(0),
        m13: r(0),
        m22: r(0),
        m23: r(0),
        m33: r(0),
    };
    for below in [ground, fixed] {
        for count in [1, 2, 3, 7] {
            let point = WheelContactPoint::new(&chassis, Some(&below), contact, direction, r(1000));
            let impulse = point.calc_rolling_friction(count, bias);
            let (mut above, mut under) = (chassis, below);
            above.apply_impulse_at_point(direction.scale(impulse), contact);
            under.apply_impulse_at_point(direction.scale(impulse.neg()), contact);
            let sliding = |a: &RigidBody, b: &RigidBody| {
                direction.dot(a.velocity_at_point(contact).sub(b.velocity_at_point(contact)))
            };
            let before = sliding(&chassis, &below);
            let taken = sliding(&above, &under).sub(before).mul(Real::from_count(count));
            assert!(close(taken.add(before).add(bias), 0.0));
        }
    }
}

#[test]
fn exchanged_bodies_exchange_the_opposite_impulse() {
    let mut chassis = body(v(5, 1, 0));
    chassis.angvel = v(1, 2, -1);
    let ground = body(v(1, -3, 2));
    let normal = v(1, 2, -2).try_normalize(Real::ratio(1, 100_000)).unwrap();
    let (p1, p2) = (v(1, -1, 2), v(0, 3, 1));
    let one = resolve_single_bilateral(&chassis, p1, &ground, p2, normal, r(0));
    let other = resolve_single_bilateral(&ground, p2, &chassis, p1, normal, r(0));
    assert_eq!(one, other.neg());
    assert_ne!(one, r(0));
}

#[test]
fn damping_opposes_what_it_damps() {
    let chassis = body(v(5, 1, 0));
    let ground = body(v(1, -3, 2));
    let normal = v(1, 2, -2).try_normalize(Real::ratio(1, 100_000)).unwrap();
    let (p1, p2) = (v(1, -1, 2), v(0, 3, 1));
    let apart = chassis.velocity_at_point(p1).sub(ground.velocity_at_point(p2));
    for bias in [-9, -6, -5, -4, -1, 0, 3] {
        let both = normal.dot(apart).add(r(bias));
        let impulse = resolve_single_bilateral(&chassis, p1, &ground, p2, normal, r(bias));
        assert_eq!(impulse.bits.signum(), -both.bits.signum());
        let alone = normal.dot(chassis.velocity_at_point(p1)).add(r(bias));
        let impulse = resolve_single_unilateral(&chassis, p1, normal, r(bias));
        assert_eq!(impulse.bits.signum(), -alone.bits.signum());
    }
}
