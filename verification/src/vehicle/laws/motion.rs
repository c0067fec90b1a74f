//! What the velocities that a vehicle reads off its chassis promise.
use crate::bodies::{Collider, RigidBody};
use crate::math::{Point, Vector};
use crate::scalar::{Real, ONE_BITS};
use crate::vehicle::controller::DynamicShapeCastVehicleController;
use crate::vehicle::update::UpdateAction;
use crate::vehicle::wheel::Wheel;
use vstd::prelude::*;

verus! {

/// The velocity of a body at a point along a direction, compared to the exact
/// one.
pub proof fn lemma_velocity_along(direction: Vector, body: RigidBody, point: Point, w: int, r: int)
    requires
        crate::body_laws::moves_at(body, point, w, r),
        body.velocity_at_point(point).exact().within(0x2000_0000_0000_0000),
        direction.exact().within(ONE_BITS as int),
    ensures
        ({
            let exact = direction.exact().dot(crate::body_laws::exact_velocity(body, point));
            let bound = 9 * (ONE_BITS * ONE_BITS);
            -bound <= direction.dot(body.velocity_at_point(point)).bits * 0x1_0000_0000_0000_0000
                - exact <= bound
        }),
{
    let v = body.velocity_at_point(point);
    let (n, x) = (direction.exact(), v.exact());
    let y = crate::body_laws::exact_velocity(body, point);
    crate::body_laws::velocity_is_that_of_a_rigid_motion(body, point, w, r);
    let e = x.times(0x1_0000_0000).minus(y);
    assert(x.times(0x1_0000_0000) == y.plus(e));
    crate::exact::lemma_dot_linear(n, x, x, 0x1_0000_0000);
    crate::exact::lemma_dot_linear(n, y, e, 0);
    crate::exact::lemma_dot_bound(n, e, 0x1_0000_0000, 0x2_0000_0000);
    crate::exact::lemma_dot_near(direction, v, 0x1_0000_0000, 0x2000_0000_0000_0000);
}

/// The forward axis of a chassis, in the world.
pub open spec fn heading(chassis: RigidBody, forward_axis: usize) -> Vector {
    chassis.position.rotation.rotate(Vector::ith(forward_axis, Real::one()))
}

/// The part along an axis of a vector.
pub open spec fn coordinate(v: Vector, axis: usize) -> int {
    if axis == 0 {
        v.x.bits as int
    } else if axis == 1 {
        v.y.bits as int
    } else {
        v.z.bits as int
    }
}

proof fn lemma_axis_part(v: Vector, axis: usize)
    requires
        axis < 3,
    ensures
        Vector::ith(axis, Real::one()).exact().dot(v.exact()) == coordinate(v, axis)
            * 0x1_0000_0000,
        Vector::ith(axis, Real::one()).exact().within(0x1_0000_0000),
{
    let e = Vector::ith(axis, Real::one()).exact();
    let (x, y, z) = (v.x.bits as int, v.y.bits as int, v.z.bits as int);
    lemma_unit_product(e.x, x);
    lemma_unit_product(e.y, y);
    lemma_unit_product(e.z, z);
}

proof fn lemma_unit_product(k: int, x: int)
    requires
        k == 0 || k == 0x1_0000_0000,
    ensures
        k == 0 ==> k * x == 0,
        k == 0x1_0000_0000 ==> k * x == x * 0x1_0000_0000,
{
    assert(k == 0 ==> k * x == 0) by (nonlinear_arith);
}

/// How fast a velocity goes along a heading, less the part of the heading along
/// a normal, in units of the fourth power.
pub open spec fn exact_travel(heading: Vector, normal: Vector, velocity: Vector) -> int {
    let (a, n, v) = (heading.exact(), normal.exact(), velocity.exact());
    a.dot(v) * 0x1_0000_0000_0000_0000 - a.dot(n) * n.dot(v)
}

/// Whether a wheel in contact turns in range, where no coordinate of the
/// velocity of its hard point is larger than `speed` units.
pub open spec fn turns_in_range(
    wheel: Wheel,
    chassis: RigidBody,
    forward_axis: usize,
    dt: Real,
    speed: int,
) -> bool {
    let size = crate::scalar::magnitude(dt.bits as int);
    &&& wheel.shape_cast_info.is_in_contact
    &&& forward_axis < 3
    &&& heading(chassis, forward_axis).exact().within(0x2_0000_0000)
    &&& wheel.shape_cast_info.contact_normal_ws.exact().within(0x1_0000_0000)
    &&& chassis.velocity_at_point(wheel.shape_cast_info.hard_point_ws).exact().within(speed)
    &&& 1 <= speed <= 0x10_0000_0000_0000
    &&& 0 < wheel.radius.bits
    &&& 32 * (speed * size) <= crate::exact::product_limit()
    &&& 32 * (speed * size) <= wheel.radius.bits * 0x1000_0000_0000_0000
    &&& -0x2000_0000_0000_0000 <= wheel.rotation.bits <= 0x2000_0000_0000_0000
}

/// By how much the travel of a wheel is rounded, in units of the fourth power.
pub open spec fn travel_error(speed: int) -> int {
    3 * 0x1_0000_0000_0000_0000_0000_0000 + 12 * (speed * 0x1_0000_0000_0000_0000)
}

proof fn lemma_travel(heading: Vector, normal: Vector, velocity: Vector, speed: int)
    requires
        heading.exact().within(0x2_0000_0000),
        normal.exact().within(0x1_0000_0000),
        velocity.exact().within(speed),
        1 <= speed <= 0x10_0000_0000_0000,
    ensures
        ({
            let forward = heading.sub(normal.scale(heading.dot(normal)));
            let travel = forward.dot(velocity).bits;
            let bound = travel_error(speed);
            &&& -bound <= travel * 0x1_0000_0000_0000_0000_0000_0000 - exact_travel(
                heading,
                normal,
                velocity,
            ) <= bound
            &&& -32 * speed <= travel <= 32 * speed
        }),
{
    let (a, n, v) = (heading.exact(), normal.exact(), velocity.exact());
    let proj = heading.dot(normal);
    let p = proj.bits as int;
    crate::exact::lemma_dot_near(heading, normal, 0x2_0000_0000, 0x1_0000_0000);
    crate::exact::lemma_dot_bound(a, n, 0x2_0000_0000, 0x1_0000_0000);
    let e1 = p * 0x1_0000_0000 - a.dot(n);
    assert(-0x6_0000_0003 <= p <= 0x6_0000_0003);
    let shadow = normal.scale(proj);
    crate::exact::lemma_scale_near(normal, proj, 0x1_0000_0000, 0x6_0000_0003);
    crate::exact::lemma_product_bound(n.x, p, 0x1_0000_0000, 0x6_0000_0003);
    crate::exact::lemma_product_bound(n.y, p, 0x1_0000_0000, 0x6_0000_0003);
    crate::exact::lemma_product_bound(n.z, p, 0x1_0000_0000, 0x6_0000_0003);
    let e = shadow.exact().times(0x1_0000_0000).minus(n.times(p));
    assert(shadow.exact().within(0x6_0000_0004));
    let forward = heading.sub(shadow);
    let f = forward.exact();
    assert(f == a.minus(shadow.exact()));
    assert(f.within(0x9_0000_0000));
    assert(f.times(0x1_0000_0000).plus(n.times(p).plus(e)) == a.times(0x1_0000_0000));
    crate::exact::lemma_dot_linear(v, f, f, 0x1_0000_0000);
    crate::exact::lemma_dot_linear(v, a, a, 0x1_0000_0000);
    crate::exact::lemma_dot_linear(v, f.times(0x1_0000_0000), n.times(p).plus(e), 0);
    crate::exact::lemma_dot_linear(v, n.times(p), e, 0);
    crate::exact::lemma_dot_linear(v, n, n, p);
    crate::exact::lemma_dot_linear(f, v, v, 0);
    crate::exact::lemma_dot_linear(a, v, v, 0);
    crate::exact::lemma_dot_linear(n, v, v, 0);
    crate::exact::lemma_dot_bound(v, e, speed, 0x1_0000_0000);
    crate::exact::lemma_dot_bound(n, v, 0x1_0000_0000, speed);
    crate::exact::lemma_dot_near(forward, velocity, 0x9_0000_0000, speed);
    crate::exact::lemma_dot_bound(f, v, 0x9_0000_0000, speed);
    let (an, nv, av, fv) = (a.dot(n), n.dot(v), a.dot(v), f.dot(v));
    crate::exact::lemma_product_bound(e1, nv, 0x3_0000_0000, 3 * (0x1_0000_0000 * speed));
    assert((p * nv) * 0x1_0000_0000 == an * nv + e1 * nv) by (nonlinear_arith)
        requires
            e1 == p * 0x1_0000_0000 - an,
    ;
    assert(nv * p == p * nv) by (nonlinear_arith);
    let ve = v.dot(e);
    assert(fv * 0x1_0000_0000 + p * nv + ve == av * 0x1_0000_0000);
}

/// A wheel on the ground turns by the way that its hard point travels in the
/// step, divided by its radius, up to rounding. The way is counted along the
/// forward axis of the chassis as the chassis is turned, less the part of that
/// axis that leaves the ground.
pub proof fn rolling_wheel_turns_by_its_travel(
    wheel: Wheel,
    chassis: RigidBody,
    forward_axis: usize,
    dt: Real,
    speed: int,
)
    requires
        turns_in_range(wheel, chassis, forward_axis, dt, speed),
    ensures
        ({
            let turn = wheel.turned(chassis, forward_axis, dt).rotation.bits
                - wheel.rotation.bits;
            let travel = exact_travel(
                heading(chassis, forward_axis),
                wheel.shape_cast_info.contact_normal_ws,
                chassis.velocity_at_point(wheel.shape_cast_info.hard_point_ws),
            ) * dt.bits;
            let bound = (wheel.radius.bits + ONE_BITS) * 0x1_0000_0000_0000_0000_0000_0000 + 2
                * (travel_error(speed) * crate::scalar::magnitude(dt.bits as int));
            -bound <= 2 * ((turn * wheel.radius.bits) * 0x1_0000_0000_0000_0000_0000_0000) - 2
                * travel <= bound
        }),
{
    let normal = wheel.shape_cast_info.contact_normal_ws;
    let axis = heading(chassis, forward_axis);
    let velocity = chassis.velocity_at_point(wheel.shape_cast_info.hard_point_ws);
    lemma_travel(axis, normal, velocity, speed);
    let way = axis.sub(normal.scale(axis.dot(normal))).dot(velocity);
    let (p, t, r) = (way.bits as int, dt.bits as int, wheel.radius.bits as int);
    let size = crate::scalar::magnitude(t);
    let reach = 32 * (speed * size);
    crate::exact::lemma_product_bound(p, t, 32 * speed, size);
    assert((32 * speed) * size == reach) by (nonlinear_arith)
        requires
            reach == 32 * (speed * size),
    ;
    let pt = p * t;
    crate::exact::lemma_mul_near(way, dt);
    let moved = way.mul(dt);
    let m = moved.bits as int;
    crate::scalar_lemmas::lemma_mul_within_half(way, dt);
    // The quotient is in range.
    let n = m * 0x1_0000_0000;
    let q = crate::scalar::round_div(n, r);
    let top: int = 0x2000_0000_0000_0000;
    assert(-(top * r) <= n <= top * r);
    crate::scalar_lemmas::lemma_round_div_exact(top, r);
    crate::scalar_lemmas::lemma_round_div_exact(-top, r);
    crate::scalar_lemmas::lemma_round_div_ordered(n, top * r, r);
    assert((-top) * r == -(top * r)) by (nonlinear_arith);
    crate::scalar_lemmas::lemma_round_div_ordered((-top) * r, n, r);
    let turn = moved.div(wheel.radius);
    assert(turn.bits == q);
    crate::scalar_lemmas::lemma_div_within_half(moved, wheel.radius);
    assert(wheel.turn(chassis, forward_axis, dt) == turn);
    assert(wheel.turned(chassis, forward_axis, dt).rotation.bits - wheel.rotation.bits == q);
    let x = exact_travel(axis, normal, velocity);
    let e = p * 0x1_0000_0000_0000_0000_0000_0000 - x;
    let err = travel_error(speed);
    crate::exact::lemma_product_bound(e, t, err, size);
    assert(e * t == pt * 0x1_0000_0000_0000_0000_0000_0000 - x * t) by (nonlinear_arith)
        requires
            e == p * 0x1_0000_0000_0000_0000_0000_0000 - x,
            pt == p * t,
    ;
    assert(-(r + 0x1_0000_0000) <= 2 * (q * r) - 2 * pt <= r + 0x1_0000_0000);
}

/// The forward speed of a chassis is the part of its velocity along its own
/// forward axis, however it is turned: that of a velocity that is turned with
/// the chassis is its coordinate along that axis within the chassis, up to
/// rounding and to what the rotation lacks of a unit one.
pub proof fn forward_speed_is_relative_to_the_chassis(
    chassis: RigidBody,
    forward_axis: usize,
    local: Vector,
    b: int,
)
    requires
        forward_axis < 3,
        crate::vehicle::laws::placing::is_in_unit_box(chassis.position.rotation),
        ONE_BITS <= b <= 0x8_0000 * ONE_BITS,
        local.exact().within(b),
        chassis.linvel == chassis.position.rotation.rotate(local),
    ensures
        ({
            let speed = crate::vehicle::update::forward_speed(chassis, forward_axis).bits;
            let slack = crate::vehicle::laws::placing::rotation_slack(chassis.position.rotation, b)
                + 3 * 0x1_0000_0000_0000_0000_0000_0000;
            -slack <= ((speed - coordinate(local, forward_axis)) * 0x1_0000_0000)
                * 0x1_0000_0000_0000_0000 <= slack
        }),
{
    let q = chassis.position.rotation;
    let e = Vector::ith(forward_axis, Real::one());
    lemma_axis_part(local, forward_axis);
    crate::rotation_laws::rotation_keeps_dot_products(q, e, local, b);
    let axis = q.rotate(e);
    let (u, w) = (q.imaginary().exact(), q.w.bits as int);
    crate::rotation_laws::lemma_rotate_near(q, e);
    crate::rotation_laws::lemma_exactly_rotated_bound(u, w, e.exact(), 0x1_0000_0000);
    assert(axis.exact().within(0xe_0000_0000));
    crate::rotation_laws::lemma_rotate_near(q, local);
    crate::rotation_laws::lemma_exactly_rotated_bound(u, w, local.exact(), b);
    assert(chassis.linvel.exact().within(0x80_0000_0000_0000));
    crate::exact::lemma_dot_near(axis, chassis.linvel, 0xe_0000_0000, 0x80_0000_0000_0000);
}

/// A chassis that slides without turning, over ground that is perpendicular to
/// its up axis, turns its wheels by its speed along its own forward axis times
/// the step over their radius, however the chassis is turned, up to rounding
/// and to what its rotation lacks of a unit one, which `slack` units bound.
pub proof fn straight_rolling_is_relative_to_the_chassis(
    wheel: Wheel,
    chassis: RigidBody,
    forward_axis: usize,
    up_axis: usize,
    local: Vector,
    dt: Real,
    speed: int,
    b: int,
    slack: int,
)
    requires
        turns_in_range(wheel, chassis, forward_axis, dt, speed),
        up_axis < 3,
        up_axis != forward_axis,
        crate::vehicle::laws::placing::is_in_unit_box(chassis.position.rotation),
        ONE_BITS <= b <= 0x8_0000 * ONE_BITS,
        local.exact().within(b),
        chassis.linvel == chassis.position.rotation.rotate(local),
        chassis.angvel == Vector::zeros(),
        wheel.shape_cast_info.contact_normal_ws == chassis.position.rotation.rotate(
            Vector::ith(up_axis, Real::one()),
        ),
        crate::vehicle::laws::placing::rotation_slack(chassis.position.rotation, b) <= slack
            * 0x1_0000_0000_0000_0000,
    ensures
        ({
            let turn = wheel.turned(chassis, forward_axis, dt).rotation.bits
                - wheel.rotation.bits;
            let driven = coordinate(local, forward_axis) * dt.bits;
            let apart = slack * 0x1_0000_0000_0000_0000 + slack * (3 * (0x1_0000_0000 * speed));
            let bound = (wheel.radius.bits + ONE_BITS) * 0x1_0000_0000_0000_0000_0000_0000 + 2
                * ((travel_error(speed) + apart) * crate::scalar::magnitude(dt.bits as int));
            -bound <= 2 * ((turn * wheel.radius.bits - driven)
                * 0x1_0000_0000_0000_0000_0000_0000) <= bound
        }),
{
    rolling_wheel_turns_by_its_travel(wheel, chassis, forward_axis, dt, speed);
    let q = chassis.position.rotation;
    let (e, g) = (Vector::ith(forward_axis, Real::one()), Vector::ith(up_axis, Real::one()));
    lemma_axis_part(local, forward_axis);
    lemma_axis_part(g, forward_axis);
    lemma_axis_part(e, up_axis);
    assert(e.exact().dot(g.exact()) == 0);
    crate::rotation_laws::rotation_keeps_dot_products(q, e, local, b);
    crate::rotation_laws::rotation_keeps_dot_products(q, e, g, b);
    let point = wheel.shape_cast_info.hard_point_ws;
    let lever = point.sub(chassis.center_of_mass());
    lemma_no_spin(lever);
    assert(chassis.velocity_at_point(point) == chassis.linvel);
    let (a, n, v) = (
        heading(chassis, forward_axis).exact(),
        wheel.shape_cast_info.contact_normal_ws.exact(),
        chassis.linvel.exact(),
    );
    let (an, nv, av) = (a.dot(n), n.dot(v), a.dot(v));
    let c = coordinate(local, forward_axis);
    assert(-slack <= av - c * 0x1_0000_0000 <= slack);
    assert(-slack <= an <= slack);
    crate::exact::lemma_dot_bound(n, v, 0x1_0000_0000, speed);
    crate::exact::lemma_product_bound(an, nv, slack, 3 * (0x1_0000_0000 * speed));
    let x = av * 0x1_0000_0000_0000_0000 - an * nv;
    let apart = slack * 0x1_0000_0000_0000_0000 + slack * (3 * (0x1_0000_0000 * speed));
    let f = x - c * 0x1_0000_0000_0000_0000_0000_0000;
    assert(-apart <= f <= apart);
    let t = dt.bits as int;
    let size = crate::scalar::magnitude(t);
    crate::exact::lemma_product_bound(f, t, apart, size);
    assert(f * t == x * t - (c * t) * 0x1_0000_0000_0000_0000_0000_0000) by (nonlinear_arith)
        requires
            f == x - c * 0x1_0000_0000_0000_0000_0000_0000,
    ;
    let err = travel_error(speed);
    assert((err + apart) * size == err * size + apart * size) by (nonlinear_arith);
}

proof fn lemma_no_spin(v: Vector)
    ensures
        Vector::zeros().cross(v) == Vector::zeros(),
{
    crate::scalar_lemmas::lemma_mul_zero(v.x);
    crate::scalar_lemmas::lemma_mul_zero(v.y);
    crate::scalar_lemmas::lemma_mul_zero(v.z);
}

/// A wheel that turns on the ground keeps all but a hundredth of what it turned
/// by for the time that it leaves the ground, and in the air turns by what it
/// kept, wherever the chassis goes.
pub proof fn spin_is_kept_but_for_a_hundredth(
    wheel: Wheel,
    chassis: RigidBody,
    forward_axis: usize,
    dt: Real,
)
    requires
        -0x2000_0000_0000_0000 <= wheel.rotation.bits <= 0x2000_0000_0000_0000,
        -0x2000_0000_0000_0000 <= wheel.turn(chassis, forward_axis, dt).bits
            <= 0x2000_0000_0000_0000,
    ensures
        ({
            let after = wheel.turned(chassis, forward_axis, dt);
            let turn = after.rotation.bits - wheel.rotation.bits;
            let magnitude = crate::scalar::magnitude(turn);
            let bound = 100 * ONE_BITS + 100 * magnitude;
            &&& -bound <= 100 * (after.delta_rotation.bits * ONE_BITS) - 99 * (turn * ONE_BITS)
                <= bound
            &&& !wheel.shape_cast_info.is_in_contact ==> turn == wheel.delta_rotation.bits
        }),
{
    let turn = wheel.turn(chassis, forward_axis, dt);
    let share = Real::ratio(99, 100);
    crate::scalar_lemmas::lemma_round_div_near(99 * ONE_BITS, 100);
    let k = share.bits as int;
    assert(k == crate::scalar::round_div(99 * ONE_BITS, 100));
    assert(-50 <= 100 * k - 99 * 0x1_0000_0000 <= 50);
    crate::scalar_lemmas::lemma_mul_contracts(turn, share);
    crate::scalar_lemmas::lemma_mul_within_half(turn, share);
    let t = turn.bits as int;
    let e = 100 * k - 99 * 0x1_0000_0000;
    crate::exact::lemma_product_bound(t, e, crate::scalar::magnitude(t), 50);
    assert(t * e == 100 * (t * k) - 99 * (t * 0x1_0000_0000)) by (nonlinear_arith)
        requires
            e == 100 * k - 99 * 0x1_0000_0000,
    ;
}

/// A step begins by measuring the chassis: how fast it is, whatever its
/// direction, which is the length of its velocity rounded down; and how fast it
/// drives, which is the part of its velocity along its own forward axis, up to
/// rounding and to what its rotation lacks of a unit one.
pub proof fn step_measures_the_chassis(
    vehicle: DynamicShapeCastVehicleController,
    chassis: RigidBody,
    after: DynamicShapeCastVehicleController,
    chassis_after: RigidBody,
    action: UpdateAction,
    local: Vector,
    b: int,
)
    requires
        vehicle.begins(chassis, after, chassis_after, action),
        vehicle.index_forward_axis < 3,
        crate::vehicle::laws::placing::is_in_unit_box(chassis.position.rotation),
        ONE_BITS <= b <= 0x8_0000 * ONE_BITS,
        local.exact().within(b),
        chassis.linvel == chassis.position.rotation.rotate(local),
        chassis.linvel.norm().bits < i64::MAX,
    ensures
        ({
            let speed = after.chassis_speed.bits as int;
            let square = chassis.linvel.exact().dot(chassis.linvel.exact());
            let driven = after.current_vehicle_speed.bits;
            let slack = crate::vehicle::laws::placing::rotation_slack(chassis.position.rotation, b)
                + 3 * 0x1_0000_0000_0000_0000_0000_0000;
            &&& 0 <= speed
            &&& speed * speed <= square < (speed + 1) * (speed + 1)
            &&& -slack <= ((driven - coordinate(local, vehicle.index_forward_axis))
                * 0x1_0000_0000) * 0x1_0000_0000_0000_0000 <= slack
        }),
{
    forward_speed_is_relative_to_the_chassis(chassis, vehicle.index_forward_axis, local, b);
    let v = chassis.linvel.exact();
    assert(v.x * v.x >= 0) by (nonlinear_arith);
    assert(v.y * v.y >= 0) by (nonlinear_arith);
    assert(v.z * v.z >= 0) by (nonlinear_arith);
    crate::scalar::lemma_floor_sqrt_exists(chassis.linvel.squared_units());
}

/// A step ends by rolling every wheel on the ground by the travel of its hard
/// point with the chassis as the step leaves it.
pub proof fn step_rolls_wheels_by_their_travel(
    vehicle: DynamicShapeCastVehicleController,
    bodies: Seq<RigidBody>,
    colliders: Seq<Collider>,
    dt: Real,
    after: DynamicShapeCastVehicleController,
    chassis_after: RigidBody,
    action: UpdateAction,
    i: int,
    speed: int,
)
    requires
        vehicle.finishes(bodies, colliders, dt, after, chassis_after, action),
        0 <= i < vehicle.wheels@.len(),
        turns_in_range(
            vehicle.wheels@[i],
            chassis_after,
            vehicle.index_forward_axis,
            dt,
            speed,
        ),
    ensures
        ({
            let wheel = vehicle.wheels@[i];
            let turn = after.wheels@[i].rotation.bits - wheel.rotation.bits;
            let travel = exact_travel(
                heading(chassis_after, vehicle.index_forward_axis),
                wheel.shape_cast_info.contact_normal_ws,
                chassis_after.velocity_at_point(wheel.shape_cast_info.hard_point_ws),
            ) * dt.bits;
            let bound = (wheel.radius.bits + ONE_BITS) * 0x1_0000_0000_0000_0000_0000_0000 + 2
                * (travel_error(speed) * crate::scalar::magnitude(dt.bits as int));
            -bound <= 2 * ((turn * wheel.radius.bits) * 0x1_0000_0000_0000_0000_0000_0000) - 2
                * travel <= bound
        }),
{
    let wheel = vehicle.wheels@[i];
    let axis = vehicle.index_forward_axis;
    rolling_wheel_turns_by_its_travel(wheel, chassis_after, axis, dt, speed);
    let outcome = vehicle.finish_outcome(bodies, colliders, dt);
    crate::vehicle::laws::friction::friction_changes_impulses_only(
        vehicle,
        vehicle.lifted_bodies(bodies),
        colliders,
        dt,
    );
    assert(crate::vehicle::friction::same_but_friction(outcome.wheels[i], wheel));
    lemma_friction_does_not_turn(outcome.wheels[i], wheel, chassis_after, axis, dt);
}

proof fn lemma_friction_does_not_turn(
    a: Wheel,
    b: Wheel,
    chassis: RigidBody,
    forward_axis: usize,
    dt: Real,
)
    requires
        crate::vehicle::friction::same_but_friction(a, b),
    ensures
        a.turned(chassis, forward_axis, dt).rotation == b.turned(
            chassis,
            forward_axis,
            dt,
        ).rotation,
{
}

/// A step ends by lifting the chassis out of its deepest overshoot, along the
/// contact normal of the wheel that has it; nothing else moves the chassis.
pub proof fn step_lifts_the_chassis(
    vehicle: DynamicShapeCastVehicleController,
    bodies: Seq<RigidBody>,
    colliders: Seq<Collider>,
    dt: Real,
    after: DynamicShapeCastVehicleController,
    chassis_after: RigidBody,
    action: UpdateAction,
) -> (i: int)
    requires
        vehicle.finishes(bodies, colliders, dt, after, chassis_after, action),
        vehicle.chassis.is_in(bodies),
        exists|k: int|
            0 <= k < vehicle.wheels@.len() && (
            #[trigger] vehicle.wheels@[k]).shape_cast_info.bottomed_out
                && vehicle.wheels@[k].shape_cast_info.bottom_out_overshoot.bits > 0,
        vehicle.chassis.of(bodies).position.translation.exact().within(0x2000_0000_0000_0000),
        forall|k: int|
            0 <= k < vehicle.wheels@.len() ==> (
            #[trigger] vehicle.wheels@[k]).shape_cast_info.contact_normal_ws.exact().within(
                ONE_BITS as int,
            ) && vehicle.wheels@[k].shape_cast_info.bottom_out_overshoot.bits
                <= 0x1000_0000_0000_0000,
    ensures
        0 <= i < vehicle.wheels@.len(),
        vehicle.wheels@[i].shape_cast_info.bottomed_out,
        ({
            let before = vehicle.chassis.of(bodies);
            let info = vehicle.wheels@[i].shape_cast_info;
            let overshoot = info.bottom_out_overshoot.bits as int;
            let travel = vehicle.wheels@[i].max_suspension_travel.bits as int;
            let lift = if travel < 0 {
                0
            } else if travel < overshoot {
                travel
            } else {
                overshoot
            };
            let way = chassis_after.position.translation.exact().minus(
                before.position.translation.exact(),
            );
            &&& way.times(0x1_0000_0000).minus(info.contact_normal_ws.exact().times(lift)).within(
                0x1_0000_0000,
            )
            &&& chassis_after.position.rotation == before.position.rotation
        }),
{
    let lifted = vehicle.lifted_bodies(bodies);
    crate::vehicle::laws::friction::friction_changes_velocities_only(
        vehicle,
        lifted,
        colliders,
        dt,
    );
    crate::vehicle::laws::impulses::chassis_is_lifted_out_of_its_overshoot(
        vehicle.chassis.of(bodies),
        vehicle.wheels@,
    )
}

} // verus!
