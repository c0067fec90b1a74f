//! What the tires do to the chassis.
use crate::bodies::{Collider, RigidBody};
use crate::math::{Point, Vector};
use crate::scalar::{Real, ONE_BITS};
use crate::vehicle::controller::DynamicShapeCastVehicleController;
use crate::vehicle::laws::rounding::Ranges;
use crate::vehicle::wheel::Wheel;
use vstd::prelude::*;

verus! {

/// Whether a point lies over a contact, along the up direction, by the given
/// share of how deep the contact is under the center of mass, up to rounding.
pub open spec fn is_raised(
    point: Point,
    contact: Point,
    center_of_mass: Point,
    up: Vector,
    share: int,
) -> bool {
    let depth = up.dot(contact.sub(center_of_mass)).bits as int;
    contact.exact().minus(point.exact()).times(0x1_0000_0000_0000_0000).minus(
        up.exact().times(depth * share),
    ).within(0x2_0000_0000_0000_0000)
}

/// Whether the contact of a wheel and its shares are in range.
pub open spec fn is_raised_in_range(wheel: Wheel, chassis: RigidBody, up: Vector) -> bool {
    let contact = wheel.shape_cast_info.contact_point_ws;
    &&& up.exact().within(0x1_0000_0000)
    &&& contact.exact().within(0x1000_0000_0000_0000)
    &&& contact.sub(chassis.center_of_mass()).exact().within(0x10_0000_0000_0000)
    &&& -0x10_0000_0000 <= wheel.anti_squat.bits <= 0x10_0000_0000
    &&& -0x10_0000_0000 <= wheel.roll_influence.bits <= 0x10_0000_0000
}

proof fn lemma_raised(wheel: Wheel, chassis: RigidBody, up: Vector, share: Real)
    requires
        is_raised_in_range(wheel, chassis, up),
        -0x11_0000_0000 <= share.bits <= 0x11_0000_0000,
    ensures
        is_raised(
            wheel.raised_contact(chassis, up, share),
            wheel.shape_cast_info.contact_point_ws,
            chassis.center_of_mass(),
            up,
            share.bits as int,
        ),
{
    let contact = wheel.shape_cast_info.contact_point_ws;
    let lever = contact.sub(chassis.center_of_mass());
    let depth = up.dot(lever);
    crate::exact::lemma_dot_near(up, lever, 0x1_0000_0000, 0x10_0000_0000_0000);
    crate::exact::lemma_dot_bound(
        up.exact(),
        lever.exact(),
        0x1_0000_0000,
        0x10_0000_0000_0000,
    );
    let (d, k) = (depth.bits as int, share.bits as int);
    assert(-0x40_0000_0000_0000 <= d <= 0x40_0000_0000_0000);
    crate::exact::lemma_bounded_mul_near(depth, share, 0x40_0000_0000_0000, 0x11_0000_0000);
    crate::exact::lemma_product_bound(d, k, 0x40_0000_0000_0000, 0x11_0000_0000);
    let rise = depth.mul(share);
    let z = rise.bits as int;
    assert(-0x500_0000_0000_0000 <= z <= 0x500_0000_0000_0000);
    crate::exact::lemma_scale_near(up, rise, 0x1_0000_0000, 0x500_0000_0000_0000);
    let shift = up.scale(rise);
    let u = up.exact();
    lemma_rise_term(u.x, z, d * k, shift.x.bits as int);
    lemma_rise_term(u.y, z, d * k, shift.y.bits as int);
    lemma_rise_term(u.z, z, d * k, shift.z.bits as int);
    assert(wheel.raised_contact(chassis, up, share).exact() == contact.exact().minus(
        shift.exact(),
    ));
}

proof fn lemma_rise_term(u: int, z: int, dk: int, shift: int)
    requires
        -0x1_0000_0000 <= u <= 0x1_0000_0000,
        -0x500_0000_0000_0000 <= z <= 0x500_0000_0000_0000,
        -0x1_0000_0000 <= z * 0x1_0000_0000 - dk <= 0x1_0000_0000,
        -0x1_0000_0000 <= shift * 0x1_0000_0000 - u * z <= 0x1_0000_0000,
    ensures
        -0x2_0000_0000_0000_0000 <= shift * 0x1_0000_0000_0000_0000 - u * dk
            <= 0x2_0000_0000_0000_0000,
        -0x501_0000_0000_0000 <= shift <= 0x501_0000_0000_0000,
{
    let e = z * 0x1_0000_0000 - dk;
    crate::exact::lemma_product_bound(u, e, 0x1_0000_0000, 0x1_0000_0000);
    crate::exact::lemma_product_bound(u, z, 0x1_0000_0000, 0x500_0000_0000_0000);
    assert(u * e == (u * z) * 0x1_0000_0000 - u * dk) by (nonlinear_arith)
        requires
            e == z * 0x1_0000_0000 - dk,
    ;
}

/// Whether an impulse is as long as given along a direction, up to rounding.
pub open spec fn is_along(impulse: Vector, direction: Vector, length: int) -> bool {
    impulse.exact().times(0x1_0000_0000).minus(direction.exact().times(length)).within(
        0x1_0000_0000,
    )
}

/// Whether a tire pushes in range.
pub open spec fn tire_pushes_in_range(
    wheel: Wheel,
    chassis: RigidBody,
    up: Vector,
    forward: Vector,
    side: Vector,
) -> bool {
    &&& is_raised_in_range(wheel, chassis, up)
    &&& forward.exact().within(0x2_0000_0000)
    &&& side.exact().within(0x2_0000_0000)
    &&& -0x1000_0000_0000_0000 <= wheel.forward_impulse.bits <= 0x1000_0000_0000_0000
    &&& -0x1000_0000_0000_0000 <= wheel.side_impulse.bits <= 0x1000_0000_0000_0000
}

/// Whether two impulses at two points are those of a tire: the one that it rolls
/// with along its forward direction, raised over the contact by its anti-squat,
/// and the one across it, raised by what its roll influence leaves.
pub open spec fn are_of_tire(
    impulse1: Vector,
    point1: Point,
    impulse2: Vector,
    point2: Point,
    wheel: Wheel,
    center_of_mass: Point,
    up: Vector,
    forward: Vector,
    side: Vector,
) -> bool {
    let contact = wheel.shape_cast_info.contact_point_ws;
    &&& is_along(impulse1, forward, wheel.forward_impulse.bits as int)
    &&& is_along(impulse2, side, wheel.side_impulse.bits as int)
    &&& is_raised(point1, contact, center_of_mass, up, wheel.anti_squat.bits as int)
    &&& is_raised(
        point2,
        contact,
        center_of_mass,
        up,
        0x1_0000_0000 - wheel.roll_influence.bits,
    )
}

/// A tire pushes the chassis along the ground, forward at a point that its
/// anti-squat raises towards the height of the center of mass, and across at
/// one that its roll influence lowers from there.
pub proof fn tire_pushes_along_the_ground(
    wheel: Wheel,
    chassis: RigidBody,
    up: Vector,
    forward: Vector,
    side: Vector,
) -> (r: (Vector, Point, Vector, Point))
    requires
        tire_pushes_in_range(wheel, chassis, up, forward, side),
    ensures
        are_of_tire(
            r.0,
            r.1,
            r.2,
            r.3,
            wheel,
            chassis.center_of_mass(),
            up,
            forward,
            side,
        ),
        wheel.pushes(chassis, up, forward, side) == chassis.struck(r.0, r.1).struck(r.2, r.3),
{
    let rest = Real::one().sub(wheel.roll_influence);
    assert(rest.bits == 0x1_0000_0000 - wheel.roll_influence.bits);
    lemma_raised(wheel, chassis, up, wheel.anti_squat);
    lemma_raised(wheel, chassis, up, rest);
    let point1 = wheel.raised_contact(chassis, up, wheel.anti_squat);
    let point2 = wheel.raised_contact(chassis, up, rest);
    crate::exact::lemma_scale_near(
        forward,
        wheel.forward_impulse,
        0x2_0000_0000,
        0x1000_0000_0000_0000,
    );
    crate::exact::lemma_scale_near(
        side,
        wheel.side_impulse,
        0x2_0000_0000,
        0x1000_0000_0000_0000,
    );
    let (impulse1, impulse2) = (
        forward.scale(wheel.forward_impulse),
        side.scale(wheel.side_impulse),
    );
    let after_forward = chassis.struck(impulse1, point1);
    if wheel.forward_impulse == Real::zero() {
        lemma_no_scale(forward);
        crate::vehicle::laws::update::lemma_no_impulse(chassis, point1);
        assert(after_forward == chassis);
    }
    if wheel.side_impulse == Real::zero() {
        lemma_no_scale(side);
        crate::vehicle::laws::update::lemma_no_impulse(after_forward, point2);
    }
    (impulse1, point1, impulse2, point2)
}

proof fn lemma_no_scale(v: Vector)
    ensures
        v.scale(Real::zero()) == Vector::zeros(),
{
    crate::scalar_lemmas::lemma_mul_zero(v.x);
    crate::scalar_lemmas::lemma_mul_zero(v.y);
    crate::scalar_lemmas::lemma_mul_zero(v.z);
}

/// Whether impulses at points are those of the first `n` tires, two of each.
pub open spec fn are_of_tires(
    impulses: Seq<Vector>,
    points: Seq<Point>,
    wheels: Seq<Wheel>,
    center_of_mass: Point,
    up: Vector,
    forward_ws: Seq<Vector>,
    axle: Seq<Vector>,
    n: nat,
) -> bool {
    &&& impulses.len() == 2 * n
    &&& points.len() == 2 * n
    &&& forall|i: int|
        0 <= i < n ==> are_of_tire(
            impulses[2 * i],
            points[2 * i],
            impulses[2 * i + 1],
            points[2 * i + 1],
            #[trigger] wheels[i],
            center_of_mass,
            up,
            forward_ws[i],
            axle[i],
        )
}

proof fn lemma_pushed_chassis(
    chassis: RigidBody,
    up: Vector,
    wheels: Seq<Wheel>,
    forward_ws: Seq<Vector>,
    axle: Seq<Vector>,
    n: nat,
) -> (r: (Seq<Vector>, Seq<Point>))
    requires
        n <= wheels.len(),
        forall|i: int|
            0 <= i < wheels.len() ==> tire_pushes_in_range(
                #[trigger] wheels[i],
                chassis,
                up,
                forward_ws[i],
                axle[i],
            ),
    ensures
        are_of_tires(r.0, r.1, wheels, chassis.center_of_mass(), up, forward_ws, axle, n),
        ({
            let after = crate::vehicle::friction::pushed_chassis(
                chassis,
                up,
                wheels,
                forward_ws,
                axle,
                n,
            );
            &&& after == crate::vehicle::laws::impulses::struck_in_turn(chassis, r.0, r.1, 2 * n)
            &&& after.same_but_velocities(chassis)
        }),
    decreases n,
{
    if n == 0 {
        (Seq::empty(), Seq::empty())
    } else {
        let k = (n - 1) as nat;
        let (impulses, points) = lemma_pushed_chassis(chassis, up, wheels, forward_ws, axle, k);
        let before = crate::vehicle::friction::pushed_chassis(
            chassis,
            up,
            wheels,
            forward_ws,
            axle,
            k,
        );
        let wheel = wheels[k as int];
        assert(k < wheels.len());
        lemma_same_range(wheel, chassis, before, up, forward_ws[k as int], axle[k as int]);
        let (i1, p1, i2, p2) = tire_pushes_along_the_ground(
            wheel,
            before,
            up,
            forward_ws[k as int],
            axle[k as int],
        );
        lemma_two_more(chassis, impulses, points, i1, p1, i2, p2, 2 * k);
        lemma_struck_twice(before, chassis, i1, p1, i2, p2);
        lemma_one_more_tire(
            impulses,
            points,
            i1,
            p1,
            i2,
            p2,
            wheels,
            chassis.center_of_mass(),
            up,
            forward_ws,
            axle,
            k,
        );
        (impulses.push(i1).push(i2), points.push(p1).push(p2))
    }
}

proof fn lemma_same_range(
    wheel: Wheel,
    chassis: RigidBody,
    other: RigidBody,
    up: Vector,
    forward: Vector,
    side: Vector,
)
    requires
        tire_pushes_in_range(wheel, chassis, up, forward, side),
        other.same_but_velocities(chassis),
    ensures
        tire_pushes_in_range(wheel, other, up, forward, side),
        other.center_of_mass() == chassis.center_of_mass(),
{
}

proof fn lemma_struck_twice(
    body: RigidBody,
    chassis: RigidBody,
    i1: Vector,
    p1: Point,
    i2: Vector,
    p2: Point,
)
    requires
        body.same_but_velocities(chassis),
    ensures
        body.struck(i1, p1).struck(i2, p2).same_but_velocities(chassis),
{
}

proof fn lemma_one_more_tire(
    impulses: Seq<Vector>,
    points: Seq<Point>,
    i1: Vector,
    p1: Point,
    i2: Vector,
    p2: Point,
    wheels: Seq<Wheel>,
    center_of_mass: Point,
    up: Vector,
    forward_ws: Seq<Vector>,
    axle: Seq<Vector>,
    k: nat,
)
    requires
        k < wheels.len(),
        are_of_tires(impulses, points, wheels, center_of_mass, up, forward_ws, axle, k),
        are_of_tire(
            i1,
            p1,
            i2,
            p2,
            wheels[k as int],
            center_of_mass,
            up,
            forward_ws[k as int],
            axle[k as int],
        ),
    ensures
        are_of_tires(
            impulses.push(i1).push(i2),
            points.push(p1).push(p2),
            wheels,
            center_of_mass,
            up,
            forward_ws,
            axle,
            k + 1,
        ),
{
    let (more, further) = (impulses.push(i1).push(i2), points.push(p1).push(p2));
    assert forall|i: int| 0 <= i < k + 1 implies are_of_tire(
        more[2 * i],
        further[2 * i],
        more[2 * i + 1],
        further[2 * i + 1],
        #[trigger] wheels[i],
        center_of_mass,
        up,
        forward_ws[i],
        axle[i],
    ) by {
        if i < k {
            assert(more[2 * i] == impulses[2 * i]);
            assert(more[2 * i + 1] == impulses[2 * i + 1]);
            assert(further[2 * i] == points[2 * i]);
            assert(further[2 * i + 1] == points[2 * i + 1]);
        } else {
            assert(more[2 * i] == i1 && more[2 * i + 1] == i2);
            assert(further[2 * i] == p1 && further[2 * i + 1] == p2);
        }
    }
}

proof fn lemma_two_more(
    chassis: RigidBody,
    impulses: Seq<Vector>,
    points: Seq<Point>,
    i1: Vector,
    p1: Point,
    i2: Vector,
    p2: Point,
    n: nat,
)
    requires
        impulses.len() == n,
        points.len() == n,
    ensures
        crate::vehicle::laws::impulses::struck_in_turn(
            chassis,
            impulses.push(i1).push(i2),
            points.push(p1).push(p2),
            n + 2,
        ) == crate::vehicle::laws::impulses::struck_in_turn(
            chassis,
            impulses,
            points,
            n,
        ).struck(i1, p1).struck(i2, p2),
{
    let (more, further) = (impulses.push(i1).push(i2), points.push(p1).push(p2));
    crate::vehicle::laws::impulses::lemma_struck_prefix(
        chassis,
        impulses,
        points,
        more,
        further,
        n,
    );
    reveal_with_fuel(crate::vehicle::laws::impulses::struck_in_turn, 3);
    assert(more[n as int] == i1 && more[n as int + 1] == i2);
    assert(further[n as int] == p1 && further[n as int + 1] == p2);
}

/// Friction pushes the chassis with the impulses of its tires and with nothing
/// else, those of each wheel along its own directions and at points over its
/// own contact. Up is the chassis' own up axis, as the chassis is turned.
pub proof fn friction_pushes_over_the_contacts(
    vehicle: DynamicShapeCastVehicleController,
    bodies: Seq<RigidBody>,
    colliders: Seq<Collider>,
    dt: Real,
) -> (r: (Seq<Vector>, Seq<Point>))
    requires
        vehicle.wheels@.len() > 0,
        ({
            let outcome = vehicle.friction_outcome(bodies, colliders, dt);
            let chassis = vehicle.chassis.of(bodies);
            let up = crate::vehicle::laws::motion::heading(chassis, vehicle.index_up_axis);
            forall|i: int|
                0 <= i < outcome.wheels.len() ==> tire_pushes_in_range(
                    #[trigger] outcome.wheels[i],
                    chassis,
                    up,
                    outcome.forward_ws[i],
                    outcome.axle[i],
                )
        }),
    ensures
        ({
            let outcome = vehicle.friction_outcome(bodies, colliders, dt);
            let chassis = vehicle.chassis.of(bodies);
            let n = vehicle.wheels@.len();
            &&& outcome.wheels.len() == n
            &&& are_of_tires(
                r.0,
                r.1,
                outcome.wheels,
                chassis.center_of_mass(),
                crate::vehicle::laws::motion::heading(chassis, vehicle.index_up_axis),
                outcome.forward_ws,
                outcome.axle,
                n,
            )
            &&& outcome.chassis == crate::vehicle::laws::impulses::struck_in_turn(
                chassis,
                r.0,
                r.1,
                2 * n,
            )
        }),
{
    let outcome = vehicle.friction_outcome(bodies, colliders, dt);
    let chassis = vehicle.chassis.of(bodies);
    let up = crate::vehicle::laws::motion::heading(chassis, vehicle.index_up_axis);
    crate::vehicle::laws::friction::friction_changes_impulses_only(
        vehicle,
        bodies,
        colliders,
        dt,
    );
    lemma_pushed_chassis(
        chassis,
        up,
        outcome.wheels,
        outcome.forward_ws,
        outcome.axle,
        outcome.wheels.len(),
    )
}

/// The number of wheels that have ground under them.
pub open spec fn wheels_on_the_ground(wheels: Seq<Wheel>) -> int {
    wheels.filter(|w: Wheel| w.shape_cast_info.ground_object is Some).len() as int
}

proof fn lemma_ground_count(wheels: Seq<Wheel>)
    ensures
        crate::vehicle::friction::ground_count(wheels) == wheels_on_the_ground(wheels),
    decreases wheels.len(),
{
    reveal(Seq::filter);
    if wheels.len() > 0 {
        lemma_ground_count(wheels.drop_last());
    }
}

/// The body under a wheel, if there is one.
pub open spec fn body_under(
    wheel: Wheel,
    bodies: Seq<RigidBody>,
    colliders: Seq<Collider>,
) -> Option<RigidBody> {
    match wheel.shape_cast_info.ground_object {
        Some(collider) => match colliders[collider.index as int].parent {
            Some(body) => Some(bodies[body.index as int]),
            None => None,
        },
        None => None,
    }
}

/// The wheels of a vehicle that are not driven cancel together the velocity with
/// which their contacts slide: each takes its share of its own, as many shares
/// as there are wheels with ground under them, as long as its impulse is not
/// limited.
pub proof fn wheels_cancel_sliding_together(
    vehicle: DynamicShapeCastVehicleController,
    bodies: Seq<RigidBody>,
    colliders: Seq<Collider>,
    dt: Real,
    i: int,
    ranges: Ranges,
)
    requires
        0 <= i < vehicle.wheels@.len(),
        vehicle.wheels@[i].shape_cast_info.ground_object is Some,
        vehicle.wheels@[i].engine_force == Real::zero(),
        wheels_on_the_ground(vehicle.wheels@) <= 0x4000_0000,
        ({
            let wheel = vehicle.wheels@[i];
            let ground = body_under(wheel, bodies, colliders);
            let asked = vehicle.loaded_wheel(bodies, colliders, dt, i).forward_impulse;
            let limit = wheel.holding_impulse(vehicle.chassis_speed, dt).bits;
            &&& -limit < asked.bits < limit
            &&& crate::vehicle::laws::tires::holds_in_range(
                wheel.latched(ground, vehicle.chassis_speed),
                wheel.forward_direction(),
                vehicle.chassis.of(bodies),
                ground,
                wheels_on_the_ground(vehicle.wheels@) as usize,
                asked,
                dt,
                ranges,
            )
        }),
    ensures
        ({
            let wheel = vehicle.wheels@[i];
            let ground = body_under(wheel, bodies, colliders);
            let forward = wheel.forward_direction();
            crate::vehicle::laws::tires::takes_a_share(
                vehicle.chassis.of(bodies),
                ground,
                wheel.shape_cast_info.contact_point_ws,
                forward,
                wheel.latched(ground, vehicle.chassis_speed).drift_velocity(forward, dt),
                wheels_on_the_ground(vehicle.wheels@),
                vehicle.loaded_wheel(bodies, colliders, dt, i).forward_impulse,
                ranges,
            )
        }),
{
    let wheel = vehicle.wheels@[i];
    let chassis = vehicle.chassis.of(bodies);
    let ground = body_under(wheel, bodies, colliders);
    let speed = vehicle.chassis_speed;
    lemma_ground_count(vehicle.wheels@);
    let count = wheels_on_the_ground(vehicle.wheels@) as usize;
    crate::vehicle::laws::friction::lemma_loaded_wheel(vehicle, bodies, colliders, dt, i);
    let latched = wheel.latched(ground, speed);
    let forward = wheel.forward_direction();
    lemma_asks_to_roll(latched, forward, chassis, ground, count, speed, dt);
    assert(latched.holding_impulse(speed, dt) == wheel.holding_impulse(speed, dt));
    crate::vehicle::laws::tires::undriven_wheel_takes_its_share(
        latched,
        forward,
        chassis,
        ground,
        count,
        speed,
        dt,
        ranges,
    );
}

proof fn lemma_asks_to_roll(
    wheel: Wheel,
    forward: Vector,
    chassis: RigidBody,
    ground: Option<RigidBody>,
    count: usize,
    speed: Real,
    dt: Real,
)
    requires
        wheel.has_ground(),
    ensures
        wheel.side_resolved(chassis, ground, count, dt).rolled(
            forward,
            chassis,
            ground,
            count,
            speed,
            dt,
        ).forward_impulse == wheel.rolling_friction(forward, chassis, ground, count, speed, dt),
        wheel.side_resolved(chassis, ground, count, dt).rolled(
            forward,
            chassis,
            ground,
            count,
            speed,
            dt,
        ).side_impulse == wheel.side_friction(chassis, ground, count, dt),
{
    let resolved = wheel.side_resolved(chassis, ground, count, dt);
    assert(resolved.drift_velocity(forward, dt) == wheel.drift_velocity(forward, dt));
    assert(resolved.holding_impulse(speed, dt) == wheel.holding_impulse(speed, dt));
}

/// The velocity across a wheel that its side friction damps: that of its contact
/// against ground that impulses move, or its own with what undoes its drift.
pub open spec fn side_velocity(
    wheel: Wheel,
    chassis: RigidBody,
    ground: Option<RigidBody>,
    dt: Real,
) -> Real {
    let contact = wheel.shape_cast_info.contact_point_ws;
    let side = wheel.side_direction();
    match ground {
        Some(b) if b.dynamic => side.dot(
            chassis.velocity_at_point(contact).sub(b.velocity_at_point(contact)),
        ),
        _ => side.dot(chassis.velocity_at_point(contact)).add(wheel.drift_velocity(side, dt)),
    }
}

/// What a unit impulse across a wheel counts.
pub open spec fn side_resistance(
    wheel: Wheel,
    chassis: RigidBody,
    ground: Option<RigidBody>,
) -> Real {
    let contact = wheel.shape_cast_info.contact_point_ws;
    let side = wheel.side_direction();
    let spin = crate::vehicle::laws::tires::spin_of_unit_impulse(chassis, contact, side);
    match ground {
        Some(b) if b.dynamic => {
            let other = crate::vehicle::laws::tires::spin_of_unit_impulse(b, contact, side.neg());
            chassis.inv_mass.add(b.inv_mass).add(spin.dot(spin)).add(other.dot(other))
        },
        _ => chassis.inv_mass.add(spin.dot(spin)),
    }
}

/// Side friction takes its share of a fifth of the velocity across a wheel, by
/// its stiffness: the share times the number of wheels is the stiffness times an
/// impulse that takes that fifth, up to rounding.
pub proof fn side_friction_takes_its_share_of_a_fifth(
    wheel: Wheel,
    chassis: RigidBody,
    ground: Option<RigidBody>,
    count: usize,
    dt: Real,
) -> (impulse: Real)
    requires
        0 < count <= 0x4000_0000,
        ({
            let velocity = side_velocity(wheel, chassis, ground, dt);
            let resistance = side_resistance(wheel, chassis, ground);
            let one = Wheel { side_friction_stiffness: Real::one(), ..wheel };
            let whole = one.side_friction(chassis, ground, 1, dt);
            &&& 0 < resistance.bits
            &&& resistance.inv().bits < i64::MAX
            &&& -i64::MAX < velocity.bits < i64::MAX
            &&& i64::MIN < whole.bits < i64::MAX
            &&& i64::MIN < wheel.side_friction(chassis, ground, 1, dt).bits < i64::MAX
        }),
    ensures
        crate::vehicle::laws::tires::is_fifth_of(
            impulse,
            side_velocity(wheel, chassis, ground, dt),
            side_resistance(wheel, chassis, ground),
        ),
        ({
            let share = wheel.side_friction(chassis, ground, count, dt).bits;
            let error = 2 * ((share * count) * ONE_BITS) - 2 * (impulse.bits
                * wheel.side_friction_stiffness.bits);
            let bound = (count + 1) * ONE_BITS;
            -bound <= error <= bound
        }),
{
    let contact = wheel.shape_cast_info.contact_point_ws;
    let side = wheel.side_direction();
    let moving = crate::vehicle::friction::is_moving_ground(ground);
    let bias = if moving {
        Real::zero()
    } else {
        wheel.drift_velocity(side, dt)
    };
    let impulse = if moving {
        crate::vehicle::contact::bilateral_impulse(chassis, contact, ground->0, contact, side, bias)
    } else {
        crate::vehicle::contact::unilateral_impulse(chassis, contact, side, bias)
    };
    let one = Wheel { side_friction_stiffness: Real::one(), ..wheel };
    assert(one.side_direction() == side);
    assert(one.drift_velocity(side, dt) == wheel.drift_velocity(side, dt));
    assert(Real::from_count(1) == Real::one());
    crate::scalar_lemmas::lemma_mul_one(impulse);
    lemma_div_one(impulse);
    assert(one.side_friction(chassis, ground, 1, dt) == impulse);
    let whole = impulse.mul(wheel.side_friction_stiffness);
    lemma_div_one(whole);
    assert(wheel.side_friction(chassis, ground, 1, dt) == whole);
    if moving {
        let b = ground->0;
        let relative = side.dot(
            chassis.velocity_at_point(contact).sub(b.velocity_at_point(contact)),
        );
        assert(relative.add(Real::zero()) == relative);
        crate::vehicle::laws::tires::bilateral_impulse_takes_a_fifth(
            chassis,
            contact,
            b,
            contact,
            side,
            bias,
        );
    } else {
        crate::vehicle::laws::tires::unilateral_impulse_takes_a_fifth(
            chassis,
            contact,
            side,
            bias,
        );
    }
    crate::scalar_lemmas::lemma_mul_within_half(impulse, wheel.side_friction_stiffness);
    crate::vehicle::laws::friction::side_friction_is_shared(wheel, chassis, ground, count, dt);
    impulse
}

proof fn lemma_div_one(a: Real)
    ensures
        a.div(Real::one()) == a,
{
    crate::scalar_lemmas::lemma_round_div_exact(a.bits as int, ONE_BITS as int);
}

/// What a wheel of a vehicle asks its tire for across: its side friction, shared
/// by the wheels that have ground under them.
pub proof fn wheels_share_side_friction(
    vehicle: DynamicShapeCastVehicleController,
    bodies: Seq<RigidBody>,
    colliders: Seq<Collider>,
    dt: Real,
    i: int,
)
    requires
        0 <= i < vehicle.wheels@.len(),
        vehicle.wheels@[i].shape_cast_info.ground_object is Some,
        wheels_on_the_ground(vehicle.wheels@) <= usize::MAX,
    ensures
        ({
            let wheel = vehicle.wheels@[i];
            let ground = body_under(wheel, bodies, colliders);
            vehicle.loaded_wheel(bodies, colliders, dt, i).side_impulse == wheel.latched(
                ground,
                vehicle.chassis_speed,
            ).side_friction(
                vehicle.chassis.of(bodies),
                ground,
                wheels_on_the_ground(vehicle.wheels@) as usize,
                dt,
            )
        }),
{
    let wheel = vehicle.wheels@[i];
    let ground = body_under(wheel, bodies, colliders);
    lemma_ground_count(vehicle.wheels@);
    crate::vehicle::laws::friction::lemma_loaded_wheel(vehicle, bodies, colliders, dt, i);
    lemma_asks_to_roll(
        wheel.latched(ground, vehicle.chassis_speed),
        wheel.forward_direction(),
        vehicle.chassis.of(bodies),
        ground,
        wheels_on_the_ground(vehicle.wheels@) as usize,
        vehicle.chassis_speed,
        dt,
    );
}

/// The load of a tire that is asked for the given impulses: half of the one it
/// rolls with, and the one across.
pub open spec fn load_of(forward: Real, side: Real) -> Vector {
    Vector { x: forward.mul(Real::ratio(1, 2)), y: side, z: Real::zero() }
}

/// Whether an impulse is what a tire grips of the one it is asked for: times the
/// length of its load, it is the asked one times the grip, up to rounding.
pub open spec fn is_gripped_part(applied: Real, asked: Real, grip: Real, load: int) -> bool {
    let size = crate::scalar::magnitude(asked.bits as int);
    let bound = (size + ONE_BITS) * load;
    -bound <= 2 * ((applied.bits * load) * 0x1_0000_0000) - 2 * ((asked.bits * grip.bits)
        * 0x1_0000_0000) <= bound
}

proof fn lemma_gripped_part(asked: Real, share: Real, grip: Real, load: int)
    requires
        0 <= share.bits <= ONE_BITS,
        load > 0,
        2 * (share.bits * load) <= 2 * (grip.bits * ONE_BITS) + load,
        2 * (share.bits * load) >= 2 * (grip.bits * ONE_BITS) - load,
        i64::MIN < asked.bits < i64::MAX,
    ensures
        is_gripped_part(asked.mul(share), asked, grip, load),
{
    crate::scalar_lemmas::lemma_mul_contracts(asked, share);
    crate::scalar_lemmas::lemma_mul_within_half(asked, share);
    let (f, k, g, p) = (
        asked.bits as int,
        share.bits as int,
        grip.bits as int,
        asked.mul(share).bits as int,
    );
    let e1 = 2 * (p * 0x1_0000_0000) - 2 * (f * k);
    let e2 = 2 * (k * load) - 2 * (g * 0x1_0000_0000);
    let m = crate::scalar::magnitude(f);
    crate::exact::lemma_product_bound(e1, load, 0x1_0000_0000, load);
    crate::exact::lemma_product_bound(f, e2, m, load);
    assert(e1 * load == 2 * ((p * load) * 0x1_0000_0000) - 2 * ((f * k) * load))
        by (nonlinear_arith)
        requires
            e1 == 2 * (p * 0x1_0000_0000) - 2 * (f * k),
    ;
    assert(f * e2 == 2 * ((f * k) * load) - 2 * ((f * g) * 0x1_0000_0000)) by (nonlinear_arith)
        requires
            e2 == 2 * (k * load) - 2 * (g * 0x1_0000_0000),
    ;
    assert((m + 0x1_0000_0000) * load == m * load + 0x1_0000_0000 * load) by (nonlinear_arith);
}

/// A tire applies what its wheel asks it for as long as it grips that, and else
/// the same share of both impulses, which brings their load down to its grip. A
/// tire that is asked for nothing across applies what it is asked for forward
/// all the same.
pub proof fn tire_applies_what_it_grips(
    vehicle: DynamicShapeCastVehicleController,
    bodies: Seq<RigidBody>,
    colliders: Seq<Collider>,
    dt: Real,
    i: int,
)
    requires
        0 <= i < vehicle.wheels@.len(),
        vehicle.wheels@[i].shape_cast_info.ground_object is Some,
        0 <= vehicle.wheels@[i].grip(dt).bits,
        ({
            let asked = vehicle.loaded_wheel(bodies, colliders, dt, i);
            &&& i64::MIN < asked.forward_impulse.bits < i64::MAX
            &&& i64::MIN < asked.side_impulse.bits < i64::MAX
        }),
    ensures
        ({
            let asked = vehicle.loaded_wheel(bodies, colliders, dt, i);
            let applied = vehicle.friction_outcome(bodies, colliders, dt).wheels[i];
            let grip = vehicle.wheels@[i].grip(dt);
            let load = load_of(asked.forward_impulse, asked.side_impulse);
            let (x, y, g) = (load.x.bits as int, load.y.bits as int, grip.bits as int);
            let length = load.norm().bits as int;
            &&& x * x + y * y <= g * g || asked.side_impulse.bits == 0 ==> {
                &&& applied.forward_impulse == asked.forward_impulse
                &&& applied.side_impulse == asked.side_impulse
            }
            &&& x * x + y * y > g * g && asked.side_impulse.bits != 0 ==> {
                &&& length > 0
                &&& is_gripped_part(applied.forward_impulse, asked.forward_impulse, grip, length)
                &&& is_gripped_part(applied.side_impulse, asked.side_impulse, grip, length)
            }
        }),
{
    let asked = vehicle.loaded_wheel(bodies, colliders, dt, i);
    let applied = vehicle.friction_outcome(bodies, colliders, dt).wheels[i];
    lemma_asked_wheel(vehicle, bodies, colliders, dt, i);
    lemma_applied_wheel(vehicle, bodies, colliders, dt, i);
    lemma_tire_grips(asked, applied, dt);
}

proof fn lemma_applied_wheel(
    vehicle: DynamicShapeCastVehicleController,
    bodies: Seq<RigidBody>,
    colliders: Seq<Collider>,
    dt: Real,
    i: int,
)
    requires
        0 <= i < vehicle.wheels@.len(),
        vehicle.wheels@[i].shape_cast_info.ground_object is Some,
    ensures
        ({
            let asked = vehicle.loaded_wheel(bodies, colliders, dt, i);
            let applied = vehicle.friction_outcome(bodies, colliders, dt).wheels[i];
            &&& applied == asked || applied == asked.skidded()
            &&& asked.slides(asked.forward_impulse, dt) ==> applied == asked.skidded()
        }),
{
    crate::vehicle::laws::friction::lemma_friction_of_wheel(vehicle, bodies, colliders, dt, i);
    let loaded = vehicle.loaded_wheels(bodies, colliders, dt);
    lemma_loaded_count(vehicle, bodies, colliders, dt);
    let asked = vehicle.loaded_wheel(bodies, colliders, dt, i);
    if asked.slides(asked.forward_impulse, dt) {
        assert(loaded[i].slides(loaded[i].forward_impulse, dt));
    }
}

proof fn lemma_loaded_count(
    vehicle: DynamicShapeCastVehicleController,
    bodies: Seq<RigidBody>,
    colliders: Seq<Collider>,
    dt: Real,
)
    ensures
        vehicle.loaded_wheels(bodies, colliders, dt).len() == vehicle.wheels@.len(),
{
}

proof fn lemma_tire_grips(asked: Wheel, applied: Wheel, dt: Real)
    requires
        asked.has_ground(),
        0 <= asked.grip(dt).bits,
        i64::MIN < asked.forward_impulse.bits < i64::MAX,
        i64::MIN < asked.side_impulse.bits < i64::MAX,
        asked.skid_info == (if asked.slides(asked.forward_impulse, dt) {
            asked.grip(dt).div(asked.tire_load(asked.forward_impulse).norm())
        } else {
            Real::one()
        }),
        applied == asked || applied == asked.skidded(),
        asked.slides(asked.forward_impulse, dt) ==> applied == asked.skidded(),
    ensures
        ({
            let grip = asked.grip(dt);
            let load = load_of(asked.forward_impulse, asked.side_impulse);
            let (x, y, g) = (load.x.bits as int, load.y.bits as int, grip.bits as int);
            let length = load.norm().bits as int;
            &&& x * x + y * y <= g * g || asked.side_impulse.bits == 0 ==> {
                &&& applied.forward_impulse == asked.forward_impulse
                &&& applied.side_impulse == asked.side_impulse
            }
            &&& x * x + y * y > g * g && asked.side_impulse.bits != 0 ==> {
                &&& length > 0
                &&& is_gripped_part(applied.forward_impulse, asked.forward_impulse, grip, length)
                &&& is_gripped_part(applied.side_impulse, asked.side_impulse, grip, length)
            }
        }),
{
    let grip = asked.grip(dt);
    let load = load_of(asked.forward_impulse, asked.side_impulse);
    assert(asked.tire_load(asked.forward_impulse) == load);
    if asked.slides(asked.forward_impulse, dt) {
        crate::vehicle::laws::friction::sliding_tire_lacks_grip(asked, asked.forward_impulse, dt);
        crate::vehicle::laws::friction::lemma_share_bounds(grip, load.norm());
        let length = load.norm().bits as int;
        lemma_gripped_part(asked.forward_impulse, asked.skid_info, grip, length);
        lemma_gripped_part(asked.side_impulse, asked.skid_info, grip, length);
        crate::scalar_lemmas::lemma_mul_one(asked.forward_impulse);
        crate::scalar_lemmas::lemma_mul_one(asked.side_impulse);
        if !asked.skid_info.lt(Real::one()) {
            assert(asked.skid_info == Real::one());
        }
    }
}

proof fn lemma_asked_wheel(
    vehicle: DynamicShapeCastVehicleController,
    bodies: Seq<RigidBody>,
    colliders: Seq<Collider>,
    dt: Real,
    i: int,
)
    requires
        0 <= i < vehicle.wheels@.len(),
        vehicle.wheels@[i].shape_cast_info.ground_object is Some,
    ensures
        ({
            let asked = vehicle.loaded_wheel(bodies, colliders, dt, i);
            &&& asked.grip(dt) == vehicle.wheels@[i].grip(dt)
            &&& asked.has_ground()
            &&& asked.skid_info == if asked.slides(asked.forward_impulse, dt) {
                asked.grip(dt).div(asked.tire_load(asked.forward_impulse).norm())
            } else {
                Real::one()
            }
        }),
{
    crate::vehicle::laws::friction::lemma_loaded_wheel(vehicle, bodies, colliders, dt, i);
}

/// A wheel without ground keeps the directions that it had, if any.
pub proof fn airborne_wheel_keeps_its_directions(
    vehicle: DynamicShapeCastVehicleController,
    bodies: Seq<RigidBody>,
    colliders: Seq<Collider>,
    dt: Real,
    i: int,
)
    requires
        0 <= i < vehicle.wheels@.len(),
        vehicle.wheels@[i].shape_cast_info.ground_object is None,
    ensures
        ({
            let outcome = vehicle.friction_outcome(bodies, colliders, dt);
            &&& outcome.forward_ws[i] == if i < vehicle.forward_ws@.len() {
                vehicle.forward_ws@[i]
            } else {
                Vector::zeros()
            }
            &&& outcome.axle[i] == if i < vehicle.axle@.len() {
                vehicle.axle@[i]
            } else {
                Vector::zeros()
            }
        }),
{
    let wheel = vehicle.wheels@[i];
    let latched = crate::vehicle::friction::latched_wheels(
        vehicle.wheels@,
        bodies,
        colliders,
        vehicle.chassis_speed,
    );
    assert(latched[i] == wheel.latched(
        crate::vehicle::friction::ground_body(
            wheel.shape_cast_info.ground_object,
            bodies,
            colliders,
        ),
        vehicle.chassis_speed,
    ));
    assert(!latched[i].has_ground());
}

} // verus!
