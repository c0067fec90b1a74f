//! What the suspensions do to the chassis.
use crate::bodies::{ColliderHandle, RigidBody};
use crate::math::{Point, Vector};
use crate::scalar::{Real, ONE_BITS};
use crate::vehicle::controller::DynamicShapeCastVehicleController;
use crate::vehicle::shape_cast::ShapeCastHit;
use crate::vehicle::update::UpdateAction;
use crate::vehicle::wheel::Wheel;
use vstd::prelude::*;

verus! {

/// The chassis after the first `n` impulses, each at its point.
pub open spec fn struck_in_turn(
    chassis: RigidBody,
    impulses: Seq<Vector>,
    points: Seq<Point>,
    n: nat,
) -> RigidBody
    decreases n,
{
    if n == 0 {
        chassis
    } else {
        struck_in_turn(chassis, impulses, points, (n - 1) as nat).struck(
            impulses[n - 1],
            points[n - 1],
        )
    }
}

/// The smaller of the force of a suspension and of the largest that it bears,
/// in units.
pub open spec fn borne_force(wheel: Wheel) -> int {
    if wheel.max_suspension_force.bits < wheel.wheel_suspension_force.bits {
        wheel.max_suspension_force.bits as int
    } else {
        wheel.wheel_suspension_force.bits as int
    }
}

/// Whether the push of a suspension over a step is in range.
pub open spec fn pushes_in_range(wheel: Wheel, dt: Real) -> bool {
    let (force, size) = (
        crate::scalar::magnitude(borne_force(wheel)),
        crate::scalar::magnitude(dt.bits as int),
    );
    &&& wheel.shape_cast_info.contact_normal_ws.exact().within(ONE_BITS as int)
    &&& force <= 0x1000_0000_0000_0000
    &&& 2 * (force * size) <= crate::exact::product_limit()
    &&& 2 * size <= 0x1000_0000_0000_0000
}

/// Whether an impulse is that of a suspension over a step: the contact normal
/// times the force that it bears and the length of the step, up to rounding.
pub open spec fn is_push_of(impulse: Vector, wheel: Wheel, dt: Real) -> bool {
    let normal = wheel.shape_cast_info.contact_normal_ws.exact();
    let exact = normal.times(borne_force(wheel)).times(dt.bits as int);
    impulse.exact().times(0x1_0000_0000_0000_0000).minus(exact).within(
        (crate::scalar::magnitude(dt.bits as int) + ONE_BITS) * ONE_BITS,
    )
}

proof fn lemma_push_term(n: Real, force: Real, dt: Real)
    requires
        -0x1_0000_0000 <= n.bits <= 0x1_0000_0000,
        ({
            let (f, size) = (
                crate::scalar::magnitude(force.bits as int),
                crate::scalar::magnitude(dt.bits as int),
            );
            &&& f <= 0x1000_0000_0000_0000
            &&& 2 * (f * size) <= crate::exact::product_limit()
            &&& 2 * size <= 0x1000_0000_0000_0000
        }),
    ensures
        ({
            let error = n.mul(force).mul(dt).bits * 0x1_0000_0000_0000_0000 - (n.bits
                * force.bits) * dt.bits;
            let bound = (crate::scalar::magnitude(dt.bits as int) + 0x1_0000_0000) * 0x1_0000_0000;
            -bound <= error <= bound
        }),
{
    let (x, f, t) = (n.bits as int, force.bits as int, dt.bits as int);
    let (b, size) = (crate::scalar::magnitude(f), crate::scalar::magnitude(t));
    crate::exact::lemma_bounded_mul_near(n, force, 0x1_0000_0000, b);
    crate::exact::lemma_product_bound(x, f, 0x1_0000_0000, b);
    let first = n.mul(force);
    let p = first.bits as int;
    assert(-(b + 1) <= p <= b + 1);
    assert((b + 1) * size == b * size + size) by (nonlinear_arith);
    crate::exact::lemma_bounded_mul_near(first, dt, b + 1, size);
    let e = p * 0x1_0000_0000 - x * f;
    crate::exact::lemma_product_bound(e, t, 0x1_0000_0000, size);
    assert(e * t == (p * t) * 0x1_0000_0000 - (x * f) * t) by (nonlinear_arith)
        requires
            e == p * 0x1_0000_0000 - x * f,
    ;
}

/// The push of one suspension.
proof fn lemma_suspension_push(wheel: Wheel, chassis: RigidBody, dt: Real) -> (impulse: Vector)
    requires
        pushes_in_range(wheel, dt),
    ensures
        is_push_of(impulse, wheel, dt),
        ({
            let after = wheel.springs(chassis, dt);
            let struck = chassis.struck(impulse, wheel.shape_cast_info.contact_point_ws);
            &&& after == RigidBody { sleeping: after.sleeping, ..struck }
            &&& after.sleeping <==> chassis.sleeping && wheel.engine_force.bits <= 0
        }),
{
    let normal = wheel.shape_cast_info.contact_normal_ws;
    let force = wheel.capped_suspension_force();
    assert(force.bits == borne_force(wheel));
    lemma_push_term(normal.x, force, dt);
    lemma_push_term(normal.y, force, dt);
    lemma_push_term(normal.z, force, dt);
    normal.scale(force).scale(dt)
}

/// Where the wheels touch.
pub open spec fn contact_points(wheels: Seq<Wheel>) -> Seq<Point> {
    Seq::new(wheels.len(), |i: int| wheels[i].shape_cast_info.contact_point_ws)
}

/// Whether the impulses are those of the suspensions over a step.
pub open spec fn are_pushes_of(impulses: Seq<Vector>, wheels: Seq<Wheel>, dt: Real) -> bool {
    &&& impulses.len() == wheels.len()
    &&& forall|i: int|
        0 <= i < wheels.len() ==> is_push_of(#[trigger] impulses[i], wheels[i], dt)
}

/// The suspensions push the chassis at their contacts along the contact
/// normals, each with the force that it bears over the step, one after the
/// other, and change nothing else but its sleep.
pub proof fn suspensions_push_at_their_contacts(
    chassis: RigidBody,
    wheels: Seq<Wheel>,
    dt: Real,
) -> (impulses: Seq<Vector>)
    requires
        forall|i: int| 0 <= i < wheels.len() ==> pushes_in_range(#[trigger] wheels[i], dt),
    ensures
        are_pushes_of(impulses, wheels, dt),
        ({
            let after = crate::vehicle::update::sprung_chassis(chassis, wheels, dt);
            let struck = struck_in_turn(chassis, impulses, contact_points(wheels), wheels.len());
            after == RigidBody { sleeping: after.sleeping, ..struck }
        }),
    decreases wheels.len(),
{
    if wheels.len() == 0 {
        Seq::empty()
    } else {
        let before = wheels.drop_last();
        assert forall|i: int| 0 <= i < before.len() implies pushes_in_range(
            #[trigger] before[i],
            dt,
        ) by {
            assert(before[i] == wheels[i]);
        }
        let earlier = suspensions_push_at_their_contacts(chassis, before, dt);
        let sprung = crate::vehicle::update::sprung_chassis(chassis, before, dt);
        let last_wheel = wheels[wheels.len() - 1];
        assert(pushes_in_range(last_wheel, dt));
        let last = lemma_suspension_push(last_wheel, sprung, dt);
        let impulses = earlier.push(last);
        lemma_one_more_push(chassis, wheels, earlier, last, sprung);
        lemma_pushes_of_more(earlier, last, wheels, dt);
        impulses
    }
}

proof fn lemma_pushes_of_more(earlier: Seq<Vector>, last: Vector, wheels: Seq<Wheel>, dt: Real)
    requires
        wheels.len() > 0,
        are_pushes_of(earlier, wheels.drop_last(), dt),
        is_push_of(last, wheels[wheels.len() - 1], dt),
    ensures
        are_pushes_of(earlier.push(last), wheels, dt),
{
    let impulses = earlier.push(last);
    let before = wheels.drop_last();
    assert forall|i: int| 0 <= i < wheels.len() implies is_push_of(
        #[trigger] impulses[i],
        wheels[i],
        dt,
    ) by {
        if i < before.len() {
            assert(is_push_of(earlier[i], before[i], dt));
        }
    }
}

proof fn lemma_one_more_push(
    chassis: RigidBody,
    wheels: Seq<Wheel>,
    earlier: Seq<Vector>,
    last: Vector,
    sprung: RigidBody,
)
    requires
        wheels.len() > 0,
        earlier.len() == wheels.len() - 1,
        sprung == (RigidBody {
            sleeping: sprung.sleeping,
            ..struck_in_turn(
                chassis,
                earlier,
                contact_points(wheels.drop_last()),
                (wheels.len() - 1) as nat,
            )
        }),
    ensures
        ({
            let point = wheels[wheels.len() - 1].shape_cast_info.contact_point_ws;
            let struck = struck_in_turn(
                chassis,
                earlier.push(last),
                contact_points(wheels),
                wheels.len(),
            );
            sprung.struck(last, point) == RigidBody { sleeping: sprung.sleeping, ..struck }
        }),
{
    let n = wheels.len();
    let (impulses, points) = (earlier.push(last), contact_points(wheels));
    let points_before = contact_points(wheels.drop_last());
    assert forall|i: int| 0 <= i < n - 1 implies #[trigger] points_before[i] == points[i] by {
        assert(wheels.drop_last()[i] == wheels[i]);
    }
    lemma_struck_prefix(chassis, earlier, points_before, impulses, points, (n - 1) as nat);
    let struck = struck_in_turn(chassis, impulses, points, (n - 1) as nat);
    lemma_sleep_does_not_matter(sprung, struck, last, points[n - 1]);
}

/// A chassis that is pushed by its suspensions sleeps on exactly when no wheel
/// is driven forward.
pub proof fn driven_wheels_wake_the_chassis(chassis: RigidBody, wheels: Seq<Wheel>, dt: Real)
    ensures
        crate::vehicle::update::sprung_chassis(chassis, wheels, dt).sleeping <==> chassis.sleeping
            && forall|i: int|
            0 <= i < wheels.len() ==> (#[trigger] wheels[i]).engine_force.bits <= 0,
    decreases wheels.len(),
{
    if wheels.len() > 0 {
        let before = wheels.drop_last();
        let last = wheels.len() - 1;
        driven_wheels_wake_the_chassis(chassis, before, dt);
        let sprung = crate::vehicle::update::sprung_chassis(chassis, before, dt);
        let after = crate::vehicle::update::sprung_chassis(chassis, wheels, dt);
        assert(after.sleeping <==> sprung.sleeping && wheels[last].engine_force.bits <= 0);
        if forall|i: int| 0 <= i < before.len() ==> (#[trigger] before[i]).engine_force.bits <= 0 {
            assert forall|i: int|
                0 <= i < wheels.len() && wheels[last].engine_force.bits <= 0 implies (
            #[trigger] wheels[i]).engine_force.bits <= 0 by {
                if i < last {
                    assert(before[i] == wheels[i]);
                }
            }
        } else {
            let i = choose|i: int|
                0 <= i < before.len() && (#[trigger] before[i]).engine_force.bits > 0;
            assert(wheels[i].engine_force.bits > 0);
        }
    }
}

proof fn lemma_sleep_does_not_matter(a: RigidBody, b: RigidBody, impulse: Vector, point: Point)
    requires
        a == (RigidBody { sleeping: a.sleeping, ..b }),
    ensures
        a.struck(impulse, point) == (RigidBody {
            sleeping: a.sleeping,
            ..b.struck(impulse, point)
        }),
{
}

/// The first impulses do not depend on those after them.
pub proof fn lemma_struck_prefix(
    chassis: RigidBody,
    impulses: Seq<Vector>,
    points: Seq<Point>,
    more_impulses: Seq<Vector>,
    more_points: Seq<Point>,
    n: nat,
)
    requires
        forall|i: int| 0 <= i < n ==> #[trigger] impulses[i] == more_impulses[i],
        forall|i: int| 0 <= i < n ==> #[trigger] points[i] == more_points[i],
    ensures
        struck_in_turn(chassis, impulses, points, n) == struck_in_turn(
            chassis,
            more_impulses,
            more_points,
            n,
        ),
    decreases n,
{
    if n > 0 {
        lemma_struck_prefix(
            chassis,
            impulses,
            points,
            more_impulses,
            more_points,
            (n - 1) as nat,
        );
        assert(impulses[n - 1] == more_impulses[n - 1]);
        assert(points[n - 1] == more_points[n - 1]);
    }
}

/// The chassis is lifted along the contact normal of a bottomed wheel that
/// overshoots the most, by its overshoot, or by its travel where that is
/// smaller, up to rounding. Without a bottomed wheel that overshoots it stays.
pub proof fn chassis_is_lifted_out_of_its_overshoot(chassis: RigidBody, wheels: Seq<Wheel>) -> (i:
    int)
    requires
        exists|k: int|
            0 <= k < wheels.len() && (#[trigger] wheels[k]).shape_cast_info.bottomed_out
                && wheels[k].shape_cast_info.bottom_out_overshoot.bits > 0,
        chassis.position.translation.exact().within(0x2000_0000_0000_0000),
        forall|k: int|
            0 <= k < wheels.len() ==> (
            #[trigger] wheels[k]).shape_cast_info.contact_normal_ws.exact().within(
                ONE_BITS as int,
            ) && wheels[k].shape_cast_info.bottom_out_overshoot.bits <= 0x1000_0000_0000_0000,
    ensures
        0 <= i < wheels.len(),
        wheels[i].shape_cast_info.bottomed_out,
        forall|k: int|
            0 <= k < wheels.len() && (#[trigger] wheels[k]).shape_cast_info.bottomed_out
                ==> wheels[k].shape_cast_info.bottom_out_overshoot.bits
                <= wheels[i].shape_cast_info.bottom_out_overshoot.bits,
        ({
            let after = crate::vehicle::update::lifted_chassis(chassis, wheels);
            let overshoot = wheels[i].shape_cast_info.bottom_out_overshoot.bits as int;
            let travel = wheels[i].max_suspension_travel.bits as int;
            let lift = if travel < 0 {
                0
            } else if travel < overshoot {
                travel
            } else {
                overshoot
            };
            let way = after.position.translation.exact().minus(
                chassis.position.translation.exact(),
            );
            &&& way.times(0x1_0000_0000).minus(
                wheels[i].shape_cast_info.contact_normal_ws.exact().times(lift),
            ).within(0x1_0000_0000)
            &&& after.position.rotation == chassis.position.rotation
            &&& after.linvel == chassis.linvel
            &&& after.angvel == chassis.angvel
        }),
{
    crate::vehicle::laws::update::deepest_overshoot_is_deepest(wheels);
    let k = choose|k: int|
        0 <= k < wheels.len() && (#[trigger] wheels[k]).shape_cast_info.bottomed_out
            && wheels[k].shape_cast_info.bottom_out_overshoot.bits > 0;
    let i = crate::vehicle::laws::update::deepest_overshoot_is_of_a_wheel(wheels);
    let (depth, normal, travel) = crate::vehicle::update::deepest_overshoot(wheels);
    let lift = depth.min(crate::vehicle::update::correction_cap(wheels));
    assert(wheels[i].shape_cast_info.contact_normal_ws.exact().within(ONE_BITS as int));
    crate::exact::lemma_scale_near(normal, lift, 0x1_0000_0000, 0x1000_0000_0000_0000);
    crate::exact::lemma_product_bound(
        normal.x.bits as int,
        lift.bits as int,
        0x1_0000_0000,
        0x1000_0000_0000_0000,
    );
    crate::exact::lemma_product_bound(
        normal.y.bits as int,
        lift.bits as int,
        0x1_0000_0000,
        0x1000_0000_0000_0000,
    );
    crate::exact::lemma_product_bound(
        normal.z.bits as int,
        lift.bits as int,
        0x1_0000_0000,
        0x1000_0000_0000_0000,
    );
    let shift = normal.scale(lift);
    assert(shift.exact().within(0x1000_0000_0000_0001));
    let after = crate::vehicle::update::lifted_chassis(chassis, wheels);
    assert(after.position.translation.exact() == chassis.position.translation.exact().plus(
        shift.exact(),
    ));
    i
}

/// Once the casts of a step are in, every wheel has the force that a spring and
/// a damper give the chassis by its mass, for the length, the slope and the
/// velocity that the wheel then has, and for the wheels that are then in
/// contact.
pub proof fn step_springs_the_chassis_by_its_mass(
    vehicle: DynamicShapeCastVehicleController,
    chassis: RigidBody,
    dt: Real,
    hits: Seq<Option<(ColliderHandle, ShapeCastHit)>>,
    after: DynamicShapeCastVehicleController,
    chassis_after: RigidBody,
    action: UpdateAction,
    i: int,
) -> (r: (int, int))
    requires
        vehicle.suspends(chassis, dt, hits, after, chassis_after, action),
        0 <= i < after.wheels@.len(),
        after.wheels@[i].shape_cast_info.is_in_contact
            ==> crate::vehicle::laws::suspension::is_sprung_in_range(
            after.wheels@[i],
            crate::vehicle::laws::suspension::wheels_in_contact(after.wheels@),
            dt,
        ),
        after.wheels@[i].wheel_suspension_force.bits < i64::MAX,
    ensures
        ({
            let wheel = after.wheels@[i];
            let contacts = crate::vehicle::laws::suspension::wheels_in_contact(after.wheels@);
            let force = wheel.wheel_suspension_force.bits;
            let (push, pull) = r;
            let pushed = (push - pull) * chassis.mass.bits;
            &&& !wheel.shape_cast_info.is_in_contact ==> force == 0
            &&& wheel.shape_cast_info.is_in_contact ==> {
                &&& crate::vehicle::laws::suspension::is_spring_of(push, wheel)
                &&& crate::vehicle::laws::suspension::is_damper_of(pull, wheel, contacts, dt)
                &&& pushed <= 0 ==> force == 0
                &&& pushed >= 0 ==> -ONE_BITS <= force * ONE_BITS - pushed <= ONE_BITS
            }
        }),
{
    let cast = crate::vehicle::update::cast_wheels(
        vehicle.wheels@,
        hits,
        vehicle.world_up(),
        chassis,
        dt,
    );
    assert(cast.len() == after.wheels@.len());
    assert forall|k: int| 0 <= k < cast.len() implies (
    #[trigger] cast[k]).shape_cast_info.is_in_contact
        == after.wheels@[k].shape_cast_info.is_in_contact by {}
    lemma_same_contacts(cast, after.wheels@);
    crate::vehicle::laws::suspension::suspension_is_a_spring_and_a_damper(
        cast,
        chassis.mass,
        dt,
        i,
    )
}

proof fn lemma_same_contacts(a: Seq<Wheel>, b: Seq<Wheel>)
    requires
        a.len() == b.len(),
        forall|k: int|
            0 <= k < a.len() ==> (#[trigger] a[k]).shape_cast_info.is_in_contact
                == b[k].shape_cast_info.is_in_contact,
    ensures
        a.filter(|w: Wheel| w.shape_cast_info.is_in_contact).len() == b.filter(
            |w: Wheel| w.shape_cast_info.is_in_contact,
        ).len(),
    decreases a.len(),
{
    reveal(Seq::filter);
    if a.len() > 0 {
        assert(a[a.len() - 1].shape_cast_info.is_in_contact
            == b[b.len() - 1].shape_cast_info.is_in_contact);
        assert forall|k: int| 0 <= k < a.drop_last().len() implies (
        #[trigger] a.drop_last()[k]).shape_cast_info.is_in_contact
            == b.drop_last()[k].shape_cast_info.is_in_contact by {
            assert(a[k].shape_cast_info.is_in_contact == b[k].shape_cast_info.is_in_contact);
        }
        lemma_same_contacts(a.drop_last(), b.drop_last());
    }
}

/// Once the casts of a step are in, the suspension of every wheel in contact
/// moves with the chassis at its contact, as the chassis was before its
/// suspensions pushed it; and a wheel is in contact exactly when its own cast
/// hit what it can stand on.
pub proof fn step_reads_velocities_at_the_contacts(
    vehicle: DynamicShapeCastVehicleController,
    chassis: RigidBody,
    dt: Real,
    hits: Seq<Option<(ColliderHandle, ShapeCastHit)>>,
    after: DynamicShapeCastVehicleController,
    chassis_after: RigidBody,
    action: UpdateAction,
    i: int,
    w: int,
    r: int,
)
    requires
        vehicle.suspends(chassis, dt, hits, after, chassis_after, action),
        0 <= i < vehicle.wheels@.len(),
        !vehicle.wheels@[i].shape_cast_info.is_in_contact,
        hits[i] matches Some((_, hit)) && crate::vehicle::laws::shape_cast::hits_in_range(
            vehicle.wheels@[i],
            hit,
            chassis,
            w,
            r,
        ),
    ensures
        ({
            let wheel = after.wheels@[i];
            let info = wheel.shape_cast_info;
            let slope = info.contact_normal_ws.dot(wheel.wheel_direction_ws).bits as int;
            let velocity = info.contact_normal_ws.exact().dot(
                crate::body_laws::exact_velocity(chassis, info.contact_point_ws),
            );
            let size = crate::scalar::magnitude(slope);
            let along = crate::scalar::magnitude(
                info.contact_normal_ws.dot(chassis.velocity_at_point(info.contact_point_ws)).bits
                    as int,
            );
            let bound = 9 * (ONE_BITS * ONE_BITS) + size * (along + ONE_BITS);
            info.is_in_contact ==> {
                &&& info.ground_object == Some(hits[i].unwrap().0)
                &&& info.contact_point_ws == hits[i].unwrap().1.witness1
                &&& 10 * slope < -ONE_BITS - 10 ==> -bound <= (
                wheel.suspension_relative_velocity.bits * slope) * 0x1_0000_0000 + velocity
                    <= bound
            }
        }),
{
    let wheel = vehicle.wheels@[i];
    let (collider, hit) = hits[i].unwrap();
    crate::vehicle::laws::shape_cast::suspension_moves_with_its_contact(
        wheel,
        collider,
        hit,
        chassis,
        w,
        r,
    );
    crate::vehicle::laws::shape_cast::wheel_stands_within_its_angles(
        wheel,
        hits[i],
        vehicle.world_up(),
        chassis,
        dt,
    );
    let cast = DynamicShapeCastVehicleController::wheel_after_cast(
        wheel,
        hits[i],
        vehicle.world_up(),
        chassis,
        dt,
    );
    assert(after.wheels@[i] == (Wheel {
        wheel_suspension_force: after.wheels@[i].wheel_suspension_force,
        ..cast
    }));
    if after.wheels@[i].shape_cast_info.is_in_contact {
        assert(cast == wheel.grounded(collider, hit, chassis));
    }
}

} // verus!
