//! What a step of a vehicle promises.
use crate::bodies::{Collider, ColliderHandle, RigidBody};
use crate::math::{Isometry, Vector};
use crate::scalar::{Real, ONE_BITS};
use crate::vehicle::bump_stop::BottomedWheel;
use crate::vehicle::controller::DynamicShapeCastVehicleController;
use crate::vehicle::shape_cast::ShapeCastHit;
use crate::vehicle::update::{UpdateAction, UpdateEvent};
use crate::vehicle::wheel::Wheel;
use vstd::prelude::*;

verus! {

/// Whether two wheels are set up and controlled alike.
pub open spec fn same_setup(a: Wheel, b: Wheel) -> bool {
    &&& a.chassis_connection_point_cs == b.chassis_connection_point_cs
    &&& a.direction_cs == b.direction_cs
    &&& a.axle_cs == b.axle_cs
    &&& a.suspension_rest_length == b.suspension_rest_length
    &&& a.max_suspension_travel == b.max_suspension_travel
    &&& a.radius == b.radius
    &&& a.width == b.width
    &&& a.suspension_stiffness == b.suspension_stiffness
    &&& a.damping_compression == b.damping_compression
    &&& a.damping_relaxation == b.damping_relaxation
    &&& a.friction_slip == b.friction_slip
    &&& a.side_friction_stiffness == b.side_friction_stiffness
    &&& a.roll_influence == b.roll_influence
    &&& a.anti_squat == b.anti_squat
    &&& a.suspension_reject_angle == b.suspension_reject_angle
    &&& a.surface_reject_angle == b.surface_reject_angle
    &&& a.max_suspension_force == b.max_suspension_force
    &&& a.steering == b.steering
    &&& a.engine_force == b.engine_force
    &&& a.brake == b.brake
}

/// Whether two vehicles have the same wheels, set up and controlled alike.
pub open spec fn same_wheels(a: Seq<Wheel>, b: Seq<Wheel>) -> bool {
    &&& a.len() == b.len()
    &&& forall|i: int| 0 <= i < a.len() ==> same_setup(#[trigger] a[i], b[i])
}

/// The beginning of a step keeps the wheels as they are set up, and the
/// chassis.
pub proof fn beginning_keeps_setup(
    vehicle: DynamicShapeCastVehicleController,
    chassis: RigidBody,
    after: DynamicShapeCastVehicleController,
    chassis_after: RigidBody,
    action: UpdateAction,
)
    requires
        vehicle.begins(chassis, after, chassis_after, action),
    ensures
        same_wheels(after.wheels@, vehicle.wheels@),
        forall|i: int|
            0 <= i < after.wheels@.len() ==> !(
            #[trigger] after.wheels@[i]).shape_cast_info.is_in_contact,
        chassis_after == chassis,
{
}

/// The simulation of the suspensions keeps the wheels as they are set up.
pub proof fn suspension_keeps_setup(
    vehicle: DynamicShapeCastVehicleController,
    chassis: RigidBody,
    dt: Real,
    hits: Seq<Option<(ColliderHandle, ShapeCastHit)>>,
    after: DynamicShapeCastVehicleController,
    chassis_after: RigidBody,
    action: UpdateAction,
)
    requires
        vehicle.suspends(chassis, dt, hits, after, chassis_after, action),
    ensures
        same_wheels(after.wheels@, vehicle.wheels@),
{
}

/// The end of a step keeps the wheels as they are set up, and gives each its
/// directions.
pub proof fn finishing_keeps_setup(
    vehicle: DynamicShapeCastVehicleController,
    bodies: Seq<RigidBody>,
    colliders: Seq<Collider>,
    dt: Real,
    after: DynamicShapeCastVehicleController,
    chassis_after: RigidBody,
    action: UpdateAction,
)
    requires
        vehicle.finishes(bodies, colliders, dt, after, chassis_after, action),
    ensures
        same_wheels(after.wheels@, vehicle.wheels@),
        vehicle.wheels@.len() > 0 ==> {
            &&& after.forward_ws@.len() == after.wheels@.len()
            &&& after.axle@.len() == after.wheels@.len()
        },
{
    let lifted = vehicle.lifted_bodies(bodies);
    let outcome = vehicle.finish_outcome(bodies, colliders, dt);
    crate::vehicle::laws::friction::friction_changes_impulses_only(
        vehicle,
        lifted,
        colliders,
        dt,
    );
    assert forall|i: int| 0 <= i < after.wheels@.len() implies same_setup(
        #[trigger] after.wheels@[i],
        vehicle.wheels@[i],
    ) by {
        assert(crate::vehicle::friction::same_but_friction(outcome.wheels[i], vehicle.wheels@[i]));
    }
}

/// The force that a suspension pushes with is never larger than its maximum,
/// nor than the force computed for it.
pub proof fn suspension_force_is_capped(wheel: Wheel)
    ensures
        wheel.capped_suspension_force().le(wheel.max_suspension_force),
        wheel.capped_suspension_force().le(wheel.wheel_suspension_force),
{
}

/// The suspensions change nothing of the chassis but its velocities and its
/// sleep.
pub proof fn suspension_keeps_pose(chassis: RigidBody, wheels: Seq<Wheel>, dt: Real)
    ensures
        ({
            let after = crate::vehicle::update::sprung_chassis(chassis, wheels, dt);
            &&& after.same_but_velocities(RigidBody { sleeping: after.sleeping, ..chassis })
            &&& after.sleeping ==> chassis.sleeping
        }),
    decreases wheels.len(),
{
    if wheels.len() > 0 {
        suspension_keeps_pose(chassis, wheels.drop_last(), dt);
    }
}

/// A wheel in the air does not push the chassis through its suspension.
pub proof fn airborne_suspension_does_not_push(
    wheel: Wheel,
    dampers: Real,
    chassis_mass: Real,
    chassis: RigidBody,
    dt: Real,
)
    requires
        !wheel.shape_cast_info.is_in_contact,
        Real::zero().le(wheel.max_suspension_force),
        wheel.engine_force.le(Real::zero()),
    ensures
        wheel.suspended(dampers, chassis_mass, dt).springs(chassis, dt) == chassis,
{
    let normal = wheel.shape_cast_info.contact_normal_ws;
    let point = wheel.shape_cast_info.contact_point_ws;
    lemma_scale_zero(normal);
    crate::scalar_lemmas::lemma_mul_zero(dt);
    assert(normal.scale(Real::zero()).scale(dt) == Vector::zeros());
    lemma_no_impulse(chassis, point);
}

proof fn lemma_scale_zero(v: Vector)
    ensures
        v.scale(Real::zero()) == Vector::zeros(),
        v.cross(Vector::zeros()) == Vector::zeros(),
{
    crate::scalar_lemmas::lemma_mul_zero(v.x);
    crate::scalar_lemmas::lemma_mul_zero(v.y);
    crate::scalar_lemmas::lemma_mul_zero(v.z);
}

/// A null impulse does nothing.
pub proof fn lemma_no_impulse(body: RigidBody, point: Vector)
    ensures
        body.struck(Vector::zeros(), point) == body,
{
    lemma_scale_zero(point.sub(body.center_of_mass()));
    let m = body.effective_world_inv_inertia;
    crate::scalar_lemmas::lemma_mul_zero(body.effective_inv_mass.x);
    crate::scalar_lemmas::lemma_mul_zero(body.effective_inv_mass.y);
    crate::scalar_lemmas::lemma_mul_zero(body.effective_inv_mass.z);
    crate::scalar_lemmas::lemma_mul_zero(m.m11);
    crate::scalar_lemmas::lemma_mul_zero(m.m12);
    crate::scalar_lemmas::lemma_mul_zero(m.m13);
    crate::scalar_lemmas::lemma_mul_zero(m.m22);
    crate::scalar_lemmas::lemma_mul_zero(m.m23);
    crate::scalar_lemmas::lemma_mul_zero(m.m33);
    assert(m.transform(Vector::zeros()) == Vector::zeros());
    assert(body.pushed(Vector::zeros()) == body);
    assert(body.twisted(Vector::zeros()) == body);
}

/// The deepest overshoot is no smaller than that of any bottomed wheel, and
/// not negative.
pub proof fn deepest_overshoot_is_deepest(wheels: Seq<Wheel>)
    ensures
        Real::zero().le(crate::vehicle::update::deepest_overshoot(wheels).0),
        forall|i: int|
            0 <= i < wheels.len() && (#[trigger] wheels[i]).shape_cast_info.bottomed_out
                ==> wheels[i].shape_cast_info.bottom_out_overshoot.le(
                crate::vehicle::update::deepest_overshoot(wheels).0,
            ),
    decreases wheels.len(),
{
    if wheels.len() > 0 {
        let before = wheels.drop_last();
        deepest_overshoot_is_deepest(before);
        assert forall|i: int|
            0 <= i < wheels.len() && (
            #[trigger] wheels[i]).shape_cast_info.bottomed_out implies wheels[i].shape_cast_info.bottom_out_overshoot.le(
        crate::vehicle::update::deepest_overshoot(wheels).0) by {
            if i < before.len() {
                assert(before[i] == wheels[i]);
            }
        }
    }
}

/// A deepest overshoot that is not null is that of a bottomed wheel, with the
/// normal and the travel of that wheel.
pub proof fn deepest_overshoot_is_of_a_wheel(wheels: Seq<Wheel>) -> (i: int)
    requires
        Real::zero().lt(crate::vehicle::update::deepest_overshoot(wheels).0),
    ensures
        0 <= i < wheels.len(),
        wheels[i].shape_cast_info.bottomed_out,
        crate::vehicle::update::deepest_overshoot(wheels) == (
            wheels[i].shape_cast_info.bottom_out_overshoot,
            wheels[i].shape_cast_info.contact_normal_ws,
            wheels[i].max_suspension_travel,
        ),
    decreases wheels.len(),
{
    let before = wheels.drop_last();
    let info = wheels.last().shape_cast_info;
    if info.bottomed_out && crate::vehicle::update::deepest_overshoot(before).0.lt(
        info.bottom_out_overshoot,
    ) {
        wheels.len() - 1
    } else {
        deepest_overshoot_is_of_a_wheel(before)
    }
}

/// The correction of the chassis never exceeds the deepest overshoot nor the
/// travel of the wheel that has it, and is not negative.
pub proof fn correction_is_capped(wheels: Seq<Wheel>) -> (i: int)
    requires
        Real::zero().lt(crate::vehicle::update::deepest_overshoot(wheels).0),
    ensures
        0 <= i < wheels.len(),
        wheels[i].shape_cast_info.bottomed_out,
        forall|j: int|
            0 <= j < wheels.len() && (#[trigger] wheels[j]).shape_cast_info.bottomed_out
                ==> wheels[j].shape_cast_info.bottom_out_overshoot.le(
                wheels[i].shape_cast_info.bottom_out_overshoot,
            ),
        ({
            let applied = crate::vehicle::update::deepest_overshoot(wheels).0.min(
                crate::vehicle::update::correction_cap(wheels),
            );
            &&& Real::zero().le(applied)
            &&& applied.le(wheels[i].shape_cast_info.bottom_out_overshoot)
            &&& applied.le(wheels[i].max_suspension_travel.max(Real::zero()))
        }),
{
    deepest_overshoot_is_deepest(wheels);
    deepest_overshoot_is_of_a_wheel(wheels)
}

/// The correction moves the chassis without turning it, keeps its velocities,
/// and leaves a chassis without a bottomed wheel where it is.
pub proof fn correction_only_moves(chassis: RigidBody, wheels: Seq<Wheel>)
    ensures
        ({
            let after = crate::vehicle::update::lifted_chassis(chassis, wheels);
            &&& after == RigidBody {
                position: Isometry {
                    translation: after.position.translation,
                    rotation: chassis.position.rotation,
                },
                sleeping: after.sleeping,
                ..chassis
            }
            &&& (forall|i: int|
                0 <= i < wheels.len() ==> !(
                #[trigger] wheels[i]).shape_cast_info.bottomed_out) ==> after == chassis
        }),
{
    if Real::zero().lt(crate::vehicle::update::deepest_overshoot(wheels).0) {
        let i = deepest_overshoot_is_of_a_wheel(wheels);
        assert(wheels[i].shape_cast_info.bottomed_out);
    }
}

/// A wheel that spins free slows down, on the same side.
pub proof fn free_spin_decays(wheel: Wheel, chassis: RigidBody, forward_axis: usize, dt: Real)
    requires
        !wheel.shape_cast_info.is_in_contact,
    ensures
        ({
            let before = wheel.delta_rotation.bits;
            let after = wheel.turned(chassis, forward_axis, dt).delta_rotation.bits;
            &&& before >= 0 ==> 0 <= after <= before
            &&& before <= 0 ==> before <= after <= 0
        }),
{
    assert(0 <= Real::ratio(99, 100).bits <= ONE_BITS);
    crate::scalar_lemmas::lemma_mul_contracts(wheel.delta_rotation, Real::ratio(99, 100));
}

/// Whether two wheels are turned alike, and will turn alike in the air.
pub open spec fn same_spin(a: Wheel, b: Wheel) -> bool {
    a.rotation == b.rotation && a.delta_rotation == b.delta_rotation
}

/// Nothing turns the wheels but the end of a step.
pub proof fn only_the_end_of_a_step_turns_wheels(
    vehicle: DynamicShapeCastVehicleController,
    chassis: RigidBody,
    dt: Real,
    event: UpdateEvent,
    after: DynamicShapeCastVehicleController,
    chassis_after: RigidBody,
    action: UpdateAction,
    i: int,
)
    requires
        0 <= i < vehicle.wheels@.len(),
        match event {
            UpdateEvent::Begin => vehicle.begins(chassis, after, chassis_after, action),
            UpdateEvent::ShapesCast(hits) => vehicle.suspends(
                chassis,
                dt,
                hits@,
                after,
                chassis_after,
                action,
            ),
            UpdateEvent::Solved(candidates, solution) => vehicle.stops(
                chassis,
                candidates@,
                crate::vehicle::update::solution_view(solution),
                after,
                chassis_after,
                action,
            ),
            UpdateEvent::Finish => false,
        },
    ensures
        same_spin(after.wheels@[i], vehicle.wheels@[i]),
{
}

/// The end of a step turns each wheel by one angle, and keeps all but a
/// hundredth of it for the next one. In the air that angle is what the wheel
/// had kept.
pub proof fn end_of_a_step_turns_wheels(
    vehicle: DynamicShapeCastVehicleController,
    bodies: Seq<RigidBody>,
    colliders: Seq<Collider>,
    dt: Real,
    after: DynamicShapeCastVehicleController,
    chassis_after: RigidBody,
    action: UpdateAction,
    i: int,
) -> (turn: Real)
    requires
        vehicle.finishes(bodies, colliders, dt, after, chassis_after, action),
        0 <= i < vehicle.wheels@.len(),
    ensures
        after.wheels@[i].rotation == vehicle.wheels@[i].rotation.add(turn),
        after.wheels@[i].delta_rotation == turn.mul(Real::ratio(99, 100)),
        !vehicle.wheels@[i].shape_cast_info.is_in_contact ==> turn
            == vehicle.wheels@[i].delta_rotation,
{
    let outcome = vehicle.finish_outcome(bodies, colliders, dt);
    crate::vehicle::laws::friction::friction_changes_impulses_only(
        vehicle,
        vehicle.lifted_bodies(bodies),
        colliders,
        dt,
    );
    assert(crate::vehicle::friction::same_but_friction(outcome.wheels[i], vehicle.wheels@[i]));
    outcome.wheels[i].turn(outcome.chassis, vehicle.index_forward_axis, dt)
}

/// Of two steps the second of which ends with a wheel in the air, the second
/// turns the wheel by all but a hundredth of what the first turned it by.
/// Between the ends of both, nothing else turned it.
pub proof fn airborne_wheel_keeps_spinning(
    first: DynamicShapeCastVehicleController,
    first_bodies: Seq<RigidBody>,
    first_colliders: Seq<Collider>,
    first_dt: Real,
    first_after: DynamicShapeCastVehicleController,
    first_chassis: RigidBody,
    first_action: UpdateAction,
    second: DynamicShapeCastVehicleController,
    bodies: Seq<RigidBody>,
    colliders: Seq<Collider>,
    dt: Real,
    after: DynamicShapeCastVehicleController,
    chassis_after: RigidBody,
    action: UpdateAction,
    i: int,
) -> (turn: Real)
    requires
        first.finishes(
            first_bodies,
            first_colliders,
            first_dt,
            first_after,
            first_chassis,
            first_action,
        ),
        second.finishes(bodies, colliders, dt, after, chassis_after, action),
        0 <= i < first.wheels@.len(),
        0 <= i < second.wheels@.len(),
        same_spin(second.wheels@[i], first_after.wheels@[i]),
        !second.wheels@[i].shape_cast_info.is_in_contact,
    ensures
        first_after.wheels@[i].rotation == first.wheels@[i].rotation.add(turn),
        after.wheels@[i].rotation == first_after.wheels@[i].rotation.add(
            turn.mul(Real::ratio(99, 100)),
        ),
{
    let turn = end_of_a_step_turns_wheels(
        first,
        first_bodies,
        first_colliders,
        first_dt,
        first_after,
        first_chassis,
        first_action,
        i,
    );
    let next = end_of_a_step_turns_wheels(
        second,
        bodies,
        colliders,
        dt,
        after,
        chassis_after,
        action,
        i,
    );
    assert(next == turn.mul(Real::ratio(99, 100)));
    turn
}

/// From the beginning of a step on, a suspension points as the rotation of the
/// chassis turns it, wherever the chassis is and however the wheel is steered.
pub proof fn suspension_turns_with_the_chassis(
    vehicle: DynamicShapeCastVehicleController,
    chassis: RigidBody,
    after: DynamicShapeCastVehicleController,
    chassis_after: RigidBody,
    action: UpdateAction,
    i: int,
)
    requires
        vehicle.begins(chassis, after, chassis_after, action),
        0 <= i < vehicle.wheels@.len(),
    ensures
        after.wheels@[i].wheel_direction_ws == chassis.position.rotation.rotate(
            vehicle.wheels@[i].direction_cs,
        ),
{
}

/// Whether two wheels point alike.
pub open spec fn same_pose(a: Wheel, b: Wheel) -> bool {
    a.wheel_direction_ws == b.wheel_direction_ws && a.wheel_axle_ws == b.wheel_axle_ws
}

/// The casts and the bump stop leave the directions of the wheels, and the
/// rotation of the chassis, as they are.
pub proof fn suspension_keeps_directions(
    vehicle: DynamicShapeCastVehicleController,
    chassis: RigidBody,
    dt: Real,
    hits: Seq<Option<(ColliderHandle, ShapeCastHit)>>,
    after: DynamicShapeCastVehicleController,
    chassis_after: RigidBody,
    action: UpdateAction,
    i: int,
)
    requires
        vehicle.suspends(chassis, dt, hits, after, chassis_after, action),
        0 <= i < vehicle.wheels@.len(),
    ensures
        same_pose(after.wheels@[i], vehicle.wheels@[i]),
        chassis_after.position == chassis.position,
{
    suspension_keeps_pose(chassis, after.wheels@, dt);
}

/// The end of a step leaves the directions of the wheels, and the rotation of
/// the chassis, as they are.
pub proof fn finishing_keeps_directions(
    vehicle: DynamicShapeCastVehicleController,
    bodies: Seq<RigidBody>,
    colliders: Seq<Collider>,
    dt: Real,
    after: DynamicShapeCastVehicleController,
    chassis_after: RigidBody,
    action: UpdateAction,
    i: int,
)
    requires
        vehicle.finishes(bodies, colliders, dt, after, chassis_after, action),
        vehicle.chassis.is_in(bodies),
        0 <= i < vehicle.wheels@.len(),
    ensures
        same_pose(after.wheels@[i], vehicle.wheels@[i]),
        chassis_after.position.rotation == vehicle.chassis.of(bodies).position.rotation,
{
    let lifted = vehicle.lifted_bodies(bodies);
    let outcome = vehicle.finish_outcome(bodies, colliders, dt);
    crate::vehicle::laws::friction::friction_changes_impulses_only(vehicle, lifted, colliders, dt);
    assert(crate::vehicle::friction::same_but_friction(outcome.wheels[i], vehicle.wheels@[i]));
    crate::vehicle::laws::friction::friction_changes_velocities_only(
        vehicle,
        lifted,
        colliders,
        dt,
    );
    correction_only_moves(vehicle.chassis.of(bodies), vehicle.wheels@);
}

/// Whether every collider that a cast hit, and its body, are in the sets.
pub open spec fn hits_known(
    hits: Seq<Option<(ColliderHandle, ShapeCastHit)>>,
    bodies: Seq<RigidBody>,
    colliders: Seq<Collider>,
) -> bool {
    forall|i: int|
        0 <= i < hits.len() ==> ((#[trigger] hits[i]) matches Some((c, _))
            ==> crate::vehicle::friction::ground_is_known(Some(c), bodies, colliders))
}

/// A step whose casts hit known colliders, with brakes that do not push, can
/// be finished once its suspensions were simulated.
pub proof fn suspended_vehicle_can_finish(
    vehicle: DynamicShapeCastVehicleController,
    bodies: Seq<RigidBody>,
    colliders: Seq<Collider>,
    dt: Real,
    hits: Seq<Option<(ColliderHandle, ShapeCastHit)>>,
    after: DynamicShapeCastVehicleController,
    chassis_after: RigidBody,
    action: UpdateAction,
)
    requires
        vehicle.axes_ok(),
        vehicle.chassis.is_in(bodies),
        vehicle.hits_ok(hits, dt),
        hits_known(hits, bodies, colliders),
        forall|i: int|
            0 <= i < vehicle.wheels@.len() ==> Real::zero().le((#[trigger] vehicle.wheels@[i]).brake),
        vehicle.suspends(
            vehicle.chassis.of(bodies),
            dt,
            hits,
            after,
            chassis_after,
            action,
        ),
        after.chassis == vehicle.chassis,
        after.index_up_axis == vehicle.index_up_axis,
        after.index_forward_axis == vehicle.index_forward_axis,
    ensures
        after.can_finish(
            bodies.update(vehicle.chassis.index as int, chassis_after),
            colliders,
            dt,
        ),
{
    let new_bodies = bodies.update(vehicle.chassis.index as int, chassis_after);
    assert forall|i: int|
        0 <= i < after.wheels@.len() implies crate::vehicle::friction::ground_is_known(
        (#[trigger] after.wheels@[i]).shape_cast_info.ground_object,
        new_bodies,
        colliders,
    ) by {
        let hit = hits[i];
        assert(hit matches Some((c, _)) ==> crate::vehicle::friction::ground_is_known(
            Some(c),
            bodies,
            colliders,
        ));
    }
    assert forall|i: int|
        0 <= i < after.wheels@.len() && (#[trigger] after.wheels@[i]).has_ground()
            && after.wheels@[i].engine_force == Real::zero() implies Real::zero().le(
        after.wheels@[i].holding_impulse(after.chassis_speed, dt),
    ) by {
        assert(Real::zero().le(vehicle.wheels@[i].brake));
        crate::vehicle::laws::friction::braked_wheel_holds(
            after.wheels@[i],
            after.chassis_speed,
            dt,
        );
    }
}

/// A vehicle without wheels leaves its chassis as it is.
pub proof fn wheelless_vehicle_does_nothing(
    vehicle: DynamicShapeCastVehicleController,
    bodies: Seq<RigidBody>,
    colliders: Seq<Collider>,
    dt: Real,
)
    requires
        vehicle.wheels@.len() == 0,
    ensures
        crate::vehicle::update::sprung_chassis(vehicle.chassis.of(bodies), vehicle.wheels@, dt)
            == vehicle.chassis.of(bodies),
        crate::vehicle::bump_stop::wheels_to_stop(vehicle.wheels@, vehicle.chassis.of(bodies))
            == Seq::<BottomedWheel>::empty(),
        vehicle.chassis.is_in(bodies) ==> vehicle.finish_outcome(bodies, colliders, dt).chassis
            == vehicle.chassis.of(bodies),
{
}

} // verus!
