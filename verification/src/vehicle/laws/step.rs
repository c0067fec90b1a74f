//! What whole steps of a vehicle promise, from their first event to their last.
use crate::bodies::{Collider, ColliderHandle, RigidBody};
use crate::math::{Point, Vector};
use crate::scalar::Real;
use crate::vehicle::controller::DynamicShapeCastVehicleController;
use crate::vehicle::shape_cast::ShapeCastHit;
use crate::vehicle::update::{UpdateAction, UpdateEvent};
use crate::vehicle::wheel::Wheel;
use vstd::prelude::*;

verus! {

/// The events of a step, with what the vehicle asks for after each, and with
/// the vehicle and the bodies before each and after the last.
pub struct Step {
    pub dt: Real,
    pub colliders: Seq<Collider>,
    pub events: Seq<UpdateEvent>,
    pub actions: Seq<UpdateAction>,
    pub vehicles: Seq<DynamicShapeCastVehicleController>,
    pub bodies: Seq<Seq<RigidBody>>,
}

/// Whether the event is what comes of the action.
pub open spec fn answers(event: UpdateEvent, action: UpdateAction) -> bool {
    match action {
        UpdateAction::CastShapes(_) => event is ShapesCast,
        UpdateAction::Solve(wheels, _) => event matches UpdateEvent::Solved(candidates, _)
            && candidates@ == wheels@,
        UpdateAction::Finish => event is Finish,
        UpdateAction::Done => false,
    }
}

impl Step {
    /// Whether the event of the given index led to what follows it.
    #[verifier::opaque]
    pub open spec fn advances(self, k: int) -> bool {
        self.vehicles[k].updates(
            self.dt,
            self.bodies[k],
            self.colliders,
            self.events[k],
            self.vehicles[k + 1],
            self.bodies[k + 1],
            self.actions[k],
        )
    }

    /// Whether the vehicle was updated from the beginning of the step on, with
    /// what it asked for, until nothing was left to be done.
    pub open spec fn is_whole(self) -> bool {
        &&& self.events.len() > 0
        &&& self.actions.len() == self.events.len()
        &&& self.vehicles.len() == self.events.len() + 1
        &&& self.bodies.len() == self.events.len() + 1
        &&& self.vehicles[0].chassis.is_in(self.bodies[0])
        &&& self.events[0] is Begin
        &&& self.actions.last() is Done
        &&& forall|k: int| 0 <= k < self.events.len() ==> #[trigger] self.advances(k)
        &&& forall|k: int|
            0 < k < self.events.len() ==> answers(#[trigger] self.events[k], self.actions[k - 1])
    }

    /// The vehicle before the step.
    pub open spec fn before(self) -> DynamicShapeCastVehicleController {
        self.vehicles[0]
    }

    /// The vehicle after the step.
    pub open spec fn after(self) -> DynamicShapeCastVehicleController {
        self.vehicles.last()
    }

    /// The chassis before the step.
    pub open spec fn chassis_before(self) -> RigidBody {
        self.before().chassis.of(self.bodies[0])
    }

    /// The chassis after the step.
    pub open spec fn chassis_after(self) -> RigidBody {
        self.before().chassis.of(self.bodies.last())
    }
}

/// No event of a step adds, removes, reorders or sets up a wheel.
pub proof fn update_keeps_wheels(
    vehicle: DynamicShapeCastVehicleController,
    dt: Real,
    bodies: Seq<RigidBody>,
    colliders: Seq<Collider>,
    event: UpdateEvent,
    after: DynamicShapeCastVehicleController,
    bodies_after: Seq<RigidBody>,
    action: UpdateAction,
)
    requires
        vehicle.updates(dt, bodies, colliders, event, after, bodies_after, action),
    ensures
        crate::vehicle::laws::update::same_wheels(after.wheels@, vehicle.wheels@),
        after.chassis == vehicle.chassis,
        after.index_up_axis == vehicle.index_up_axis,
        after.index_forward_axis == vehicle.index_forward_axis,
{
    let chassis = vehicle.chassis.of(bodies);
    let chassis_after = vehicle.chassis.of(bodies_after);
    match event {
        UpdateEvent::Begin => crate::vehicle::laws::update::beginning_keeps_setup(
            vehicle,
            chassis,
            after,
            chassis_after,
            action,
        ),
        UpdateEvent::ShapesCast(hits) => crate::vehicle::laws::update::suspension_keeps_setup(
            vehicle,
            chassis,
            dt,
            hits@,
            after,
            chassis_after,
            action,
        ),
        UpdateEvent::Solved(_, _) => {},
        UpdateEvent::Finish => crate::vehicle::laws::update::finishing_keeps_setup(
            vehicle,
            bodies,
            colliders,
            dt,
            after,
            chassis_after,
            action,
        ),
    }
}

proof fn lemma_same_wheels_chain(a: Seq<Wheel>, b: Seq<Wheel>, c: Seq<Wheel>)
    requires
        crate::vehicle::laws::update::same_wheels(a, b),
        crate::vehicle::laws::update::same_wheels(b, c),
    ensures
        crate::vehicle::laws::update::same_wheels(a, c),
{
    assert forall|i: int| 0 <= i < a.len() implies crate::vehicle::laws::update::same_setup(
        #[trigger] a[i],
        c[i],
    ) by {
        assert(crate::vehicle::laws::update::same_setup(b[i], c[i]));
    }
}

#[verifier::spinoff_prover]
proof fn lemma_event_keeps_wheels(step: Step, k: int)
    requires
        step.advances(k),
        step.vehicles[k].chassis.is_in(step.bodies[k]),
    ensures
        crate::vehicle::laws::update::same_wheels(
            step.vehicles[k + 1].wheels@,
            step.vehicles[k].wheels@,
        ),
        step.vehicles[k + 1].chassis == step.vehicles[k].chassis,
        step.vehicles[k + 1].index_up_axis == step.vehicles[k].index_up_axis,
        step.vehicles[k + 1].index_forward_axis == step.vehicles[k].index_forward_axis,
        step.bodies[k + 1].len() == step.bodies[k].len(),
{
    reveal(Step::advances);
    update_keeps_wheels(
        step.vehicles[k],
        step.dt,
        step.bodies[k],
        step.colliders,
        step.events[k],
        step.vehicles[k + 1],
        step.bodies[k + 1],
        step.actions[k],
    );
}

proof fn lemma_prefix_keeps_wheels(step: Step, k: int)
    requires
        step.is_whole(),
        0 <= k <= step.events.len(),
    ensures
        crate::vehicle::laws::update::same_wheels(
            step.vehicles[k].wheels@,
            step.before().wheels@,
        ),
        step.vehicles[k].chassis == step.before().chassis,
        step.vehicles[k].index_up_axis == step.before().index_up_axis,
        step.vehicles[k].index_forward_axis == step.before().index_forward_axis,
        step.bodies[k].len() == step.bodies[0].len(),
    decreases k,
{
    if k > 0 {
        lemma_prefix_keeps_wheels(step, k - 1);
        assert(step.advances(k - 1));
        lemma_event_keeps_wheels(step, k - 1);
        lemma_same_wheels_chain(
            step.vehicles[k].wheels@,
            step.vehicles[k - 1].wheels@,
            step.before().wheels@,
        );
    }
}

/// A whole step keeps the number, the order and the setup of the wheels.
pub proof fn step_keeps_wheels(step: Step)
    requires
        step.is_whole(),
    ensures
        crate::vehicle::laws::update::same_wheels(step.after().wheels@, step.before().wheels@),
        step.after().chassis == step.before().chassis,
        step.after().index_up_axis == step.before().index_up_axis,
        step.after().index_forward_axis == step.before().index_forward_axis,
{
    lemma_prefix_keeps_wheels(step, step.events.len() as int);
}

/// The first event of a whole step begins it, the last one finishes it, and
/// those between do neither.
proof fn lemma_order_of_events(step: Step, k: int)
    requires
        step.is_whole(),
        0 <= k < step.events.len(),
    ensures
        (step.events[k] is Begin) == (k == 0),
        (step.events[k] is Finish) == (k == step.events.len() - 1),
{
    assert(step.advances(k));
    reveal(Step::advances);
    if k > 0 {
        assert(answers(step.events[k], step.actions[k - 1]));
    }
    if k < step.events.len() - 1 {
        assert(answers(step.events[k + 1], step.actions[k]));
    }
}

/// Whether two wheels stand alike.
pub open spec fn same_stance(a: Wheel, b: Wheel) -> bool {
    &&& a.wheel_direction_ws == b.wheel_direction_ws
    &&& a.wheel_axle_ws == b.wheel_axle_ws
    &&& a.center == b.center
    &&& a.shape_cast_info.hard_point_ws == b.shape_cast_info.hard_point_ws
}

proof fn lemma_event_keeps_stance(step: Step, k: int, i: int)
    requires
        step.is_whole(),
        0 < k < step.events.len(),
        0 <= i < step.before().wheels@.len(),
    ensures
        same_stance(step.vehicles[k + 1].wheels@[i], step.vehicles[k].wheels@[i]),
        step.before().chassis.of(step.bodies[k + 1]).position.rotation == step.before().chassis.of(
            step.bodies[k],
        ).position.rotation,
{
    let vehicle = step.vehicles[k];
    let after = step.vehicles[k + 1];
    let chassis = vehicle.chassis.of(step.bodies[k]);
    let chassis_after = vehicle.chassis.of(step.bodies[k + 1]);
    lemma_prefix_keeps_wheels(step, k);
    lemma_order_of_events(step, k);
    assert(step.advances(k));
    reveal(Step::advances);
    match step.events[k] {
        UpdateEvent::Begin => {},
        UpdateEvent::ShapesCast(hits) => {
            crate::vehicle::laws::update::suspension_keeps_directions(
                vehicle,
                chassis,
                step.dt,
                hits@,
                after,
                chassis_after,
                step.actions[k],
                i,
            );
        },
        UpdateEvent::Solved(candidates, solution) => {
            let lambda = crate::vehicle::update::solution_view(solution);
            match step.actions[k] {
                UpdateAction::Solve(remaining, _) => {
                    crate::vehicle::laws::bump_stop::bump_stop_changes_velocities_only(
                        candidates@,
                        chassis,
                        lambda,
                        remaining@,
                        chassis_after,
                        crate::vehicle::bump_stop::BumpStopOutcome::SolveAgain,
                    );
                },
                _ => {
                    let stopped = crate::vehicle::bump_stop::BumpStopOutcome::Stopped;
                    let remaining = choose|remaining: Seq<crate::vehicle::bump_stop::BottomedWheel>|
                        #[trigger]
                        crate::vehicle::bump_stop::bump_stop_steps(
                            candidates@,
                            chassis,
                            lambda,
                            remaining,
                            chassis_after,
                            stopped,
                        );
                    crate::vehicle::laws::bump_stop::bump_stop_changes_velocities_only(
                        candidates@,
                        chassis,
                        lambda,
                        remaining,
                        chassis_after,
                        stopped,
                    );
                },
            }
        },
        UpdateEvent::Finish => {
            crate::vehicle::laws::update::finishing_keeps_directions(
                vehicle,
                step.bodies[k],
                step.colliders,
                step.dt,
                after,
                chassis_after,
                step.actions[k],
                i,
            );
            lemma_end_keeps_contact_and_stance(step, i);
        },
    }
}

/// Whether two wheels stand alike, with the same contact.
spec fn same_contact_and_stance(a: Wheel, b: Wheel) -> bool {
    &&& a.shape_cast_info == b.shape_cast_info
    &&& same_stance(a, b)
}

proof fn lemma_end_keeps_contact_and_stance(step: Step, i: int)
    requires
        step.is_whole(),
        0 <= i < step.before().wheels@.len(),
    ensures
        same_contact_and_stance(
            step.after().wheels@[i],
            step.vehicles[step.events.len() - 1].wheels@[i],
        ),
{
    let k = step.events.len() - 1;
    let vehicle = step.vehicles[k];
    lemma_prefix_keeps_wheels(step, k);
    lemma_order_of_events(step, k);
    assert(step.advances(k));
    reveal(Step::advances);
    lemma_finishing_keeps_contact_and_stance(
        vehicle,
        step.bodies[k],
        step.colliders,
        step.dt,
        step.after(),
        vehicle.chassis.of(step.bodies[k + 1]),
        step.actions[k],
        i,
    );
}

proof fn lemma_finishing_keeps_contact_and_stance(
    vehicle: DynamicShapeCastVehicleController,
    bodies: Seq<RigidBody>,
    colliders: Seq<Collider>,
    dt: Real,
    after: DynamicShapeCastVehicleController,
    chassis_after: RigidBody,
    action: UpdateAction,
    i: int,
)
    requires
        vehicle.finishes(bodies, colliders, dt, after, chassis_after, action),
        0 <= i < vehicle.wheels@.len(),
    ensures
        same_contact_and_stance(after.wheels@[i], vehicle.wheels@[i]),
{
    let outcome = vehicle.finish_outcome(bodies, colliders, dt);
    crate::vehicle::laws::friction::friction_changes_impulses_only(
        vehicle,
        vehicle.lifted_bodies(bodies),
        colliders,
        dt,
    );
    assert(crate::vehicle::friction::same_but_friction(outcome.wheels[i], vehicle.wheels@[i]));
}

proof fn lemma_prefix_keeps_stance(step: Step, k: int, i: int)
    requires
        step.is_whole(),
        0 < k <= step.events.len(),
        0 <= i < step.before().wheels@.len(),
    ensures
        same_stance(
            step.vehicles[k].wheels@[i],
            crate::vehicle::controller::placed_wheel(
                step.before().wheels@[i],
                step.chassis_before(),
            ),
        ),
        step.before().chassis.of(step.bodies[k]).position.rotation
            == step.chassis_before().position.rotation,
    decreases k,
{
    if k > 1 {
        lemma_prefix_keeps_stance(step, k - 1, i);
        lemma_event_keeps_stance(step, k - 1, i);
    } else {
        assert(step.advances(0));
        reveal(Step::advances);
    }
}

/// After a whole step a wheel hangs where the chassis had it at the beginning:
/// its suspension and its axle are turned with the chassis, the axle steered
/// around the suspension as well, and its center is its hard point plus its
/// suspension times the length that the suspension had before the step. The
/// chassis itself is not turned.
pub proof fn step_places_wheels(step: Step, i: int)
    requires
        step.is_whole(),
        0 <= i < step.before().wheels@.len(),
    ensures
        ({
            let before = step.before().wheels@[i];
            let after = step.after().wheels@[i];
            let pose = step.chassis_before().position;
            let steered = crate::vehicle::laws::placing::steering_rotation(
                before,
                step.chassis_before(),
            );
            &&& after.shape_cast_info.hard_point_ws == pose.transform_point(
                before.chassis_connection_point_cs,
            )
            &&& after.wheel_direction_ws == pose.rotation.rotate(before.direction_cs)
            &&& after.wheel_axle_ws == steered.rotate(pose.rotation.rotate(before.axle_cs))
            &&& after.center == after.shape_cast_info.hard_point_ws.add(
                after.wheel_direction_ws.scale(before.shape_cast_info.suspension_length),
            )
            &&& step.chassis_after().position.rotation == pose.rotation
        }),
{
    lemma_prefix_keeps_stance(step, step.events.len() as int, i);
}

/// After a whole step a suspension is as long as it is relative to the chassis,
/// so is an axle, and both are inclined to each other as they are relative to
/// the chassis, up to rounding and to what the rotations lack of unit ones.
pub proof fn step_keeps_lengths_and_inclinations(step: Step, i: int, b: int)
    requires
        step.is_whole(),
        0 <= i < step.before().wheels@.len(),
        crate::vehicle::laws::placing::places_in_range(
            step.before().wheels@[i],
            step.chassis_before(),
            b,
        ),
    ensures
        ({
            let before = step.before().wheels@[i];
            let after = step.after().wheels@[i];
            let (d0, a0) = (before.direction_cs.exact(), before.axle_cs.exact());
            let (d1, a1) = (after.wheel_direction_ws.exact(), after.wheel_axle_ws.exact());
            let turned = crate::vehicle::laws::placing::rotation_slack(
                step.chassis_before().position.rotation,
                b,
            );
            let steered = crate::vehicle::laws::placing::rotation_slack(
                crate::vehicle::laws::placing::steering_rotation(before, step.chassis_before()),
                b,
            );
            let kept = crate::vehicle::laws::placing::steering_slack(
                before,
                step.chassis_before(),
                b,
            );
            let m: int = 0x1_0000_0000_0000_0000;
            &&& -turned <= (d1.dot(d1) - d0.dot(d0)) * m <= turned
            &&& -(turned + steered) <= (a1.dot(a1) - a0.dot(a0)) * m <= turned + steered
            &&& -(turned + kept) <= (a1.dot(d1) - a0.dot(d0)) * m <= turned + kept
        }),
{
    let before = step.before().wheels@[i];
    let chassis = step.chassis_before();
    lemma_prefix_keeps_stance(step, step.events.len() as int, i);
    crate::vehicle::laws::placing::placing_keeps_suspension_length(before, chassis, b);
    crate::vehicle::laws::placing::placing_keeps_axle_length(before, chassis, b);
    crate::vehicle::laws::placing::steering_keeps_axle_inclination(before, chassis, b);
}

proof fn lemma_prefix_keeps_spin(step: Step, k: int, i: int)
    requires
        step.is_whole(),
        0 <= k < step.events.len(),
        0 <= i < step.before().wheels@.len(),
    ensures
        crate::vehicle::laws::update::same_spin(
            step.vehicles[k].wheels@[i],
            step.before().wheels@[i],
        ),
    decreases k,
{
    if k > 0 {
        lemma_prefix_keeps_spin(step, k - 1, i);
        lemma_prefix_keeps_wheels(step, k - 1);
        lemma_order_of_events(step, k - 1);
        assert(step.advances(k - 1));
        reveal(Step::advances);
        let vehicle = step.vehicles[k - 1];
        crate::vehicle::laws::update::only_the_end_of_a_step_turns_wheels(
            vehicle,
            vehicle.chassis.of(step.bodies[k - 1]),
            step.dt,
            step.events[k - 1],
            step.vehicles[k],
            vehicle.chassis.of(step.bodies[k]),
            step.actions[k - 1],
            i,
        );
    }
}

/// A whole step turns a wheel by one angle, and keeps all but a hundredth of
/// it for the next one. A wheel that ends in the air turned by what it had
/// kept.
pub proof fn step_turns_wheels(step: Step, i: int) -> (turn: Real)
    requires
        step.is_whole(),
        0 <= i < step.before().wheels@.len(),
    ensures
        ({
            let before = step.before().wheels@[i];
            let after = step.after().wheels@[i];
            &&& after.rotation == before.rotation.add(turn)
            &&& after.delta_rotation == turn.mul(Real::ratio(99, 100))
            &&& !after.shape_cast_info.is_in_contact ==> turn == before.delta_rotation
        }),
{
    let k = step.events.len() - 1;
    let vehicle = step.vehicles[k];
    lemma_prefix_keeps_wheels(step, k);
    lemma_prefix_keeps_spin(step, k, i);
    lemma_order_of_events(step, k);
    assert(step.advances(k));
    reveal(Step::advances);
    lemma_end_keeps_contact_and_stance(step, i);
    crate::vehicle::laws::update::end_of_a_step_turns_wheels(
        vehicle,
        step.bodies[k],
        step.colliders,
        step.dt,
        step.after(),
        vehicle.chassis.of(step.bodies[k + 1]),
        step.actions[k],
        i,
    )
}

/// Of two whole steps, one after the other, the second of which ends with a
/// wheel in the air, the second turns the wheel by all but a hundredth of what
/// the first turned it by, wherever the wheel was in between.
pub proof fn airborne_wheel_keeps_spinning_over_steps(first: Step, second: Step, i: int) -> (turn:
    Real)
    requires
        first.is_whole(),
        second.is_whole(),
        second.before() == first.after(),
        0 <= i < first.before().wheels@.len(),
        !second.after().wheels@[i].shape_cast_info.is_in_contact,
    ensures
        first.after().wheels@[i].rotation == first.before().wheels@[i].rotation.add(turn),
        second.after().wheels@[i].rotation == first.after().wheels@[i].rotation.add(
            turn.mul(Real::ratio(99, 100)),
        ),
{
    step_keeps_wheels(first);
    let turn = step_turns_wheels(first, i);
    let next = step_turns_wheels(second, i);
    assert(next == turn.mul(Real::ratio(99, 100)));
    turn
}

/// Whether the one vehicle comes of the other by some event of a step.
pub open spec fn is_updated(
    before: DynamicShapeCastVehicleController,
    after: DynamicShapeCastVehicleController,
) -> bool {
    exists|
        dt: Real,
        bodies: Seq<RigidBody>,
        colliders: Seq<Collider>,
        event: UpdateEvent,
        bodies_after: Seq<RigidBody>,
        action: UpdateAction,
    | #[trigger]
        before.updates(dt, bodies, colliders, event, after, bodies_after, action)
}

/// The wheels that were added, in their order, where each entry is the wheel
/// that was added, or none if the vehicle was updated.
pub open spec fn added_wheels(history: Seq<Option<Wheel>>) -> Seq<Wheel>
    decreases history.len(),
{
    if history.len() == 0 {
        Seq::empty()
    } else {
        match history.last() {
            Some(wheel) => added_wheels(history.drop_last()).push(wheel),
            None => added_wheels(history.drop_last()),
        }
    }
}

/// Whether wheels were added to the vehicle, and the vehicle updated, as the
/// history tells.
pub open spec fn is_history(
    vehicles: Seq<DynamicShapeCastVehicleController>,
    history: Seq<Option<Wheel>>,
) -> bool {
    &&& vehicles.len() == history.len() + 1
    &&& vehicles[0].wheels@.len() == 0
    &&& forall|k: int|
        0 <= k < history.len() ==> match #[trigger] history[k] {
            Some(wheel) => vehicles[k + 1].wheels@ == vehicles[k].wheels@.push(wheel),
            None => is_updated(vehicles[k], vehicles[k + 1]),
        }
}

/// However its updates come between, a vehicle has the wheels that were added
/// to it, as many, in the order and with the setup in which they were added.
pub proof fn vehicle_has_the_wheels_added_to_it(
    vehicles: Seq<DynamicShapeCastVehicleController>,
    history: Seq<Option<Wheel>>,
)
    requires
        is_history(vehicles, history),
    ensures
        crate::vehicle::laws::update::same_wheels(
            vehicles.last().wheels@,
            added_wheels(history),
        ),
    decreases history.len(),
{
    if history.len() > 0 {
        let n = history.len() - 1;
        let earlier = vehicles.drop_last();
        assert forall|k: int| 0 <= k < n implies match #[trigger] history.drop_last()[k] {
            Some(wheel) => earlier[k + 1].wheels@ == earlier[k].wheels@.push(wheel),
            None => is_updated(earlier[k], earlier[k + 1]),
        } by {
            assert(history.drop_last()[k] == history[k]);
        }
        vehicle_has_the_wheels_added_to_it(earlier, history.drop_last());
        let (before, after) = (vehicles[n], vehicles[n + 1]);
        assert(earlier.last() == before);
        assert(history[n] == history.last());
        let added = added_wheels(history.drop_last());
        match history[n] {
            Some(wheel) => {
                assert forall|i: int|
                    0 <= i < after.wheels@.len() implies crate::vehicle::laws::update::same_setup(
                    #[trigger] after.wheels@[i],
                    added_wheels(history)[i],
                ) by {
                    if i < before.wheels@.len() {
                        assert(crate::vehicle::laws::update::same_setup(
                            before.wheels@[i],
                            added[i],
                        ));
                    }
                }
            },
            None => {
                let (dt, bodies, colliders, event, bodies_after, action) = choose|
                    dt: Real,
                    bodies: Seq<RigidBody>,
                    colliders: Seq<Collider>,
                    event: UpdateEvent,
                    bodies_after: Seq<RigidBody>,
                    action: UpdateAction,
                | #[trigger]
                    before.updates(dt, bodies, colliders, event, after, bodies_after, action);
                update_keeps_wheels(
                    before,
                    dt,
                    bodies,
                    colliders,
                    event,
                    after,
                    bodies_after,
                    action,
                );
                lemma_same_wheels_chain(after.wheels@, before.wheels@, added);
            },
        }
    }
}

/// Once the casts of a step are in and the suspensions pushed the chassis, the
/// vehicle asks to stop the bottomed wheels whose contacts then move into the
/// ground, all of them and no other, each with the velocity of the pushed
/// chassis at its contact; and it asks for nothing exactly when there is none.
pub proof fn step_asks_to_stop_the_sinking_wheels(
    vehicle: DynamicShapeCastVehicleController,
    chassis: RigidBody,
    dt: Real,
    hits: Seq<Option<(ColliderHandle, ShapeCastHit)>>,
    after: DynamicShapeCastVehicleController,
    chassis_after: RigidBody,
    action: UpdateAction,
)
    requires
        vehicle.suspends(chassis, dt, hits, after, chassis_after, action),
    ensures
        action is Finish <==> forall|i: int|
            0 <= i < after.wheels@.len() ==> !crate::vehicle::laws::bump_stop::sinks(
                #[trigger] after.wheels@[i],
                chassis_after,
            ),
        match action {
            UpdateAction::Solve(candidates, system) => {
                &&& crate::vehicle::laws::bump_stop::carry_their_velocities(
                    candidates@,
                    chassis_after,
                )
                &&& system.describes(candidates@, chassis_after)
                &&& forall|i: int|
                    0 <= i < after.wheels@.len() && crate::vehicle::laws::bump_stop::sinks(
                        #[trigger] after.wheels@[i],
                        chassis_after,
                    ) ==> exists|k: int|
                        0 <= k < candidates@.len() && (#[trigger] candidates@[k]).contact
                            == after.wheels@[i].shape_cast_info.contact_point_ws
                            && candidates@[k].normal
                            == after.wheels@[i].shape_cast_info.contact_normal_ws
                &&& forall|k: int|
                    0 <= k < candidates@.len() ==> (#[trigger] candidates@[k]).rel_vel.bits < 0
            },
            UpdateAction::Finish => true,
            _ => false,
        },
{
    let taken = crate::vehicle::laws::bump_stop::bump_stop_takes_the_sinking_wheels(
        after.wheels@,
        chassis_after,
    );
    let stopped = crate::vehicle::bump_stop::wheels_to_stop(after.wheels@, chassis_after);
    assert forall|i: int|
        0 <= i < after.wheels@.len() && crate::vehicle::laws::bump_stop::sinks(
            #[trigger] after.wheels@[i],
            chassis_after,
        ) implies exists|k: int|
        0 <= k < stopped.len() && (#[trigger] stopped[k]).contact
            == after.wheels@[i].shape_cast_info.contact_point_ws && stopped[k].normal
            == after.wheels@[i].shape_cast_info.contact_normal_ws by {
        let k = choose|k: int| 0 <= k < taken.len() && taken[k] == i;
        assert(stopped[k].contact == after.wheels@[i].shape_cast_info.contact_point_ws);
    }
    assert forall|k: int| 0 <= k < stopped.len() implies (#[trigger] stopped[k]).rel_vel.bits
        < 0 by {
        assert(crate::vehicle::laws::bump_stop::sinks(after.wheels@[taken[k]], chassis_after));
    }
    if stopped.len() > 0 {
        assert(crate::vehicle::laws::bump_stop::sinks(after.wheels@[taken[0]], chassis_after));
    }
}

/// A step begins by asking for the cast of each wheel as the chassis then
/// places it, in the order of the wheels.
pub proof fn step_casts_every_wheel(
    vehicle: DynamicShapeCastVehicleController,
    chassis: RigidBody,
    after: DynamicShapeCastVehicleController,
    chassis_after: RigidBody,
    action: UpdateAction,
)
    requires
        vehicle.begins(chassis, after, chassis_after, action),
    ensures
        action matches UpdateAction::CastShapes(requests) && {
            &&& requests@.len() == after.wheels@.len()
            &&& after.wheels@.len() == vehicle.wheels@.len()
            &&& forall|i: int|
                0 <= i < requests@.len() ==> #[trigger] requests@[i]
                    == after.wheels@[i].cast_request()
        },
{
}

/// Friction acts on the chassis where it was lifted to: the end of a step
/// strikes the lifted chassis with the impulses of its tires, at heights that
/// are counted from where its center of mass then is.
pub proof fn step_rubs_the_lifted_chassis(
    vehicle: DynamicShapeCastVehicleController,
    bodies: Seq<RigidBody>,
    colliders: Seq<Collider>,
    dt: Real,
    after: DynamicShapeCastVehicleController,
    chassis_after: RigidBody,
    action: UpdateAction,
) -> (r: (Seq<Vector>, Seq<Point>))
    requires
        vehicle.finishes(bodies, colliders, dt, after, chassis_after, action),
        vehicle.chassis.is_in(bodies),
        vehicle.wheels@.len() > 0,
        ({
            let lifted = crate::vehicle::update::lifted_chassis(
                vehicle.chassis.of(bodies),
                vehicle.wheels@,
            );
            let up = crate::vehicle::laws::motion::heading(lifted, vehicle.index_up_axis);
            forall|i: int|
                0 <= i < after.wheels@.len()
                    ==> crate::vehicle::laws::pushing::tire_pushes_in_range(
                    #[trigger] after.wheels@[i],
                    lifted,
                    up,
                    after.forward_ws@[i],
                    after.axle@[i],
                )
        }),
    ensures
        ({
            let lifted = crate::vehicle::update::lifted_chassis(
                vehicle.chassis.of(bodies),
                vehicle.wheels@,
            );
            let n = vehicle.wheels@.len();
            &&& crate::vehicle::laws::pushing::are_of_tires(
                r.0,
                r.1,
                after.wheels@,
                lifted.center_of_mass(),
                crate::vehicle::laws::motion::heading(lifted, vehicle.index_up_axis),
                after.forward_ws@,
                after.axle@,
                n,
            )
            &&& chassis_after == crate::vehicle::laws::impulses::struck_in_turn(
                lifted,
                r.0,
                r.1,
                2 * n,
            )
        }),
{
    let lifted = crate::vehicle::update::lifted_chassis(
        vehicle.chassis.of(bodies),
        vehicle.wheels@,
    );
    let set = vehicle.lifted_bodies(bodies);
    assert(vehicle.chassis.of(set) == lifted);
    let outcome = vehicle.finish_outcome(bodies, colliders, dt);
    crate::vehicle::laws::friction::friction_changes_impulses_only(vehicle, set, colliders, dt);
    let up = crate::vehicle::laws::motion::heading(lifted, vehicle.index_up_axis);
    assert forall|i: int|
        0 <= i < outcome.wheels.len() implies crate::vehicle::laws::pushing::tire_pushes_in_range(
        #[trigger] outcome.wheels[i],
        lifted,
        up,
        outcome.forward_ws[i],
        outcome.axle[i],
    ) by {
        assert(crate::vehicle::laws::pushing::tire_pushes_in_range(
            after.wheels@[i],
            lifted,
            up,
            after.forward_ws@[i],
            after.axle@[i],
        ));
    }
    let (impulses, points) = crate::vehicle::laws::pushing::friction_pushes_over_the_contacts(
        vehicle,
        set,
        colliders,
        dt,
    );
    assert forall|i: int|
        0 <= i < vehicle.wheels@.len() implies crate::vehicle::laws::pushing::are_of_tire(
        impulses[2 * i],
        points[2 * i],
        impulses[2 * i + 1],
        points[2 * i + 1],
        #[trigger] after.wheels@[i],
        lifted.center_of_mass(),
        up,
        after.forward_ws@[i],
        after.axle@[i],
    ) by {
        assert(crate::vehicle::laws::pushing::are_of_tire(
            impulses[2 * i],
            points[2 * i],
            impulses[2 * i + 1],
            points[2 * i + 1],
            outcome.wheels[i],
            lifted.center_of_mass(),
            up,
            outcome.forward_ws[i],
            outcome.axle[i],
        ));
    }
    (impulses, points)
}

} // verus!
