//! One time step of a vehicle.
//!
//! A step alternates with work that others do: casting the cylinders of the
//! wheels against the world, and solving the system of the bump stop. Each
//! call of [`DynamicShapeCastVehicleController::update_vehicle`] takes what
//! just happened and tells what is to be done next.
use crate::bodies::{Collider, ColliderHandle, ColliderSet, RigidBody, RigidBodySet};
use crate::math::Vector;
use crate::scalar::Real;
use crate::transcendental::MAX_EXPONENT_BITS;
use crate::vehicle::bump_stop::{
    bump_stop_candidates, bump_stop_system, resolve_bump_stop, BottomedWheel, BumpStopOutcome,
    BumpStopSystem,
};
use crate::vehicle::controller::DynamicShapeCastVehicleController;
use crate::vehicle::friction::FrictionOutcome;
use crate::vehicle::shape_cast::{droop_exponent, ShapeCastHit, ShapeCastRequest};
use crate::vehicle::wheel::Wheel;
use vstd::prelude::*;

verus! {

/// What a vehicle reads and pushes.
pub struct QueryPipelineMut {
    pub bodies: RigidBodySet,
    pub colliders: ColliderSet,
}

/// What just happened to a vehicle that is being updated.
pub enum UpdateEvent {
    /// The step begins.
    Begin,
    /// The cylinders were cast: the first hit of each wheel, if any.
    ShapesCast(Vec<Option<(ColliderHandle, ShapeCastHit)>>),
    /// The system of the bump stop of these wheels was solved, or was singular.
    Solved(Vec<BottomedWheel>, Option<Vec<Real>>),
    /// Nothing is left to be done by others.
    Finish,
}

/// What is to be done next for a vehicle that is being updated.
pub enum UpdateAction {
    /// Cast the cylinder of each wheel and tell what each hit.
    CastShapes(Vec<ShapeCastRequest>),
    /// Solve the system of the bump stop of these wheels.
    Solve(Vec<BottomedWheel>, BumpStopSystem),
    /// Finish the step.
    Finish,
    /// The step is over.
    Done,
}

impl Wheel {
    /// The suspension force, capped.
    pub open spec fn capped_suspension_force(self) -> Real {
        self.wheel_suspension_force.min(self.max_suspension_force)
    }

    /// The chassis after the push of the wheel's suspension, awake if the wheel
    /// is driven forward.
    pub open spec fn springs(self, chassis: RigidBody, dt: Real) -> RigidBody {
        let chassis = if Real::zero().lt(self.engine_force) {
            chassis.awake()
        } else {
            chassis
        };
        chassis.struck(
            self.shape_cast_info.contact_normal_ws.scale(self.capped_suspension_force()).scale(dt),
            self.shape_cast_info.contact_point_ws,
        )
    }

    /// The angle that the wheel turns during the step.
    pub open spec fn turn(self, chassis: RigidBody, forward_axis: usize, dt: Real) -> Real {
        if self.shape_cast_info.is_in_contact {
            let normal = self.shape_cast_info.contact_normal_ws;
            let axis = chassis.position.transform_vector(Vector::ith(forward_axis, Real::one()));
            let forward = axis.sub(normal.scale(axis.dot(normal)));
            forward.dot(chassis.velocity_at_point(self.shape_cast_info.hard_point_ws)).mul(dt).div(
                self.radius,
            )
        } else {
            self.delta_rotation
        }
    }

    /// The wheel turned.
    pub open spec fn turned(self, chassis: RigidBody, forward_axis: usize, dt: Real) -> Wheel {
        let turn = self.turn(chassis, forward_axis, dt);
        Wheel {
            rotation: self.rotation.add(turn),
            delta_rotation: turn.mul(Real::ratio(99, 100)),
            ..self
        }
    }

    fn spring(&self, chassis: &mut RigidBody, dt: Real)
        ensures
            *final(chassis) == self.springs(*old(chassis), dt),
    {
        if Real::zero().lt(self.engine_force) {
            chassis.wake_up();
        }
        let mut suspension_force = self.wheel_suspension_force;
        if self.max_suspension_force.lt(suspension_force) {
            suspension_force = self.max_suspension_force;
        }
        let impulse = self.shape_cast_info.contact_normal_ws.scale(suspension_force).scale(dt);
        chassis.apply_impulse_at_point(impulse, self.shape_cast_info.contact_point_ws);
    }

    fn spin(&mut self, chassis: &RigidBody, forward_axis: usize, dt: Real)
        requires
            forward_axis < 3,
        ensures
            *final(self) == old(self).turned(*chassis, forward_axis, dt),
    {
        let vel = chassis.velocity_at_point(self.shape_cast_info.hard_point_ws);
        if self.shape_cast_info.is_in_contact {
            let axis = chassis.position.transform_vector(Vector::ith(forward_axis, Real::one()));
            let proj = axis.dot(self.shape_cast_info.contact_normal_ws);
            let fwd = axis.sub(self.shape_cast_info.contact_normal_ws.scale(proj));
            let proj2 = fwd.dot(vel);
            self.delta_rotation = proj2.mul(dt).div(self.radius);
        }
        self.rotation = self.rotation.add(self.delta_rotation);
        self.delta_rotation = self.delta_rotation.mul(Real::ratio(99, 100));
    }
}

/// The forward speed of a chassis, negative when it moves backwards.
pub open spec fn forward_speed(chassis: RigidBody, forward_axis: usize) -> Real {
    chassis.position.transform_vector(Vector::ith(forward_axis, Real::one())).dot(chassis.linvel)
}

/// The wheels placed in the world.
pub open spec fn placed_wheels(wheels: Seq<Wheel>, chassis: RigidBody) -> Seq<Wheel> {
    Seq::new(
        wheels.len(),
        |i: int| crate::vehicle::controller::placed_wheel(wheels[i], chassis),
    )
}

/// The wheels after their casts.
pub open spec fn cast_wheels(
    wheels: Seq<Wheel>,
    hits: Seq<Option<(ColliderHandle, ShapeCastHit)>>,
    world_up: Vector,
    chassis: RigidBody,
    dt: Real,
) -> Seq<Wheel> {
    Seq::new(
        wheels.len(),
        |i: int|
            DynamicShapeCastVehicleController::wheel_after_cast(
                wheels[i],
                hits[i],
                world_up,
                chassis,
                dt,
            ),
    )
}

/// The chassis after the pushes of the suspensions.
pub open spec fn sprung_chassis(chassis: RigidBody, wheels: Seq<Wheel>, dt: Real) -> RigidBody
    decreases wheels.len(),
{
    if wheels.len() == 0 {
        chassis
    } else {
        wheels.last().springs(sprung_chassis(chassis, wheels.drop_last(), dt), dt)
    }
}

/// The deepest overshoot of the bottomed wheels, and the normal and the travel
/// of the first wheel that has it; null without one.
pub open spec fn deepest_overshoot(wheels: Seq<Wheel>) -> (Real, Vector, Real)
    decreases wheels.len(),
{
    if wheels.len() == 0 {
        (Real::zero(), Vector::zeros(), Real::zero())
    } else {
        let before = deepest_overshoot(wheels.drop_last());
        let info = wheels.last().shape_cast_info;
        if info.bottomed_out && before.0.lt(info.bottom_out_overshoot) {
            (
                info.bottom_out_overshoot,
                info.contact_normal_ws,
                wheels.last().max_suspension_travel,
            )
        } else {
            before
        }
    }
}

/// How far the chassis is lifted at most: the travel of the deepest wheel, if
/// that is positive.
pub open spec fn correction_cap(wheels: Seq<Wheel>) -> Real {
    deepest_overshoot(wheels).2.max(Real::zero())
}

/// The chassis lifted out of its deepest overshoot, by the travel of the wheel
/// that has it at most.
pub open spec fn lifted_chassis(chassis: RigidBody, wheels: Seq<Wheel>) -> RigidBody {
    let (depth, normal, _) = deepest_overshoot(wheels);
    if Real::zero().lt(depth) {
        chassis.moved(
            chassis.position.translation.add(normal.scale(depth.min(correction_cap(wheels)))),
        )
    } else {
        chassis
    }
}

/// The wheels turned.
pub open spec fn turned_wheels(
    wheels: Seq<Wheel>,
    chassis: RigidBody,
    forward_axis: usize,
    dt: Real,
) -> Seq<Wheel> {
    Seq::new(wheels.len(), |i: int| wheels[i].turned(chassis, forward_axis, dt))
}

/// Whether two suspensions have the same resting length and travel.
pub open spec fn same_travel(a: Wheel, b: Wheel) -> bool {
    &&& a.suspension_rest_length == b.suspension_rest_length
    &&& a.max_suspension_travel == b.max_suspension_travel
}

fn spring_chassis(wheels: &Vec<Wheel>, chassis: &mut RigidBody, dt: Real)
    ensures
        *final(chassis) == sprung_chassis(*old(chassis), wheels@, dt),
{
    let mut i: usize = 0;
    while i < wheels.len()
        invariant
            i <= wheels@.len(),
            *chassis == sprung_chassis(*old(chassis), wheels@.take(i as int), dt),
        decreases wheels@.len() - i,
    {
        assert(wheels@.take(i + 1).drop_last() =~= wheels@.take(i as int));
        let wheel = wheels[i];
        wheel.spring(chassis, dt);
        i = i + 1;
    }
    assert(wheels@.take(i as int) =~= wheels@);
}

/// Corrects the position of the chassis for its bottomed wheels.
pub fn lift_chassis(wheels: &Vec<Wheel>, chassis: &mut RigidBody)
    ensures
        *final(chassis) == lifted_chassis(*old(chassis), wheels@),
{
    let mut deepest: Real = Real::zero();
    let mut correction_normal = Vector::zeros();
    let mut travel: Real = Real::zero();
    let mut i: usize = 0;
    while i < wheels.len()
        invariant
            i <= wheels@.len(),
            (deepest, correction_normal, travel) == deepest_overshoot(wheels@.take(i as int)),
        decreases wheels@.len() - i,
    {
        assert(wheels@.take(i + 1).drop_last() =~= wheels@.take(i as int));
        let wheel = wheels[i];
        if wheel.shape_cast_info.bottomed_out && deepest.lt(
            wheel.shape_cast_info.bottom_out_overshoot,
        ) {
            deepest = wheel.shape_cast_info.bottom_out_overshoot;
            correction_normal = wheel.shape_cast_info.contact_normal_ws;
            travel = wheel.max_suspension_travel;
        }
        i = i + 1;
    }
    assert(wheels@.take(i as int) =~= wheels@);
    if Real::zero().lt(deepest) {
        let cap = travel.max(Real::zero());
        let correction = correction_normal.scale(deepest.min(cap));
        chassis.set_translation(chassis.position.translation.add(correction));
    }
}

impl DynamicShapeCastVehicleController {
    /// Begins a step: places the wheels in the world, measures the speed, and
    /// tells which casts look for the ground.
    pub fn begin_update(&mut self, chassis: &RigidBody) -> (r: Vec<ShapeCastRequest>)
        requires
            old(self).index_forward_axis < 3,
        ensures
            final(self).wheels@ == placed_wheels(old(self).wheels@, *chassis),
            final(self).current_vehicle_speed == forward_speed(
                *chassis,
                old(self).index_forward_axis,
            ),
            final(self).chassis_speed == chassis.linvel.norm(),
            final(self).forward_ws == old(self).forward_ws,
            final(self).axle == old(self).axle,
            final(self).chassis == old(self).chassis,
            final(self).index_up_axis == old(self).index_up_axis,
            final(self).index_forward_axis == old(self).index_forward_axis,
            r@ == Seq::new(
                old(self).wheels@.len(),
                |i: int| placed_wheels(old(self).wheels@, *chassis)[i].cast_request(),
            ),
            Self::all_can_travel(old(self).wheels@) ==> Self::all_can_travel(final(self).wheels@),
            Self::all_settled(old(self).wheels@) ==> Self::all_placed(final(self).wheels@),
    {
        let num_wheels = self.wheels.len();
        let mut requests: Vec<ShapeCastRequest> = Vec::new();
        let mut i: usize = 0;
        while i < num_wheels
            invariant
                i <= num_wheels,
                num_wheels == self.wheels@.len(),
                num_wheels == old(self).wheels@.len(),
                requests@.len() == i,
                forall|j: int|
                    0 <= j < i ==> self.wheels@[j] == placed_wheels(old(self).wheels@, *chassis)[j],
                forall|j: int|
                    i <= j < num_wheels ==> self.wheels@[j] == old(self).wheels@[j],
                forall|j: int|
                    0 <= j < i ==> requests@[j] == placed_wheels(
                        old(self).wheels@,
                        *chassis,
                    )[j].cast_request(),
                self.same_but_wheels(*old(self)),
            decreases num_wheels - i,
        {
            self.update_wheel_transform(chassis, i);
            requests.push(self.wheels[i].shape_cast_request());
            i = i + 1;
        }
        let forward_w = chassis.position.transform_vector(
            Vector::ith(self.index_forward_axis, Real::one()),
        );
        self.current_vehicle_speed = forward_w.dot(chassis.linvel);
        self.chassis_speed = chassis.linvel.norm();
        assert forall|i: int| 0 <= i < self.wheels@.len() implies (
        old(self).wheels@[i].can_travel() ==> (#[trigger] self.wheels@[i]).can_travel()) && (
        old(self).wheels@[i].is_settled() ==> self.wheels@[i].is_placed()) by {
            assert(self.wheels@[i] == placed_wheels(old(self).wheels@, *chassis)[i]);
        }
        requests
    }
}

impl DynamicShapeCastVehicleController {
    /// Whether the hits are those of the wheels, the full extension of every
    /// wheel that stands on what it hit is not negative, and the decay of every
    /// one that hangs is in range.
    pub open spec fn hits_ok(
        self,
        hits: Seq<Option<(ColliderHandle, ShapeCastHit)>>,
        dt: Real,
    ) -> bool {
        &&& hits.len() == self.wheels@.len()
        &&& forall|i: int| 0 <= i < hits.len() ==> self.hit_ok(i, #[trigger] hits[i], dt)
    }

    /// Whether a wheel can stand on what its cast hit, or hang.
    pub open spec fn hit_ok(
        self,
        i: int,
        hit: Option<(ColliderHandle, ShapeCastHit)>,
        dt: Real,
    ) -> bool {
        match Self::accepted_hit(self.wheels@[i], hit, self.world_up()) {
            Some(_) => Real::zero().le(self.wheels@[i].max_suspension_length()),
            None => droop_exponent(dt).bits <= MAX_EXPONENT_BITS,
        }
    }

    /// The wheels after their casts and with their suspension forces.
    pub open spec fn suspended_after_casts(
        self,
        hits: Seq<Option<(ColliderHandle, ShapeCastHit)>>,
        chassis: RigidBody,
        dt: Real,
    ) -> Seq<Wheel> {
        Self::suspended_wheels(
            cast_wheels(self.wheels@, hits, self.world_up(), chassis, dt),
            chassis.mass,
            dt,
        )
    }

    /// Whether every suspension can travel.
    pub open spec fn all_can_travel(wheels: Seq<Wheel>) -> bool {
        forall|i: int| 0 <= i < wheels.len() ==> (#[trigger] wheels[i]).can_travel()
    }

    /// Whether every wheel waits for its cast.
    pub open spec fn all_placed(wheels: Seq<Wheel>) -> bool {
        forall|i: int| 0 <= i < wheels.len() ==> (#[trigger] wheels[i]).is_placed()
    }

    /// Whether every wheel is settled.
    pub open spec fn all_settled(wheels: Seq<Wheel>) -> bool {
        forall|i: int| 0 <= i < wheels.len() ==> (#[trigger] wheels[i]).is_settled()
    }

    /// Places every wheel on what its cast hit.
    fn shape_cast_all(
        &mut self,
        chassis: &RigidBody,
        hits: &Vec<Option<(ColliderHandle, ShapeCastHit)>>,
        dt: Real,
    )
        requires
            old(self).index_up_axis < 3,
            old(self).hits_ok(hits@, dt),
        ensures
            final(self).wheels@ == cast_wheels(
                old(self).wheels@,
                hits@,
                old(self).world_up(),
                *chassis,
                dt,
            ),
            final(self).same_but_wheels(*old(self)),
            Real::zero().le(dt) && Self::all_can_travel(old(self).wheels@) && Self::all_placed(
                old(self).wheels@,
            ) ==> Self::all_settled(final(self).wheels@),
    {
        let mut wheel_id: usize = 0;
        while wheel_id < self.wheels.len()
            invariant
                wheel_id <= self.wheels@.len(),
                self.wheels@.len() == old(self).wheels@.len(),
                self.index_up_axis < 3,
                old(self).hits_ok(hits@, dt),
                forall|j: int|
                    0 <= j < wheel_id ==> self.wheels@[j] == cast_wheels(
                        old(self).wheels@,
                        hits@,
                        old(self).world_up(),
                        *chassis,
                        dt,
                    )[j],
                forall|j: int|
                    wheel_id <= j < self.wheels@.len() ==> self.wheels@[j] == old(self).wheels@[j],
                self.same_but_wheels(*old(self)),
                Real::zero().le(dt) && Self::all_can_travel(old(self).wheels@) && Self::all_placed(
                    old(self).wheels@,
                ) ==> forall|j: int|
                    0 <= j < wheel_id ==> (#[trigger] self.wheels@[j]).is_settled(),
            decreases self.wheels@.len() - wheel_id,
        {
            let hit = hits[wheel_id];
            assert(hits@[wheel_id as int] == hit);
            assert(old(self).hit_ok(wheel_id as int, hit, dt));
            assert(old(self).wheels@[wheel_id as int] == self.wheels@[wheel_id as int]);
            self.shape_cast(chassis, wheel_id, dt, hit);
            wheel_id = wheel_id + 1;
        }
    }

    /// Simulates the suspensions on what the casts hit, and collects the
    /// bottomed wheels that are still to be stopped.
    pub fn simulate_suspension(
        &mut self,
        chassis: &mut RigidBody,
        hits: &Vec<Option<(ColliderHandle, ShapeCastHit)>>,
        dt: Real,
    ) -> (r: Vec<BottomedWheel>)
        requires
            old(self).index_up_axis < 3,
            old(self).hits_ok(hits@, dt),
        ensures
            final(self).wheels@ == old(self).suspended_after_casts(hits@, *old(chassis), dt),
            final(self).same_but_wheels(*old(self)),
            *final(chassis) == sprung_chassis(*old(chassis), final(self).wheels@, dt),
            r@ == crate::vehicle::bump_stop::wheels_to_stop(final(self).wheels@, *final(chassis)),
            Real::zero().le(dt) && Self::all_can_travel(old(self).wheels@) && Self::all_placed(
                old(self).wheels@,
            ) ==> Self::all_settled(final(self).wheels@),
            Self::all_can_travel(old(self).wheels@) ==> Self::all_can_travel(final(self).wheels@),
    {
        self.shape_cast_all(chassis, hits, dt);
        let chassis_mass = chassis.mass;
        let ghost cast = self.wheels@;
        self.update_suspension(chassis_mass, dt);
        assert(Self::all_settled(cast) ==> Self::all_settled(self.wheels@)) by {
            if Self::all_settled(cast) {
                assert forall|i: int| 0 <= i < self.wheels@.len() implies (
                #[trigger] self.wheels@[i]).is_settled() by {
                    assert(cast[i].is_settled());
                }
            }
        }
        assert forall|i: int| 0 <= i < self.wheels@.len() && old(self).wheels@[i].can_travel() implies (
        #[trigger] self.wheels@[i]).can_travel() by {
            assert(same_travel(cast[i], old(self).wheels@[i]));
        }
        spring_chassis(&self.wheels, chassis, dt);
        bump_stop_candidates(&self.wheels, chassis)
    }

    /// Whether the vehicle can finish its step.
    pub open spec fn can_finish(
        self,
        bodies: Seq<RigidBody>,
        colliders: Seq<Collider>,
        dt: Real,
    ) -> bool {
        &&& self.axes_ok()
        &&& self.chassis.is_in(bodies)
        &&& self.grounds_known(bodies, colliders)
        &&& self.holds_are_positive(dt)
    }

    /// The bodies once the chassis was lifted out of its overshoot.
    pub open spec fn lifted_bodies(self, bodies: Seq<RigidBody>) -> Seq<RigidBody> {
        bodies.update(
            self.chassis.index as int,
            lifted_chassis(self.chassis.of(bodies), self.wheels@),
        )
    }

    /// What friction makes of the lifted vehicle.
    pub open spec fn finish_outcome(
        self,
        bodies: Seq<RigidBody>,
        colliders: Seq<Collider>,
        dt: Real,
    ) -> FrictionOutcome {
        self.friction_outcome(self.lifted_bodies(bodies), colliders, dt)
    }

    fn spin_wheels(&mut self, chassis: &RigidBody, dt: Real)
        requires
            old(self).index_forward_axis < 3,
        ensures
            final(self).wheels@ == turned_wheels(
                old(self).wheels@,
                *chassis,
                old(self).index_forward_axis,
                dt,
            ),
            final(self).same_but_wheels(*old(self)),
    {
        let mut i: usize = 0;
        while i < self.wheels.len()
            invariant
                i <= self.wheels@.len(),
                self.wheels@.len() == old(self).wheels@.len(),
                self.index_forward_axis < 3,
                forall|j: int|
                    0 <= j < i ==> self.wheels@[j] == old(self).wheels@[j].turned(
                        *chassis,
                        old(self).index_forward_axis,
                        dt,
                    ),
                forall|j: int|
                    i <= j < self.wheels@.len() ==> self.wheels@[j] == old(self).wheels@[j],
                self.same_but_wheels(*old(self)),
            decreases self.wheels@.len() - i,
        {
            let mut wheel = self.wheels[i];
            wheel.spin(chassis, self.index_forward_axis, dt);
            self.wheels.set(i, wheel);
            i = i + 1;
        }
    }

    /// Finishes a step: lifts the chassis out of its overshoot, applies the
    /// friction of the tires and turns the wheels.
    pub fn finish_update(
        &mut self,
        bodies: &mut RigidBodySet,
        colliders: &ColliderSet,
        dt: Real,
    )
        requires
            old(self).can_finish(old(bodies)@, colliders@, dt),
        ensures
            ({
                let outcome = old(self).finish_outcome(old(bodies)@, colliders@, dt);
                &&& final(self).wheels@ == turned_wheels(
                    outcome.wheels,
                    outcome.chassis,
                    old(self).index_forward_axis,
                    dt,
                )
                &&& final(self).forward_ws@ == outcome.forward_ws
                &&& final(self).axle@ == outcome.axle
                &&& final(bodies)@ == old(bodies)@.update(
                    old(self).chassis.index as int,
                    outcome.chassis,
                )
            }),
            final(self).current_vehicle_speed == old(self).current_vehicle_speed,
            final(self).chassis_speed == old(self).chassis_speed,
            final(self).chassis == old(self).chassis,
            final(self).index_up_axis == old(self).index_up_axis,
            final(self).index_forward_axis == old(self).index_forward_axis,
            Self::all_can_travel(old(self).wheels@) ==> Self::all_can_travel(final(self).wheels@),
            Self::all_settled(old(self).wheels@) ==> Self::all_settled(final(self).wheels@),
    {
        let mut chassis = *bodies.get(self.chassis);
        lift_chassis(&self.wheels, &mut chassis);
        bodies.set(self.chassis, chassis);
        proof {
            assert forall|i: int|
                0 <= i < self.wheels@.len() implies crate::vehicle::friction::ground_is_known(
                (#[trigger] self.wheels@[i]).shape_cast_info.ground_object,
                bodies@,
                colliders@,
            ) by {
                assert(crate::vehicle::friction::ground_is_known(
                    old(self).wheels@[i].shape_cast_info.ground_object,
                    old(bodies)@,
                    colliders@,
                ));
            }
        }
        self.update_friction(bodies, colliders, dt);
        let chassis = *bodies.get(self.chassis);
        self.spin_wheels(&chassis, dt);
        assert(bodies@ =~= old(bodies)@.update(
            old(self).chassis.index as int,
            old(self).finish_outcome(old(bodies)@, colliders@, dt).chassis,
        ));
        proof {
            lemma_finishing_keeps_ready(*old(self), old(bodies)@, colliders@, dt, *self);
        }
    }
}

/// A solution as a sequence, `None` being that of a singular system.
pub open spec fn solution_view(solution: Option<Vec<Real>>) -> Option<Seq<Real>> {
    match solution {
        Some(lambda) => Some(lambda@),
        None => None,
    }
}

impl DynamicShapeCastVehicleController {
    /// Whether the vehicle can take the event.
    pub open spec fn can_take(
        self,
        dt: Real,
        bodies: Seq<RigidBody>,
        colliders: Seq<Collider>,
        event: UpdateEvent,
    ) -> bool {
        &&& self.chassis.is_in(bodies)
        &&& match event {
            UpdateEvent::Begin => self.index_forward_axis < 3,
            UpdateEvent::ShapesCast(hits) => {
                &&& self.index_up_axis < 3
                &&& self.hits_ok(hits@, dt)
            },
            UpdateEvent::Solved(candidates, solution) => {
                &&& candidates@.len() > 0
                &&& solution matches Some(lambda) ==> lambda@.len() == candidates@.len()
            },
            UpdateEvent::Finish => self.can_finish(bodies, colliders, dt),
        }
    }

    /// Whether `action` asks for the bump stop of the given wheels, if any.
    pub open spec fn asks_to_stop(
        action: UpdateAction,
        wheels: Seq<BottomedWheel>,
        chassis: RigidBody,
    ) -> bool {
        match action {
            UpdateAction::Solve(candidates, system) => {
                &&& candidates@ == wheels
                &&& wheels.len() > 0
                &&& system.describes(wheels, chassis)
            },
            UpdateAction::Finish => wheels.len() == 0,
            _ => false,
        }
    }

    /// Whether a step that begins leads to `after` and `action`.
    pub open spec fn begins(
        self,
        chassis: RigidBody,
        after: Self,
        chassis_after: RigidBody,
        action: UpdateAction,
    ) -> bool {
        let placed = placed_wheels(self.wheels@, chassis);
        &&& after.wheels@ == placed
        &&& after.current_vehicle_speed == forward_speed(chassis, self.index_forward_axis)
        &&& after.chassis_speed == chassis.linvel.norm()
        &&& after.forward_ws@ == self.forward_ws@
        &&& after.axle@ == self.axle@
        &&& chassis_after == chassis
        &&& action matches UpdateAction::CastShapes(requests) && requests@ == Seq::new(
            placed.len(),
            |i: int| placed[i].cast_request(),
        )
    }

    /// Whether the hits of the casts lead to `after` and `action`.
    pub open spec fn suspends(
        self,
        chassis: RigidBody,
        dt: Real,
        hits: Seq<Option<(ColliderHandle, ShapeCastHit)>>,
        after: Self,
        chassis_after: RigidBody,
        action: UpdateAction,
    ) -> bool {
        &&& after.wheels@ == self.suspended_after_casts(hits, chassis, dt)
        &&& after.current_vehicle_speed == self.current_vehicle_speed
        &&& after.chassis_speed == self.chassis_speed
        &&& after.forward_ws@ == self.forward_ws@
        &&& after.axle@ == self.axle@
        &&& chassis_after == sprung_chassis(chassis, after.wheels@, dt)
        &&& Self::asks_to_stop(
            action,
            crate::vehicle::bump_stop::wheels_to_stop(after.wheels@, chassis_after),
            chassis_after,
        )
    }

    /// Whether a solution of the bump stop leads to `after` and `action`.
    pub open spec fn stops(
        self,
        chassis: RigidBody,
        candidates: Seq<BottomedWheel>,
        solution: Option<Seq<Real>>,
        after: Self,
        chassis_after: RigidBody,
        action: UpdateAction,
    ) -> bool {
        &&& after.wheels@ == self.wheels@
        &&& after.current_vehicle_speed == self.current_vehicle_speed
        &&& after.chassis_speed == self.chassis_speed
        &&& after.forward_ws@ == self.forward_ws@
        &&& after.axle@ == self.axle@
        &&& match action {
            UpdateAction::Solve(remaining, system) => {
                &&& crate::vehicle::bump_stop::bump_stop_steps(
                    candidates,
                    chassis,
                    solution,
                    remaining@,
                    chassis_after,
                    BumpStopOutcome::SolveAgain,
                )
                &&& system.describes(remaining@, chassis_after)
            },
            UpdateAction::Finish => exists|remaining: Seq<BottomedWheel>| #[trigger]
                crate::vehicle::bump_stop::bump_stop_steps(
                    candidates,
                    chassis,
                    solution,
                    remaining,
                    chassis_after,
                    BumpStopOutcome::Stopped,
                ),
            _ => false,
        }
    }

    /// Whether the end of a step leads to `after` and `action`.
    pub open spec fn finishes(
        self,
        bodies: Seq<RigidBody>,
        colliders: Seq<Collider>,
        dt: Real,
        after: Self,
        chassis_after: RigidBody,
        action: UpdateAction,
    ) -> bool {
        let outcome = self.finish_outcome(bodies, colliders, dt);
        &&& after.wheels@ == turned_wheels(
            outcome.wheels,
            outcome.chassis,
            self.index_forward_axis,
            dt,
        )
        &&& after.current_vehicle_speed == self.current_vehicle_speed
        &&& after.chassis_speed == self.chassis_speed
        &&& after.forward_ws@ == outcome.forward_ws
        &&& after.axle@ == outcome.axle
        &&& chassis_after == outcome.chassis
        &&& action is Done
    }

    /// Whether the event leads to `after`, `bodies_after` and `action`. No body
    /// but the chassis changes.
    pub open spec fn updates(
        self,
        dt: Real,
        bodies: Seq<RigidBody>,
        colliders: Seq<Collider>,
        event: UpdateEvent,
        after: Self,
        bodies_after: Seq<RigidBody>,
        action: UpdateAction,
    ) -> bool {
        let chassis = self.chassis.of(bodies);
        let chassis_after = self.chassis.of(bodies_after);
        &&& after.chassis == self.chassis
        &&& after.index_up_axis == self.index_up_axis
        &&& after.index_forward_axis == self.index_forward_axis
        &&& bodies_after == bodies.update(self.chassis.index as int, chassis_after)
        &&& match event {
            UpdateEvent::Begin => self.begins(chassis, after, chassis_after, action),
            UpdateEvent::ShapesCast(hits) => self.suspends(
                chassis,
                dt,
                hits@,
                after,
                chassis_after,
                action,
            ),
            UpdateEvent::Solved(candidates, solution) => self.stops(
                chassis,
                candidates@,
                solution_view(solution),
                after,
                chassis_after,
                action,
            ),
            UpdateEvent::Finish => self.finishes(
                bodies,
                colliders,
                dt,
                after,
                chassis_after,
                action,
            ),
        }
    }

    /// Whether the wheels are as they are before the event: they wait for
    /// their casts before those, and are settled otherwise.
    pub open spec fn is_ready_for(self, event: UpdateEvent) -> bool {
        &&& Self::all_can_travel(self.wheels@)
        &&& match event {
            UpdateEvent::ShapesCast(_) => Self::all_placed(self.wheels@),
            _ => Self::all_settled(self.wheels@),
        }
    }

    /// Whether the wheels are as they are once the action is asked for: they
    /// wait for their casts if these are, and are settled otherwise.
    pub open spec fn is_ready_to(self, action: UpdateAction) -> bool {
        &&& Self::all_can_travel(self.wheels@)
        &&& match action {
            UpdateAction::CastShapes(_) => Self::all_placed(self.wheels@),
            _ => Self::all_settled(self.wheels@),
        }
    }

    /// Takes the hits of the casts.
    fn take_casts(
        &mut self,
        dt: Real,
        queries: &mut QueryPipelineMut,
        hits: &Vec<Option<(ColliderHandle, ShapeCastHit)>>,
    ) -> (r: UpdateAction)
        requires
            old(self).chassis.is_in(old(queries).bodies@),
            old(self).index_up_axis < 3,
            old(self).hits_ok(hits@, dt),
        ensures
            final(self).chassis == old(self).chassis,
            final(self).index_up_axis == old(self).index_up_axis,
            final(self).index_forward_axis == old(self).index_forward_axis,
            final(queries).colliders == old(queries).colliders,
            final(queries).bodies@ == old(queries).bodies@.update(
                old(self).chassis.index as int,
                old(self).chassis.of(final(queries).bodies@),
            ),
            old(self).suspends(
                old(self).chassis.of(old(queries).bodies@),
                dt,
                hits@,
                *final(self),
                old(self).chassis.of(final(queries).bodies@),
                r,
            ),
            Real::zero().le(dt) && Self::all_can_travel(old(self).wheels@) && Self::all_placed(
                old(self).wheels@,
            ) ==> Self::all_settled(final(self).wheels@),
            Self::all_can_travel(old(self).wheels@) ==> Self::all_can_travel(final(self).wheels@),
    {
        let mut chassis = *queries.bodies.get(self.chassis);
        let candidates = self.simulate_suspension(&mut chassis, hits, dt);
        queries.bodies.set(self.chassis, chassis);
        if candidates.len() == 0 {
            UpdateAction::Finish
        } else {
            let system = bump_stop_system(&candidates, &chassis);
            UpdateAction::Solve(candidates, system)
        }
    }

    /// Takes a solution of the bump stop.
    fn take_solution(
        &self,
        queries: &mut QueryPipelineMut,
        candidates: Vec<BottomedWheel>,
        solution: &Option<Vec<Real>>,
    ) -> (r: UpdateAction)
        requires
            self.chassis.is_in(old(queries).bodies@),
            candidates@.len() > 0,
            solution matches Some(lambda) ==> lambda@.len() == candidates@.len(),
        ensures
            final(queries).colliders == old(queries).colliders,
            final(queries).bodies@ == old(queries).bodies@.update(
                self.chassis.index as int,
                self.chassis.of(final(queries).bodies@),
            ),
            self.stops(
                self.chassis.of(old(queries).bodies@),
                candidates@,
                solution_view(*solution),
                *self,
                self.chassis.of(final(queries).bodies@),
                r,
            ),
    {
        let mut candidates = candidates;
        let mut chassis = *queries.bodies.get(self.chassis);
        let outcome = resolve_bump_stop(&mut candidates, &mut chassis, solution);
        queries.bodies.set(self.chassis, chassis);
        match outcome {
            BumpStopOutcome::SolveAgain => {
                let system = bump_stop_system(&candidates, &chassis);
                UpdateAction::Solve(candidates, system)
            },
            BumpStopOutcome::Stopped => UpdateAction::Finish,
        }
    }

    /// Updates the vehicle's velocity based on its suspension, engine force,
    /// and brake: takes what just happened in the step, and tells what is to
    /// be done next. No body but the chassis changes. The wheels stay ready
    /// throughout, as long as time does not run backwards.
    pub fn update_vehicle(
        &mut self,
        dt: Real,
        queries: &mut QueryPipelineMut,
        event: UpdateEvent,
    ) -> (r: UpdateAction)
        requires
            old(self).can_take(dt, old(queries).bodies@, old(queries).colliders@, event),
        ensures
            final(queries).colliders == old(queries).colliders,
            old(self).updates(
                dt,
                old(queries).bodies@,
                old(queries).colliders@,
                event,
                *final(self),
                final(queries).bodies@,
                r,
            ),
            Real::zero().le(dt) && old(self).is_ready_for(event) ==> final(self).is_ready_to(r),
    {
        match event {
            UpdateEvent::Begin => {
                let requests = self.begin_update(queries.bodies.get(self.chassis));
                assert(queries.bodies@ =~= old(queries).bodies@.update(
                    self.chassis.index as int,
                    self.chassis.of(queries.bodies@),
                ));
                UpdateAction::CastShapes(requests)
            },
            UpdateEvent::ShapesCast(hits) => self.take_casts(dt, queries, &hits),
            UpdateEvent::Solved(candidates, solution) => self.take_solution(
                queries,
                candidates,
                &solution,
            ),
            UpdateEvent::Finish => {
                self.finish_update(&mut queries.bodies, &queries.colliders, dt);
                UpdateAction::Done
            },
        }
    }

    fn can_cast(&self, dt: Real, hits: &Vec<Option<(ColliderHandle, ShapeCastHit)>>) -> (r: bool)
        requires
            self.index_up_axis < 3,
        ensures
            r == self.hits_ok(hits@, dt),
    {
        if hits.len() != self.wheels.len() {
            return false;
        }
        let world_up = Vector::ith(self.index_up_axis, Real::one());
        let mut i: usize = 0;
        while i < hits.len()
            invariant
                i <= hits@.len(),
                hits@.len() == self.wheels@.len(),
                world_up == self.world_up(),
                forall|j: int| 0 <= j < i ==> self.hit_ok(j, #[trigger] hits@[j], dt),
            decreases hits@.len() - i,
        {
            let wheel = self.wheels[i];
            let hit = hits[i];
            assert(hits@[i as int] == hit);
            let ok = if Self::stands(&wheel, hit, world_up) {
                Real::zero().le(wheel.max_suspension_length())
            } else {
                droop_exponent(dt).bits <= MAX_EXPONENT_BITS
            };
            if !ok {
                return false;
            }
            i = i + 1;
        }
        true
    }

    fn ground_is_in(ground: Option<ColliderHandle>, queries: &QueryPipelineMut) -> (r: bool)
        ensures
            r == crate::vehicle::friction::ground_is_known(
                ground,
                queries.bodies@,
                queries.colliders@,
            ),
    {
        match ground {
            Some(c) => c.index < queries.colliders.colliders.len() && match queries.colliders.parent(
                c,
            ) {
                Some(b) => b.index < queries.bodies.bodies.len(),
                None => true,
            },
            None => true,
        }
    }

    fn can_roll(&self, dt: Real, queries: &QueryPipelineMut) -> (r: bool)
        ensures
            r == (self.grounds_known(queries.bodies@, queries.colliders@)
                && self.holds_are_positive(dt)),
    {
        let mut i: usize = 0;
        while i < self.wheels.len()
            invariant
                i <= self.wheels@.len(),
                forall|j: int|
                    0 <= j < i ==> crate::vehicle::friction::ground_is_known(
                        (#[trigger] self.wheels@[j]).shape_cast_info.ground_object,
                        queries.bodies@,
                        queries.colliders@,
                    ),
                forall|j: int|
                    0 <= j < i && (#[trigger] self.wheels@[j]).has_ground()
                        && self.wheels@[j].engine_force == Real::zero() ==> Real::zero().le(
                        self.wheels@[j].holding_impulse(self.chassis_speed, dt),
                    ),
            decreases self.wheels@.len() - i,
        {
            let wheel = self.wheels[i];
            let ground = wheel.shape_cast_info.ground_object;
            assert(self.wheels@[i as int] == wheel);
            if !Self::ground_is_in(ground, queries) {
                return false;
            }
            if ground.is_some() && wheel.engine_force == Real::zero() && wheel.holding_impulse(
                self.chassis_speed,
                dt,
            ).lt(Real::zero()) {
                return false;
            }
            i = i + 1;
        }
        true
    }

    /// Tells whether the vehicle can take the event.
    pub fn can_update(&self, dt: Real, queries: &QueryPipelineMut, event: &UpdateEvent) -> (r: bool)
        ensures
            r == self.can_take(dt, queries.bodies@, queries.colliders@, *event),
    {
        if self.chassis.index >= queries.bodies.bodies.len() {
            return false;
        }
        match event {
            UpdateEvent::Begin => self.index_forward_axis < 3,
            UpdateEvent::ShapesCast(hits) => self.index_up_axis < 3 && self.can_cast(dt, hits),
            UpdateEvent::Solved(candidates, solution) => candidates.len() > 0 && match solution {
                Some(lambda) => lambda.len() == candidates.len(),
                None => true,
            },
            UpdateEvent::Finish => self.index_up_axis < 3 && self.index_forward_axis < 3
                && self.can_roll(dt, queries),
        }
    }

    /// Updates the vehicle as [`Self::update_vehicle`] does if it can take the
    /// event, and leaves everything as it is otherwise.
    pub fn try_update_vehicle(
        &mut self,
        dt: Real,
        queries: &mut QueryPipelineMut,
        event: UpdateEvent,
    ) -> (r: Option<UpdateAction>)
        ensures
            final(queries).colliders == old(queries).colliders,
            r is Some <==> old(self).can_take(
                dt,
                old(queries).bodies@,
                old(queries).colliders@,
                event,
            ),
            match r {
                Some(action) => {
                    &&& old(self).updates(
                        dt,
                        old(queries).bodies@,
                        old(queries).colliders@,
                        event,
                        *final(self),
                        final(queries).bodies@,
                        action,
                    )
                    &&& Real::zero().le(dt) && old(self).is_ready_for(event)
                        ==> final(self).is_ready_to(action)
                },
                None => *final(self) == *old(self) && *final(queries) == *old(queries),
            },
    {
        if self.can_update(dt, queries, &event) {
            Some(self.update_vehicle(dt, queries, event))
        } else {
            None
        }
    }
}

/// The end of a step keeps the wheels ready.
proof fn lemma_finishing_keeps_ready(
    vehicle: DynamicShapeCastVehicleController,
    bodies: Seq<RigidBody>,
    colliders: Seq<Collider>,
    dt: Real,
    after: DynamicShapeCastVehicleController,
)
    requires
        after.wheels@ == turned_wheels(
            vehicle.finish_outcome(bodies, colliders, dt).wheels,
            vehicle.finish_outcome(bodies, colliders, dt).chassis,
            vehicle.index_forward_axis,
            dt,
        ),
    ensures
        DynamicShapeCastVehicleController::all_can_travel(vehicle.wheels@)
            ==> DynamicShapeCastVehicleController::all_can_travel(after.wheels@),
        DynamicShapeCastVehicleController::all_settled(vehicle.wheels@)
            ==> DynamicShapeCastVehicleController::all_settled(after.wheels@),
{
    let outcome = vehicle.finish_outcome(bodies, colliders, dt);
    crate::vehicle::laws::friction::friction_changes_impulses_only(
        vehicle,
        vehicle.lifted_bodies(bodies),
        colliders,
        dt,
    );
    assert forall|i: int| 0 <= i < after.wheels@.len() implies (
    vehicle.wheels@[i].can_travel() ==> (#[trigger] after.wheels@[i]).can_travel()) && (
    vehicle.wheels@[i].is_settled() ==> after.wheels@[i].is_settled()) by {
        assert(crate::vehicle::friction::same_but_friction(outcome.wheels[i], vehicle.wheels@[i]));
    }
}

} // verus!
