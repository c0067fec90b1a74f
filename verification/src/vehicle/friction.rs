//! The friction between the tires and the ground.
use crate::bodies::{Collider, ColliderHandle, ColliderSet, RigidBody, RigidBodySet};
use crate::math::{Point, Vector};
use crate::scalar::{is_longer, Real};
use crate::vehicle::contact::{
    resolve_single_bilateral, resolve_single_unilateral, WheelContactPoint,
};
use crate::vehicle::controller::DynamicShapeCastVehicleController;
use crate::vehicle::shape_cast::min_norm;
use crate::vehicle::wheel::Wheel;
use vstd::prelude::*;

verus! {

pub open spec fn spec_static_friction_max_speed() -> Real {
    Real::ratio(1, 2)
}

/// The chassis speed under which a wheel that is not driven sticks.
#[verifier::when_used_as_spec(spec_static_friction_max_speed)]
pub fn static_friction_max_speed() -> (r: Real)
    ensures
        r == spec_static_friction_max_speed(),
{
    Real::ratio(1, 2)
}

pub open spec fn spec_static_friction_erp() -> Real {
    Real::ratio(1, 5)
}

/// The share of the drift from an anchor that is corrected per step.
#[verifier::when_used_as_spec(spec_static_friction_erp)]
pub fn static_friction_erp() -> (r: Real)
    ensures
        r == spec_static_friction_erp(),
{
    Real::ratio(1, 5)
}

pub open spec fn spec_max_static_friction_slip() -> Real {
    Real::ratio(1, 20)
}

/// The furthest a stuck contact drifts before its tire grips anew.
#[verifier::when_used_as_spec(spec_max_static_friction_slip)]
pub fn max_static_friction_slip() -> (r: Real)
    ensures
        r == spec_max_static_friction_slip(),
{
    Real::ratio(1, 20)
}

/// Whether a collider, if any, and the body that it is attached to, if any,
/// are in the sets.
pub open spec fn ground_is_known(
    ground: Option<ColliderHandle>,
    bodies: Seq<RigidBody>,
    colliders: Seq<Collider>,
) -> bool {
    ground matches Some(c) ==> {
        &&& c.is_in(colliders)
        &&& c.of(colliders).parent matches Some(b) ==> b.is_in(bodies)
    }
}

/// The body that the ground under a wheel is attached to.
pub open spec fn ground_body(
    ground: Option<ColliderHandle>,
    bodies: Seq<RigidBody>,
    colliders: Seq<Collider>,
) -> Option<RigidBody> {
    match ground {
        Some(c) => match c.of(colliders).parent {
            Some(b) => Some(b.of(bodies)),
            None => None,
        },
        None => None,
    }
}

/// The body behind a reference, if any.
pub open spec fn pointee(body: Option<&RigidBody>) -> Option<RigidBody> {
    match body {
        Some(b) => Some(*b),
        None => None,
    }
}

fn find_ground_body<'a>(
    ground: Option<ColliderHandle>,
    bodies: &'a RigidBodySet,
    colliders: &ColliderSet,
) -> (r: Option<&'a RigidBody>)
    requires
        ground_is_known(ground, bodies@, colliders@),
    ensures
        pointee(r) == ground_body(ground, bodies@, colliders@),
{
    match ground {
        Some(c) => match colliders.parent(c) {
            Some(b) => Some(bodies.get(b)),
            None => None,
        },
        None => None,
    }
}

/// Whether a body, if any, is moved by impulses.
pub open spec fn is_moving_ground(body: Option<RigidBody>) -> bool {
    body matches Some(b) && b.dynamic
}

/// The number of wheels that have ground under them.
pub open spec fn ground_count(wheels: Seq<Wheel>) -> nat
    decreases wheels.len(),
{
    if wheels.len() == 0 {
        0
    } else {
        ground_count(wheels.drop_last()) + (if wheels.last().has_ground() {
            1nat
        } else {
            0nat
        })
    }
}

impl Wheel {
    /// Whether the wheel has ground under it.
    pub open spec fn has_ground(self) -> bool {
        self.shape_cast_info.ground_object is Some
    }

    /// Whether the contact of the wheel can stick: a driven wheel is meant to
    /// travel, and a world-space point on a moving body is meaningless.
    pub open spec fn can_stick(self, ground: Option<RigidBody>, vehicle_speed: Real) -> bool {
        &&& self.has_ground()
        &&& self.engine_force == Real::zero()
        &&& vehicle_speed.lt(static_friction_max_speed())
        &&& !is_moving_ground(ground)
    }

    /// The point that a contact which sticks is stuck to.
    pub open spec fn held_anchor(self) -> Point {
        let contact = self.shape_cast_info.contact_point_ws;
        match self.static_friction_anchor {
            Some(anchor) => if max_static_friction_slip().lt(contact.sub(anchor).norm()) {
                contact
            } else {
                anchor
            },
            None => contact,
        }
    }

    /// The wheel with its anchor held or released, before any friction.
    pub open spec fn latched(self, ground: Option<RigidBody>, vehicle_speed: Real) -> Wheel {
        Wheel {
            static_friction_anchor: if self.can_stick(ground, vehicle_speed) {
                Some(self.held_anchor())
            } else {
                None
            },
            side_impulse: Real::zero(),
            forward_impulse: Real::zero(),
            ..self
        }
    }

    /// The direction of the axle along the ground.
    pub open spec fn side_direction(self) -> Vector {
        let normal = self.shape_cast_info.ground_normal_ws;
        let along = self.wheel_axle_ws.sub(normal.scale(self.wheel_axle_ws.dot(normal)));
        match along.try_normalize(min_norm()) {
            Some(v) => v,
            None => Vector::zeros(),
        }
    }

    /// The direction along the ground in which the wheel rolls.
    pub open spec fn forward_direction(self) -> Vector {
        let normal = self.shape_cast_info.ground_normal_ws;
        match normal.cross(self.side_direction()).try_normalize(
            min_norm(),
        ) {
            Some(v) => v,
            None => Vector::zeros(),
        }
    }

    /// The velocity along `direction` at which part of the contact's drift
    /// from its anchor was made in one step.
    pub open spec fn drift_velocity(self, direction: Vector, dt: Real) -> Real {
        match self.static_friction_anchor {
            Some(anchor) => self.shape_cast_info.contact_point_ws.sub(anchor).dot(direction).mul(
                static_friction_erp(),
            ).div(dt),
            None => Real::zero(),
        }
    }

    /// The impulse that damps the sideways motion of the contact, shared
    /// between the wheels on the ground.
    pub open spec fn side_friction(
        self,
        chassis: RigidBody,
        ground: Option<RigidBody>,
        num_wheels_on_ground: usize,
        dt: Real,
    ) -> Real {
        let contact = self.shape_cast_info.contact_point_ws;
        let impulse = if is_moving_ground(ground) {
            crate::vehicle::contact::bilateral_impulse(
                chassis,
                contact,
                ground->0,
                contact,
                self.side_direction(),
                Real::zero(),
            )
        } else {
            crate::vehicle::contact::unilateral_impulse(
                chassis,
                contact,
                self.side_direction(),
                self.drift_velocity(self.side_direction(), dt),
            )
        };
        impulse.mul(self.side_friction_stiffness).div(Real::from_count(num_wheels_on_ground))
    }

    /// The wheel with its side impulse computed.
    pub open spec fn side_resolved(
        self,
        chassis: RigidBody,
        ground: Option<RigidBody>,
        num_wheels_on_ground: usize,
        dt: Real,
    ) -> Wheel {
        if self.has_ground() {
            Wheel {
                side_impulse: self.side_friction(chassis, ground, num_wheels_on_ground, dt),
                ..self
            }
        } else {
            self
        }
    }

    pub open spec fn spec_grip(self, dt: Real) -> Real {
        self.wheel_suspension_force.mul(dt).mul(self.friction_slip)
    }

    /// The impulse that the tire's grip allows.
    #[verifier::when_used_as_spec(spec_grip)]
    pub fn grip(self, dt: Real) -> (r: Real)
        ensures
            r == self.spec_grip(dt),
    {
        self.wheel_suspension_force.mul(dt).mul(self.friction_slip)
    }

    pub open spec fn spec_holding_impulse(self, vehicle_speed: Real, dt: Real) -> Real {
        self.brake.max(
            if vehicle_speed.lt(static_friction_max_speed()) {
                self.grip(dt)
            } else {
                Real::zero()
            },
        )
    }

    /// The impulse with which a wheel that is not driven resists: the stronger
    /// of its brake and, when it sticks, of its grip.
    #[verifier::when_used_as_spec(spec_holding_impulse)]
    pub fn holding_impulse(self, vehicle_speed: Real, dt: Real) -> (r: Real)
        ensures
            r == self.spec_holding_impulse(vehicle_speed, dt),
    {
        let static_limit = if vehicle_speed.lt(static_friction_max_speed()) {
            self.grip(dt)
        } else {
            Real::zero()
        };
        self.brake.max(static_limit)
    }

    /// The impulse of the wheel along `forward`: that of its engine, or the
    /// one that holds its contact.
    pub open spec fn rolling_friction(
        self,
        forward: Vector,
        chassis: RigidBody,
        ground: Option<RigidBody>,
        num_wheels_on_ground: usize,
        vehicle_speed: Real,
        dt: Real,
    ) -> Real {
        if self.engine_force != Real::zero() {
            self.engine_force.mul(dt)
        } else {
            let contact = self.shape_cast_info.contact_point_ws;
            let max_impulse = self.holding_impulse(vehicle_speed, dt);
            let ground_response = match ground {
                Some(b) => crate::vehicle::contact::impulse_response(b, contact, forward),
                None => Real::zero(),
            };
            let ground_velocity = match ground {
                Some(b) => b.velocity_at_point(contact),
                None => Vector::zeros(),
            };
            let mass = Real::one().div(
                crate::vehicle::contact::impulse_response(chassis, contact, forward).add(
                    ground_response,
                ),
            );
            let sliding = forward.dot(chassis.velocity_at_point(contact).sub(ground_velocity));
            sliding.add(self.drift_velocity(forward, dt)).neg().mul(mass).div(
                Real::from_count(num_wheels_on_ground),
            ).clamp(max_impulse.neg(), max_impulse)
        }
    }

    /// Whether a wheel that is not driven, pushed by `rolling_friction`, has
    /// spent all that it resists with.
    pub open spec fn broke_traction(
        self,
        rolling_friction: Real,
        vehicle_speed: Real,
        dt: Real,
    ) -> bool {
        &&& self.engine_force == Real::zero()
        &&& self.static_friction_anchor is Some
        &&& self.holding_impulse(vehicle_speed, dt).le(rolling_friction.abs())
    }

    /// The impulse that loads the tire when the wheel rolls with
    /// `rolling_friction`, half of it being counted: its parts along the wheel
    /// and across it.
    pub open spec fn tire_load(self, rolling_friction: Real) -> Vector {
        Vector {
            x: rolling_friction.mul(Real::ratio(1, 2)),
            y: self.side_impulse,
            z: Real::zero(),
        }
    }

    /// Whether the tire slides when the wheel rolls with `rolling_friction`:
    /// whether its load is larger than its grip.
    pub open spec fn slides(self, rolling_friction: Real, dt: Real) -> bool {
        let load = self.tire_load(rolling_friction);
        self.has_ground() && self.grip(dt).bits * self.grip(dt).bits < load.x.bits * load.x.bits
            + load.y.bits * load.y.bits
    }

    /// The wheel with its forward impulse and its share of grip computed.
    pub open spec fn rolled(
        self,
        forward: Vector,
        chassis: RigidBody,
        ground: Option<RigidBody>,
        num_wheels_on_ground: usize,
        vehicle_speed: Real,
        dt: Real,
    ) -> Wheel {
        if self.has_ground() {
            let rolling = self.rolling_friction(
                forward,
                chassis,
                ground,
                num_wheels_on_ground,
                vehicle_speed,
                dt,
            );
            Wheel {
                static_friction_anchor: if self.broke_traction(rolling, vehicle_speed, dt) {
                    Some(self.shape_cast_info.contact_point_ws)
                } else {
                    self.static_friction_anchor
                },
                forward_impulse: rolling,
                skid_info: if self.slides(rolling, dt) {
                    self.grip(dt).div(self.tire_load(rolling).norm())
                } else {
                    Real::one()
                },
                ..self
            }
        } else {
            Wheel { forward_impulse: Real::zero(), skid_info: Real::one(), ..self }
        }
    }

    /// The wheel with its impulses reduced to what its tire grips.
    pub open spec fn skidded(self) -> Wheel {
        if self.side_impulse != Real::zero() && self.skid_info.lt(Real::one()) {
            Wheel {
                forward_impulse: self.forward_impulse.mul(self.skid_info),
                side_impulse: self.side_impulse.mul(self.skid_info),
                ..self
            }
        } else {
            self
        }
    }

    /// The contact point raised by the given share of its depth below the
    /// center of mass.
    pub open spec fn raised_contact(self, chassis: RigidBody, up: Vector, share: Real) -> Point {
        let contact = self.shape_cast_info.contact_point_ws;
        let depth = up.dot(contact.sub(chassis.center_of_mass()));
        contact.sub(up.scale(depth.mul(share)))
    }

    /// The chassis after the impulses of the wheel along its directions.
    pub open spec fn pushes(
        self,
        chassis: RigidBody,
        up: Vector,
        forward: Vector,
        side: Vector,
    ) -> RigidBody {
        let after_forward = if self.forward_impulse != Real::zero() {
            chassis.struck(
                forward.scale(self.forward_impulse),
                self.raised_contact(chassis, up, self.anti_squat),
            )
        } else {
            chassis
        };
        if self.side_impulse != Real::zero() {
            after_forward.struck(
                side.scale(self.side_impulse),
                self.raised_contact(chassis, up, Real::one().sub(self.roll_influence)),
            )
        } else {
            after_forward
        }
    }
}

/// Whether the two wheels differ at most by what friction computes.
pub open spec fn same_but_friction(a: Wheel, b: Wheel) -> bool {
    a == Wheel {
        static_friction_anchor: a.static_friction_anchor,
        forward_impulse: a.forward_impulse,
        side_impulse: a.side_impulse,
        skid_info: a.skid_info,
        ..b
    }
}

/// The wheels with their anchors held or released.
pub open spec fn latched_wheels(
    wheels: Seq<Wheel>,
    bodies: Seq<RigidBody>,
    colliders: Seq<Collider>,
    vehicle_speed: Real,
) -> Seq<Wheel> {
    Seq::new(
        wheels.len(),
        |i: int|
            wheels[i].latched(
                ground_body(wheels[i].shape_cast_info.ground_object, bodies, colliders),
                vehicle_speed,
            ),
    )
}

/// The wheels with their side impulses computed.
pub open spec fn side_resolved_wheels(
    wheels: Seq<Wheel>,
    chassis: RigidBody,
    bodies: Seq<RigidBody>,
    colliders: Seq<Collider>,
    num_wheels_on_ground: usize,
    dt: Real,
) -> Seq<Wheel> {
    Seq::new(
        wheels.len(),
        |i: int|
            wheels[i].side_resolved(
                chassis,
                ground_body(wheels[i].shape_cast_info.ground_object, bodies, colliders),
                num_wheels_on_ground,
                dt,
            ),
    )
}

/// The forward directions of the wheels: those along the ground where there is
/// one, and the former ones, if any, elsewhere.
pub open spec fn forward_directions(wheels: Seq<Wheel>, former: Seq<Vector>) -> Seq<Vector> {
    Seq::new(
        wheels.len(),
        |i: int|
            if wheels[i].has_ground() {
                wheels[i].forward_direction()
            } else if i < former.len() {
                former[i]
            } else {
                Vector::zeros()
            },
    )
}

/// The side directions of the wheels: those along the ground where there is
/// one, and the former ones, if any, elsewhere.
pub open spec fn side_directions(wheels: Seq<Wheel>, former: Seq<Vector>) -> Seq<Vector> {
    Seq::new(
        wheels.len(),
        |i: int|
            if wheels[i].has_ground() {
                wheels[i].side_direction()
            } else if i < former.len() {
                former[i]
            } else {
                Vector::zeros()
            },
    )
}

/// The wheels with their forward impulses and shares of grip computed.
pub open spec fn rolled_wheels(
    wheels: Seq<Wheel>,
    forward_ws: Seq<Vector>,
    chassis: RigidBody,
    bodies: Seq<RigidBody>,
    colliders: Seq<Collider>,
    num_wheels_on_ground: usize,
    vehicle_speed: Real,
    dt: Real,
) -> Seq<Wheel> {
    Seq::new(
        wheels.len(),
        |i: int|
            wheels[i].rolled(
                forward_ws[i],
                chassis,
                ground_body(wheels[i].shape_cast_info.ground_object, bodies, colliders),
                num_wheels_on_ground,
                vehicle_speed,
                dt,
            ),
    )
}

/// Whether some tire slides.
pub open spec fn some_tire_slides(wheels: Seq<Wheel>, dt: Real) -> bool {
    exists|i: int|
        0 <= i < wheels.len() && #[trigger] wheels[i].slides(wheels[i].forward_impulse, dt)
}

/// The wheels with the impulses that their tires apply.
pub open spec fn skidded_wheels(wheels: Seq<Wheel>, sliding: bool) -> Seq<Wheel> {
    if sliding {
        Seq::new(wheels.len(), |i: int| wheels[i].skidded())
    } else {
        wheels
    }
}

/// The chassis after the impulses of the first `n` wheels.
pub open spec fn pushed_chassis(
    chassis: RigidBody,
    up: Vector,
    wheels: Seq<Wheel>,
    forward_ws: Seq<Vector>,
    axle: Seq<Vector>,
    n: nat,
) -> RigidBody
    decreases n,
{
    if n == 0 {
        chassis
    } else {
        wheels[n - 1].pushes(
            pushed_chassis(chassis, up, wheels, forward_ws, axle, (n - 1) as nat),
            up,
            forward_ws[n - 1],
            axle[n - 1],
        )
    }
}

/// What friction makes of a vehicle.
pub struct FrictionOutcome {
    pub wheels: Seq<Wheel>,
    pub forward_ws: Seq<Vector>,
    pub axle: Seq<Vector>,
    pub chassis: RigidBody,
}

impl DynamicShapeCastVehicleController {
    /// Whether every body and collider that friction reads is in its set.
    pub open spec fn grounds_known(self, bodies: Seq<RigidBody>, colliders: Seq<Collider>) -> bool {
        forall|i: int|
            0 <= i < self.wheels@.len() ==> ground_is_known(
                (#[trigger] self.wheels@[i]).shape_cast_info.ground_object,
                bodies,
                colliders,
            )
    }

    /// Whether every wheel that holds its contact does so with an impulse that
    /// is not negative.
    pub open spec fn holds_are_positive(self, dt: Real) -> bool {
        forall|i: int|
            0 <= i < self.wheels@.len() && (#[trigger] self.wheels@[i]).has_ground()
                && self.wheels@[i].engine_force == Real::zero() ==> Real::zero().le(
                self.wheels@[i].holding_impulse(self.chassis_speed, dt),
            )
    }

    /// What friction makes of the vehicle in one step.
    pub open spec fn friction_outcome(
        self,
        bodies: Seq<RigidBody>,
        colliders: Seq<Collider>,
        dt: Real,
    ) -> FrictionOutcome {
        if self.wheels@.len() == 0 {
            FrictionOutcome {
                wheels: self.wheels@,
                forward_ws: self.forward_ws@,
                axle: self.axle@,
                chassis: self.chassis.of(bodies),
            }
        } else {
            self.wheeled_friction_outcome(bodies, colliders, dt)
        }
    }

    /// The wheels with the impulses that they ask their tires for.
    pub open spec fn loaded_wheels(
        self,
        bodies: Seq<RigidBody>,
        colliders: Seq<Collider>,
        dt: Real,
    ) -> Seq<Wheel> {
        let chassis = self.chassis.of(bodies);
        let count = ground_count(self.wheels@) as usize;
        let latched = latched_wheels(self.wheels@, bodies, colliders, self.chassis_speed);
        rolled_wheels(
            side_resolved_wheels(latched, chassis, bodies, colliders, count, dt),
            forward_directions(latched, self.forward_ws@),
            chassis,
            bodies,
            colliders,
            count,
            self.chassis_speed,
            dt,
        )
    }

    /// A wheel with the impulses that it asks its tire for.
    pub open spec fn loaded_wheel(
        self,
        bodies: Seq<RigidBody>,
        colliders: Seq<Collider>,
        dt: Real,
        i: int,
    ) -> Wheel {
        self.loaded_wheels(bodies, colliders, dt)[i]
    }

    /// What friction makes of a vehicle that has wheels.
    pub open spec fn wheeled_friction_outcome(
        self,
        bodies: Seq<RigidBody>,
        colliders: Seq<Collider>,
        dt: Real,
    ) -> FrictionOutcome {
        let chassis = self.chassis.of(bodies);
        let latched = latched_wheels(self.wheels@, bodies, colliders, self.chassis_speed);
        let forward_ws = forward_directions(latched, self.forward_ws@);
        let axle = side_directions(latched, self.axle@);
        let loaded = self.loaded_wheels(bodies, colliders, dt);
        let wheels = skidded_wheels(loaded, some_tire_slides(loaded, dt));
        let up = chassis.position.rotation.rotate(Vector::ith(self.index_up_axis, Real::one()));
        FrictionOutcome {
            wheels,
            forward_ws,
            axle,
            chassis: pushed_chassis(chassis, up, wheels, forward_ws, axle, wheels.len()),
        }
    }

    /// Holds or releases the anchor of every wheel, and counts the wheels on
    /// the ground.
    fn latch_anchors(&mut self, bodies: &RigidBodySet, colliders: &ColliderSet) -> (r: usize)
        requires
            old(self).grounds_known(bodies@, colliders@),
        ensures
            final(self).wheels@ == latched_wheels(
                old(self).wheels@,
                bodies@,
                colliders@,
                old(self).chassis_speed,
            ),
            final(self).same_but_wheels(*old(self)),
            r == ground_count(old(self).wheels@),
    {
        let vehicle_speed = self.chassis_speed;
        let mut num_wheels_on_ground: usize = 0;
        let mut i: usize = 0;
        while i < self.wheels.len()
            invariant
                i <= self.wheels@.len(),
                self.wheels@.len() == old(self).wheels@.len(),
                old(self).grounds_known(bodies@, colliders@),
                vehicle_speed == old(self).chassis_speed,
                num_wheels_on_ground <= i,
                num_wheels_on_ground == ground_count(old(self).wheels@.take(i as int)),
                forall|j: int|
                    0 <= j < i ==> self.wheels@[j] == latched_wheels(
                        old(self).wheels@,
                        bodies@,
                        colliders@,
                        vehicle_speed,
                    )[j],
                forall|j: int|
                    i <= j < self.wheels@.len() ==> self.wheels@[j] == old(self).wheels@[j],
                self.same_but_wheels(*old(self)),
            decreases self.wheels@.len() - i,
        {
            assert(old(self).wheels@.take(i + 1).drop_last() =~= old(self).wheels@.take(i as int));
            let mut wheel = self.wheels[i];
            let ground_object = wheel.shape_cast_info.ground_object;
            if ground_object.is_some() {
                num_wheels_on_ground = num_wheels_on_ground + 1;
            }
            assert(ground_is_known(
                old(self).wheels@[i as int].shape_cast_info.ground_object,
                bodies@,
                colliders@,
            ));
            let moving = match find_ground_body(ground_object, bodies, colliders) {
                Some(b) => b.dynamic,
                None => false,
            };
            let can_stick = ground_object.is_some() && wheel.engine_force == Real::zero()
                && vehicle_speed.lt(static_friction_max_speed()) && !moving;
            if can_stick {
                let contact = wheel.shape_cast_info.contact_point_ws;
                let anchor = match wheel.static_friction_anchor {
                    Some(anchor) => anchor,
                    None => contact,
                };
                proof {
                    lemma_no_distance(contact);
                }
                // A tire sticks only up to a finite slip distance; past that it
                // has broken traction and grips somewhere new.
                if max_static_friction_slip().lt(contact.sub(anchor).norm()) {
                    wheel.static_friction_anchor = Some(contact);
                } else {
                    wheel.static_friction_anchor = Some(anchor);
                }
            } else {
                wheel.static_friction_anchor = None;
            }
            wheel.side_impulse = Real::zero();
            wheel.forward_impulse = Real::zero();
            self.wheels.set(i, wheel);
            i = i + 1;
        }
        assert(old(self).wheels@.take(i as int) =~= old(self).wheels@);
        num_wheels_on_ground
    }
}

impl Wheel {
    /// The directions along the ground: that of the axle, and that in which
    /// the wheel rolls.
    pub fn friction_directions(&self) -> (r: (Vector, Vector))
        ensures
            r == (self.side_direction(), self.forward_direction()),
    {
        let surf_normal_ws = self.shape_cast_info.ground_normal_ws;
        let proj = self.wheel_axle_ws.dot(surf_normal_ws);
        let along = self.wheel_axle_ws.sub(surf_normal_ws.scale(proj));
        let axle = match along.try_normalize(min_norm()) {
            Some(v) => v,
            None => Vector::zeros(),
        };
        let forward = match surf_normal_ws.cross(axle).try_normalize(min_norm()) {
            Some(v) => v,
            None => Vector::zeros(),
        };
        (axle, forward)
    }

    /// Computes the side impulse of a wheel on the ground.
    fn resolve_side(
        &mut self,
        chassis: &RigidBody,
        ground: Option<&RigidBody>,
        num_wheels_on_ground: usize,
        dt: Real,
    )
        ensures
            *final(self) == old(self).side_resolved(
                *chassis,
                pointee(ground),
                num_wheels_on_ground,
                dt,
            ),
    {
        if self.shape_cast_info.ground_object.is_none() {
            return;
        }
        let (axle, _) = self.friction_directions();
        let contact = self.shape_cast_info.contact_point_ws;
        let lateral_bias = match self.static_friction_anchor {
            Some(anchor) => contact.sub(anchor).dot(axle).mul(static_friction_erp()).div(dt),
            None => Real::zero(),
        };
        let impulse = match ground {
            Some(b) if b.dynamic => resolve_single_bilateral(
                chassis,
                contact,
                b,
                contact,
                axle,
                Real::zero(),
            ),
            _ => resolve_single_unilateral(chassis, contact, axle, lateral_bias),
        };
        // Every wheel on the ground cancels the same motion: each takes its
        // share.
        self.side_impulse = impulse.mul(self.side_friction_stiffness).div(
            Real::from_count(num_wheels_on_ground),
        );
    }

    /// Computes the impulse of a wheel on the ground that is not driven, and
    /// grips anew where the tire broke traction.
    fn hold(
        &mut self,
        forward: Vector,
        chassis: &RigidBody,
        ground: Option<&RigidBody>,
        num_wheels_on_ground: usize,
        vehicle_speed: Real,
        dt: Real,
    ) -> (r: Real)
        requires
            old(self).engine_force == Real::zero(),
            Real::zero().le(old(self).holding_impulse(vehicle_speed, dt)),
        ensures
            r == old(self).rolling_friction(
                forward,
                *chassis,
                pointee(ground),
                num_wheels_on_ground,
                vehicle_speed,
                dt,
            ),
            *final(self) == (Wheel {
                static_friction_anchor: if old(self).broke_traction(r, vehicle_speed, dt) {
                    Some(old(self).shape_cast_info.contact_point_ws)
                } else {
                    old(self).static_friction_anchor
                },
                ..*old(self)
            }),
    {
        let contact = self.shape_cast_info.contact_point_ws;
        let max_impulse = self.holding_impulse(vehicle_speed, dt);
        let bias_velocity = match self.static_friction_anchor {
            Some(anchor) => contact.sub(anchor).dot(forward).mul(static_friction_erp()).div(dt),
            None => Real::zero(),
        };
        let contact_pt = WheelContactPoint::new(chassis, ground, contact, forward, max_impulse);
        let rolling_friction = contact_pt.calc_rolling_friction(
            num_wheels_on_ground,
            bias_velocity,
        );
        // Saturating the limit means the tire broke traction: the old anchor
        // no longer describes where it is stuck.
        if self.static_friction_anchor.is_some() && max_impulse.le(rolling_friction.abs()) {
            self.static_friction_anchor = Some(contact);
        }
        rolling_friction
    }

    /// Computes the forward impulse and the share of grip of a wheel, and
    /// tells whether its tire slides.
    fn roll(
        &mut self,
        forward: Vector,
        chassis: &RigidBody,
        ground: Option<&RigidBody>,
        num_wheels_on_ground: usize,
        vehicle_speed: Real,
        dt: Real,
    ) -> (r: bool)
        requires
            old(self).has_ground() && old(self).engine_force == Real::zero()
                ==> Real::zero().le(old(self).holding_impulse(vehicle_speed, dt)),
        ensures
            *final(self) == old(self).rolled(
                forward,
                *chassis,
                pointee(ground),
                num_wheels_on_ground,
                vehicle_speed,
                dt,
            ),
            r == final(self).slides(final(self).forward_impulse, dt),
    {
        if self.shape_cast_info.ground_object.is_none() {
            self.forward_impulse = Real::zero();
            self.skid_info = Real::one();
            return false;
        }
        let rolling_friction = if self.engine_force != Real::zero() {
            self.engine_force.mul(dt)
        } else {
            self.hold(forward, chassis, ground, num_wheels_on_ground, vehicle_speed, dt)
        };
        self.forward_impulse = rolling_friction;
        self.skid_info = Real::one();
        let max_imp = self.grip(dt);
        let load = Vector {
            x: rolling_friction.mul(Real::ratio(1, 2)),
            y: self.side_impulse,
            z: Real::zero(),
        };
        if is_longer(load.x.bits, load.y.bits, 0, max_imp.bits) {
            self.skid_info = max_imp.div(load.norm());
            true
        } else {
            false
        }
    }
}

proof fn lemma_some_tire_slides_push(wheels: Seq<Wheel>, wheel: Wheel, dt: Real)
    ensures
        some_tire_slides(wheels.push(wheel), dt) <==> some_tire_slides(wheels, dt)
            || wheel.slides(wheel.forward_impulse, dt),
{
    let all = wheels.push(wheel);
    if some_tire_slides(wheels, dt) {
        let i = choose|i: int|
            0 <= i < wheels.len() && #[trigger] wheels[i].slides(wheels[i].forward_impulse, dt);
        assert(all[i].slides(all[i].forward_impulse, dt));
    }
    if wheel.slides(wheel.forward_impulse, dt) {
        let i = wheels.len() as int;
        assert(all[i].slides(all[i].forward_impulse, dt));
    }
    if some_tire_slides(all, dt) {
        let i = choose|i: int|
            0 <= i < all.len() && #[trigger] all[i].slides(all[i].forward_impulse, dt);
        if i < wheels.len() {
            assert(wheels[i].slides(wheels[i].forward_impulse, dt));
        }
    }
}

/// The former directions, cut or completed to `n`.
pub open spec fn resized(former: Seq<Vector>, n: nat) -> Seq<Vector> {
    Seq::new(
        n,
        |i: int|
            if i < former.len() {
                former[i]
            } else {
                Vector::zeros()
            },
    )
}

fn resize_directions(directions: &mut Vec<Vector>, n: usize)
    ensures
        final(directions)@ == resized(old(directions)@, n as nat),
{
    directions.truncate(n);
    while directions.len() < n
        invariant
            directions@.len() <= n,
            forall|i: int|
                0 <= i < directions@.len() ==> directions@[i] == resized(
                    old(directions)@,
                    n as nat,
                )[i],
            directions@.len() >= old(directions)@.len() || directions@.len() == n,
        decreases n - directions@.len(),
    {
        directions.push(Vector::zeros());
    }
}

impl DynamicShapeCastVehicleController {
    /// Computes the directions of every wheel on the ground.
    fn update_directions(&mut self)
        ensures
            final(self).wheels == old(self).wheels,
            final(self).forward_ws@ == forward_directions(
                old(self).wheels@,
                old(self).forward_ws@,
            ),
            final(self).axle@ == side_directions(old(self).wheels@, old(self).axle@),
            final(self).current_vehicle_speed == old(self).current_vehicle_speed,
            final(self).chassis_speed == old(self).chassis_speed,
            final(self).chassis == old(self).chassis,
            final(self).index_up_axis == old(self).index_up_axis,
            final(self).index_forward_axis == old(self).index_forward_axis,
    {
        let num_wheels = self.wheels.len();
        resize_directions(&mut self.forward_ws, num_wheels);
        resize_directions(&mut self.axle, num_wheels);
        let mut i: usize = 0;
        while i < num_wheels
            invariant
                i <= num_wheels,
                self.wheels == old(self).wheels,
                num_wheels == self.wheels@.len(),
                num_wheels == self.forward_ws@.len(),
                num_wheels == self.axle@.len(),
                forall|j: int|
                    0 <= j < i ==> self.forward_ws@[j] == forward_directions(
                        old(self).wheels@,
                        old(self).forward_ws@,
                    )[j],
                forall|j: int|
                    0 <= j < i ==> self.axle@[j] == side_directions(
                        old(self).wheels@,
                        old(self).axle@,
                    )[j],
                forall|j: int|
                    i <= j < num_wheels ==> self.forward_ws@[j] == resized(
                        old(self).forward_ws@,
                        num_wheels as nat,
                    )[j],
                forall|j: int|
                    i <= j < num_wheels ==> self.axle@[j] == resized(
                        old(self).axle@,
                        num_wheels as nat,
                    )[j],
                self.current_vehicle_speed == old(self).current_vehicle_speed,
                self.chassis_speed == old(self).chassis_speed,
                self.chassis == old(self).chassis,
                self.index_up_axis == old(self).index_up_axis,
                self.index_forward_axis == old(self).index_forward_axis,
            decreases num_wheels - i,
        {
            let wheel = self.wheels[i];
            if wheel.shape_cast_info.ground_object.is_some() {
                let (axle, forward) = wheel.friction_directions();
                self.axle.set(i, axle);
                self.forward_ws.set(i, forward);
            }
            i = i + 1;
        }
    }

    /// Computes the side impulse of every wheel.
    fn resolve_side_friction(
        &mut self,
        bodies: &RigidBodySet,
        colliders: &ColliderSet,
        num_wheels_on_ground: usize,
        dt: Real,
    )
        requires
            old(self).grounds_known(bodies@, colliders@),
            old(self).chassis.is_in(bodies@),
        ensures
            final(self).wheels@ == side_resolved_wheels(
                old(self).wheels@,
                old(self).chassis.of(bodies@),
                bodies@,
                colliders@,
                num_wheels_on_ground,
                dt,
            ),
            final(self).same_but_wheels(*old(self)),
    {
        let chassis = bodies.get(self.chassis);
        let mut i: usize = 0;
        while i < self.wheels.len()
            invariant
                i <= self.wheels@.len(),
                self.wheels@.len() == old(self).wheels@.len(),
                old(self).grounds_known(bodies@, colliders@),
                *chassis == old(self).chassis.of(bodies@),
                forall|j: int|
                    0 <= j < i ==> self.wheels@[j] == side_resolved_wheels(
                        old(self).wheels@,
                        *chassis,
                        bodies@,
                        colliders@,
                        num_wheels_on_ground,
                        dt,
                    )[j],
                forall|j: int|
                    i <= j < self.wheels@.len() ==> self.wheels@[j] == old(self).wheels@[j],
                self.same_but_wheels(*old(self)),
            decreases self.wheels@.len() - i,
        {
            let mut wheel = self.wheels[i];
            assert(wheel == old(self).wheels@[i as int]);
            let ground_object = wheel.shape_cast_info.ground_object;
            let ground = find_ground_body(ground_object, bodies, colliders);
            wheel.resolve_side(chassis, ground, num_wheels_on_ground, dt);
            self.wheels.set(i, wheel);
            i = i + 1;
        }
    }

    /// Computes the forward impulse and the share of grip of every wheel, and
    /// tells whether some tire slides.
    fn resolve_rolling_friction(
        &mut self,
        bodies: &RigidBodySet,
        colliders: &ColliderSet,
        num_wheels_on_ground: usize,
        dt: Real,
    ) -> (r: bool)
        requires
            old(self).grounds_known(bodies@, colliders@),
            old(self).holds_are_positive(dt),
            old(self).chassis.is_in(bodies@),
            old(self).forward_ws@.len() == old(self).wheels@.len(),
        ensures
            final(self).wheels@ == rolled_wheels(
                old(self).wheels@,
                old(self).forward_ws@,
                old(self).chassis.of(bodies@),
                bodies@,
                colliders@,
                num_wheels_on_ground,
                old(self).chassis_speed,
                dt,
            ),
            final(self).same_but_wheels(*old(self)),
            r == some_tire_slides(final(self).wheels@, dt),
    {
        let num_wheels = self.wheels.len();
        let vehicle_speed = self.chassis_speed;
        let chassis = bodies.get(self.chassis);
        let mut sliding = false;
        let mut wheel_id: usize = 0;
        while wheel_id < num_wheels
            invariant
                wheel_id <= num_wheels,
                num_wheels == self.wheels@.len(),
                num_wheels == old(self).wheels@.len(),
                num_wheels == old(self).forward_ws@.len(),
                vehicle_speed == old(self).chassis_speed,
                old(self).grounds_known(bodies@, colliders@),
                old(self).holds_are_positive(dt),
                *chassis == old(self).chassis.of(bodies@),
                self.same_but_wheels(*old(self)),
                forall|j: int|
                    0 <= j < wheel_id ==> self.wheels@[j] == rolled_wheels(
                        old(self).wheels@,
                        old(self).forward_ws@,
                        *chassis,
                        bodies@,
                        colliders@,
                        num_wheels_on_ground,
                        vehicle_speed,
                        dt,
                    )[j],
                forall|j: int|
                    wheel_id <= j < num_wheels ==> self.wheels@[j] == old(self).wheels@[j],
                sliding == some_tire_slides(self.wheels@.take(wheel_id as int), dt),
            decreases num_wheels - wheel_id,
        {
            let ghost before = self.wheels@;
            let mut wheel = self.wheels[wheel_id];
            assert(wheel == old(self).wheels@[wheel_id as int]);
            let ground_object = wheel.shape_cast_info.ground_object;
            let forward = self.forward_ws[wheel_id];
            let ground = find_ground_body(ground_object, bodies, colliders);
            let slides = wheel.roll(
                forward,
                chassis,
                ground,
                num_wheels_on_ground,
                vehicle_speed,
                dt,
            );
            if slides {
                sliding = true;
            }
            let ghost rolled = wheel;
            self.wheels.set(wheel_id, wheel);
            proof {
                lemma_some_tire_slides_push(before.take(wheel_id as int), rolled, dt);
                assert(self.wheels@.take(wheel_id + 1) =~= before.take(wheel_id as int).push(
                    rolled,
                ));
            }
            wheel_id = wheel_id + 1;
        }
        assert(self.wheels@.take(wheel_id as int) =~= self.wheels@);
        sliding
    }
}

impl Wheel {
    /// Reduces the impulses of the wheel to what its tire grips.
    fn skid(&mut self)
        ensures
            *final(self) == old(self).skidded(),
    {
        if self.side_impulse != Real::zero() && self.skid_info.lt(Real::one()) {
            self.forward_impulse = self.forward_impulse.mul(self.skid_info);
            self.side_impulse = self.side_impulse.mul(self.skid_info);
        }
    }

    /// Applies the impulses of the wheel to the chassis, at points raised from
    /// the contact towards the height of the center of mass.
    fn push(&self, chassis: &mut RigidBody, chassis_up: Vector, forward: Vector, side: Vector)
        ensures
            *final(chassis) == self.pushes(*old(chassis), chassis_up, forward, side),
    {
        let contact_point = self.shape_cast_info.contact_point_ws;
        let to_contact_up = chassis_up.dot(contact_point.sub(chassis.center_of_mass()));
        if self.forward_impulse != Real::zero() {
            let forward_point = contact_point.sub(
                chassis_up.scale(to_contact_up.mul(self.anti_squat)),
            );
            chassis.apply_impulse_at_point(forward.scale(self.forward_impulse), forward_point);
        }
        if self.side_impulse != Real::zero() {
            let side_point = contact_point.sub(
                chassis_up.scale(to_contact_up.mul(Real::one().sub(self.roll_influence))),
            );
            chassis.apply_impulse_at_point(side.scale(self.side_impulse), side_point);
        }
    }
}

impl DynamicShapeCastVehicleController {
    /// Reduces the impulses of the wheels to what their tires grip.
    fn skid_wheels(&mut self)
        ensures
            final(self).wheels@ == skidded_wheels(old(self).wheels@, true),
            final(self).same_but_wheels(*old(self)),
    {
        let mut i: usize = 0;
        while i < self.wheels.len()
            invariant
                i <= self.wheels@.len(),
                self.wheels@.len() == old(self).wheels@.len(),
                forall|j: int| 0 <= j < i ==> self.wheels@[j] == old(self).wheels@[j].skidded(),
                forall|j: int|
                    i <= j < self.wheels@.len() ==> self.wheels@[j] == old(self).wheels@[j],
                self.same_but_wheels(*old(self)),
            decreases self.wheels@.len() - i,
        {
            let mut wheel = self.wheels[i];
            wheel.skid();
            self.wheels.set(i, wheel);
            i = i + 1;
        }
    }

    /// Applies the impulses of all the wheels to the chassis.
    #[verifier::spinoff_prover]
    fn push_chassis(&self, chassis: &mut RigidBody)
        requires
            self.index_up_axis < 3,
            self.forward_ws@.len() == self.wheels@.len(),
            self.axle@.len() == self.wheels@.len(),
        ensures
            *final(chassis) == pushed_chassis(
                *old(chassis),
                old(chassis).position.rotation.rotate(
                    Vector::ith(self.index_up_axis, Real::one()),
                ),
                self.wheels@,
                self.forward_ws@,
                self.axle@,
                self.wheels@.len(),
            ),
    {
        let chassis_up = chassis.position.rotation.rotate(
            Vector::ith(self.index_up_axis, Real::one()),
        );
        let mut wheel_id: usize = 0;
        while wheel_id < self.wheels.len()
            invariant
                wheel_id <= self.wheels@.len(),
                self.forward_ws@.len() == self.wheels@.len(),
                self.axle@.len() == self.wheels@.len(),
                *chassis == pushed_chassis(
                    *old(chassis),
                    chassis_up,
                    self.wheels@,
                    self.forward_ws@,
                    self.axle@,
                    wheel_id as nat,
                ),
            decreases self.wheels@.len() - wheel_id,
        {
            let wheel = self.wheels[wheel_id];
            wheel.push(chassis, chassis_up, self.forward_ws[wheel_id], self.axle[wheel_id]);
            wheel_id = wheel_id + 1;
        }
        assert(wheel_id as nat == self.wheels@.len());
    }

    /// Computes the friction of every tire and applies it to the chassis. A
    /// vehicle without wheels is left as it is.
    pub fn update_friction(
        &mut self,
        bodies: &mut RigidBodySet,
        colliders: &ColliderSet,
        dt: Real,
    )
        requires
            old(self).index_up_axis < 3,
            old(self).chassis.is_in(old(bodies)@),
            old(self).grounds_known(old(bodies)@, colliders@),
            old(self).holds_are_positive(dt),
        ensures
            ({
                let outcome = old(self).friction_outcome(old(bodies)@, colliders@, dt);
                &&& final(self).wheels@ == outcome.wheels
                &&& final(self).forward_ws@ == outcome.forward_ws
                &&& final(self).axle@ == outcome.axle
                &&& final(bodies)@ == old(bodies)@.update(
                    old(self).chassis.index as int,
                    outcome.chassis,
                )
            }),
            final(self).current_vehicle_speed == old(self).current_vehicle_speed,
            final(self).chassis_speed == old(self).chassis_speed,
            final(self).chassis == old(self).chassis,
            final(self).index_up_axis == old(self).index_up_axis,
            final(self).index_forward_axis == old(self).index_forward_axis,
    {
        if self.wheels.len() == 0 {
            return;
        }
        let num_wheels_on_ground = self.latch_anchors(bodies, colliders);
        proof {
            assert forall|i: int| 0 <= i < self.wheels@.len() implies ground_is_known(
                (#[trigger] self.wheels@[i]).shape_cast_info.ground_object,
                bodies@,
                colliders@,
            ) by {
                assert(ground_is_known(
                    old(self).wheels@[i].shape_cast_info.ground_object,
                    bodies@,
                    colliders@,
                ));
            }
        }
        self.update_directions();
        let ghost latched = self.wheels@;
        self.resolve_side_friction(bodies, colliders, num_wheels_on_ground, dt);
        proof {
            assert forall|i: int| 0 <= i < self.wheels@.len() implies ground_is_known(
                (#[trigger] self.wheels@[i]).shape_cast_info.ground_object,
                bodies@,
                colliders@,
            ) by {
                assert(ground_is_known(
                    latched[i].shape_cast_info.ground_object,
                    bodies@,
                    colliders@,
                ));
            }
            let speed = self.chassis_speed;
            assert forall|i: int|
                0 <= i < self.wheels@.len() && (#[trigger] self.wheels@[i]).has_ground()
                    && self.wheels@[i].engine_force == Real::zero() implies Real::zero().le(
                self.wheels@[i].holding_impulse(speed, dt),
            ) by {
                let wheel = old(self).wheels@[i];
                assert(wheel.has_ground());
                assert(self.wheels@[i].holding_impulse(speed, dt) == wheel.holding_impulse(
                    speed,
                    dt,
                ));
            }
        }
        let sliding = self.resolve_rolling_friction(bodies, colliders, num_wheels_on_ground, dt);
        if sliding {
            self.skid_wheels();
        }
        let mut chassis = *bodies.get(self.chassis);
        self.push_chassis(&mut chassis);
        bodies.set(self.chassis, chassis);
    }
}

/// A point is at no distance of itself.
pub proof fn lemma_no_distance(p: Point)
    ensures
        p.sub(p).norm() == Real::zero(),
{
    assert(p.sub(p) == Vector::zeros());
    assert(crate::scalar::is_floor_sqrt(0, 0)) by {
        assert(0nat * 0nat <= 0nat < (0nat + 1) * (0nat + 1)) by (nonlinear_arith);
    }
    crate::scalar::lemma_floor_sqrt_unique(0, 0);
    assert(Vector::zeros().squared_units() == 0) by {
        assert(0int * 0int == 0) by (nonlinear_arith);
    }
}

} // verus!
