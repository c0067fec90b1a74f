//! The rigid-bodies and colliders that a vehicle reads and pushes.
use crate::math::{Isometry, Point, SdpMatrix3, Vector};
use crate::scalar::Real;
use vstd::prelude::*;

verus! {

/// The position of a rigid-body in its set.
#[derive(Clone, Copy, Debug, PartialEq, Eq, Structural)]
pub struct RigidBodyHandle {
    pub index: usize,
}

/// The position of a collider in its set.
#[derive(Clone, Copy, Debug, PartialEq, Eq, Structural)]
pub struct ColliderHandle {
    pub index: usize,
}

/// A rigid-body: its pose, its velocities and its mass properties.
#[derive(Clone, Copy, Debug, PartialEq, Eq, Structural)]
pub struct RigidBody {
    /// Whether forces and impulses move the body.
    pub dynamic: bool,
    pub sleeping: bool,
    pub position: Isometry,
    pub linvel: Vector,
    pub angvel: Vector,
    pub mass: Real,
    /// The inverse of the mass.
    pub inv_mass: Real,
    /// The inverse mass along each world axis, null along a locked one.
    pub effective_inv_mass: Vector,
    pub effective_world_inv_inertia: SdpMatrix3<Real>,
    /// The center of mass, relative to the body.
    pub local_com: Point,
}

/// A collider, attached to a rigid-body or alone.
#[derive(Clone, Copy, Debug, PartialEq, Eq, Structural)]
pub struct Collider {
    pub parent: Option<RigidBodyHandle>,
}

/// A set of rigid-bodies.
pub struct RigidBodySet {
    pub bodies: Vec<RigidBody>,
}

/// A set of colliders.
pub struct ColliderSet {
    pub colliders: Vec<Collider>,
}

impl RigidBody {
    /// Whether the two bodies differ by their velocities at most.
    pub open spec fn same_but_velocities(self, other: RigidBody) -> bool {
        self == RigidBody { linvel: self.linvel, angvel: self.angvel, ..other }
    }

    pub open spec fn spec_center_of_mass(self) -> Point {
        self.position.transform_point(self.local_com)
    }

    /// The world-space center of mass.
    #[verifier::when_used_as_spec(spec_center_of_mass)]
    pub fn center_of_mass(self) -> (r: Point)
        ensures
            r == self.spec_center_of_mass(),
    {
        self.position.transform_point(self.local_com)
    }

    pub open spec fn spec_velocity_at_point(self, point: Point) -> Vector {
        self.linvel.add(self.angvel.cross(point.sub(self.center_of_mass())))
    }

    /// The velocity of the body's matter at a world-space point.
    #[verifier::when_used_as_spec(spec_velocity_at_point)]
    pub fn velocity_at_point(self, point: Point) -> (r: Vector)
        ensures
            r == self.spec_velocity_at_point(point),
    {
        self.linvel.add(self.angvel.cross(point.sub(self.center_of_mass())))
    }

    /// The body awake.
    pub open spec fn awake(self) -> RigidBody {
        RigidBody { sleeping: false, ..self }
    }

    /// Wakes the body up.
    pub fn wake_up(&mut self)
        ensures
            *final(self) == old(self).awake(),
    {
        self.sleeping = false;
    }

    /// The body after an impulse at its center of mass.
    pub open spec fn pushed(self, impulse: Vector) -> RigidBody {
        if self.dynamic {
            RigidBody {
                linvel: self.linvel.add(impulse.component_mul(self.effective_inv_mass)),
                ..self
            }
        } else {
            self
        }
    }

    /// The body after an impulsive torque.
    pub open spec fn twisted(self, torque: Vector) -> RigidBody {
        if self.dynamic {
            RigidBody {
                angvel: self.angvel.add(self.effective_world_inv_inertia.transform(torque)),
                ..self
            }
        } else {
            self
        }
    }

    /// The body after an impulse at a world-space point.
    pub open spec fn struck(self, impulse: Vector, point: Point) -> RigidBody {
        self.pushed(impulse).twisted(point.sub(self.center_of_mass()).cross(impulse))
    }

    /// Applies an impulse at a world-space point. It moves a dynamic body only
    /// and wakes none up.
    pub fn apply_impulse_at_point(&mut self, impulse: Vector, point: Point)
        ensures
            *final(self) == old(self).struck(impulse, point),
    {
        if self.dynamic {
            let torque = point.sub(self.center_of_mass()).cross(impulse);
            self.linvel = self.linvel.add(impulse.component_mul(self.effective_inv_mass));
            self.angvel = self.angvel.add(self.effective_world_inv_inertia.transform(torque));
        }
    }

    /// The body awake at another place, turned the same way.
    pub open spec fn moved(self, translation: Vector) -> RigidBody {
        RigidBody {
            position: Isometry { translation, rotation: self.position.rotation },
            sleeping: false,
            ..self
        }
    }

    /// Moves the body without turning it, and wakes it up.
    pub fn set_translation(&mut self, translation: Vector)
        ensures
            *final(self) == old(self).moved(translation),
    {
        self.position = Isometry { translation, rotation: self.position.rotation };
        self.sleeping = false;
    }
}

impl View for RigidBodySet {
    type V = Seq<RigidBody>;

    open spec fn view(&self) -> Seq<RigidBody> {
        self.bodies@
    }
}

impl View for ColliderSet {
    type V = Seq<Collider>;

    open spec fn view(&self) -> Seq<Collider> {
        self.colliders@
    }
}

impl RigidBodyHandle {
    /// Whether the set holds a body of this handle.
    pub open spec fn is_in(self, bodies: Seq<RigidBody>) -> bool {
        self.index < bodies.len()
    }

    /// The body of this handle.
    pub open spec fn of(self, bodies: Seq<RigidBody>) -> RigidBody {
        bodies[self.index as int]
    }
}

impl ColliderHandle {
    /// Whether the set holds a collider of this handle.
    pub open spec fn is_in(self, colliders: Seq<Collider>) -> bool {
        self.index < colliders.len()
    }

    /// The collider of this handle.
    pub open spec fn of(self, colliders: Seq<Collider>) -> Collider {
        colliders[self.index as int]
    }
}

impl RigidBodySet {
    /// The body of a handle.
    pub fn get(&self, handle: RigidBodyHandle) -> (r: &RigidBody)
        requires
            handle.is_in(self@),
        ensures
            *r == handle.of(self@),
    {
        &self.bodies[handle.index]
    }

    /// Replaces the body of a handle.
    pub fn set(&mut self, handle: RigidBodyHandle, body: RigidBody)
        requires
            handle.is_in(old(self)@),
        ensures
            final(self)@ == old(self)@.update(handle.index as int, body),
    {
        self.bodies.set(handle.index, body);
    }
}

impl ColliderSet {
    /// The body that a collider is attached to.
    pub fn parent(&self, handle: ColliderHandle) -> (r: Option<RigidBodyHandle>)
        requires
            handle.is_in(self@),
        ensures
            r == handle.of(self@).parent,
    {
        self.colliders[handle.index].parent
    }
}

} // verus!
