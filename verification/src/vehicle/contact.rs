//! The impulses that cancel the motion of a contact point along a direction.
use crate::bodies::RigidBody;
use crate::math::{Point, Vector};
use crate::scalar::Real;
use vstd::prelude::*;

verus! {

/// The contact of a wheel with the ground, along one friction direction.
pub struct WheelContactPoint<'a> {
    pub body0: &'a RigidBody,
    pub body1: Option<&'a RigidBody>,
    pub friction_position_world: Point,
    pub friction_direction_world: Vector,
    pub jac_diag_ab_inv: Real,
    pub max_impulse: Real,
}

/// The velocity along `n` that a unit impulse along `n` at `pos` gives to that
/// point of the body.
pub open spec fn impulse_response(body: RigidBody, pos: Point, n: Vector) -> Real {
    let dpt = pos.sub(body.center_of_mass());
    let v = body.effective_world_inv_inertia.transform(dpt.cross(n)).cross(dpt);
    body.inv_mass.add(n.dot(v))
}

fn impulse_denominator(body: &RigidBody, pos: Point, n: Vector) -> (r: Real)
    ensures
        r == impulse_response(*body, pos, n),
{
    let dpt = pos.sub(body.center_of_mass());
    let v = body.effective_world_inv_inertia.transform(dpt.cross(n)).cross(dpt);
    body.inv_mass.add(n.dot(v))
}

impl<'a> WheelContactPoint<'a> {
    /// The impulse per velocity along the friction direction.
    pub open spec fn effective_mass(
        body0: RigidBody,
        body1: Option<&RigidBody>,
        pos: Point,
        n: Vector,
    ) -> Real {
        Real::one().div(
            impulse_response(body0, pos, n).add(
                match body1 {
                    Some(b) => impulse_response(*b, pos, n),
                    None => Real::zero(),
                },
            ),
        )
    }

    /// The velocity of the first body relative to the other, along the
    /// friction direction.
    pub open spec fn sliding_velocity(self) -> Real {
        let vel2 = match self.body1 {
            Some(b) => b.velocity_at_point(self.friction_position_world),
            None => Vector::zeros(),
        };
        self.friction_direction_world.dot(
            self.body0.velocity_at_point(self.friction_position_world).sub(vel2),
        )
    }

    /// Creates the contact of `body0` with `body1`, or with something that does
    /// not move.
    pub fn new(
        body0: &'a RigidBody,
        body1: Option<&'a RigidBody>,
        friction_position_world: Point,
        friction_direction_world: Vector,
        max_impulse: Real,
    ) -> (r: Self)
        ensures
            r.body0 == body0,
            r.body1 == body1,
            r.friction_position_world == friction_position_world,
            r.friction_direction_world == friction_direction_world,
            r.jac_diag_ab_inv == Self::effective_mass(
                *body0,
                body1,
                friction_position_world,
                friction_direction_world,
            ),
            r.max_impulse == max_impulse,
    {
        let denom0 = impulse_denominator(
            body0,
            friction_position_world,
            friction_direction_world,
        );
        let denom1 = match body1 {
            Some(b) => impulse_denominator(b, friction_position_world, friction_direction_world),
            None => Real::zero(),
        };
        let jac_diag_ab_inv = Real::one().div(denom0.add(denom1));
        WheelContactPoint {
            body0,
            body1,
            friction_position_world,
            friction_direction_world,
            jac_diag_ab_inv,
            max_impulse,
        }
    }

    /// Impulse that cancels the relative velocity along the friction
    /// direction, plus `bias_velocity`, the rate at which an anchored contact
    /// must travel to undo the drift it has already accumulated, shared
    /// between the wheels on the ground and limited to the maximum impulse.
    pub fn calc_rolling_friction(&self, num_wheels_on_ground: usize, bias_velocity: Real) -> (r:
        Real)
        requires
            self.max_impulse.neg().le(self.max_impulse),
        ensures
            r == self.sliding_velocity().add(bias_velocity).neg().mul(self.jac_diag_ab_inv).div(
                Real::from_count(num_wheels_on_ground),
            ).clamp(self.max_impulse.neg(), self.max_impulse),
    {
        let contact_pos_world = self.friction_position_world;
        let vel1 = self.body0.velocity_at_point(contact_pos_world);
        let vel2 = match self.body1 {
            Some(b) => b.velocity_at_point(contact_pos_world),
            None => Vector::zeros(),
        };
        let vrel = self.friction_direction_world.dot(vel1.sub(vel2));
        vrel.add(bias_velocity).neg().mul(self.jac_diag_ab_inv).div(
            Real::from_count(num_wheels_on_ground),
        ).clamp(self.max_impulse.neg(), self.max_impulse)
    }
}

pub open spec fn spec_negated_contact_damping() -> Real {
    Real::ratio(2, 10).neg()
}

/// The share of a relative velocity that one resolution cancels, negated.
#[verifier::when_used_as_spec(spec_negated_contact_damping)]
pub fn negated_contact_damping() -> (r: Real)
    ensures
        r == spec_negated_contact_damping(),
{
    Real::ratio(2, 10).neg()
}

/// The angular velocity that a unit impulse along `normal` at `pt` gives to the
/// body.
pub open spec fn angular_response(body: RigidBody, pt: Point, normal: Vector) -> Vector {
    body.effective_world_inv_inertia.transform(pt.sub(body.center_of_mass()).cross(normal))
}

/// The impulse of [`resolve_single_bilateral`].
pub open spec fn bilateral_impulse(
    body1: RigidBody,
    pt1: Point,
    body2: RigidBody,
    pt2: Point,
    normal: Vector,
    bias_velocity: Real,
) -> Real {
    let iaj = angular_response(body1, pt1, normal);
    let ibj = angular_response(body2, pt2, normal.neg());
    let jac_diag_ab = body1.inv_mass.add(body2.inv_mass).add(iaj.dot(iaj)).add(ibj.dot(ibj));
    let rel_vel = normal.dot(body1.velocity_at_point(pt1).sub(body2.velocity_at_point(pt2)));
    negated_contact_damping().mul(rel_vel.add(bias_velocity)).mul(jac_diag_ab.inv())
}

/// The impulse along `normal` that damps the relative velocity of two bodies,
/// each at its own point.
pub fn resolve_single_bilateral(
    body1: &RigidBody,
    pt1: Point,
    body2: &RigidBody,
    pt2: Point,
    normal: Vector,
    bias_velocity: Real,
) -> (r: Real)
    ensures
        r == bilateral_impulse(*body1, pt1, *body2, pt2, normal, bias_velocity),
{
    let dvel = body1.velocity_at_point(pt1).sub(body2.velocity_at_point(pt2));
    let aj = pt1.sub(body1.center_of_mass()).cross(normal);
    let bj = pt2.sub(body2.center_of_mass()).cross(normal.neg());
    let iaj = body1.effective_world_inv_inertia.transform(aj);
    let ibj = body2.effective_world_inv_inertia.transform(bj);
    let jac_diag_ab = body1.inv_mass.add(body2.inv_mass).add(iaj.dot(iaj)).add(ibj.dot(ibj));
    let rel_vel = normal.dot(dvel);
    negated_contact_damping().mul(rel_vel.add(bias_velocity)).mul(jac_diag_ab.inv())
}

/// The impulse of [`resolve_single_unilateral`].
pub open spec fn unilateral_impulse(
    body1: RigidBody,
    pt1: Point,
    normal: Vector,
    bias_velocity: Real,
) -> Real {
    let iaj = angular_response(body1, pt1, normal);
    let jac_diag_ab = body1.inv_mass.add(iaj.dot(iaj));
    let rel_vel = normal.dot(body1.velocity_at_point(pt1));
    negated_contact_damping().mul(rel_vel.add(bias_velocity)).mul(jac_diag_ab.inv())
}

/// The impulse along `normal` that damps the velocity of a body against
/// something that does not move.
pub fn resolve_single_unilateral(
    body1: &RigidBody,
    pt1: Point,
    normal: Vector,
    bias_velocity: Real,
) -> (r: Real)
    ensures
        r == unilateral_impulse(*body1, pt1, normal, bias_velocity),
{
    let dvel = body1.velocity_at_point(pt1);
    let aj = pt1.sub(body1.center_of_mass()).cross(normal);
    let iaj = body1.effective_world_inv_inertia.transform(aj);
    let jac_diag_ab = body1.inv_mass.add(iaj.dot(iaj));
    let rel_vel = normal.dot(dvel);
    negated_contact_damping().mul(rel_vel.add(bias_velocity)).mul(jac_diag_ab.inv())
}

} // verus!
