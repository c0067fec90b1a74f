//! The springs and dampers that hold the chassis.
use crate::scalar::Real;
use crate::vehicle::controller::DynamicShapeCastVehicleController;
use crate::vehicle::wheel::Wheel;
use vstd::prelude::*;

verus! {

/// The number of wheels in contact with the ground.
pub open spec fn contact_count(wheels: Seq<Wheel>) -> nat
    decreases wheels.len(),
{
    if wheels.len() == 0 {
        0
    } else {
        contact_count(wheels.drop_last()) + (if wheels.last().shape_cast_info.is_in_contact {
            1nat
        } else {
            0nat
        })
    }
}

/// The number of dampers that push the chassis at once, at least one.
pub open spec fn damper_count(wheels: Seq<Wheel>) -> nat {
    if contact_count(wheels) == 0 {
        1
    } else {
        contact_count(wheels)
    }
}

impl Wheel {
    /// The acceleration that the spring gives.
    pub open spec fn spring_push(self) -> Real {
        self.suspension_stiffness.mul(
            self.suspension_rest_length.sub(self.shape_cast_info.suspension_length),
        ).mul(self.clipped_inv_contact_dot_suspension)
    }

    /// The damping of the suspension, as it is being compressed or released.
    pub open spec fn damping(self) -> Real {
        if self.suspension_relative_velocity.lt(Real::zero()) {
            self.damping_compression
        } else {
            self.damping_relaxation
        }
    }

    /// The share of a velocity that all the dampers, like this one, would take
    /// away in a step if each took it as it was at the beginning.
    pub open spec fn damper_gain(self, dampers: Real, dt: Real) -> Real {
        dt.mul(self.damping()).mul(dampers)
    }

    /// The factor by which a damper is reduced. Every grounded wheel damps the
    /// same chassis, so the damper is folded into an implicit update over all
    /// of them.
    pub open spec fn implicit_factor(self, dampers: Real, dt: Real) -> Real {
        Real::one().div(Real::one().add(self.damper_gain(dampers, dt)))
    }

    /// The acceleration that the damper takes away.
    pub open spec fn damper_pull(self, dampers: Real, dt: Real) -> Real {
        self.damping().mul(self.suspension_relative_velocity).mul(
            self.implicit_factor(dampers, dt),
        )
    }

    /// The force that the suspension applies.
    pub open spec fn suspension_force(self, dampers: Real, chassis_mass: Real, dt: Real) -> Real {
        if self.shape_cast_info.is_in_contact {
            self.spring_push().sub(self.damper_pull(dampers, dt)).mul(chassis_mass).max(
                Real::zero(),
            )
        } else {
            Real::zero()
        }
    }

    /// The wheel with its suspension force updated.
    pub open spec fn suspended(self, dampers: Real, chassis_mass: Real, dt: Real) -> Wheel {
        Wheel {
            wheel_suspension_force: self.suspension_force(dampers, chassis_mass, dt),
            ..self
        }
    }
}

impl DynamicShapeCastVehicleController {
    /// The wheels with their suspension forces updated.
    pub open spec fn suspended_wheels(
        wheels: Seq<Wheel>,
        chassis_mass: Real,
        dt: Real,
    ) -> Seq<Wheel> {
        let dampers = Real::from_count(damper_count(wheels) as usize);
        Seq::new(wheels.len(), |i: int| wheels[i].suspended(dampers, chassis_mass, dt))
    }

    fn count_contacts(&self) -> (r: usize)
        ensures
            r == contact_count(self.wheels@),
    {
        let mut contacts: usize = 0;
        let mut i: usize = 0;
        while i < self.wheels.len()
            invariant
                i <= self.wheels@.len(),
                contacts <= i,
                contacts == contact_count(self.wheels@.take(i as int)),
            decreases self.wheels@.len() - i,
        {
            assert(self.wheels@.take(i + 1).drop_last() =~= self.wheels@.take(i as int));
            if self.wheels[i].shape_cast_info.is_in_contact {
                contacts = contacts + 1;
            }
            i = i + 1;
        }
        assert(self.wheels@.take(i as int) =~= self.wheels@);
        contacts
    }

    /// Computes the force of every suspension.
    pub fn update_suspension(&mut self, chassis_mass: Real, dt: Real)
        ensures
            final(self).wheels@ == Self::suspended_wheels(old(self).wheels@, chassis_mass, dt),
            final(self).same_but_wheels(*old(self)),
    {
        let count = self.count_contacts();
        let dampers: usize = if count == 0 {
            1
        } else {
            count
        };
        let contacts = Real::from_count(dampers);
        let mut w_it: usize = 0;
        while w_it < self.wheels.len()
            invariant
                w_it <= self.wheels@.len(),
                self.wheels@.len() == old(self).wheels@.len(),
                contacts == Real::from_count(damper_count(old(self).wheels@) as usize),
                forall|i: int|
                    0 <= i < w_it ==> self.wheels@[i] == old(self).wheels@[i].suspended(
                        contacts,
                        chassis_mass,
                        dt,
                    ),
                forall|i: int|
                    w_it <= i < self.wheels@.len() ==> self.wheels@[i] == old(self).wheels@[i],
                self.same_but_wheels(*old(self)),
            decreases self.wheels@.len() - w_it,
        {
            let mut wheel = self.wheels[w_it];
            if wheel.shape_cast_info.is_in_contact {
                // Spring.
                let length_diff = wheel.suspension_rest_length.sub(
                    wheel.shape_cast_info.suspension_length,
                );
                let spring = wheel.suspension_stiffness.mul(length_diff).mul(
                    wheel.clipped_inv_contact_dot_suspension,
                );
                // Damper.
                let projected_rel_vel = wheel.suspension_relative_velocity;
                let susp_damping = if projected_rel_vel.lt(Real::zero()) {
                    wheel.damping_compression
                } else {
                    wheel.damping_relaxation
                };
                let implicit = Real::one().div(
                    Real::one().add(dt.mul(susp_damping).mul(contacts)),
                );
                let force = spring.sub(susp_damping.mul(projected_rel_vel).mul(implicit));
                wheel.wheel_suspension_force = force.mul(chassis_mass).max(Real::zero());
            } else {
                wheel.wheel_suspension_force = Real::zero();
            }
            self.wheels.set(w_it, wheel);
            w_it = w_it + 1;
        }
    }
}

} // verus!
