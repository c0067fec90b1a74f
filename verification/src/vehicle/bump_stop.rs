//! The rigid stop of the suspensions that are fully compressed.
//!
//! Every bottomed wheel that still moves inwards must stop. The impulses that
//! stop them all at once solve a linear system; the wheels whose impulse would
//! pull the chassis down are dropped one at a time, the worst first, and the
//! smaller system is solved again.
//!
//! Only the wheels that are left when the solution pulls nowhere are stopped.
//! A bottomed wheel that moved outwards before, or that was dropped, is not
//! looked at again: the impulses at the others may leave it moving inwards, and
//! it is then stopped in a later step.
use crate::bodies::RigidBody;
use crate::math::{Point, Vector};
use crate::scalar::Real;
use crate::vehicle::wheel::Wheel;
use vstd::prelude::*;

verus! {

/// A bottomed wheel that moves inwards.
#[derive(Clone, Copy, Debug, PartialEq, Eq, Structural)]
pub struct BottomedWheel {
    pub contact: Point,
    pub normal: Vector,
    pub rel_vel: Real,
}

/// The system `a x = b` of the impulses that stop the bottomed wheels.
#[derive(Debug)]
pub struct BumpStopSystem {
    pub a: Vec<Vec<Real>>,
    pub b: Vec<Real>,
}

impl BottomedWheel {
    /// The torque of a unit impulse at the contact.
    pub open spec fn lever(self, com: Point) -> Vector {
        self.contact.sub(com).cross(self.normal)
    }

    /// The velocity along this wheel's normal that a unit impulse at the other
    /// wheel's contact gives.
    pub open spec fn response(self, other: BottomedWheel, chassis: RigidBody) -> Real {
        let com = chassis.center_of_mass();
        chassis.inv_mass.mul(self.normal.dot(other.normal)).add(
            chassis.effective_world_inv_inertia.transform(self.lever(com)).dot(other.lever(com)),
        )
    }
}

impl Wheel {
    /// The wheel's velocity along its contact normal.
    pub open spec fn inward_velocity(self, chassis: RigidBody) -> Real {
        self.shape_cast_info.contact_normal_ws.dot(
            chassis.velocity_at_point(self.shape_cast_info.contact_point_ws),
        )
    }

    /// Whether the wheel is bottomed out and moves inwards.
    pub open spec fn must_stop(self, chassis: RigidBody) -> bool {
        self.shape_cast_info.bottomed_out && self.inward_velocity(chassis).lt(Real::zero())
    }

    /// The bottomed wheel as the bump stop sees it.
    pub open spec fn bottomed(self, chassis: RigidBody) -> BottomedWheel {
        BottomedWheel {
            contact: self.shape_cast_info.contact_point_ws,
            normal: self.shape_cast_info.contact_normal_ws,
            rel_vel: self.inward_velocity(chassis),
        }
    }
}

/// The bottomed wheels that move inwards, in the order of the wheels.
pub open spec fn wheels_to_stop(wheels: Seq<Wheel>, chassis: RigidBody) -> Seq<BottomedWheel>
    decreases wheels.len(),
{
    if wheels.len() == 0 {
        Seq::empty()
    } else {
        let before = wheels_to_stop(wheels.drop_last(), chassis);
        if wheels.last().must_stop(chassis) {
            before.push(wheels.last().bottomed(chassis))
        } else {
            before
        }
    }
}

/// Collects the bottomed wheels that move inwards.
pub fn bump_stop_candidates(wheels: &Vec<Wheel>, chassis: &RigidBody) -> (r: Vec<BottomedWheel>)
    ensures
        r@ == wheels_to_stop(wheels@, *chassis),
{
    let mut candidates: Vec<BottomedWheel> = Vec::new();
    let mut i: usize = 0;
    while i < wheels.len()
        invariant
            i <= wheels@.len(),
            candidates@ == wheels_to_stop(wheels@.take(i as int), *chassis),
        decreases wheels@.len() - i,
    {
        assert(wheels@.take(i + 1).drop_last() =~= wheels@.take(i as int));
        let w = wheels[i];
        if w.shape_cast_info.bottomed_out {
            let normal = w.shape_cast_info.contact_normal_ws;
            let contact = w.shape_cast_info.contact_point_ws;
            let rel_vel = normal.dot(chassis.velocity_at_point(contact));
            if rel_vel.lt(Real::zero()) {
                candidates.push(BottomedWheel { contact, normal, rel_vel });
            }
        }
        i = i + 1;
    }
    assert(wheels@.take(i as int) =~= wheels@);
    candidates
}

impl BumpStopSystem {
    /// Whether this is the system of the given wheels.
    pub open spec fn describes(
        self,
        candidates: Seq<BottomedWheel>,
        chassis: RigidBody,
    ) -> bool {
        let n = candidates.len();
        &&& self.a@.len() == n
        &&& self.b@.len() == n
        &&& forall|i: int| 0 <= i < n ==> (#[trigger] self.a@[i])@.len() == n
        &&& forall|i: int, j: int|
            0 <= i < n && 0 <= j < n ==> (#[trigger] self.a@[i]@[j]) == candidates[i].response(
                candidates[j],
                chassis,
            )
        &&& forall|i: int| 0 <= i < n ==> #[trigger] self.b@[i] == candidates[i].rel_vel.neg()
    }
}

fn response_row(w_i: &BottomedWheel, candidates: &Vec<BottomedWheel>, chassis: &RigidBody) -> (r:
    Vec<Real>)
    ensures
        r@.len() == candidates@.len(),
        forall|j: int|
            0 <= j < candidates@.len() ==> #[trigger] r@[j] == w_i.response(
                candidates@[j],
                *chassis,
            ),
{
    let com = chassis.center_of_mass();
    let rxn_i = w_i.contact.sub(com).cross(w_i.normal);
    let i_rxn_i = chassis.effective_world_inv_inertia.transform(rxn_i);
    let mut row: Vec<Real> = Vec::new();
    let mut j: usize = 0;
    while j < candidates.len()
        invariant
            j <= candidates@.len(),
            row@.len() == j,
            com == chassis.center_of_mass(),
            i_rxn_i == chassis.effective_world_inv_inertia.transform(w_i.lever(com)),
            forall|k: int|
                0 <= k < j ==> #[trigger] row@[k] == w_i.response(candidates@[k], *chassis),
        decreases candidates@.len() - j,
    {
        let w_j = candidates[j];
        let rxn_j = w_j.contact.sub(com).cross(w_j.normal);
        let lin = chassis.inv_mass.mul(w_i.normal.dot(w_j.normal));
        let ang = i_rxn_i.dot(rxn_j);
        row.push(lin.add(ang));
        j = j + 1;
    }
    row
}

/// Builds the system of the impulses that stop the given wheels.
pub fn bump_stop_system(candidates: &Vec<BottomedWheel>, chassis: &RigidBody) -> (r: BumpStopSystem)
    ensures
        r.describes(candidates@, *chassis),
{
    let mut a: Vec<Vec<Real>> = Vec::new();
    let mut b: Vec<Real> = Vec::new();
    let mut i: usize = 0;
    while i < candidates.len()
        invariant
            i <= candidates@.len(),
            a@.len() == i,
            b@.len() == i,
            forall|k: int| 0 <= k < i ==> (#[trigger] a@[k])@.len() == candidates@.len(),
            forall|k: int, j: int|
                0 <= k < i && 0 <= j < candidates@.len() ==> (#[trigger] a@[k]@[j])
                    == candidates@[k].response(candidates@[j], *chassis),
            forall|k: int| 0 <= k < i ==> #[trigger] b@[k] == candidates@[k].rel_vel.neg(),
        decreases candidates@.len() - i,
    {
        let w_i = candidates[i];
        a.push(response_row(&w_i, candidates, chassis));
        b.push(w_i.rel_vel.neg());
        i = i + 1;
    }
    BumpStopSystem { a, b }
}

/// The denominator of the impulses that stop the wheels when the system is
/// singular.
pub open spec fn fallback_denominator(candidates: Seq<BottomedWheel>, chassis: RigidBody) -> Real {
    candidates[0].response(candidates[0], chassis).max(Real::ratio(1, 1_000_000))
}

/// The chassis after each of the first `n` wheels, on its own, was stopped by
/// the impulse that `denom` gives.
pub open spec fn stopped_one_by_one(
    chassis: RigidBody,
    candidates: Seq<BottomedWheel>,
    denom: Real,
    n: nat,
) -> RigidBody
    decreases n,
{
    if n == 0 {
        chassis
    } else {
        let before = stopped_one_by_one(chassis, candidates, denom, (n - 1) as nat);
        let w = candidates[n - 1];
        let impulse = w.rel_vel.neg().div(denom);
        if Real::zero().lt(impulse) {
            before.struck(w.normal.scale(impulse), w.contact)
        } else {
            before
        }
    }
}

/// The chassis after the first `n` impulses of a solution.
pub open spec fn stopped_together(
    chassis: RigidBody,
    candidates: Seq<BottomedWheel>,
    impulses: Seq<Real>,
    n: nat,
) -> RigidBody
    decreases n,
{
    if n == 0 {
        chassis
    } else {
        let w = candidates[n - 1];
        stopped_together(chassis, candidates, impulses, (n - 1) as nat).struck(
            w.normal.scale(impulses[n - 1]),
            w.contact,
        )
    }
}

/// Whether no impulse pulls.
pub open spec fn all_push(impulses: Seq<Real>) -> bool {
    forall|i: int| 0 <= i < impulses.len() ==> Real::zero().le(#[trigger] impulses[i])
}

/// Whether the impulse at `i` is the first of those that pull the most.
pub open spec fn pulls_most(impulses: Seq<Real>, i: int) -> bool {
    &&& 0 <= i < impulses.len()
    &&& impulses[i].lt(Real::zero())
    &&& forall|j: int| 0 <= j < impulses.len() ==> impulses[i].le(#[trigger] impulses[j])
    &&& forall|j: int| 0 <= j < i ==> impulses[i].lt(#[trigger] impulses[j])
}

fn find_worst(lambda: &Vec<Real>) -> (r: Option<usize>)
    ensures
        match r {
            Some(i) => pulls_most(lambda@, i as int),
            None => all_push(lambda@),
        },
{
    let mut worst: Option<usize> = None;
    let mut i: usize = 0;
    while i < lambda.len()
        invariant
            i <= lambda@.len(),
            match worst {
                Some(w) => {
                    &&& w < i
                    &&& lambda@[w as int].lt(Real::zero())
                    &&& forall|j: int| 0 <= j < i ==> lambda@[w as int].le(#[trigger] lambda@[j])
                    &&& forall|j: int| 0 <= j < w ==> lambda@[w as int].lt(#[trigger] lambda@[j])
                },
                None => forall|j: int| 0 <= j < i ==> Real::zero().le(#[trigger] lambda@[j]),
            },
        decreases lambda@.len() - i,
    {
        if lambda[i].lt(Real::zero()) {
            worst = match worst {
                Some(w) => if lambda[w].le(lambda[i]) {
                    Some(w)
                } else {
                    Some(i)
                },
                None => Some(i),
            };
        }
        i = i + 1;
    }
    worst
}

/// What remains of the bump stop after a solution of its system: the wheels
/// that are still to be stopped, and whether the chassis took its impulses.
#[derive(Clone, Copy, Debug, PartialEq, Eq, Structural)]
pub enum BumpStopOutcome {
    /// The remaining wheels have a system of their own to be solved.
    SolveAgain,
    /// The wheels are stopped.
    Stopped,
}

/// Whether the bump stop goes from the given wheels and chassis to the others
/// on a solution of its system, `None` being that of a singular one.
pub open spec fn bump_stop_steps(
    candidates: Seq<BottomedWheel>,
    chassis: RigidBody,
    solution: Option<Seq<Real>>,
    candidates_after: Seq<BottomedWheel>,
    chassis_after: RigidBody,
    outcome: BumpStopOutcome,
) -> bool {
    match solution {
        None => {
            &&& chassis_after == stopped_one_by_one(
                chassis,
                candidates,
                fallback_denominator(candidates, chassis),
                candidates.len(),
            )
            &&& candidates_after == candidates
            &&& outcome == BumpStopOutcome::Stopped
        },
        Some(lambda) => {
            ||| {
                &&& all_push(lambda)
                &&& chassis_after == stopped_together(
                    chassis,
                    candidates,
                    lambda,
                    candidates.len(),
                )
                &&& candidates_after == candidates
                &&& outcome == BumpStopOutcome::Stopped
            }
            ||| exists|i: int|
                {
                    &&& #[trigger] pulls_most(lambda, i)
                    &&& chassis_after == chassis
                    &&& candidates_after == candidates.remove(i)
                    &&& outcome == (if candidates.len() == 1 {
                        BumpStopOutcome::Stopped
                    } else {
                        BumpStopOutcome::SolveAgain
                    })
                }
        },
    }
}

/// Takes a step of the bump stop: applies the impulses of a solution that
/// pushes every wheel, or drops the wheel that it pulls the most. When the
/// system is singular each wheel is stopped on its own.
pub fn resolve_bump_stop(
    candidates: &mut Vec<BottomedWheel>,
    chassis: &mut RigidBody,
    solution: &Option<Vec<Real>>,
) -> (r: BumpStopOutcome)
    requires
        old(candidates)@.len() > 0,
        solution matches Some(lambda) ==> lambda@.len() == old(candidates)@.len(),
    ensures
        bump_stop_steps(
            old(candidates)@,
            *old(chassis),
            match solution {
                Some(lambda) => Some(lambda@),
                None => None,
            },
            final(candidates)@,
            *final(chassis),
            r,
        ),
{
    let n = candidates.len();
    match solution {
        None => {
            let w_0 = candidates[0];
            let row = response_row(&w_0, candidates, chassis);
            let denom = row[0].max(Real::ratio(1, 1_000_000));
            let mut i: usize = 0;
            while i < n
                invariant
                    i <= n,
                    n == candidates@.len(),
                    candidates@ == old(candidates)@,
                    *chassis == stopped_one_by_one(
                        *old(chassis),
                        candidates@,
                        denom,
                        i as nat,
                    ),
                decreases n - i,
            {
                let w = candidates[i];
                let lambda_i = w.rel_vel.neg().div(denom);
                if Real::zero().lt(lambda_i) {
                    chassis.apply_impulse_at_point(w.normal.scale(lambda_i), w.contact);
                }
                i = i + 1;
            }
            BumpStopOutcome::Stopped
        },
        Some(lambda) => {
            match find_worst(lambda) {
                Some(i) => {
                    let _ = candidates.remove(i);
                    assert(pulls_most(lambda@, i as int));
                    if candidates.len() == 0 {
                        BumpStopOutcome::Stopped
                    } else {
                        BumpStopOutcome::SolveAgain
                    }
                },
                None => {
                    let mut i: usize = 0;
                    while i < n
                        invariant
                            i <= n,
                            n == candidates@.len(),
                            lambda@.len() == n,
                            candidates@ == old(candidates)@,
                            *chassis == stopped_together(
                                *old(chassis),
                                candidates@,
                                lambda@,
                                i as nat,
                            ),
                        decreases n - i,
                    {
                        let w = candidates[i];
                        chassis.apply_impulse_at_point(w.normal.scale(lambda[i]), w.contact);
                        i = i + 1;
                    }
                    BumpStopOutcome::Stopped
                },
            }
        },
    }
}

} // verus!
