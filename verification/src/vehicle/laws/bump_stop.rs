//! What the bump stop promises.
use crate::bodies::RigidBody;
use crate::math::{Point, Vector};
use crate::scalar::{Real, ONE_BITS};
use crate::vehicle::bump_stop::{BottomedWheel, BumpStopOutcome};
use crate::vehicle::wheel::Wheel;
use vstd::prelude::*;

verus! {

/// Whether `stopped` is one of the bottomed wheels of a vehicle.
pub open spec fn is_bottomed_among(
    stopped: BottomedWheel,
    wheels: Seq<Wheel>,
    chassis: RigidBody,
) -> bool {
    exists|i: int|
        0 <= i < wheels.len() && wheels[i].shape_cast_info.bottomed_out
            && #[trigger] wheels[i].bottomed(chassis) == stopped
}

/// Every wheel that the bump stop stops moves inwards, and is one of the
/// bottomed wheels of the vehicle.
pub proof fn only_inward_wheels_are_stopped(wheels: Seq<Wheel>, chassis: RigidBody)
    ensures
        ({
            let stopped = crate::vehicle::bump_stop::wheels_to_stop(wheels, chassis);
            &&& stopped.len() <= wheels.len()
            &&& forall|k: int|
                0 <= k < stopped.len() ==> (#[trigger] stopped[k]).rel_vel.lt(Real::zero())
                    && is_bottomed_among(stopped[k], wheels, chassis)
        }),
    decreases wheels.len(),
{
    if wheels.len() > 0 {
        let before = wheels.drop_last();
        only_inward_wheels_are_stopped(before, chassis);
        let stopped = crate::vehicle::bump_stop::wheels_to_stop(wheels, chassis);
        let stopped_before = crate::vehicle::bump_stop::wheels_to_stop(before, chassis);
        assert forall|k: int| 0 <= k < stopped.len() implies (
        #[trigger] stopped[k]).rel_vel.lt(Real::zero()) && is_bottomed_among(
            stopped[k],
            wheels,
            chassis,
        ) by {
            if k < stopped_before.len() {
                assert(stopped[k] == stopped_before[k]);
                let i = choose|i: int|
                    0 <= i < before.len() && before[i].shape_cast_info.bottomed_out
                        && #[trigger] before[i].bottomed(chassis) == stopped_before[k];
                assert(wheels[i].bottomed(chassis) == stopped[k]);
            } else {
                assert(wheels[wheels.len() - 1].bottomed(chassis) == stopped[k]);
            }
        }
    }
}

/// Every bottomed wheel that moves inwards is stopped.
pub proof fn every_inward_wheel_is_stopped(wheels: Seq<Wheel>, chassis: RigidBody, i: int)
    requires
        0 <= i < wheels.len(),
        wheels[i].must_stop(chassis),
    ensures
        crate::vehicle::bump_stop::wheels_to_stop(wheels, chassis).contains(
            wheels[i].bottomed(chassis),
        ),
    decreases wheels.len(),
{
    let before = wheels.drop_last();
    let stopped = crate::vehicle::bump_stop::wheels_to_stop(wheels, chassis);
    if i < before.len() {
        every_inward_wheel_is_stopped(before, chassis, i);
        let stopped_before = crate::vehicle::bump_stop::wheels_to_stop(before, chassis);
        let k = choose|k: int|
            0 <= k < stopped_before.len() && stopped_before[k] == wheels[i].bottomed(chassis);
        assert(stopped[k] == wheels[i].bottomed(chassis));
    } else {
        assert(stopped[stopped.len() - 1] == wheels[i].bottomed(chassis));
    }
}

/// Solving again is asked for with one wheel fewer each time and the chassis
/// as it was, so that the bump stop ends after as many solutions as there are
/// wheels to stop.
pub proof fn bump_stop_ends(
    candidates: Seq<BottomedWheel>,
    chassis: RigidBody,
    solution: Option<Seq<Real>>,
    candidates_after: Seq<BottomedWheel>,
    chassis_after: RigidBody,
)
    requires
        solution matches Some(lambda) ==> lambda.len() == candidates.len(),
        crate::vehicle::bump_stop::bump_stop_steps(
            candidates,
            chassis,
            solution,
            candidates_after,
            chassis_after,
            BumpStopOutcome::SolveAgain,
        ),
    ensures
        candidates_after.len() + 1 == candidates.len(),
        candidates_after.len() > 0,
        chassis_after == chassis,
{
}

/// A solution that moves the chassis pushes at every wheel.
pub proof fn bump_stop_only_pushes(
    candidates: Seq<BottomedWheel>,
    chassis: RigidBody,
    lambda: Seq<Real>,
    candidates_after: Seq<BottomedWheel>,
    chassis_after: RigidBody,
    outcome: BumpStopOutcome,
)
    requires
        crate::vehicle::bump_stop::bump_stop_steps(
            candidates,
            chassis,
            Some(lambda),
            candidates_after,
            chassis_after,
            outcome,
        ),
        chassis_after != chassis,
    ensures
        crate::vehicle::bump_stop::all_push(lambda),
        outcome == BumpStopOutcome::Stopped,
{
}

/// An impulse changes nothing of a body but its velocities, and nothing at all
/// of a body that is not dynamic.
pub proof fn impulse_changes_velocities_only(body: RigidBody, impulse: Vector, point: Point)
    ensures
        body.struck(impulse, point).same_but_velocities(body),
        !body.dynamic ==> body.struck(impulse, point) == body,
{
}

/// The bump stop changes nothing of the chassis but its velocities.
pub proof fn bump_stop_changes_velocities_only(
    candidates: Seq<BottomedWheel>,
    chassis: RigidBody,
    solution: Option<Seq<Real>>,
    candidates_after: Seq<BottomedWheel>,
    chassis_after: RigidBody,
    outcome: BumpStopOutcome,
)
    requires
        crate::vehicle::bump_stop::bump_stop_steps(
            candidates,
            chassis,
            solution,
            candidates_after,
            chassis_after,
            outcome,
        ),
    ensures
        chassis_after.same_but_velocities(chassis),
{
    match solution {
        None => {
            lemma_stopped_one_by_one(
                chassis,
                candidates,
                crate::vehicle::bump_stop::fallback_denominator(candidates, chassis),
                candidates.len(),
            );
        },
        Some(lambda) => {
            lemma_stopped_together(chassis, candidates, lambda, candidates.len());
        },
    }
}

proof fn lemma_stopped_one_by_one(
    chassis: RigidBody,
    candidates: Seq<BottomedWheel>,
    denom: Real,
    n: nat,
)
    ensures
        crate::vehicle::bump_stop::stopped_one_by_one(
            chassis,
            candidates,
            denom,
            n,
        ).same_but_velocities(chassis),
    decreases n,
{
    if n > 0 {
        lemma_stopped_one_by_one(chassis, candidates, denom, (n - 1) as nat);
    }
}

/// The impulses of a solution change nothing of the chassis but its velocities.
pub proof fn lemma_stopped_together(
    chassis: RigidBody,
    candidates: Seq<BottomedWheel>,
    lambda: Seq<Real>,
    n: nat,
)
    ensures
        crate::vehicle::bump_stop::stopped_together(
            chassis,
            candidates,
            lambda,
            n,
        ).same_but_velocities(chassis),
    decreases n,
{
    if n > 0 {
        lemma_stopped_together(chassis, candidates, lambda, (n - 1) as nat);
    }
}

/// Whether every wheel to be stopped carries the velocity that the chassis has
/// at its contact, along its normal.
pub open spec fn carry_their_velocities(
    candidates: Seq<BottomedWheel>,
    chassis: RigidBody,
) -> bool {
    forall|k: int|
        0 <= k < candidates.len() ==> (#[trigger] candidates[k]).rel_vel
            == candidates[k].normal_velocity(chassis)
}

/// Whether a wheel is bottomed out and its contact moves into the ground with
/// the chassis.
pub open spec fn sinks(wheel: Wheel, chassis: RigidBody) -> bool {
    let info = wheel.shape_cast_info;
    &&& info.bottomed_out
    &&& info.contact_normal_ws.dot(chassis.velocity_at_point(info.contact_point_ws)).bits < 0
}

/// The bump stop takes the bottomed wheels whose contacts move into the ground,
/// all of them, no other, each once and in the order of the wheels; and it
/// takes of each its contact, its normal and the velocity of the chassis there
/// along that normal.
pub proof fn bump_stop_takes_the_sinking_wheels(wheels: Seq<Wheel>, chassis: RigidBody) -> (taken:
    Seq<int>)
    ensures
        ({
            let stopped = crate::vehicle::bump_stop::wheels_to_stop(wheels, chassis);
            &&& taken.len() == stopped.len()
            &&& forall|k: int, l: int| 0 <= k < l < taken.len() ==> taken[k] < taken[l]
            &&& forall|k: int|
                0 <= k < taken.len() ==> {
                    &&& 0 <= #[trigger] taken[k] < wheels.len()
                    &&& sinks(wheels[taken[k]], chassis)
                    &&& stopped[k].contact == wheels[taken[k]].shape_cast_info.contact_point_ws
                    &&& stopped[k].normal == wheels[taken[k]].shape_cast_info.contact_normal_ws
                    &&& stopped[k].rel_vel == stopped[k].normal_velocity(chassis)
                }
            &&& forall|i: int|
                0 <= i < wheels.len() && sinks(#[trigger] wheels[i], chassis) ==> taken.contains(i)
            &&& carry_their_velocities(stopped, chassis)
        }),
    decreases wheels.len(),
{
    let stopped = crate::vehicle::bump_stop::wheels_to_stop(wheels, chassis);
    if wheels.len() == 0 {
        Seq::empty()
    } else {
        let before = wheels.drop_last();
        let earlier = bump_stop_takes_the_sinking_wheels(before, chassis);
        let stopped_before = crate::vehicle::bump_stop::wheels_to_stop(before, chassis);
        let last = wheels.len() - 1;
        let taken = if sinks(wheels[last], chassis) {
            earlier.push(last)
        } else {
            earlier
        };
        assert forall|k: int| 0 <= k < taken.len() implies {
            &&& 0 <= #[trigger] taken[k] < wheels.len()
            &&& sinks(wheels[taken[k]], chassis)
            &&& stopped[k].contact == wheels[taken[k]].shape_cast_info.contact_point_ws
            &&& stopped[k].normal == wheels[taken[k]].shape_cast_info.contact_normal_ws
            &&& stopped[k].rel_vel == stopped[k].normal_velocity(chassis)
        } by {
            if k < earlier.len() {
                assert(taken[k] == earlier[k]);
                assert(stopped[k] == stopped_before[k]);
            }
        }
        assert forall|i: int|
            0 <= i < wheels.len() && sinks(#[trigger] wheels[i], chassis) implies taken.contains(
            i,
        ) by {
            if i < last {
                assert(sinks(before[i], chassis));
                let k = choose|k: int| 0 <= k < earlier.len() && earlier[k] == i;
                assert(taken[k] == i);
            } else {
                assert(taken[taken.len() - 1] == i);
            }
        }
        assert forall|k: int| 0 <= k < stopped.len() implies (#[trigger] stopped[k]).rel_vel
            == stopped[k].normal_velocity(chassis) by {
            assert(0 <= taken[k] < wheels.len());
        }
        taken
    }
}

/// Dropping a wheel leaves every other with the velocity of the chassis at its
/// contact, since the chassis takes no impulse then.
pub proof fn dropping_a_wheel_keeps_velocities(
    candidates: Seq<BottomedWheel>,
    chassis: RigidBody,
    solution: Option<Seq<Real>>,
    candidates_after: Seq<BottomedWheel>,
    chassis_after: RigidBody,
)
    requires
        carry_their_velocities(candidates, chassis),
        solution matches Some(lambda) ==> lambda.len() == candidates.len(),
        crate::vehicle::bump_stop::bump_stop_steps(
            candidates,
            chassis,
            solution,
            candidates_after,
            chassis_after,
            BumpStopOutcome::SolveAgain,
        ),
    ensures
        carry_their_velocities(candidates_after, chassis_after),
{
    let lambda = solution.unwrap();
    let i = choose|i: int|
        {
            &&& #[trigger] crate::vehicle::bump_stop::pulls_most(lambda, i)
            &&& chassis_after == chassis
            &&& candidates_after == candidates.remove(i)
            &&& BumpStopOutcome::SolveAgain == (if candidates.len() == 1 {
                BumpStopOutcome::Stopped
            } else {
                BumpStopOutcome::SolveAgain
            })
        };
    assert forall|k: int|
        0 <= k < candidates_after.len() implies (#[trigger] candidates_after[k]).rel_vel
        == candidates_after[k].normal_velocity(chassis_after) by {
        if k < i {
            assert(candidates_after[k] == candidates[k]);
        } else {
            assert(candidates_after[k] == candidates[k + 1]);
        }
    }
}

/// Whether a chassis moves into the ground at a bottomed wheel does not depend
/// on where both are: moving the chassis and the contact by the same way
/// leaves the velocity with which the wheel is stopped, as long as they stay in
/// range.
pub proof fn bump_stop_ignores_translations(
    wheel: Wheel,
    other: Wheel,
    chassis: RigidBody,
    moved: RigidBody,
    way: Vector,
)
    requires
        other.shape_cast_info.contact_normal_ws == wheel.shape_cast_info.contact_normal_ws,
        other.shape_cast_info.bottomed_out == wheel.shape_cast_info.bottomed_out,
        other.shape_cast_info.contact_point_ws == wheel.shape_cast_info.contact_point_ws.add(way),
        moved.linvel == chassis.linvel,
        moved.angvel == chassis.angvel,
        moved.local_com == chassis.local_com,
        moved.position.rotation == chassis.position.rotation,
        moved.position.translation.exact() == chassis.position.translation.exact().plus(
            way.exact(),
        ),
        chassis.position.rotation.rotate(chassis.local_com).exact().within(0x1000_0000_0000_0000),
        chassis.position.translation.exact().within(0x1000_0000_0000_0000),
        wheel.shape_cast_info.contact_point_ws.exact().within(0x1000_0000_0000_0000),
        way.exact().within(0x1000_0000_0000_0000),
    ensures
        ({
            let here = crate::vehicle::bump_stop::wheels_to_stop(seq![wheel], chassis);
            let there = crate::vehicle::bump_stop::wheels_to_stop(seq![other], moved);
            &&& there.len() == here.len()
            &&& forall|k: int|
                0 <= k < here.len() ==> (#[trigger] there[k]).rel_vel == here[k].rel_vel
        }),
{
    crate::body_laws::translation_changes_no_velocity(
        chassis,
        moved,
        wheel.shape_cast_info.contact_point_ws,
        way,
    );
    let one = bump_stop_takes_the_sinking_wheels(seq![wheel], chassis);
    let two = bump_stop_takes_the_sinking_wheels(seq![other], moved);
    let here = crate::vehicle::bump_stop::wheels_to_stop(seq![wheel], chassis);
    let there = crate::vehicle::bump_stop::wheels_to_stop(seq![other], moved);
    assert(seq![wheel][0] == wheel && seq![other][0] == other);
    assert(sinks(other, moved) == sinks(wheel, chassis));
    lemma_taken_of_one(one, seq![wheel], chassis);
    lemma_taken_of_one(two, seq![other], moved);
}

proof fn lemma_taken_of_one(taken: Seq<int>, wheels: Seq<Wheel>, chassis: RigidBody)
    requires
        wheels.len() == 1,
        forall|k: int, l: int| 0 <= k < l < taken.len() ==> taken[k] < taken[l],
        forall|k: int|
            0 <= k < taken.len() ==> 0 <= #[trigger] taken[k] < wheels.len() && sinks(
                wheels[taken[k]],
                chassis,
            ),
        forall|i: int|
            0 <= i < wheels.len() && sinks(#[trigger] wheels[i], chassis) ==> taken.contains(i),
    ensures
        taken.len() == if sinks(wheels[0], chassis) {
            1int
        } else {
            0int
        },
        forall|k: int| 0 <= k < taken.len() ==> #[trigger] taken[k] == 0,
{
    if taken.len() > 0 {
        assert(taken[0] == 0);
    }
    if taken.len() > 1 {
        assert(taken[0] < taken[1]);
    }
    if sinks(wheels[0], chassis) {
        assert(taken.contains(0));
    }
}

/// The velocity with which a bottomed wheel is stopped is that of the rigid
/// motion of the chassis at its contact, along its normal, up to rounding: the
/// normal times the linear velocity plus the angular velocity crossed with the
/// lever from the center of mass.
pub proof fn stopped_velocity_is_that_of_the_contact(
    wheels: Seq<Wheel>,
    chassis: RigidBody,
    k: int,
    w: int,
    r: int,
)
    requires
        0 <= k < crate::vehicle::bump_stop::wheels_to_stop(wheels, chassis).len(),
        ({
            let stopped = crate::vehicle::bump_stop::wheels_to_stop(wheels, chassis)[k];
            &&& crate::body_laws::moves_at(chassis, stopped.contact, w, r)
            &&& chassis.velocity_at_point(stopped.contact).exact().within(0x2000_0000_0000_0000)
            &&& stopped.normal.exact().within(ONE_BITS as int)
        }),
    ensures
        ({
            let stopped = crate::vehicle::bump_stop::wheels_to_stop(wheels, chassis)[k];
            let exact = stopped.normal.exact().dot(
                crate::body_laws::exact_velocity(chassis, stopped.contact),
            );
            let bound = 9 * (ONE_BITS * ONE_BITS);
            -bound <= stopped.rel_vel.bits * 0x1_0000_0000_0000_0000 - exact <= bound
        }),
{
    let _ = bump_stop_takes_the_sinking_wheels(wheels, chassis);
    let stopped = crate::vehicle::bump_stop::wheels_to_stop(wheels, chassis)[k];
    assert(stopped.rel_vel == stopped.normal_velocity(chassis));
    crate::vehicle::laws::motion::lemma_velocity_along(
        stopped.normal,
        chassis,
        stopped.contact,
        w,
        r,
    );
}

} // verus!
