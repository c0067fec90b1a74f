//! How well the impulses of the bump stop do what its system says.
//!
//! The system of the bump stop predicts the velocity that each impulse gives
//! to each contact. The laws below bound by how much the rounded velocities
//! differ from the prediction, for a chassis, contacts and impulses within
//! given ranges.
use crate::bodies::RigidBody;
use crate::math::{Point, SdpMatrix3, Vector};
use crate::scalar::{Real, ONE_BITS};
use crate::vehicle::bump_stop::{BottomedWheel, BumpStopOutcome, BumpStopSystem};
use crate::vehicle::laws::rounding::Ranges;
use crate::vehicle::wheel::Wheel;
use vstd::prelude::*;

verus! {

/// An entry of the system, compared to the exact one.
#[verifier::rlimit(30)]
proof fn lemma_response_near(
    inv_mass: Real,
    m: SdpMatrix3<Real>,
    lever_i: Vector,
    normal_i: Vector,
    lever_j: Vector,
    normal_j: Vector,
    ranges: Ranges,
)
    requires
        ranges.are_small(),
        -(ranges.inv_mass * 0x1_0000_0000) <= inv_mass.bits <= ranges.inv_mass * 0x1_0000_0000,
        crate::exact::matrix_within(m, ranges.inv_inertia * 0x1_0000_0000),
        lever_i.exact().within(ranges.lever * 0x1_0000_0000),
        lever_j.exact().within(ranges.lever * 0x1_0000_0000),
        normal_i.exact().within(0x1_0000_0000),
        normal_j.exact().within(0x1_0000_0000),
    ensures
        ({
            let response = inv_mass.mul(normal_i.dot(normal_j)).add(
                m.transform(lever_i.cross(normal_i)).dot(lever_j.cross(normal_j)),
            );
            let c_i = lever_i.exact().cross(normal_i.exact());
            let c_j = lever_j.exact().cross(normal_j.exact());
            let exact = inv_mass.bits * normal_i.exact().dot(normal_j.exact())
                * 0x1_0000_0000_0000_0000 + c_i.under(m).dot(c_j);
            let bound = ranges.response_error()
                * 0x1_0000_0000_0000_0000_0000_0000_0000_0000int;
            -bound <= response.bits * 0x1_0000_0000_0000_0000_0000_0000_0000_0000int - exact
                <= bound
        }),
{
    let (n_i, n_j) = (normal_i.exact(), normal_j.exact());
    let q = inv_mass.bits as int;
    let (k, j, r) = (ranges.inv_mass, ranges.inv_inertia, ranges.lever);
    crate::vehicle::laws::rounding::lemma_ranges(ranges);
    let jr = j * r;
    let jrr = j * (r * r);
    // The linear part.
    let d = normal_i.dot(normal_j);
    crate::exact::lemma_dot_near(normal_i, normal_j, 0x1_0000_0000, 0x1_0000_0000);
    crate::exact::lemma_dot_bound(n_i, n_j, 0x1_0000_0000, 0x1_0000_0000);
    let lin = inv_mass.mul(d);
    crate::exact::lemma_bounded_mul_near(inv_mass, d, k * 0x1_0000_0000, 0x4_0000_0000);
    crate::exact::lemma_product_bound(q, d.bits as int, k * 0x1_0000_0000, 0x4_0000_0000);
    let e = d.bits * 0x1_0000_0000 - n_i.dot(n_j);
    crate::exact::lemma_product_bound(q, e, k * 0x1_0000_0000, 0x3_0000_0000);
    assert(q * e == (q * d.bits) * 0x1_0000_0000 - q * n_i.dot(n_j)) by (nonlinear_arith)
        requires
            e == d.bits * 0x1_0000_0000 - n_i.dot(n_j),
    ;
    // The angular part.
    let (arm_i, arm_j) = (lever_i.cross(normal_i), lever_j.cross(normal_j));
    let c_i = lever_i.exact().cross(n_i);
    let c_j = lever_j.exact().cross(n_j);
    crate::exact::lemma_cross_near(lever_i, normal_i, r * 0x1_0000_0000, 0x1_0000_0000);
    crate::exact::lemma_cross_near(lever_j, normal_j, r * 0x1_0000_0000, 0x1_0000_0000);
    crate::exact::lemma_cross_bound(lever_i.exact(), n_i, r * 0x1_0000_0000, 0x1_0000_0000);
    crate::exact::lemma_cross_bound(lever_j.exact(), n_j, r * 0x1_0000_0000, 0x1_0000_0000);
    let (p, o) = (arm_i.exact(), arm_j.exact());
    let arm = 2 * r + 1;
    assert(p.within(arm * 0x1_0000_0000));
    assert(o.within(arm * 0x1_0000_0000));
    let e_i = p.times(0x1_0000_0000).minus(c_i);
    let e_j = o.times(0x1_0000_0000).minus(c_j);
    let spin = m.transform(arm_i);
    let g = spin.exact();
    crate::vehicle::laws::rounding::lemma_multiples(j, arm);
    assert(j * arm == 2 * jr + j) by (nonlinear_arith)
        requires
            arm == 2 * r + 1,
            jr == j * r,
    ;
    crate::exact::lemma_transform_near(m, arm_i, j * 0x1_0000_0000, arm * 0x1_0000_0000);
    crate::exact::lemma_under_bound(m, p, j * 0x1_0000_0000, arm * 0x1_0000_0000);
    let e_g = g.times(0x1_0000_0000).minus(p.under(m));
    let swing = 6 * jr + 3 * j + 1;
    assert(g.within(swing * 0x1_0000_0000));
    let ang = spin.dot(arm_j);
    crate::vehicle::laws::rounding::lemma_multiples(swing, arm);
    assert(swing * arm == 12 * jrr + 12 * jr + 3 * j + 2 * r + 1) by (nonlinear_arith)
        requires
            swing == 6 * jr + 3 * j + 1,
            arm == 2 * r + 1,
            jr == j * r,
            jrr == j * (r * r),
    ;
    crate::exact::lemma_dot_near(
        spin,
        arm_j,
        swing * 0x1_0000_0000,
        arm * 0x1_0000_0000,
    );
    crate::exact::lemma_dot_bound(g, o, swing * 0x1_0000_0000, arm * 0x1_0000_0000);
    let response = lin.add(ang);
    assert(response.bits == lin.bits + ang.bits);
    // The error of the rounded spin.
    crate::exact::lemma_dot_linear(o, p.under(m), e_g, 0);
    crate::exact::lemma_dot_linear(o, g, g, 0x1_0000_0000);
    crate::exact::lemma_dot_bound(o, e_g, arm * 0x1_0000_0000, 0x3_0000_0000);
    assert(g.times(0x1_0000_0000) == p.under(m).plus(e_g));
    // The error of the first rounded arm.
    let big = o.times(0x1_0000_0000);
    crate::exact::lemma_under_linear(m, p, p, 0x1_0000_0000);
    crate::exact::lemma_under_linear(m, c_i, e_i, 0);
    assert(p.times(0x1_0000_0000) == c_i.plus(e_i));
    crate::exact::lemma_dot_linear(big, c_i.under(m), e_i.under(m), 0);
    crate::exact::lemma_dot_linear(big, p.under(m), p.under(m), 0x1_0000_0000);
    crate::exact::lemma_dot_linear(p.under(m), o, o, 0x1_0000_0000);
    crate::exact::lemma_under_bound(m, e_i, j * 0x1_0000_0000, 0x2_0000_0000);
    crate::vehicle::laws::rounding::lemma_multiples(arm, 6 * j);
    assert(arm * (6 * j) == 12 * jr + 6 * j) by (nonlinear_arith)
        requires
            arm == 2 * r + 1,
            jr == j * r,
    ;
    crate::exact::lemma_dot_bound(
        big,
        e_i.under(m),
        arm * 0x1_0000_0000_0000_0000,
        (6 * j) * 0x1_0000_0000_0000_0000,
    );
    // The error of the second rounded arm.
    assert(big == c_j.plus(e_j));
    crate::exact::lemma_dot_linear(c_i.under(m), c_j, e_j, 0);
    crate::exact::lemma_dot_linear(c_i.under(m), big, big, 0);
    crate::vehicle::laws::rounding::lemma_multiples(j, 2 * r);
    assert(j * (2 * r) == 2 * jr) by (nonlinear_arith)
        requires
            jr == j * r,
    ;
    crate::exact::lemma_under_bound(
        m,
        c_i,
        j * 0x1_0000_0000,
        (2 * r) * 0x1_0000_0000_0000_0000,
    );
    crate::exact::lemma_dot_bound(
        c_i.under(m),
        e_j,
        (6 * jr) * 0x1_0000_0000_0000_0000_0000_0000,
        0x2_0000_0000,
    );
}

/// Whether the chassis moves freely along every axis, and weighs enough that
/// neither its inverse mass nor its inverse inertia is out of range.
pub open spec fn is_ordinary(chassis: RigidBody, ranges: Ranges) -> bool {
    &&& chassis.dynamic
    &&& chassis.effective_inv_mass == Vector::new(
        chassis.inv_mass,
        chassis.inv_mass,
        chassis.inv_mass,
    )
    &&& -(ranges.inv_mass * ONE_BITS) <= chassis.inv_mass.bits <= ranges.inv_mass * ONE_BITS
    &&& crate::exact::matrix_within(
        chassis.effective_world_inv_inertia,
        ranges.inv_inertia * ONE_BITS,
    )
}

/// Whether neither velocity of the chassis is out of range.
pub open spec fn moves_in_range(chassis: RigidBody, ranges: Ranges) -> bool {
    &&& chassis.linvel.exact().within(ranges.speed * ONE_BITS)
    &&& chassis.angvel.exact().within(ranges.speed * ONE_BITS)
}

impl BottomedWheel {
    /// Whether the contact is near enough to the center of mass, and the normal
    /// not longer than a unit one.
    pub open spec fn is_near(self, chassis: RigidBody, ranges: Ranges) -> bool {
        &&& self.contact.sub(chassis.center_of_mass()).exact().within(ranges.lever * ONE_BITS)
        &&& self.normal.exact().within(ONE_BITS as int)
    }

    /// The velocity of the contact along its normal.
    pub open spec fn normal_velocity(self, chassis: RigidBody) -> Real {
        self.normal.dot(chassis.velocity_at_point(self.contact))
    }
}

/// Whether an impulse is in range.
pub open spec fn impulse_in_range(impulse: Real, ranges: Ranges) -> bool {
    -(ranges.impulse * ONE_BITS) <= impulse.bits <= ranges.impulse * ONE_BITS
}

/// An impulse at one contact changes the velocity of another along its normal
/// by what the system says, up to the rounding of both.
#[verifier::rlimit(30)]
pub proof fn impulse_changes_velocity_by_response(
    chassis: RigidBody,
    moved: BottomedWheel,
    pushed: BottomedWheel,
    impulse: Real,
    ranges: Ranges,
)
    requires
        ranges.are_small(),
        is_ordinary(chassis, ranges),
        moves_in_range(chassis, ranges),
        moves_in_range(chassis.struck(pushed.normal.scale(impulse), pushed.contact), ranges),
        moved.is_near(chassis, ranges),
        pushed.is_near(chassis, ranges),
        impulse_in_range(impulse, ranges),
    ensures
        ({
            let after = chassis.struck(pushed.normal.scale(impulse), pushed.contact);
            let change = moved.normal_velocity(after).bits - moved.normal_velocity(chassis).bits;
            let error = change * ONE_BITS - moved.response(pushed, chassis).bits * impulse.bits;
            let bound = ranges.velocity_error() * ONE_BITS + ranges.response_error()
                * crate::scalar::magnitude(impulse.bits as int);
            -bound <= error <= bound
        }),
{
    let m = chassis.effective_world_inv_inertia;
    let com = chassis.center_of_mass();
    let (lever_i, lever_j) = (moved.contact.sub(com), pushed.contact.sub(com));
    let (n, o) = (moved.normal.exact(), pushed.normal.exact());
    let (l, q) = (impulse.bits as int, chassis.inv_mass.bits as int);
    let push = pushed.normal.scale(impulse);
    let step = push.component_mul(chassis.effective_inv_mass);
    let spin = m.transform(lever_j.cross(push));
    let after = chassis.struck(push, pushed.contact);
    assert(after.linvel == chassis.linvel.add(step));
    assert(after.angvel == chassis.angvel.add(spin));
    assert(after.center_of_mass() == com);
    let change = moved.normal_velocity(after).bits - moved.normal_velocity(chassis).bits;
    let response = moved.response(pushed, chassis).bits as int;
    let c_i = lever_i.exact().cross(n);
    let c_j = lever_j.exact().cross(o);

    crate::vehicle::laws::rounding::lemma_contact_change_near(
        chassis.linvel,
        chassis.angvel,
        step,
        spin,
        lever_i,
        moved.normal,
        ranges,
    );
    let (k, j, r) = (ranges.inv_mass, ranges.inv_inertia, ranges.lever);
    crate::vehicle::laws::rounding::lemma_ranges(ranges);
    let jr = j * r;
    let jrr = j * (r * r);
    // What the linear velocity contributes.
    crate::vehicle::laws::rounding::lemma_push_near(
        chassis.inv_mass,
        pushed.normal,
        impulse,
        ranges,
    );
    let e_step = step.exact().times(0x1_0000_0000_0000_0000).minus(o.times(l).times(q));
    assert(step.exact().times(0x1_0000_0000_0000_0000) == o.times(l).times(q).plus(e_step));
    crate::exact::lemma_dot_linear(n, step.exact(), step.exact(), 0x1_0000_0000_0000_0000);
    crate::exact::lemma_dot_linear(n, o.times(l).times(q), e_step, 0);
    crate::exact::lemma_dot_linear(n, o.times(l), o, q);
    crate::exact::lemma_dot_linear(n, o, o, l);
    crate::exact::lemma_dot_bound(
        n,
        e_step,
        0x1_0000_0000,
        (k + 1) * 0x1_0000_0000_0000_0000,
    );
    // What the angular velocity contributes.
    crate::vehicle::laws::rounding::lemma_spin_near(
        m,
        lever_j,
        pushed.normal,
        impulse,
        ranges,
    );
    let e_spin = spin.exact().times(0x1_0000_0000_0000_0000_0000_0000).minus(
        c_j.under(m).times(l),
    );
    assert(spin.exact().times(0x1_0000_0000_0000_0000_0000_0000) == c_j.under(m).times(l).plus(
        e_spin,
    ));
    crate::exact::lemma_cross_bound(lever_i.exact(), n, r * 0x1_0000_0000, 0x1_0000_0000);
    crate::exact::lemma_dot_linear(
        c_i,
        spin.exact(),
        spin.exact(),
        0x1_0000_0000_0000_0000_0000_0000,
    );
    crate::exact::lemma_dot_linear(c_i, c_j.under(m).times(l), e_spin, 0);
    crate::exact::lemma_dot_linear(c_i, c_j.under(m), c_j, l);
    let swing = 6 * jr + 6 * j + 3;
    crate::vehicle::laws::rounding::lemma_multiples(2 * r, swing);
    assert((2 * r) * swing == 12 * jrr + 12 * jr + 6 * r) by (nonlinear_arith)
        requires
            swing == 6 * jr + 6 * j + 3,
            jr == j * r,
            jrr == j * (r * r),
    ;
    crate::exact::lemma_dot_bound(
        c_i,
        e_spin,
        (2 * r) * 0x1_0000_0000_0000_0000,
        swing * 0x1_0000_0000_0000_0000_0000_0000,
    );
    crate::exact::lemma_under_symmetric(m, c_i, c_j);
    crate::exact::lemma_dot_linear(c_i.under(m), c_j, c_j, 0);
    // What the system says.
    lemma_response_near(
        chassis.inv_mass,
        m,
        lever_i,
        moved.normal,
        lever_j,
        pushed.normal,
        ranges,
    );
    let dot = n.dot(o);
    let turn = c_i.under(m).dot(c_j);
    let exact = q * dot * 0x1_0000_0000_0000_0000 + turn;
    let e = response * 0x1_0000_0000_0000_0000_0000_0000_0000_0000int - exact;
    let b = crate::scalar::magnitude(l);
    let rounded = ranges.response_error();
    let limit = rounded * 0x1_0000_0000_0000_0000_0000_0000_0000_0000int;
    crate::exact::lemma_product_bound(e, l, limit, b);
    assert(limit * b == (rounded * b) * 0x1_0000_0000_0000_0000_0000_0000_0000_0000int)
        by (nonlinear_arith)
        requires
            limit == rounded * 0x1_0000_0000_0000_0000_0000_0000_0000_0000int,
    ;
    assert(e * l == (response * l) * 0x1_0000_0000_0000_0000_0000_0000_0000_0000int - ((dot * l)
        * q) * 0x1_0000_0000_0000_0000 - turn * l) by (nonlinear_arith)
        requires
            e == response * 0x1_0000_0000_0000_0000_0000_0000_0000_0000int - (q * dot
                * 0x1_0000_0000_0000_0000 + turn),
    ;
}

/// The first `n` terms of the product of a row and a vector.
pub open spec fn row_product(row: Seq<Real>, impulses: Seq<Real>, n: nat) -> int
    decreases n,
{
    if n == 0 {
        0
    } else {
        row_product(row, impulses, (n - 1) as nat) + row[n - 1].bits * impulses[n - 1].bits
    }
}

/// The sum of the magnitudes of the first `n` impulses.
pub open spec fn total_impulse(impulses: Seq<Real>, n: nat) -> int
    decreases n,
{
    if n == 0 {
        0
    } else {
        total_impulse(impulses, (n - 1) as nat) + crate::scalar::magnitude(
            impulses[n - 1].bits as int,
        )
    }
}

/// Whether the chassis, the wheels to be stopped and the impulses that stop
/// them are of ordinary size, throughout the first `n` impulses.
pub open spec fn stops_in_range(
    chassis: RigidBody,
    candidates: Seq<BottomedWheel>,
    impulses: Seq<Real>,
    n: nat,
    ranges: Ranges,
) -> bool {
    &&& ranges.are_small()
    &&& n <= candidates.len()
    &&& impulses.len() == candidates.len()
    &&& is_ordinary(chassis, ranges)
    &&& forall|j: int|
        0 <= j < candidates.len() ==> (#[trigger] candidates[j]).is_near(chassis, ranges)
    &&& forall|j: int|
        0 <= j < candidates.len() ==> impulse_in_range(#[trigger] impulses[j], ranges)
    &&& forall|k: nat|
        k <= n ==> moves_in_range(
            #[trigger] crate::vehicle::bump_stop::stopped_together(
                chassis,
                candidates,
                impulses,
                k,
            ),
            ranges,
        )
}

/// The impulses of a solution change the velocity of each wheel by what the
/// system says, up to the rounding of each.
pub proof fn impulses_change_velocity_by_system(
    system: BumpStopSystem,
    chassis: RigidBody,
    candidates: Seq<BottomedWheel>,
    impulses: Seq<Real>,
    i: int,
    n: nat,
    ranges: Ranges,
)
    requires
        system.describes(candidates, chassis),
        stops_in_range(chassis, candidates, impulses, n, ranges),
        0 <= i < candidates.len(),
    ensures
        ({
            let after = crate::vehicle::bump_stop::stopped_together(
                chassis,
                candidates,
                impulses,
                n,
            );
            let change = candidates[i].normal_velocity(after).bits - candidates[i].normal_velocity(
                chassis,
            ).bits;
            let error = change * ONE_BITS - row_product(system.a@[i]@, impulses, n);
            let bound = (n * ranges.velocity_error()) * ONE_BITS + ranges.response_error()
                * total_impulse(impulses, n);
            -bound <= error <= bound
        }),
    decreases n,
{
    if n == 0 {
        assert(0 * ranges.velocity_error() == 0) by (nonlinear_arith);
        assert(ranges.response_error() * 0 == 0) by (nonlinear_arith);
    } else {
        let k = (n - 1) as nat;
        assert(stops_in_range(chassis, candidates, impulses, k, ranges));
        impulses_change_velocity_by_system(system, chassis, candidates, impulses, i, k, ranges);
        let before = crate::vehicle::bump_stop::stopped_together(chassis, candidates, impulses, k);
        let after = crate::vehicle::bump_stop::stopped_together(chassis, candidates, impulses, n);
        crate::vehicle::laws::bump_stop::lemma_stopped_together(chassis, candidates, impulses, k);
        assert(moves_in_range(before, ranges));
        assert(moves_in_range(after, ranges));
        let (w_i, w_k) = (candidates[i], candidates[k as int]);
        assert(w_i.is_near(chassis, ranges) && w_k.is_near(chassis, ranges));
        assert(impulse_in_range(impulses[k as int], ranges));
        assert(before.center_of_mass() == chassis.center_of_mass());
        assert(w_i.response(w_k, before) == w_i.response(w_k, chassis));
        assert(system.a@[i]@[k as int] == w_i.response(w_k, chassis));
        impulse_changes_velocity_by_response(before, w_i, w_k, impulses[k as int], ranges);
        let (x, y) = (ranges.velocity_error(), ranges.response_error());
        let (sum, part) = (
            total_impulse(impulses, k),
            crate::scalar::magnitude(impulses[k as int].bits as int),
        );
        assert((k + 1) * x == k * x + x) by (nonlinear_arith);
        assert(y * (sum + part) == y * sum + y * part) by (nonlinear_arith);
    }
}

/// The velocity of a near point along a direction is in range.
pub proof fn lemma_normal_velocity_in_range(
    chassis: RigidBody,
    contact: Point,
    normal: Vector,
    ranges: Ranges,
)
    requires
        ranges.are_small(),
        moves_in_range(chassis, ranges),
        contact.sub(chassis.center_of_mass()).exact().within(ranges.lever * ONE_BITS),
        normal.exact().within(ONE_BITS as int),
    ensures
        ({
            let v = normal.dot(chassis.velocity_at_point(contact));
            let velocity = chassis.velocity_at_point(contact).exact();
            &&& -0x2400_0000_0000_0009 <= v.bits <= 0x2400_0000_0000_0009
            &&& velocity.within(0xc00_0000_0000_0002)
        }),
{
    let lever = contact.sub(chassis.center_of_mass());
    let (v, b) = (ranges.speed * 0x1_0000_0000, ranges.lever * 0x1_0000_0000);
    crate::vehicle::laws::rounding::lemma_ranges(ranges);
    crate::vehicle::laws::rounding::lemma_multiples(ranges.speed, ranges.lever);
    assert(ranges.speed * ranges.lever == ranges.lever * ranges.speed) by (nonlinear_arith);
    let u = chassis.angvel.cross(lever);
    crate::exact::lemma_cross_near(chassis.angvel, lever, v, b);
    crate::exact::lemma_cross_bound(chassis.angvel.exact(), lever.exact(), v, b);
    let w = chassis.linvel.add(u);
    assert(w.exact().within(0xc00_0000_0000_0002));
    crate::exact::lemma_dot_near(normal, w, 0x1_0000_0000, 0xc00_0000_0000_0002);
    crate::exact::lemma_dot_bound(
        normal.exact(),
        w.exact(),
        0x1_0000_0000,
        0xc00_0000_0000_0002,
    );
}

/// A solution stops every wheel: once its impulses are applied no wheel moves
/// inwards, and none rebounds, up to what the solution itself lacks and to the
/// rounding of each impulse.
pub proof fn solution_stops_every_wheel(
    system: BumpStopSystem,
    chassis: RigidBody,
    candidates: Seq<BottomedWheel>,
    impulses: Seq<Real>,
    i: int,
    lack: int,
    ranges: Ranges,
)
    requires
        system.describes(candidates, chassis),
        stops_in_range(chassis, candidates, impulses, candidates.len(), ranges),
        0 <= i < candidates.len(),
        candidates[i].rel_vel == candidates[i].normal_velocity(chassis),
        ({
            let residual = row_product(system.a@[i]@, impulses, candidates.len())
                - system.b@[i].bits * ONE_BITS;
            -lack <= residual <= lack
        }),
    ensures
        ({
            let after = crate::vehicle::bump_stop::stopped_together(
                chassis,
                candidates,
                impulses,
                candidates.len(),
            );
            let left = candidates[i].normal_velocity(after).bits * ONE_BITS;
            let bound = lack + (candidates.len() * ranges.velocity_error()) * ONE_BITS
                + ranges.response_error() * total_impulse(impulses, candidates.len());
            -bound <= left <= bound
        }),
{
    impulses_change_velocity_by_system(
        system,
        chassis,
        candidates,
        impulses,
        i,
        candidates.len(),
        ranges,
    );
    assert(crate::vehicle::bump_stop::stopped_together(chassis, candidates, impulses, 0)
        == chassis);
    assert(moves_in_range(chassis, ranges));
    assert(candidates[i].is_near(chassis, ranges));
    lemma_normal_velocity_in_range(
        chassis,
        candidates[i].contact,
        candidates[i].normal,
        ranges,
    );
    assert(system.b@[i] == candidates[i].rel_vel.neg());
}

/// The wheels that a vehicle hands to the bump stop are stopped: once the
/// impulses of a solution of their system are applied, none of them moves into
/// the ground, and none rebounds, up to what the solution lacks and to
/// rounding.
pub proof fn collected_wheels_are_stopped(
    wheels: Seq<Wheel>,
    system: BumpStopSystem,
    chassis: RigidBody,
    impulses: Seq<Real>,
    i: int,
    lack: int,
    ranges: Ranges,
)
    requires
        ({
            let candidates = crate::vehicle::bump_stop::wheels_to_stop(wheels, chassis);
            let residual = row_product(system.a@[i]@, impulses, candidates.len())
                - system.b@[i].bits * ONE_BITS;
            &&& system.describes(candidates, chassis)
            &&& stops_in_range(chassis, candidates, impulses, candidates.len(), ranges)
            &&& 0 <= i < candidates.len()
            &&& -lack <= residual <= lack
        }),
    ensures
        ({
            let candidates = crate::vehicle::bump_stop::wheels_to_stop(wheels, chassis);
            let after = crate::vehicle::bump_stop::stopped_together(
                chassis,
                candidates,
                impulses,
                candidates.len(),
            );
            let left = candidates[i].normal.dot(
                after.velocity_at_point(candidates[i].contact),
            ).bits * ONE_BITS;
            let bound = lack + (candidates.len() * ranges.velocity_error()) * ONE_BITS
                + ranges.response_error() * total_impulse(impulses, candidates.len());
            -bound <= left <= bound
        }),
{
    let candidates = crate::vehicle::bump_stop::wheels_to_stop(wheels, chassis);
    let _ = crate::vehicle::laws::bump_stop::bump_stop_takes_the_sinking_wheels(wheels, chassis);
    assert(candidates[i].rel_vel == candidates[i].normal_velocity(chassis));
    solution_stops_every_wheel(system, chassis, candidates, impulses, i, lack, ranges);
}

/// A wheel alone is stopped even where its system cannot be solved: the impulse
/// that its own response gives leaves its contact at rest along its normal, up
/// to rounding.
pub proof fn lone_wheel_is_stopped_without_a_solution(
    wheel: BottomedWheel,
    chassis: RigidBody,
    chassis_after: RigidBody,
    candidates_after: Seq<BottomedWheel>,
    outcome: BumpStopOutcome,
    ranges: Ranges,
)
    requires
        crate::vehicle::bump_stop::bump_stop_steps(
            seq![wheel],
            chassis,
            None,
            candidates_after,
            chassis_after,
            outcome,
        ),
        ranges.are_small(),
        is_ordinary(chassis, ranges),
        moves_in_range(chassis, ranges),
        moves_in_range(chassis_after, ranges),
        wheel.is_near(chassis, ranges),
        wheel.rel_vel == wheel.normal_velocity(chassis),
        wheel.rel_vel.bits < 0,
        Real::ratio(1, 1_000_000).le(wheel.response(wheel, chassis)),
        impulse_in_range(wheel.rel_vel.neg().div(wheel.response(wheel, chassis)), ranges),
    ensures
        ({
            let impulse = wheel.rel_vel.neg().div(wheel.response(wheel, chassis));
            let left = wheel.normal.dot(chassis_after.velocity_at_point(wheel.contact)).bits
                * ONE_BITS;
            let bound = ranges.velocity_error() * ONE_BITS + ranges.response_error()
                * crate::scalar::magnitude(impulse.bits as int) + wheel.response(
                wheel,
                chassis,
            ).bits;
            -bound <= left <= bound
        }),
{
    let denom = wheel.response(wheel, chassis);
    let impulse = wheel.rel_vel.neg().div(denom);
    assert(Real::ratio(1, 1_000_000).bits > 0) by {
        crate::scalar_lemmas::lemma_round_div_exact(1, 1_000_000);
        crate::scalar_lemmas::lemma_round_div_ordered(1_000_000, ONE_BITS as int, 1_000_000);
    }
    assert(crate::vehicle::bump_stop::fallback_denominator(seq![wheel], chassis) == denom);
    reveal_with_fuel(crate::vehicle::bump_stop::stopped_one_by_one, 2);
    let (x, d, l) = (-(wheel.rel_vel.bits as int), denom.bits as int, impulse.bits as int);
    crate::vehicle::laws::rounding::lemma_ranges(ranges);
    lemma_normal_velocity_in_range(chassis, wheel.contact, wheel.normal, ranges);
    let n = x * 0x1_0000_0000;
    let q = crate::scalar::round_div(n, d);
    crate::scalar_lemmas::lemma_round_div_near(n, d);
    assert(2 * q * d == 2 * (d * q)) by (nonlinear_arith);
    crate::scalar_lemmas::lemma_round_div_exact(0, d);
    crate::scalar_lemmas::lemma_round_div_ordered(0 * d, n, d);
    assert(l == q);
    if Real::zero().lt(impulse) {
        assert(chassis_after == chassis.struck(wheel.normal.scale(impulse), wheel.contact));
        impulse_changes_velocity_by_response(chassis, wheel, wheel, impulse, ranges);
    } else {
        assert(chassis_after == chassis);
        assert(l == 0);
        assert(d * 0 == 0) by (nonlinear_arith);
        assert(ranges.response_error() * 0 == 0) by (nonlinear_arith);
    }
}

/// The impulses that stop the wheels of a system that cannot be solved: each is
/// what stops its wheel alone as if it responded like the first, pushes, and
/// acts at its own contact along its own normal.
pub proof fn unsolved_wheels_are_pushed_one_by_one(
    candidates: Seq<BottomedWheel>,
    chassis: RigidBody,
    chassis_after: RigidBody,
    candidates_after: Seq<BottomedWheel>,
    outcome: BumpStopOutcome,
) -> (impulses: Seq<Real>)
    requires
        candidates.len() > 0,
        crate::vehicle::bump_stop::bump_stop_steps(
            candidates,
            chassis,
            None,
            candidates_after,
            chassis_after,
            outcome,
        ),
    ensures
        outcome == BumpStopOutcome::Stopped,
        impulses.len() == candidates.len(),
        chassis_after == crate::vehicle::bump_stop::stopped_together(
            chassis,
            candidates,
            impulses,
            candidates.len(),
        ),
        ({
            let own = candidates[0].response(candidates[0], chassis).bits as int;
            let least = Real::ratio(1, 1_000_000).bits as int;
            let response = if own < least {
                least
            } else {
                own
            };
            forall|k: int|
                0 <= k < candidates.len() ==> {
                    let velocity = candidates[k].rel_vel.bits;
                    let impulse = (#[trigger] impulses[k]).bits;
                    &&& impulse >= 0
                    &&& velocity >= 0 ==> impulse == 0
                    &&& i64::MIN < velocity < 0 && impulse < i64::MAX ==> -response <= 2 * (impulse
                        * response) + 2 * (velocity * ONE_BITS) <= response
                }
        }),
{
    let denom = crate::vehicle::bump_stop::fallback_denominator(candidates, chassis);
    assert(Real::ratio(1, 1_000_000).bits > 0) by {
        crate::scalar_lemmas::lemma_round_div_exact(1, 1_000_000);
        crate::scalar_lemmas::lemma_round_div_ordered(1_000_000, ONE_BITS as int, 1_000_000);
    }
    let impulses = Seq::new(
        candidates.len(),
        |k: int| candidates[k].rel_vel.neg().div(denom).max(Real::zero()),
    );
    lemma_one_by_one(chassis, candidates, denom, impulses, candidates.len());
    assert forall|k: int| 0 <= k < candidates.len() implies {
        let velocity = candidates[k].rel_vel.bits;
        let impulse = (#[trigger] impulses[k]).bits;
        &&& impulse >= 0
        &&& velocity >= 0 ==> impulse == 0
        &&& i64::MIN < velocity < 0 && impulse < i64::MAX ==> -denom.bits <= 2 * (impulse
            * denom.bits) + 2 * (velocity * ONE_BITS) <= denom.bits
    } by {
        let x = candidates[k].rel_vel.neg();
        crate::scalar_lemmas::lemma_div_sign(x, denom);
        if i64::MIN < candidates[k].rel_vel.bits < 0 && impulses[k].bits < i64::MAX {
            crate::scalar_lemmas::lemma_div_within_half(x, denom);
        }
    }
    impulses
}

proof fn lemma_one_by_one(
    chassis: RigidBody,
    candidates: Seq<BottomedWheel>,
    denom: Real,
    impulses: Seq<Real>,
    n: nat,
)
    requires
        n <= candidates.len(),
        forall|k: int|
            0 <= k < n ==> #[trigger] impulses[k] == candidates[k].rel_vel.neg().div(denom).max(
                Real::zero(),
            ),
    ensures
        crate::vehicle::bump_stop::stopped_one_by_one(chassis, candidates, denom, n)
            == crate::vehicle::bump_stop::stopped_together(chassis, candidates, impulses, n),
    decreases n,
{
    if n > 0 {
        let k = (n - 1) as nat;
        lemma_one_by_one(chassis, candidates, denom, impulses, k);
        let before = crate::vehicle::bump_stop::stopped_together(chassis, candidates, impulses, k);
        let wheel = candidates[k as int];
        let impulse = wheel.rel_vel.neg().div(denom);
        assert(impulses[k as int] == impulse.max(Real::zero()));
        if !Real::zero().lt(impulse) {
            assert(impulses[k as int] == Real::zero());
            crate::scalar_lemmas::lemma_mul_zero(wheel.normal.x);
            crate::scalar_lemmas::lemma_mul_zero(wheel.normal.y);
            crate::scalar_lemmas::lemma_mul_zero(wheel.normal.z);
            assert(wheel.normal.scale(Real::zero()) == Vector::zeros());
            crate::vehicle::laws::update::lemma_no_impulse(before, wheel.contact);
        }
    }
}

} // verus!
