//! What the poses and the motions of rigid-bodies promise.
use crate::bodies::RigidBody;
use crate::exact::Exact;
use crate::math::{Isometry, Point, Vector};
use crate::scalar::{Real, ONE_BITS};
use vstd::prelude::*;

verus! {

/// From the center of mass to a point, exactly.
pub open spec fn exact_lever(body: RigidBody, point: Point) -> Exact {
    point.exact().minus(body.center_of_mass().exact())
}

/// The velocity of a body's matter at a point, exactly, in squared units: its
/// linear velocity, plus its angular velocity crossed with the lever from its
/// center of mass.
pub open spec fn exact_velocity(body: RigidBody, point: Point) -> Exact {
    body.linvel.exact().times(0x1_0000_0000).plus(
        body.angvel.exact().cross(exact_lever(body, point)),
    )
}

/// Whether the velocity of a body at a point is in range, for an angular
/// velocity of `w` units and a lever of `r` units at most.
pub open spec fn moves_at(body: RigidBody, point: Point, w: int, r: int) -> bool {
    &&& body.linvel.exact().within(0x2000_0000_0000_0000)
    &&& body.angvel.exact().within(w)
    &&& 0 <= w
    &&& 0 <= r <= i64::MAX
    &&& exact_lever(body, point).within(r)
    &&& w * r <= crate::exact::product_limit()
}

/// A body moves rigidly: the velocity of its matter at a point is the exact one
/// up to the rounding of two products.
pub proof fn velocity_is_that_of_a_rigid_motion(body: RigidBody, point: Point, w: int, r: int)
    requires
        moves_at(body, point, w, r),
    ensures
        body.velocity_at_point(point).exact().times(0x1_0000_0000).minus(
            exact_velocity(body, point),
        ).within(0x2_0000_0000),
        body.velocity_at_point(point).exact().within(0x6000_0000_0000_0002),
{
    let lever = point.sub(body.center_of_mass());
    assert(lever.exact() == exact_lever(body, point));
    crate::exact::lemma_cross_near(body.angvel, lever, w, r);
    crate::exact::lemma_cross_bound(body.angvel.exact(), lever.exact(), w, r);
    let turn = body.angvel.cross(lever);
    assert(turn.exact().within(0x4000_0000_0000_0002));
    assert(body.velocity_at_point(point).exact() == body.linvel.exact().plus(turn.exact()));
}

/// Where a body is does not change how it moves: moving the body and a point by
/// the same way leaves the velocity there, as long as they stay in range.
pub proof fn translation_changes_no_velocity(
    body: RigidBody,
    other: RigidBody,
    point: Point,
    way: Vector,
)
    requires
        other.linvel == body.linvel,
        other.angvel == body.angvel,
        other.local_com == body.local_com,
        other.position.rotation == body.position.rotation,
        other.position.translation.exact() == body.position.translation.exact().plus(way.exact()),
        body.position.rotation.rotate(body.local_com).exact().within(0x1000_0000_0000_0000),
        body.position.translation.exact().within(0x1000_0000_0000_0000),
        point.exact().within(0x1000_0000_0000_0000),
        way.exact().within(0x1000_0000_0000_0000),
    ensures
        other.velocity_at_point(point.add(way)) == body.velocity_at_point(point),
{
    let (c, d) = (body.center_of_mass(), other.center_of_mass());
    assert(d.exact() == c.exact().plus(way.exact()));
    assert(point.add(way).exact() == point.exact().plus(way.exact()));
    assert(point.add(way).sub(d) == point.sub(c));
}

/// A pose turns what joins two points and does not move it: the difference of
/// the images is the turned difference, up to the rounding of three rotations.
pub proof fn pose_turns_differences(pose: Isometry, a: Point, b: Point)
    requires
        pose.rotation.imaginary().exact().within(ONE_BITS as int),
        -ONE_BITS <= pose.rotation.w.bits <= ONE_BITS,
        a.exact().within(0x8_0000 * ONE_BITS),
        b.exact().within(0x8_0000 * ONE_BITS),
        pose.translation.exact().within(0x2000_0000_0000_0000),
    ensures
        pose.transform_point(a).exact().minus(pose.transform_point(b).exact()).minus(
            pose.transform_vector(a.sub(b)).exact(),
        ).within(45),
{
    let d = a.sub(b);
    assert(d.exact() == a.exact().minus(b.exact()));
    crate::rotation_laws::lemma_rotate_near(pose.rotation, a);
    crate::rotation_laws::lemma_rotate_near(pose.rotation, b);
    crate::rotation_laws::lemma_rotate_near(pose.rotation, d);
    let (u, w) = (pose.rotation.imaginary().exact(), pose.rotation.w.bits as int);
    crate::rotation_laws::lemma_exactly_rotated_difference(u, w, a.exact(), b.exact());
    crate::rotation_laws::lemma_exactly_rotated_bound(u, w, a.exact(), 0x8_0000_0000_0000);
    crate::rotation_laws::lemma_exactly_rotated_bound(u, w, b.exact(), 0x8_0000_0000_0000);
    let (ra, rb) = (pose.rotation.rotate(a), pose.rotation.rotate(b));
    assert(ra.exact().within(0x80_0000_0000_0000));
    assert(rb.exact().within(0x80_0000_0000_0000));
    assert(pose.transform_point(a).exact() == ra.exact().plus(pose.translation.exact()));
    assert(pose.transform_point(b).exact() == rb.exact().plus(pose.translation.exact()));
}

/// A pose places its own origin at its translation.
pub proof fn pose_places_its_origin(pose: Isometry)
    ensures
        pose.transform_point(Vector::zeros()) == pose.translation,
        pose.transform_vector(Vector::zeros()) == Vector::zeros(),
{
    crate::scalar_lemmas::lemma_mul_zero(pose.rotation.x);
    crate::scalar_lemmas::lemma_mul_zero(pose.rotation.y);
    crate::scalar_lemmas::lemma_mul_zero(pose.rotation.z);
    crate::scalar_lemmas::lemma_mul_zero(pose.rotation.w);
    crate::scalar_lemmas::lemma_mul_zero(Real::ratio(2, 1));
    let u = pose.rotation.imaginary();
    assert(u.cross(Vector::zeros()) == Vector::zeros());
    assert(Vector::zeros().scale(Real::ratio(2, 1)) == Vector::zeros());
    assert(Vector::zeros().scale(pose.rotation.w) == Vector::zeros());
}

/// The center of mass of a body keeps its distance from where the body is, as
/// it is turned with it: it lies at the translation of the body plus its turned
/// place within the body.
pub proof fn center_of_mass_is_turned_with_its_body(body: RigidBody)
    requires
        body.position.rotation.imaginary().exact().within(ONE_BITS as int),
        -ONE_BITS <= body.position.rotation.w.bits <= ONE_BITS,
        body.local_com.exact().within(0x8_0000 * ONE_BITS),
        body.position.translation.exact().within(0x2000_0000_0000_0000),
    ensures
        body.center_of_mass().exact() == body.position.translation.exact().plus(
            body.position.rotation.rotate(body.local_com).exact(),
        ),
{
    let q = body.position.rotation;
    let (u, w) = (q.imaginary().exact(), q.w.bits as int);
    crate::rotation_laws::lemma_rotate_near(body.position.rotation, body.local_com);
    crate::rotation_laws::lemma_exactly_rotated_bound(
        u,
        w,
        body.local_com.exact(),
        0x8_0000_0000_0000,
    );
}

/// Whether an impulse at a point is in range for a body, whose inverse inertia
/// has components of `j` units at most, and whose lever and impulse have
/// coordinates of `r` and `p` units at most.
pub open spec fn is_struck_in_range(
    body: RigidBody,
    impulse: Vector,
    point: Point,
    j: int,
    r: int,
    p: int,
) -> bool {
    &&& body.linvel.exact().within(0x2000_0000_0000_0000)
    &&& body.angvel.exact().within(0x1000_0000_0000_0000)
    &&& body.effective_inv_mass.exact().within(0x2000_0000_0000_0000)
    &&& crate::exact::matrix_within(body.effective_world_inv_inertia, j)
    &&& exact_lever(body, point).within(r)
    &&& impulse.exact().within(p)
    &&& 0 <= j
    &&& 0 <= r <= i64::MAX
    &&& 0 <= p
    &&& p * 0x2000_0000_0000_0000 <= crate::exact::product_limit()
    &&& r * p <= 0xfff_ffff_0000_0000_0000_0000
    &&& j * 0x2000_0000_0000_0000 <= crate::exact::product_limit()
}

/// An impulse at a point of a dynamic body changes its linear velocity by the
/// impulse times its inverse mass, and its angular velocity by its inverse
/// inertia applied to the lever from its center of mass crossed with the
/// impulse, up to rounding, and nothing else. A body that is not dynamic keeps
/// its velocities.
pub proof fn impulse_moves_and_turns(
    body: RigidBody,
    impulse: Vector,
    point: Point,
    j: int,
    r: int,
    p: int,
)
    requires
        is_struck_in_range(body, impulse, point, j, r, p),
    ensures
        ({
            let after = body.struck(impulse, point);
            let push = after.linvel.exact().minus(body.linvel.exact());
            let spin = after.angvel.exact().minus(body.angvel.exact());
            let (i, m) = (impulse.exact(), body.effective_inv_mass.exact());
            let pushed = Exact { x: i.x * m.x, y: i.y * m.y, z: i.z * m.z };
            let twisted = exact_lever(body, point).cross(i).under(
                body.effective_world_inv_inertia,
            );
            &&& after.same_but_velocities(body)
            &&& !body.dynamic ==> after == body
            &&& body.dynamic ==> push.times(0x1_0000_0000).minus(pushed).within(0x1_0000_0000)
            &&& body.dynamic ==> spin.times(0x1_0000_0000_0000_0000).minus(twisted).within(
                6 * (j * 0x1_0000_0000) + 0x3_0000_0000_0000_0000,
            )
        }),
{
    let lever = point.sub(body.center_of_mass());
    assert(lever.exact() == exact_lever(body, point));
    let m = body.effective_inv_mass;
    let q: int = 0x2000_0000_0000_0000;
    crate::exact::lemma_bounded_mul_near(impulse.x, m.x, p, q);
    crate::exact::lemma_bounded_mul_near(impulse.y, m.y, p, q);
    crate::exact::lemma_bounded_mul_near(impulse.z, m.z, p, q);
    let torque = lever.cross(impulse);
    let (l, i, t) = (lever.exact(), impulse.exact(), torque.exact());
    crate::exact::lemma_cross_near(lever, impulse, r, p);
    crate::exact::lemma_cross_bound(l, i, r, p);
    let e3 = t.times(0x1_0000_0000).minus(l.cross(i));
    let inertia = body.effective_world_inv_inertia;
    assert(t.within(0x2000_0000_0000_0000)) by {
        lemma_twist_bound(l.cross(i).x, t.x);
        lemma_twist_bound(l.cross(i).y, t.y);
        lemma_twist_bound(l.cross(i).z, t.z);
    }
    crate::exact::lemma_transform_near(inertia, torque, j, 0x2000_0000_0000_0000);
    let spin = inertia.transform(torque);
    let w = spin.exact();
    let e4 = w.times(0x1_0000_0000).minus(t.under(inertia));
    crate::exact::lemma_under_bound(inertia, t, j, 0x2000_0000_0000_0000);
    assert(w.within(0x6000_0000_0000_0003));
    assert(t.times(0x1_0000_0000) == l.cross(i).plus(e3));
    crate::exact::lemma_under_linear(inertia, t, t, 0x1_0000_0000);
    crate::exact::lemma_under_linear(inertia, l.cross(i), e3, 0);
    crate::exact::lemma_under_bound(inertia, e3, j, 0x2_0000_0000);
}

proof fn lemma_twist_bound(exact: int, rounded: int)
    requires
        -0x1fff_fffe_0000_0000_0000_0000 <= exact <= 0x1fff_fffe_0000_0000_0000_0000,
        -0x2_0000_0000 <= rounded * 0x1_0000_0000 - exact <= 0x2_0000_0000,
    ensures
        -0x2000_0000_0000_0000 <= rounded <= 0x2000_0000_0000_0000,
{
}

} // verus!
