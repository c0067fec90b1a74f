//! How far the velocities that an impulse gives are from the exact ones.
use crate::math::{SdpMatrix3, Vector};
use crate::scalar::Real;
use vstd::prelude::*;

verus! {

/// Bounds of a body and of what strikes it, as multiples of one: of its inverse
/// mass, of the coordinates of its inverse inertia and of the levers of the
/// contacts, of the impulses, and of the coordinates of its velocities.
pub struct Ranges {
    pub inv_mass: int,
    pub inv_inertia: int,
    pub lever: int,
    pub impulse: int,
    pub speed: int,
}

impl Ranges {
    /// Whether every product that the bounds allow is in range.
    pub open spec fn are_small(self) -> bool {
        &&& self.inv_mass >= 1
        &&& self.inv_inertia >= 1
        &&& self.lever >= 1
        &&& self.impulse >= 1
        &&& self.speed >= 1
        &&& self.inv_mass * self.impulse <= 0x800_0000
        &&& self.inv_inertia * (self.lever * self.impulse) <= 0x800_0000
        &&& self.inv_inertia * (self.lever * self.lever) <= 0x80_0000
        &&& self.lever * self.speed <= 0x400_0000
    }

    /// By how many units the velocity that an impulse gives is rounded, at most.
    pub open spec fn velocity_error(self) -> int {
        21 + 3 * self.inv_mass + 18 * self.lever + 36 * (self.inv_inertia * self.lever) + 36 * (
        self.inv_inertia * (self.lever * self.lever))
    }

    /// By how many units the response of one contact to another is rounded, at
    /// most.
    pub open spec fn response_error(self) -> int {
        13 + 3 * self.inv_mass + 18 * self.lever + 18 * self.inv_inertia + 72 * (self.inv_inertia
            * self.lever)
    }

    /// By how many units the response of a contact to itself is rounded, at
    /// most, along a direction of length one up to its own rounding.
    pub open spec fn own_response_error(self) -> int {
        9 + 16 * self.inv_mass + 18 * self.lever + 36 * (self.inv_inertia * self.lever)
    }
}

/// What follows of the bounds for each of them, and for their products.
pub proof fn lemma_ranges(ranges: Ranges)
    requires
        ranges.are_small(),
    ensures
        ({
            let (k, j, r, p, v) = (
                ranges.inv_mass,
                ranges.inv_inertia,
                ranges.lever,
                ranges.impulse,
                ranges.speed,
            );
            &&& k <= 0x800_0000
            &&& p <= 0x800_0000
            &&& v <= 0x400_0000
            &&& 1 <= r * p <= 0x800_0000
            &&& 1 <= j * p <= 0x800_0000
            &&& 1 <= j * r <= j * (r * r)
            &&& j <= j * r
            &&& r <= j * r
            &&& r <= r * p
            &&& j * r <= j * (r * p)
        }),
{
    let (k, j, r, p, v) = (
        ranges.inv_mass,
        ranges.inv_inertia,
        ranges.lever,
        ranges.impulse,
        ranges.speed,
    );
    lemma_grows(k, p);
    lemma_grows(p, k);
    lemma_grows(v, r);
    lemma_grows(r, p);
    lemma_grows(p, r);
    lemma_grows(r * p, j);
    lemma_grows(r, r);
    lemma_grows(r, j);
    lemma_grows(j, r);
    lemma_grows(j, p);
    assert(j * p <= j * (r * p)) by (nonlinear_arith)
        requires
            j >= 1,
            p <= r * p,
    ;
    assert(j * r <= j * (r * p)) by (nonlinear_arith)
        requires
            j >= 1,
            r <= r * p,
    ;
    assert(j * r <= j * (r * r)) by (nonlinear_arith)
        requires
            j >= 1,
            r <= r * r,
    ;
}

proof fn lemma_grows(a: int, b: int)
    requires
        a >= 1,
        b >= 1,
    ensures
        a <= a * b,
        a <= b * a,
{
    assert(a <= a * b) by (nonlinear_arith)
        requires
            a >= 1,
            b >= 1,
    ;
    assert(a * b == b * a) by (nonlinear_arith);
}

/// The product of two multiples of one.
pub proof fn lemma_multiples(a: int, b: int)
    ensures
        (a * 0x1_0000_0000) * (b * 0x1_0000_0000) == (a * b) * 0x1_0000_0000_0000_0000,
        (a * 0x1_0000_0000) * (b * 0x1_0000_0000_0000_0000) == (a * b)
            * 0x1_0000_0000_0000_0000_0000_0000,
        (a * 0x1_0000_0000_0000_0000) * (b * 0x1_0000_0000_0000_0000) == (a * b)
            * 0x1_0000_0000_0000_0000_0000_0000_0000_0000int,
        (a * 0x1_0000_0000_0000_0000) * (b * 0x1_0000_0000_0000_0000_0000_0000) == (a * b)
            * 0x1_0000_0000_0000_0000_0000_0000_0000_0000_0000_0000int,
{
    assert((a * 0x1_0000_0000) * (b * 0x1_0000_0000) == (a * b) * 0x1_0000_0000_0000_0000)
        by (nonlinear_arith);
    assert((a * 0x1_0000_0000) * (b * 0x1_0000_0000_0000_0000) == (a * b)
        * 0x1_0000_0000_0000_0000_0000_0000) by (nonlinear_arith);
    assert((a * 0x1_0000_0000_0000_0000) * (b * 0x1_0000_0000_0000_0000) == (a * b)
        * 0x1_0000_0000_0000_0000_0000_0000_0000_0000int) by (nonlinear_arith);
    assert((a * 0x1_0000_0000_0000_0000) * (b * 0x1_0000_0000_0000_0000_0000_0000) == (a * b)
        * 0x1_0000_0000_0000_0000_0000_0000_0000_0000_0000_0000int) by (nonlinear_arith);
}

/// The angular velocity that an impulse gives, compared to the exact one.
pub proof fn lemma_spin_near(
    m: SdpMatrix3<Real>,
    lever: Vector,
    normal: Vector,
    impulse: Real,
    ranges: Ranges,
)
    requires
        ranges.are_small(),
        crate::exact::matrix_within(m, ranges.inv_inertia * 0x1_0000_0000),
        lever.exact().within(ranges.lever * 0x1_0000_0000),
        normal.exact().within(0x1_0000_0000),
        -(ranges.impulse * 0x1_0000_0000) <= impulse.bits <= ranges.impulse * 0x1_0000_0000,
    ensures
        ({
            let spin = m.transform(lever.cross(normal.scale(impulse))).exact();
            let exact = lever.exact().cross(normal.exact()).under(m).times(impulse.bits as int);
            spin.times(0x1_0000_0000_0000_0000_0000_0000).minus(exact).within(
                (6 * (ranges.inv_inertia * ranges.lever) + 6 * ranges.inv_inertia + 3)
                    * 0x1_0000_0000_0000_0000_0000_0000,
            )
        }),
{
    let (j, b, c0) = (ranges.inv_inertia, ranges.lever, ranges.impulse);
    let l = impulse.bits as int;
    let push = normal.scale(impulse);
    let torque = lever.cross(push);
    let spin = m.transform(torque);
    let (n, r, p, t, w) = (
        normal.exact(),
        lever.exact(),
        push.exact(),
        torque.exact(),
        spin.exact(),
    );
    lemma_ranges(ranges);
    let (jb, bc) = (j * b, b * c0);
    let jbc = j * bc;
    let size = c0 * 0x1_0000_0000;
    crate::exact::lemma_scale_near(normal, impulse, 0x1_0000_0000, size);
    let e1 = p.times(0x1_0000_0000).minus(n.times(l));
    crate::exact::lemma_product_bound(n.x, l, 0x1_0000_0000, size);
    crate::exact::lemma_product_bound(n.y, l, 0x1_0000_0000, size);
    crate::exact::lemma_product_bound(n.z, l, 0x1_0000_0000, size);
    assert(p.within(size + 1));
    assert((b * 0x1_0000_0000) * (size + 1) == bc * 0x1_0000_0000_0000_0000 + b * 0x1_0000_0000)
        by (nonlinear_arith)
        requires
            size == c0 * 0x1_0000_0000,
            bc == b * c0,
    ;
    crate::exact::lemma_cross_near(lever, push, b * 0x1_0000_0000, size + 1);
    let e3 = t.times(0x1_0000_0000).minus(r.cross(p));
    crate::exact::lemma_cross_bound(r, p, b * 0x1_0000_0000, size + 1);
    let twist = 2 * bc * 0x1_0000_0000 + 2 * b + 2;
    assert(t.within(twist));
    assert((j * 0x1_0000_0000) * twist == 2 * jbc * 0x1_0000_0000_0000_0000 + 2 * jb * 0x1_0000_0000
        + 2 * j * 0x1_0000_0000) by (nonlinear_arith)
        requires
            twist == 2 * bc * 0x1_0000_0000 + 2 * b + 2,
            jb == j * b,
            jbc == j * bc,
    ;
    crate::exact::lemma_transform_near(m, torque, j * 0x1_0000_0000, twist);
    let e4 = w.times(0x1_0000_0000).minus(t.under(m));

    let c = r.cross(n);
    crate::exact::lemma_cross_linear(r, p, p, 0x1_0000_0000);
    assert(p.times(0x1_0000_0000) == n.times(l).plus(e1));
    crate::exact::lemma_cross_linear(r, n.times(l), e1, 0);
    crate::exact::lemma_cross_linear(r, n, n, l);
    let g = r.cross(e1).plus(e3.times(0x1_0000_0000));
    assert(t.times(0x1_0000_0000_0000_0000) == c.times(l).plus(g));
    crate::exact::lemma_under_linear(m, t, t, 0x1_0000_0000_0000_0000);
    crate::exact::lemma_under_linear(m, c.times(l), g, 0);
    crate::exact::lemma_under_linear(m, c, c, l);
    crate::exact::lemma_cross_bound(r, e1, b * 0x1_0000_0000, 0x1_0000_0000);
    assert(g.within((2 * b + 2) * 0x1_0000_0000_0000_0000));
    crate::exact::lemma_under_bound(
        m,
        g,
        j * 0x1_0000_0000,
        (2 * b + 2) * 0x1_0000_0000_0000_0000,
    );
    lemma_multiples(j, 2 * b + 2);
    assert(j * (2 * b + 2) == 2 * jb + 2 * j) by (nonlinear_arith)
        requires
            jb == j * b,
    ;
    assert(w.times(0x1_0000_0000_0000_0000_0000_0000) == t.under(m).times(
        0x1_0000_0000_0000_0000,
    ).plus(e4.times(0x1_0000_0000_0000_0000)));
}

proof fn lemma_push_term(push: Real, m: Real, step: int, nl: int, k: int)
    requires
        -(k * 0x1_0000_0000) <= m.bits <= k * 0x1_0000_0000,
        -0x1_0000_0000 <= push.bits * 0x1_0000_0000 - nl <= 0x1_0000_0000,
        -0x1_0000_0000 <= step * 0x1_0000_0000 - push.bits * m.bits <= 0x1_0000_0000,
    ensures
        -((k + 1) * 0x1_0000_0000_0000_0000) <= step * 0x1_0000_0000_0000_0000 - nl * m.bits <= (k
            + 1) * 0x1_0000_0000_0000_0000,
{
    let (p, q) = (push.bits as int, m.bits as int);
    let e = p * 0x1_0000_0000 - nl;
    crate::exact::lemma_product_bound(e, q, 0x1_0000_0000, k * 0x1_0000_0000);
    assert(e * q == (p * q) * 0x1_0000_0000 - nl * q) by (nonlinear_arith)
        requires
            e == p * 0x1_0000_0000 - nl,
    ;
}

/// The linear velocity that an impulse gives, compared to the exact one.
pub proof fn lemma_push_near(inv_mass: Real, normal: Vector, impulse: Real, ranges: Ranges)
    requires
        ranges.are_small(),
        -(ranges.inv_mass * 0x1_0000_0000) <= inv_mass.bits <= ranges.inv_mass * 0x1_0000_0000,
        normal.exact().within(0x1_0000_0000),
        -(ranges.impulse * 0x1_0000_0000) <= impulse.bits <= ranges.impulse * 0x1_0000_0000,
    ensures
        ({
            let step = normal.scale(impulse).component_mul(
                Vector::new(inv_mass, inv_mass, inv_mass),
            ).exact();
            let exact = normal.exact().times(impulse.bits as int).times(inv_mass.bits as int);
            step.times(0x1_0000_0000_0000_0000).minus(exact).within(
                (ranges.inv_mass + 1) * 0x1_0000_0000_0000_0000,
            )
        }),
{
    let l = impulse.bits as int;
    let push = normal.scale(impulse);
    let n = normal.exact();
    lemma_ranges(ranges);
    let (k, c0) = (ranges.inv_mass, ranges.impulse);
    let size = c0 * 0x1_0000_0000;
    crate::exact::lemma_scale_near(normal, impulse, 0x1_0000_0000, size);
    crate::exact::lemma_product_bound(n.x, l, 0x1_0000_0000, size);
    crate::exact::lemma_product_bound(n.y, l, 0x1_0000_0000, size);
    crate::exact::lemma_product_bound(n.z, l, 0x1_0000_0000, size);
    let kc = k * c0;
    assert((size + 1) * (k * 0x1_0000_0000) == kc * 0x1_0000_0000_0000_0000 + k * 0x1_0000_0000)
        by (nonlinear_arith)
        requires
            size == c0 * 0x1_0000_0000,
            kc == k * c0,
    ;
    crate::exact::lemma_bounded_mul_near(push.x, inv_mass, size + 1, k * 0x1_0000_0000);
    crate::exact::lemma_bounded_mul_near(push.y, inv_mass, size + 1, k * 0x1_0000_0000);
    crate::exact::lemma_bounded_mul_near(push.z, inv_mass, size + 1, k * 0x1_0000_0000);
    lemma_push_term(push.x, inv_mass, push.x.mul(inv_mass).bits as int, n.x * l, k);
    lemma_push_term(push.y, inv_mass, push.y.mul(inv_mass).bits as int, n.y * l, k);
    lemma_push_term(push.z, inv_mass, push.z.mul(inv_mass).bits as int, n.z * l, k);
}

/// The change of a contact's velocity along a normal, compared to the one that
/// the changes of the velocities give exactly.
pub proof fn lemma_contact_change_near(
    linvel: Vector,
    angvel: Vector,
    step: Vector,
    spin: Vector,
    lever: Vector,
    normal: Vector,
    ranges: Ranges,
)
    requires
        ranges.are_small(),
        linvel.exact().within(ranges.speed * 0x1_0000_0000),
        angvel.exact().within(ranges.speed * 0x1_0000_0000),
        linvel.add(step).exact().within(ranges.speed * 0x1_0000_0000),
        angvel.add(spin).exact().within(ranges.speed * 0x1_0000_0000),
        lever.exact().within(ranges.lever * 0x1_0000_0000),
        normal.exact().within(0x1_0000_0000),
    ensures
        ({
            let before = normal.dot(linvel.add(angvel.cross(lever)));
            let after = normal.dot(linvel.add(step).add(angvel.add(spin).cross(lever)));
            let exact = normal.exact().dot(step.exact()) * 0x1_0000_0000 + spin.exact().dot(
                lever.exact().cross(normal.exact()),
            );
            -0x12_0000_0000_0000_0000 <= (after.bits - before.bits) * 0x1_0000_0000_0000_0000
                - exact <= 0x12_0000_0000_0000_0000
        }),
{
    let (r, n, d, w) = (lever.exact(), normal.exact(), step.exact(), spin.exact());
    let (lin, ang) = (linvel.add(step), angvel.add(spin));
    let a = angvel.exact();
    lemma_ranges(ranges);
    let (v, b) = (ranges.speed * 0x1_0000_0000, ranges.lever * 0x1_0000_0000);
    lemma_multiples(ranges.speed, ranges.lever);
    assert(ranges.speed * ranges.lever == ranges.lever * ranges.speed) by (nonlinear_arith);
    assert(lin.exact() == linvel.exact().plus(d));
    assert(ang.exact() == a.plus(w));
    let (u0, u1) = (angvel.cross(lever), ang.cross(lever));
    crate::exact::lemma_cross_near(angvel, lever, v, b);
    crate::exact::lemma_cross_near(ang, lever, v, b);
    crate::exact::lemma_cross_bound(a, r, v, b);
    crate::exact::lemma_cross_bound(ang.exact(), r, v, b);
    crate::exact::lemma_cross_linear_left(r, a, w, 0);
    let e0 = u0.exact().times(0x1_0000_0000).minus(a.cross(r));
    let e1 = u1.exact().times(0x1_0000_0000).minus(ang.exact().cross(r));
    let f = e1.minus(e0);
    let change = u1.exact().minus(u0.exact());
    assert(change.times(0x1_0000_0000) == w.cross(r).plus(f));
    let (v0, v1) = (linvel.add(u0), lin.add(u1));
    assert(v0.exact() == linvel.exact().plus(u0.exact()));
    assert(v1.exact() == lin.exact().plus(u1.exact()));
    assert(v0.exact().within(0xc00_0000_0000_0002));
    assert(v1.exact().within(0xc00_0000_0000_0002));
    crate::exact::lemma_dot_near(normal, v0, 0x1_0000_0000, 0xc00_0000_0000_0002);
    crate::exact::lemma_dot_near(normal, v1, 0x1_0000_0000, 0xc00_0000_0000_0002);
    let total = d.plus(change);
    assert(v1.exact() == v0.exact().plus(total));
    crate::exact::lemma_dot_linear(n, v0.exact(), total, 0);
    crate::exact::lemma_dot_linear(n, d, change, 0);
    crate::exact::lemma_dot_linear(n, change, change, 0x1_0000_0000);
    crate::exact::lemma_dot_linear(n, w.cross(r), f, 0);
    crate::exact::lemma_dot_bound(n, f, 0x1_0000_0000, 0x4_0000_0000);
    crate::exact::lemma_box_product(n, w, r);
}

} // verus!
