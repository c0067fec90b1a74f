//! What rotations promise.
use crate::exact::Exact;
use crate::math::{Rotation, Vector};
use crate::scalar::{Real, ONE_BITS};
use vstd::prelude::*;

verus! {

/// Twice the cross product of a rotation's axis and a vector.
pub open spec fn exact_turn(u: Exact, v: Exact) -> Exact {
    u.cross(v).times(2)
}

/// The vector turned exactly, in cubed units.
pub open spec fn exactly_rotated(u: Exact, w: int, v: Exact) -> Exact {
    v.times(0x1_0000_0000_0000_0000).plus(exact_turn(u, v).times(w)).plus(
        u.cross(exact_turn(u, v)),
    )
}

/// By how much the square of a quaternion's length differs from one, in
/// squared units.
pub open spec fn unit_error(q: Rotation) -> int {
    q.w.bits * q.w.bits + q.imaginary().exact().dot(q.imaginary().exact())
        - 0x1_0000_0000_0000_0000
}

/// A rotated vector is within fifteen units of the exact one.
pub proof fn lemma_rotate_near(q: Rotation, v: Vector)
    requires
        q.imaginary().exact().within(ONE_BITS as int),
        -ONE_BITS <= q.w.bits <= ONE_BITS,
        v.exact().within(0x10_0000 * ONE_BITS),
    ensures
        q.rotate(v).exact().times(0x1_0000_0000_0000_0000).minus(
            exactly_rotated(q.imaginary().exact(), q.w.bits as int, v.exact()),
        ).within(0xf_0000_0000_0000_0000),
{
    let axis = q.imaginary();
    let (u, x, w) = (axis.exact(), v.exact(), q.w.bits as int);
    let cross = axis.cross(v);
    let c = cross.exact();
    crate::exact::lemma_cross_near(axis, v, 0x1_0000_0000, 0x10_0000_0000_0000);
    crate::exact::lemma_cross_bound(u, x, 0x1_0000_0000, 0x10_0000_0000_0000);
    let e = c.times(0x1_0000_0000).minus(u.cross(x));
    assert(c.within(0x20_0000_0000_0002));
    let two = Real::ratio(2, 1);
    assert(two.bits == 0x2_0000_0000) by {
        crate::scalar_lemmas::lemma_round_div_exact(0x2_0000_0000, 1);
    }
    crate::scalar_lemmas::lemma_round_div_exact(2 * c.x, ONE_BITS as int);
    crate::scalar_lemmas::lemma_round_div_exact(2 * c.y, ONE_BITS as int);
    crate::scalar_lemmas::lemma_round_div_exact(2 * c.z, ONE_BITS as int);
    let turn = cross.scale(two);
    let t = turn.exact();
    assert(t == c.times(2));
    let scaled = turn.scale(q.w);
    crate::exact::lemma_scale_near(turn, q.w, 0x40_0000_0000_0004, 0x1_0000_0000);
    let e1 = scaled.exact().times(0x1_0000_0000).minus(t.times(w));
    crate::exact::lemma_product_bound(t.x, w, 0x40_0000_0000_0004, 0x1_0000_0000);
    crate::exact::lemma_product_bound(t.y, w, 0x40_0000_0000_0004, 0x1_0000_0000);
    crate::exact::lemma_product_bound(t.z, w, 0x40_0000_0000_0004, 0x1_0000_0000);
    let swept = axis.cross(turn);
    crate::exact::lemma_cross_near(axis, turn, 0x1_0000_0000, 0x40_0000_0000_0004);
    crate::exact::lemma_cross_bound(u, t, 0x1_0000_0000, 0x40_0000_0000_0004);
    let e2 = swept.exact().times(0x1_0000_0000).minus(u.cross(t));
    let r = q.rotate(v).exact();
    assert(r == scaled.exact().plus(swept.exact()).plus(x));
    // What the rounded turn lacks.
    let big = exact_turn(u, x);
    let e4 = t.times(0x1_0000_0000).minus(big);
    assert(e4.within(0x4_0000_0000));
    assert(t.times(0x1_0000_0000) == big.plus(e4));
    crate::exact::lemma_cross_linear(u, t, t, 0x1_0000_0000);
    crate::exact::lemma_cross_linear(u, big, e4, 0);
    crate::exact::lemma_cross_bound(u, e4, 0x1_0000_0000, 0x4_0000_0000);
    crate::exact::lemma_product_bound(e4.x, w, 0x4_0000_0000, 0x1_0000_0000);
    crate::exact::lemma_product_bound(e4.y, w, 0x4_0000_0000, 0x1_0000_0000);
    crate::exact::lemma_product_bound(e4.z, w, 0x4_0000_0000, 0x1_0000_0000);
    lemma_times_sum(t, big, e4, w);
}

proof fn lemma_times_sum(t: Exact, big: Exact, e: Exact, w: int)
    requires
        t.times(0x1_0000_0000) == big.plus(e),
    ensures
        t.times(w).times(0x1_0000_0000) == big.times(w).plus(e.times(w)),
{
    lemma_product_sum(t.x, big.x, e.x, w);
    lemma_product_sum(t.y, big.y, e.y, w);
    lemma_product_sum(t.z, big.z, e.z, w);
}

proof fn lemma_product_sum(t: int, b: int, e: int, w: int)
    requires
        t * 0x1_0000_0000 == b + e,
    ensures
        (t * w) * 0x1_0000_0000 == b * w + e * w,
{
    assert((t * w) * 0x1_0000_0000 == b * w + e * w) by (nonlinear_arith)
        requires
            t * 0x1_0000_0000 == b + e,
    ;
}

/// The turns of two vectors, each seen along the other, cancel.
proof fn lemma_turns_cancel(u: Exact, a: Exact, b: Exact)
    ensures
        a.dot(u.cross(b)) + b.dot(u.cross(a)) == 0,
{
    crate::exact::lemma_box_product(a, u, b);
    crate::exact::lemma_box_product(b, u, a);
    crate::exact::lemma_cross_exchanged(a, b);
    crate::exact::lemma_dot_linear(u, a.cross(b), b, -1);
}

/// The part of a vector along what another's turn sweeps.
proof fn lemma_swept_part(u: Exact, a: Exact, b: Exact)
    ensures
        2 * a.dot(u.cross(exact_turn(u, b))) == -exact_turn(u, a).dot(exact_turn(u, b)),
{
    let t = exact_turn(u, b);
    lemma_turns_cancel(u, a, t);
    crate::exact::lemma_dot_linear(t, u.cross(a), t, 2);
    crate::exact::lemma_dot_linear(exact_turn(u, a), t, t, 0);
}

/// The dot product of two vectors that were turned exactly.
#[verifier::rlimit(30)]
proof fn lemma_exact_dot(u: Exact, w: int, a: Exact, b: Exact)
    ensures
        exactly_rotated(u, w, a).dot(exactly_rotated(u, w, b)) == a.dot(b)
            * 0x1_0000_0000_0000_0000_0000_0000_0000_0000int + exact_turn(u, a).dot(
            exact_turn(u, b),
        ) * (w * w + u.dot(u) - 0x1_0000_0000_0000_0000),
{
    let (s, t) = (exact_turn(u, a), exact_turn(u, b));
    let (a1, b1, c1) = (a.times(0x1_0000_0000_0000_0000), s.times(w), u.cross(s));
    let (a2, b2, c2) = (b.times(0x1_0000_0000_0000_0000), t.times(w), u.cross(t));
    let st = s.dot(t);
    lemma_dot_of_sums(a1, b1, c1, a2, b2, c2);
    // What was there.
    crate::exact::lemma_dot_linear(a1, b, b, 0x1_0000_0000_0000_0000);
    crate::exact::lemma_dot_linear(b, a, a, 0x1_0000_0000_0000_0000);
    crate::exact::lemma_dot_linear(a, b, b, 0);
    crate::exact::lemma_dot_linear(a1, b, b, 0);
    assert(a1.dot(a2) == a.dot(b) * 0x1_0000_0000_0000_0000_0000_0000_0000_0000int);
    // The turns cancel along the vectors.
    lemma_turns_cancel(u, a, b);
    crate::exact::lemma_dot_linear(a, u.cross(b), t, 2);
    crate::exact::lemma_dot_linear(b, u.cross(a), s, 2);
    assert(a.dot(t) + b.dot(s) == 0);
    crate::exact::lemma_dot_linear(a1, t, t, w);
    crate::exact::lemma_dot_linear(t, a, a, 0x1_0000_0000_0000_0000);
    crate::exact::lemma_dot_linear(a1, t, t, 0);
    crate::exact::lemma_dot_linear(a, t, t, 0);
    crate::exact::lemma_dot_linear(a2, s, s, w);
    crate::exact::lemma_dot_linear(s, b, b, 0x1_0000_0000_0000_0000);
    crate::exact::lemma_dot_linear(a2, s, s, 0);
    crate::exact::lemma_dot_linear(b, s, s, 0);
    crate::exact::lemma_dot_linear(b1, a2, a2, 0);
    assert(a1.dot(b2) + b1.dot(a2) == 0) by {
        let (x, y) = (a.dot(t), b.dot(s));
        assert((x * 0x1_0000_0000_0000_0000) * w + (y * 0x1_0000_0000_0000_0000) * w == 0)
            by (nonlinear_arith)
            requires
                x + y == 0,
        ;
    }
    // What the turns sweep.
    lemma_swept_part(u, a, b);
    lemma_swept_part(u, b, a);
    crate::exact::lemma_dot_linear(c2, a, a, 0x1_0000_0000_0000_0000);
    crate::exact::lemma_dot_linear(a1, c2, c2, 0);
    crate::exact::lemma_dot_linear(a, c2, c2, 0);
    crate::exact::lemma_dot_linear(c1, b, b, 0x1_0000_0000_0000_0000);
    crate::exact::lemma_dot_linear(b, c1, c1, 0);
    crate::exact::lemma_dot_linear(s, t, t, 0);
    assert(a1.dot(c2) + c1.dot(a2) == -(st * 0x1_0000_0000_0000_0000));
    // The turns themselves.
    crate::exact::lemma_dot_linear(b1, t, t, w);
    crate::exact::lemma_dot_linear(t, s, s, w);
    crate::exact::lemma_dot_linear(b1, t, t, 0);
    assert(b1.dot(b2) == st * (w * w)) by {
        assert((st * w) * w == st * (w * w)) by (nonlinear_arith);
    }
    lemma_turns_cancel(u, s, t);
    crate::exact::lemma_dot_linear(c2, s, s, w);
    crate::exact::lemma_dot_linear(b1, c2, c2, 0);
    crate::exact::lemma_dot_linear(s, c2, c2, 0);
    crate::exact::lemma_dot_linear(c1, t, t, w);
    crate::exact::lemma_dot_linear(t, c1, c1, 0);
    assert(b1.dot(c2) + c1.dot(b2) == 0) by {
        let (x, y) = (s.dot(c2), t.dot(c1));
        assert(x * w + y * w == 0) by (nonlinear_arith)
            requires
                x + y == 0,
        ;
    }
    // A turn is perpendicular to the axis.
    crate::exact::lemma_cross_perpendicular(u, a);
    crate::exact::lemma_dot_linear(u, u.cross(a), s, 2);
    crate::exact::lemma_shared_factor(u, s, t);
    let (k, n) = (w * w, u.dot(u));
    assert(st * (k + n - 0x1_0000_0000_0000_0000) == st * k + st * n - st
        * 0x1_0000_0000_0000_0000) by (nonlinear_arith);
}

proof fn lemma_dot_of_sums(a1: Exact, b1: Exact, c1: Exact, a2: Exact, b2: Exact, c2: Exact)
    ensures
        a1.plus(b1).plus(c1).dot(a2.plus(b2).plus(c2)) == a1.dot(a2) + (a1.dot(b2) + b1.dot(a2))
            + (a1.dot(c2) + c1.dot(a2)) + b1.dot(b2) + (b1.dot(c2) + c1.dot(b2)) + c1.dot(c2),
{
    let sum = a2.plus(b2).plus(c2);
    crate::exact::lemma_dot_linear(sum, a1.plus(b1), c1, 0);
    crate::exact::lemma_dot_linear(sum, a1, b1, 0);
    crate::exact::lemma_dot_linear(a1.plus(b1).plus(c1), sum, sum, 0);
    crate::exact::lemma_dot_linear(a1, sum, sum, 0);
    crate::exact::lemma_dot_linear(b1, sum, sum, 0);
    crate::exact::lemma_dot_linear(c1, sum, sum, 0);
    crate::exact::lemma_dot_linear(a1, a2.plus(b2), c2, 0);
    crate::exact::lemma_dot_linear(a1, a2, b2, 0);
    crate::exact::lemma_dot_linear(b1, a2.plus(b2), c2, 0);
    crate::exact::lemma_dot_linear(b1, a2, b2, 0);
    crate::exact::lemma_dot_linear(c1, a2.plus(b2), c2, 0);
    crate::exact::lemma_dot_linear(c1, a2, b2, 0);
}

/// A rotation keeps the angle between two vectors, and the length of each: it
/// keeps their dot product, in squared units, up to what the quaternion lacks
/// of a unit one and to rounding, for coordinates of `b` units at most.
#[verifier::rlimit(30)]
pub proof fn rotation_keeps_dot_products(q: Rotation, v1: Vector, v2: Vector, b: int)
    requires
        q.imaginary().exact().within(ONE_BITS as int),
        -ONE_BITS <= q.w.bits <= ONE_BITS,
        0 <= b <= 0x10_0000 * ONE_BITS,
        v1.exact().within(b),
        v2.exact().within(b),
    ensures
        ({
            let change = q.rotate(v1).exact().dot(q.rotate(v2).exact()) - v1.exact().dot(
                v2.exact(),
            );
            let bound = 48 * (b * b) * crate::scalar::magnitude(unit_error(q)) + (1170 * b + 675)
                * 0x1_0000_0000_0000_0000;
            -bound <= change * 0x1_0000_0000_0000_0000 <= bound
        }),
{
    let (u, w) = (q.imaginary().exact(), q.w.bits as int);
    let (x1, x2) = (v1.exact(), v2.exact());
    let (r1, r2) = (q.rotate(v1).exact(), q.rotate(v2).exact());
    let (y1, y2) = (exactly_rotated(u, w, x1), exactly_rotated(u, w, x2));
    lemma_rotate_near(q, v1);
    lemma_rotate_near(q, v2);
    lemma_exactly_rotated_bound(u, w, x1, b);
    lemma_exactly_rotated_bound(u, w, x2, b);
    lemma_exact_dot(u, w, x1, x2);
    let e1 = r1.times(0x1_0000_0000_0000_0000).minus(y1);
    let e2 = r2.times(0x1_0000_0000_0000_0000).minus(y2);
    let (z1, z2) = (r1.times(0x1_0000_0000_0000_0000), r2.times(0x1_0000_0000_0000_0000));
    assert(z1 == y1.plus(e1));
    assert(z2 == y2.plus(e2));
    crate::exact::lemma_dot_linear(z1, r2, r2, 0x1_0000_0000_0000_0000);
    crate::exact::lemma_dot_linear(r2, r1, r1, 0x1_0000_0000_0000_0000);
    crate::exact::lemma_dot_linear(r1, r2, r2, 0);
    crate::exact::lemma_dot_linear(z1, r2, r2, 0);
    crate::exact::lemma_dot_linear(z2, y1, e1, 0);
    crate::exact::lemma_dot_linear(z1, z2, z2, 0);
    crate::exact::lemma_dot_linear(y1, y2, e2, 0);
    crate::exact::lemma_dot_linear(y1, z2, z2, 0);
    crate::exact::lemma_dot_linear(e1, z2, z2, 0);
    let m: int = 0x1_0000_0000_0000_0000;
    crate::exact::lemma_dot_bound(y1, e2, 13 * (b * m), 15 * m);
    crate::exact::lemma_dot_bound(e1, z2, 15 * m, 13 * (b * m) + 15 * m);
    let (s, t) = (exact_turn(u, x1), exact_turn(u, x2));
    let c = 4 * (b * 0x1_0000_0000);
    crate::exact::lemma_dot_bound(s, t, c, c);
    assert(c * c == 16 * (b * b) * m) by (nonlinear_arith)
        requires
            c == 4 * (b * 0x1_0000_0000),
            m == 0x1_0000_0000_0000_0000,
    ;
    let off = crate::scalar::magnitude(unit_error(q));
    crate::exact::lemma_product_bound(s.dot(t), unit_error(q), 3 * (c * c), off);
    let part = s.dot(t) * unit_error(q);
    let bb = b * b;
    assert(3 * (16 * bb * m) * off == (48 * bb * off) * m) by (nonlinear_arith);
    let (f1, f2) = (y1.dot(e2), e1.dot(z2));
    let rest = r1.dot(r2) - x1.dot(x2);
    assert(z1.dot(z2) == r1.dot(r2) * 0x1_0000_0000_0000_0000_0000_0000_0000_0000int);
    assert(y1.dot(y2) == x1.dot(x2) * 0x1_0000_0000_0000_0000_0000_0000_0000_0000int + part);
    assert(z1.dot(z2) == y1.dot(y2) + f1 + f2);
    assert(m * m == 0x1_0000_0000_0000_0000_0000_0000_0000_0000int) by (nonlinear_arith)
        requires
            m == 0x1_0000_0000_0000_0000,
    ;
    assert(rest * (m * m) == part + f1 + f2) by (nonlinear_arith)
        requires
            m * m == 0x1_0000_0000_0000_0000_0000_0000_0000_0000int,
            rest * 0x1_0000_0000_0000_0000_0000_0000_0000_0000int == part + f1 + f2,
    ;
    let bound = 48 * bb * off + (1170 * b + 675) * m;
    assert((13 * (b * m)) * (15 * m) == 195 * b * (m * m)) by (nonlinear_arith);
    assert((15 * m) * (13 * (b * m) + 15 * m) == (195 * b + 225) * (m * m)) by (nonlinear_arith);
    assert(bound * m == (48 * bb * off) * m + (1170 * b + 675) * (m * m)) by (nonlinear_arith)
        requires
            bound == 48 * bb * off + (1170 * b + 675) * m,
    ;
    assert(-bound <= rest * m <= bound) by (nonlinear_arith)
        requires
            -(bound * m) <= rest * (m * m) <= bound * m,
            m == 0x1_0000_0000_0000_0000,
    ;
}

/// How large a vector that was turned exactly is.
pub proof fn lemma_exactly_rotated_bound(u: Exact, w: int, v: Exact, b: int)
    requires
        u.within(0x1_0000_0000),
        -0x1_0000_0000 <= w <= 0x1_0000_0000,
        v.within(b),
        b >= 0,
    ensures
        exact_turn(u, v).within(4 * (b * 0x1_0000_0000)),
        exactly_rotated(u, w, v).within(13 * (b * 0x1_0000_0000_0000_0000)),
{
    let t = exact_turn(u, v);
    let c = 4 * (b * 0x1_0000_0000);
    crate::exact::lemma_cross_bound(u, v, 0x1_0000_0000, b);
    crate::exact::lemma_product_bound(t.x, w, c, 0x1_0000_0000);
    crate::exact::lemma_product_bound(t.y, w, c, 0x1_0000_0000);
    crate::exact::lemma_product_bound(t.z, w, c, 0x1_0000_0000);
    crate::exact::lemma_cross_bound(u, t, 0x1_0000_0000, c);
}

/// A rotation keeps the part of a vector along its own axis, up to rounding,
/// whatever the angle.
pub proof fn rotation_keeps_part_along_its_axis(q: Rotation, v: Vector)
    requires
        q.imaginary().exact().within(ONE_BITS as int),
        -ONE_BITS <= q.w.bits <= ONE_BITS,
        v.exact().within(0x10_0000 * ONE_BITS),
    ensures
        ({
            let u = q.imaginary().exact();
            let change = u.dot(q.rotate(v).exact()) - u.dot(v.exact());
            -45 * ONE_BITS <= change <= 45 * ONE_BITS
        }),
{
    let (u, w, x) = (q.imaginary().exact(), q.w.bits as int, v.exact());
    let r = q.rotate(v).exact();
    let y = exactly_rotated(u, w, x);
    lemma_rotate_near(q, v);
    let e = r.times(0x1_0000_0000_0000_0000).minus(y);
    assert(r.times(0x1_0000_0000_0000_0000) == y.plus(e));
    let t = exact_turn(u, x);
    crate::exact::lemma_dot_linear(u, r, r, 0x1_0000_0000_0000_0000);
    crate::exact::lemma_dot_linear(u, y, e, 0);
    crate::exact::lemma_dot_linear(
        u,
        x.times(0x1_0000_0000_0000_0000).plus(t.times(w)),
        u.cross(t),
        0,
    );
    crate::exact::lemma_dot_linear(u, x.times(0x1_0000_0000_0000_0000), t.times(w), 0);
    crate::exact::lemma_dot_linear(u, x, x, 0x1_0000_0000_0000_0000);
    crate::exact::lemma_dot_linear(u, t, t, w);
    crate::exact::lemma_dot_linear(u, u.cross(x), t, 2);
    crate::exact::lemma_cross_perpendicular(u, x);
    crate::exact::lemma_cross_perpendicular(u, t);
    assert(0 * w == 0) by (nonlinear_arith);
    crate::exact::lemma_dot_bound(u, e, 0x1_0000_0000, 0xf_0000_0000_0000_0000);
}

/// A rotation keeps the part of a vector along a direction that is nearly
/// parallel to its axis, up to rounding and to what the two lack of being
/// parallel, which their cross product tells, whatever the angle.
pub proof fn rotation_keeps_part_along(q: Rotation, d: Exact, v: Vector, b: int, k: int)
    requires
        q.imaginary().exact().within(ONE_BITS as int),
        -ONE_BITS <= q.w.bits <= ONE_BITS,
        0 <= b <= 0x10_0000 * ONE_BITS,
        v.exact().within(b),
        d.within(b),
        d.cross(q.imaginary().exact()).times(ONE_BITS as int).within(k),
    ensures
        ({
            let change = d.dot(q.rotate(v).exact()) - d.dot(v.exact());
            let bound = 18 * (b * k) + 45 * b * 0x1_0000_0000_0000_0000;
            -bound <= change * 0x1_0000_0000_0000_0000 <= bound
        }),
{
    let (u, w, x) = (q.imaginary().exact(), q.w.bits as int, v.exact());
    let r = q.rotate(v).exact();
    let y = exactly_rotated(u, w, x);
    lemma_rotate_near(q, v);
    let e = r.times(0x1_0000_0000_0000_0000).minus(y);
    assert(r.times(0x1_0000_0000_0000_0000) == y.plus(e));
    let t = exact_turn(u, x);
    crate::exact::lemma_dot_linear(d, r, r, 0x1_0000_0000_0000_0000);
    crate::exact::lemma_dot_linear(d, y, e, 0);
    crate::exact::lemma_dot_linear(
        d,
        x.times(0x1_0000_0000_0000_0000).plus(t.times(w)),
        u.cross(t),
        0,
    );
    crate::exact::lemma_dot_linear(d, x.times(0x1_0000_0000_0000_0000), t.times(w), 0);
    crate::exact::lemma_dot_linear(d, x, x, 0x1_0000_0000_0000_0000);
    crate::exact::lemma_dot_linear(d, t, t, w);
    crate::exact::lemma_dot_linear(d, u.cross(x), t, 2);
    crate::exact::lemma_dot_bound(d, e, b, 0xf_0000_0000_0000_0000);
    lemma_exactly_rotated_bound(u, w, x, b);
    // What the turns have along the direction.
    let c = d.cross(u);
    let g = c.times(0x1_0000_0000);
    crate::exact::lemma_box_product(d, u, x);
    crate::exact::lemma_box_product(u, x, d);
    crate::exact::lemma_box_product(d, u, t);
    crate::exact::lemma_box_product(u, t, d);
    crate::exact::lemma_dot_linear(x, c, c, 0x1_0000_0000);
    crate::exact::lemma_dot_linear(t, c, c, 0x1_0000_0000);
    crate::exact::lemma_dot_bound(x, g, b, k);
    crate::exact::lemma_dot_bound(t, g, 4 * (b * 0x1_0000_0000), k);
    let (p1, p2) = (x.dot(c), t.dot(c));
    let bk = b * k;
    assert((4 * (b * 0x1_0000_0000)) * k == 4 * (bk * 0x1_0000_0000)) by (nonlinear_arith)
        requires
            bk == b * k,
    ;
    assert(bk >= 0) by {
        assert(b * k >= 0) by (nonlinear_arith)
            requires
                b >= 0,
                k >= 0,
        ;
    }
    let turned = (2 * p1) * w;
    crate::exact::lemma_product_bound(2 * (p1 * 0x1_0000_0000), w, 6 * bk, 0x1_0000_0000);
    assert((2 * (p1 * 0x1_0000_0000)) * w == turned * 0x1_0000_0000) by (nonlinear_arith)
        requires
            turned == (2 * p1) * w,
    ;
    assert(d.dot(t) == 2 * p1);
    assert(d.dot(t.times(w)) == turned);
    assert(d.dot(u.cross(t)) == p2);
    let change = d.dot(r) - d.dot(x);
    let de = d.dot(e);
    assert(change * 0x1_0000_0000_0000_0000 == turned + p2 + de);
    assert(-(45 * b * 0x1_0000_0000_0000_0000) <= de <= 45 * b * 0x1_0000_0000_0000_0000);
}

proof fn lemma_mul_in_range(a: Real, b: Real)
    requires
        i64::MIN < a.mul(b).bits < i64::MAX,
    ensures
        -ONE_BITS <= a.mul(b).bits * ONE_BITS - a.bits * b.bits <= ONE_BITS,
{
    let (n, d) = (a.bits * b.bits, ONE_BITS as int);
    let q = crate::scalar::round_div(n, d);
    crate::scalar_lemmas::lemma_round_div_near(n, d);
    assert(2 * q * d == 2 * (q * d)) by (nonlinear_arith);
}

/// How far a coordinate of a rotation's axis is from the direction that it was
/// computed from.
proof fn lemma_axis_term(d: Real, angle: Real, factor: Real, b: int, c: int)
    requires
        -b <= d.bits <= b,
        -c <= angle.bits <= c,
        0 <= b < i64::MAX,
        b * c <= crate::exact::product_limit(),
        ({
            let half = d.neg().mul(angle).div(Real::ratio(2, 1));
            i64::MIN < half.mul(factor).bits < i64::MAX
        }),
    ensures
        ({
            let u = d.neg().mul(angle).div(Real::ratio(2, 1)).mul(factor).bits;
            let bound = 0x2_0000_0000 * (crate::scalar::magnitude(factor.bits as int)
                + 0x1_0000_0000);
            -bound <= u * 0x2_0000_0000_0000_0000 + (factor.bits * angle.bits) * d.bits <= bound
        }),
{
    let axis = d.neg().mul(angle);
    let two = Real::ratio(2, 1);
    assert(two.bits == 0x2_0000_0000) by {
        crate::scalar_lemmas::lemma_round_div_exact(0x2_0000_0000, 1);
    }
    let half = axis.div(two);
    crate::exact::lemma_bounded_mul_near(d.neg(), angle, b, c);
    let (n, m) = (axis.bits * ONE_BITS, two.bits as int);
    crate::scalar_lemmas::lemma_round_div_near(n, m);
    let h = crate::scalar::round_div(n, m);
    assert(2 * h * m == 4 * (h * 0x1_0000_0000)) by (nonlinear_arith)
        requires
            m == 0x2_0000_0000,
    ;
    assert(half.bits == h);
    lemma_mul_in_range(half, factor);
    let (f, s, x, a, u) = (
        factor.bits as int,
        angle.bits as int,
        d.bits as int,
        axis.bits as int,
        half.mul(factor).bits as int,
    );
    let e1 = u * 0x1_0000_0000 - h * f;
    let e2 = 2 * h - a;
    assert((-x) * s == -(x * s)) by (nonlinear_arith);
    let e3 = a * 0x1_0000_0000 + x * s;
    assert(-1 <= e2 <= 1);
    assert(-0x1_0000_0000 <= e3 <= 0x1_0000_0000);
    let g = crate::scalar::magnitude(f);
    crate::exact::lemma_product_bound(f, e3, g, 0x1_0000_0000);
    crate::exact::lemma_product_bound(f, e2, g, 1);
    assert(f * e3 == (a * f) * 0x1_0000_0000 + (f * s) * x) by (nonlinear_arith)
        requires
            e3 == a * 0x1_0000_0000 + x * s,
    ;
    assert(f * e2 == 2 * (h * f) - a * f) by (nonlinear_arith)
        requires
            e2 == 2 * h - a,
    ;
}

/// The axis of a rotation is parallel to the direction that it turns around,
/// up to the rounding of both.
pub proof fn lemma_axis_is_parallel(d: Vector, angle: Real, b: int, c: int)
    requires
        d.exact().within(b),
        -c <= angle.bits <= c,
        0 <= b < i64::MAX,
        b * c <= crate::exact::product_limit(),
        Rotation::new(d.neg().scale(angle)).imaginary().exact().within(ONE_BITS as int),
    ensures
        d.exact().cross(Rotation::new(d.neg().scale(angle)).imaginary().exact()).times(
            ONE_BITS as int,
        ).within(
            2 * (b * (crate::scalar::magnitude(axis_factor(d.neg().scale(angle)).bits as int)
                + ONE_BITS)),
        ),
{
    let axisangle = d.neg().scale(angle);
    let half = Rotation::half_axis(axisangle);
    let factor = axis_factor(axisangle);
    let u = Rotation::new(axisangle).imaginary().exact();
    let x = d.exact();
    let size = crate::scalar::magnitude(factor.bits as int) + 0x1_0000_0000;
    assert(b * size >= 0) by (nonlinear_arith)
        requires
            b >= 0,
            size >= 0,
    ;
    if Rotation::is_no_rotation(half) {
        crate::exact::lemma_cross_bound(x, u, b, 0);
        assert(b * 0 == 0);
    } else {
        assert(Rotation::new(axisangle).imaginary() == half.scale(factor));
        lemma_axis_term(d.x, angle, factor, b, c);
        lemma_axis_term(d.y, angle, factor, b, c);
        lemma_axis_term(d.z, angle, factor, b, c);
        let k = factor.bits * angle.bits;
        let e = u.times(0x2_0000_0000_0000_0000).minus(x.times(-k));
        lemma_opposite_factor(x.x, k);
        lemma_opposite_factor(x.y, k);
        lemma_opposite_factor(x.z, k);
        assert(e.within(0x2_0000_0000 * size));
        assert(u.times(0x2_0000_0000_0000_0000) == x.times(-k).plus(e));
        crate::exact::lemma_cross_linear(x, u, u, 0x2_0000_0000_0000_0000);
        crate::exact::lemma_cross_linear(x, x.times(-k), e, 0);
        crate::exact::lemma_cross_linear(x, x, x, -k);
        crate::exact::lemma_cross_exchanged(x, x);
        assert(x.cross(x) == (Exact { x: 0, y: 0, z: 0 }));
        assert(0 * (-k) == 0) by (nonlinear_arith);
        crate::exact::lemma_cross_bound(x, e, b, 0x2_0000_0000 * size);
        assert(b * (0x2_0000_0000 * size) == 0x2_0000_0000 * (b * size)) by (nonlinear_arith);
    }
}

/// The quotient of the sine of half a scaled axis and its length.
pub open spec fn axis_factor(axisangle: Vector) -> Real {
    let half = Rotation::half_axis(axisangle);
    Real { bits: crate::transcendental::fixed_sin(half.norm().bits) }.div(half.norm())
}

proof fn lemma_opposite_factor(x: int, k: int)
    ensures
        x * (-k) == -(k * x),
{
    assert(x * (-k) == -(k * x)) by (nonlinear_arith);
}

/// Turning a difference exactly gives the difference of the turned vectors.
pub proof fn lemma_exactly_rotated_difference(u: Exact, w: int, a: Exact, b: Exact)
    ensures
        exactly_rotated(u, w, a.minus(b)) == exactly_rotated(u, w, a).minus(
            exactly_rotated(u, w, b),
        ),
{
    let c = b.times(-1);
    assert(a.minus(b) == a.plus(c));
    crate::exact::lemma_cross_linear(u, a, c, 2);
    crate::exact::lemma_cross_linear(u, b, b, -1);
    let (s, t) = (exact_turn(u, a), exact_turn(u, b));
    let d = exact_turn(u, a.minus(b));
    assert(d == s.plus(t.times(-1)));
    crate::exact::lemma_cross_linear(u, s, t.times(-1), 0);
    crate::exact::lemma_cross_linear(u, t, t, -1);
    lemma_difference_times(s.x, t.x, w);
    lemma_difference_times(s.y, t.y, w);
    lemma_difference_times(s.z, t.z, w);
}

proof fn lemma_difference_times(s: int, t: int, w: int)
    ensures
        (s - t) * w == s * w - t * w,
        (s + t * -1) * w == s * w - t * w,
{
    assert((s - t) * w == s * w - t * w) by (nonlinear_arith);
    assert((s + t * -1) * w == s * w - t * w) by (nonlinear_arith);
}

/// A rotation turns counterclockwise around its axis: seen along the axis, the
/// turned vector is ahead of the vector by the real part times twice the square
/// of how far the vector is off the axis, up to rounding, so by a positive turn
/// where the real part is positive.
pub proof fn rotation_turns_counterclockwise(q: Rotation, v: Vector)
    requires
        q.imaginary().exact().within(ONE_BITS as int),
        -ONE_BITS <= q.w.bits <= ONE_BITS,
        v.exact().within(0x10_0000 * ONE_BITS),
    ensures
        ({
            let (u, x) = (q.imaginary().exact(), v.exact());
            let ahead = u.dot(x.cross(q.rotate(v).exact()));
            let off = u.cross(x);
            let exact = 2 * (off.dot(off) * q.w.bits);
            let bound = 90 * (0x10_0000 * ONE_BITS) * 0x1_0000_0000_0000_0000_0000_0000;
            -bound <= ahead * 0x1_0000_0000_0000_0000 - exact <= bound
        }),
{
    let (u, w, x) = (q.imaginary().exact(), q.w.bits as int, v.exact());
    let r = q.rotate(v).exact();
    let y = exactly_rotated(u, w, x);
    lemma_rotate_near(q, v);
    let e = r.times(0x1_0000_0000_0000_0000).minus(y);
    assert(r.times(0x1_0000_0000_0000_0000) == y.plus(e));
    let t = exact_turn(u, x);
    let c = u.cross(x);
    let s = u.cross(t);
    let first = x.times(0x1_0000_0000_0000_0000);
    // u . (x cross y) is y . (u cross x).
    crate::exact::lemma_box_product(u, x, r);
    crate::exact::lemma_box_product(x, r, u);
    assert(u.dot(x.cross(r)) == r.dot(c));
    crate::exact::lemma_dot_linear(c, r, r, 0x1_0000_0000_0000_0000);
    crate::exact::lemma_dot_linear(r, c, c, 0);
    crate::exact::lemma_dot_linear(c, y, e, 0);
    crate::exact::lemma_dot_linear(c, first.plus(t.times(w)), s, 0);
    crate::exact::lemma_dot_linear(c, first, t.times(w), 0);
    crate::exact::lemma_dot_linear(c, x, x, 0x1_0000_0000_0000_0000);
    crate::exact::lemma_dot_linear(c, t, t, w);
    crate::exact::lemma_dot_linear(c, c, c, 2);
    // The cross product is perpendicular to both factors, and the sweep to the turn.
    crate::exact::lemma_cross_exchanged(x, u);
    crate::exact::lemma_cross_perpendicular(x, u);
    crate::exact::lemma_dot_linear(x, x.cross(u), x, -1);
    crate::exact::lemma_dot_linear(c, x, x, 0);
    assert(c.dot(x) == 0);
    crate::exact::lemma_cross_perpendicular(t, u);
    crate::exact::lemma_cross_exchanged(t, u);
    crate::exact::lemma_dot_linear(t, t.cross(u), t, -1);
    crate::exact::lemma_dot_linear(s, c, c, 2);
    crate::exact::lemma_dot_linear(t, s, s, 0);
    crate::exact::lemma_dot_linear(c, s, s, 0);
    assert(c.dot(s) == 0);
    let cc = c.dot(c);
    assert((cc * 2) * w == 2 * (cc * w)) by (nonlinear_arith);
    crate::exact::lemma_cross_bound(u, x, 0x1_0000_0000, 0x10_0000_0000_0000);
    crate::exact::lemma_dot_bound(
        c,
        e,
        0x20_0000_0000_0000_0000_0000,
        0xf_0000_0000_0000_0000,
    );
}

/// Whether a coordinate of a rotation's axis is that of the axis that it was
/// made from: times the length of half of it, it is the sine times that half, up
/// to rounding.
pub open spec fn is_axis_part(u: int, half: int, sine: int, length: int) -> bool {
    let bound = (crate::scalar::magnitude(half) + ONE_BITS) * length;
    -bound <= 2 * ((u * length) * 0x1_0000_0000) - 2 * ((half * sine) * 0x1_0000_0000) <= bound
}

/// A rotation is made around its axis and by its length: its real part is the
/// cosine of half of the length, and its axis points along the given one and is
/// as long as the sine, up to rounding, so that it turns counterclockwise.
pub proof fn rotation_is_around_its_axis(axisangle: Vector)
    requires
        ({
            let half = Rotation::half_axis(axisangle);
            let sine = Real { bits: crate::transcendental::fixed_sin(half.norm().bits) };
            let turned = Rotation::new(axisangle);
            &&& !Rotation::is_no_rotation(half)
            &&& 0 < half.norm().bits
            &&& i64::MIN < sine.div(half.norm()).bits < i64::MAX
            &&& turned.imaginary().exact().within(ONE_BITS as int)
        }),
    ensures
        ({
            let half = Rotation::half_axis(axisangle);
            let length = half.norm().bits as int;
            let sine = crate::transcendental::fixed_sin(half.norm().bits) as int;
            let q = Rotation::new(axisangle);
            &&& q.w.bits == crate::transcendental::fixed_cos(half.norm().bits)
            &&& is_axis_part(q.x.bits as int, half.x.bits as int, sine, length)
            &&& is_axis_part(q.y.bits as int, half.y.bits as int, sine, length)
            &&& is_axis_part(q.z.bits as int, half.z.bits as int, sine, length)
            &&& half.exact().times(2).minus(axisangle.exact()).within(1)
        }),
{
    let half = Rotation::half_axis(axisangle);
    let len = half.norm();
    let sine = Real { bits: crate::transcendental::fixed_sin(len.bits) };
    let factor = sine.div(len);
    crate::scalar_lemmas::lemma_div_within_half(sine, len);
    lemma_made_axis(half.x, factor, sine.bits as int, len.bits as int);
    lemma_made_axis(half.y, factor, sine.bits as int, len.bits as int);
    lemma_made_axis(half.z, factor, sine.bits as int, len.bits as int);
    lemma_halved(axisangle.x);
    lemma_halved(axisangle.y);
    lemma_halved(axisangle.z);
}

proof fn lemma_made_axis(half: Real, factor: Real, sine: int, length: int)
    requires
        length > 0,
        -length <= 2 * (factor.bits * length) - 2 * (sine * ONE_BITS) <= length,
        -ONE_BITS <= half.mul(factor).bits <= ONE_BITS,
    ensures
        is_axis_part(half.mul(factor).bits as int, half.bits as int, sine, length),
{
    crate::scalar_lemmas::lemma_mul_within_half(half, factor);
    let (h, f, u) = (half.bits as int, factor.bits as int, half.mul(factor).bits as int);
    let e1 = 2 * (u * 0x1_0000_0000) - 2 * (h * f);
    let e2 = 2 * (f * length) - 2 * (sine * 0x1_0000_0000);
    let m = crate::scalar::magnitude(h);
    crate::exact::lemma_product_bound(e1, length, 0x1_0000_0000, length);
    crate::exact::lemma_product_bound(h, e2, m, length);
    assert(e1 * length == 2 * ((u * length) * 0x1_0000_0000) - 2 * ((h * f) * length))
        by (nonlinear_arith)
        requires
            e1 == 2 * (u * 0x1_0000_0000) - 2 * (h * f),
    ;
    assert(h * e2 == 2 * ((h * f) * length) - 2 * ((h * sine) * 0x1_0000_0000))
        by (nonlinear_arith)
        requires
            e2 == 2 * (f * length) - 2 * (sine * 0x1_0000_0000),
    ;
    assert((m + 0x1_0000_0000) * length == m * length + 0x1_0000_0000 * length)
        by (nonlinear_arith);
}

proof fn lemma_halved(a: Real)
    ensures
        -1 <= 2 * a.div(Real::ratio(2, 1)).bits - a.bits <= 1,
{
    let two = Real::ratio(2, 1);
    assert(two.bits == 0x2_0000_0000) by {
        crate::scalar_lemmas::lemma_round_div_exact(0x2_0000_0000, 1);
    }
    let (n, d) = (a.bits * ONE_BITS, two.bits as int);
    let q = crate::scalar::round_div(n, d);
    crate::scalar_lemmas::lemma_round_div_near(n, d);
    assert(2 * q * d == 4 * (q * 0x1_0000_0000)) by (nonlinear_arith)
        requires
            d == 0x2_0000_0000,
    ;
}

} // verus!
