//! What the friction impulses promise.
use crate::bodies::RigidBody;
use crate::math::{Point, SdpMatrix3, Vector};
use crate::scalar::{Real, ONE_BITS};
use crate::vehicle::contact::WheelContactPoint;
use crate::vehicle::laws::rounding::Ranges;
use vstd::prelude::*;

verus! {

/// The response of a contact to an impulse, compared to the exact one.
#[verifier::rlimit(30)]
proof fn lemma_self_response_near(
    inv_mass: Real,
    m: SdpMatrix3<Real>,
    lever: Vector,
    normal: Vector,
    ranges: Ranges,
)
    requires
        ranges.are_small(),
        -(ranges.inv_mass * 0x1_0000_0000) <= inv_mass.bits <= ranges.inv_mass * 0x1_0000_0000,
        crate::exact::matrix_within(m, ranges.inv_inertia * 0x1_0000_0000),
        lever.exact().within(ranges.lever * 0x1_0000_0000),
        normal.exact().within(0x1_0000_0000),
    ensures
        ({
            let response = inv_mass.add(
                normal.dot(m.transform(lever.cross(normal)).cross(lever)),
            );
            let c = lever.exact().cross(normal.exact());
            let exact = inv_mass.bits * 0x1_0000_0000_0000_0000_0000_0000_0000_0000int + c.under(
                m,
            ).dot(c);
            let bound = (9 + 18 * ranges.lever + 36 * (ranges.inv_inertia * ranges.lever))
                * 0x1_0000_0000_0000_0000_0000_0000_0000_0000int;
            -bound <= response.bits * 0x1_0000_0000_0000_0000_0000_0000_0000_0000int - exact
                <= bound
        }),
{
    let (r, n) = (lever.exact(), normal.exact());
    let (k, j, b) = (ranges.inv_mass, ranges.inv_inertia, ranges.lever);
    crate::vehicle::laws::rounding::lemma_ranges(ranges);
    let jb = j * b;
    let jbb = j * (b * b);
    let c = r.cross(n);
    let arm = lever.cross(normal);
    let p = arm.exact();
    crate::exact::lemma_cross_near(lever, normal, b * 0x1_0000_0000, 0x1_0000_0000);
    crate::exact::lemma_cross_bound(r, n, b * 0x1_0000_0000, 0x1_0000_0000);
    let e_p = p.times(0x1_0000_0000).minus(c);
    let reach = 2 * b + 1;
    assert(p.within(reach * 0x1_0000_0000));
    let spin = m.transform(arm);
    let g = spin.exact();
    crate::vehicle::laws::rounding::lemma_multiples(j, reach);
    assert(j * reach == 2 * jb + j) by (nonlinear_arith)
        requires
            reach == 2 * b + 1,
            jb == j * b,
    ;
    crate::exact::lemma_transform_near(m, arm, j * 0x1_0000_0000, reach * 0x1_0000_0000);
    crate::exact::lemma_under_bound(m, p, j * 0x1_0000_0000, reach * 0x1_0000_0000);
    let e_g = g.times(0x1_0000_0000).minus(p.under(m));
    let swing = 6 * jb + 3 * j + 1;
    assert(g.within(swing * 0x1_0000_0000));
    let sweep = spin.cross(lever);
    let h = sweep.exact();
    crate::vehicle::laws::rounding::lemma_multiples(swing, b);
    assert(swing * b == 6 * jbb + 3 * jb + b) by (nonlinear_arith)
        requires
            swing == 6 * jb + 3 * j + 1,
            jb == j * b,
            jbb == j * (b * b),
    ;
    crate::exact::lemma_cross_near(spin, lever, swing * 0x1_0000_0000, b * 0x1_0000_0000);
    crate::exact::lemma_cross_bound(g, r, swing * 0x1_0000_0000, b * 0x1_0000_0000);
    let e_h = h.times(0x1_0000_0000).minus(g.cross(r));
    let width = 20 * jbb * 0x1_0000_0000 + 2;
    assert(h.within(width));
    let turn = normal.dot(sweep);
    crate::exact::lemma_dot_near(normal, sweep, 0x1_0000_0000, width);
    crate::exact::lemma_dot_bound(n, h, 0x1_0000_0000, width);
    assert(inv_mass.add(turn).bits == inv_mass.bits + turn.bits);
    // The error of the rounded sweep.
    assert(h.times(0x1_0000_0000) == g.cross(r).plus(e_h));
    crate::exact::lemma_dot_linear(n, h, h, 0x1_0000_0000);
    crate::exact::lemma_dot_linear(n, g.cross(r), e_h, 0);
    crate::exact::lemma_dot_bound(n, e_h, 0x1_0000_0000, 0x2_0000_0000);
    crate::exact::lemma_box_product(n, g, r);
    // The error of the rounded spin.
    assert(g.times(0x1_0000_0000) == p.under(m).plus(e_g));
    crate::exact::lemma_dot_linear(c, g, g, 0x1_0000_0000);
    crate::exact::lemma_dot_linear(c, p.under(m), e_g, 0);
    crate::exact::lemma_dot_bound(c, e_g, (2 * b) * 0x1_0000_0000_0000_0000, 0x3_0000_0000);
    // The error of the rounded arm.
    assert(p.times(0x1_0000_0000) == c.plus(e_p));
    crate::exact::lemma_under_linear(m, p, p, 0x1_0000_0000);
    crate::exact::lemma_under_linear(m, c, e_p, 0);
    crate::exact::lemma_dot_linear(c, p.under(m), p.under(m), 0x1_0000_0000);
    crate::exact::lemma_dot_linear(c, c.under(m), e_p.under(m), 0);
    crate::exact::lemma_under_bound(m, e_p, j * 0x1_0000_0000, 0x2_0000_0000);
    crate::vehicle::laws::rounding::lemma_multiples(2 * b, 6 * j);
    assert((2 * b) * (6 * j) == 12 * jb) by (nonlinear_arith)
        requires
            jb == j * b,
    ;
    crate::exact::lemma_dot_bound(
        c,
        e_p.under(m),
        (2 * b) * 0x1_0000_0000_0000_0000,
        (6 * j) * 0x1_0000_0000_0000_0000,
    );
}

/// Whether the length of a direction is one, up to its rounding.
pub open spec fn is_unit(direction: Vector) -> bool {
    &&& direction.exact().within(ONE_BITS as int)
    &&& -16 * ONE_BITS <= direction.exact().dot(direction.exact()) - ONE_BITS * ONE_BITS <= 16
        * ONE_BITS
}

/// Whether a body and what strikes it at a point are within the ranges, before
/// and after.
pub open spec fn responds_within(
    body: RigidBody,
    pos: Point,
    direction: Vector,
    impulse: Real,
    ranges: Ranges,
) -> bool {
    &&& ranges.are_small()
    &&& crate::vehicle::laws::stopping::is_ordinary(body, ranges)
    &&& crate::vehicle::laws::stopping::moves_in_range(body, ranges)
    &&& crate::vehicle::laws::stopping::moves_in_range(
        body.struck(direction.scale(impulse), pos),
        ranges,
    )
    &&& crate::vehicle::laws::stopping::impulse_in_range(impulse, ranges)
    &&& pos.sub(body.center_of_mass()).exact().within(ranges.lever * ONE_BITS)
}

/// An impulse changes the velocity of its own point along its direction by
/// what the response of that point says, up to the rounding of both.
#[verifier::rlimit(30)]
pub proof fn impulse_changes_sliding_by_response(
    body: RigidBody,
    pos: Point,
    direction: Vector,
    impulse: Real,
    ranges: Ranges,
)
    requires
        responds_within(body, pos, direction, impulse, ranges),
        is_unit(direction),
    ensures
        ({
            let after = body.struck(direction.scale(impulse), pos);
            let change = direction.dot(after.velocity_at_point(pos)).bits - direction.dot(
                body.velocity_at_point(pos),
            ).bits;
            let response = crate::vehicle::contact::impulse_response(body, pos, direction);
            let error = change * ONE_BITS - response.bits * impulse.bits;
            let bound = ranges.velocity_error() * ONE_BITS + ranges.own_response_error()
                * crate::scalar::magnitude(impulse.bits as int);
            -bound <= error <= bound
        }),
{
    let m = body.effective_world_inv_inertia;
    let lever = pos.sub(body.center_of_mass());
    let n = direction.exact();
    let (l, q) = (impulse.bits as int, body.inv_mass.bits as int);
    let push = direction.scale(impulse);
    let step = push.component_mul(body.effective_inv_mass);
    let spin = m.transform(lever.cross(push));
    let after = body.struck(push, pos);
    assert(after.linvel == body.linvel.add(step));
    assert(after.angvel == body.angvel.add(spin));
    assert(after.center_of_mass() == body.center_of_mass());
    let response = crate::vehicle::contact::impulse_response(body, pos, direction).bits as int;
    let c = lever.exact().cross(n);
    crate::vehicle::laws::rounding::lemma_contact_change_near(
        body.linvel,
        body.angvel,
        step,
        spin,
        lever,
        direction,
        ranges,
    );
    let (k, j, r) = (ranges.inv_mass, ranges.inv_inertia, ranges.lever);
    crate::vehicle::laws::rounding::lemma_ranges(ranges);
    let jr = j * r;
    let jrr = j * (r * r);
    // What the linear velocity contributes.
    crate::vehicle::laws::rounding::lemma_push_near(body.inv_mass, direction, impulse, ranges);
    let e_step = step.exact().times(0x1_0000_0000_0000_0000).minus(n.times(l).times(q));
    assert(step.exact().times(0x1_0000_0000_0000_0000) == n.times(l).times(q).plus(e_step));
    crate::exact::lemma_dot_linear(n, step.exact(), step.exact(), 0x1_0000_0000_0000_0000);
    crate::exact::lemma_dot_linear(n, n.times(l).times(q), e_step, 0);
    crate::exact::lemma_dot_linear(n, n.times(l), n, q);
    crate::exact::lemma_dot_linear(n, n, n, l);
    crate::exact::lemma_dot_bound(
        n,
        e_step,
        0x1_0000_0000,
        (k + 1) * 0x1_0000_0000_0000_0000,
    );
    // What the angular velocity contributes.
    crate::vehicle::laws::rounding::lemma_spin_near(m, lever, direction, impulse, ranges);
    let e_spin = spin.exact().times(0x1_0000_0000_0000_0000_0000_0000).minus(
        c.under(m).times(l),
    );
    assert(spin.exact().times(0x1_0000_0000_0000_0000_0000_0000) == c.under(m).times(l).plus(
        e_spin,
    ));
    crate::exact::lemma_cross_bound(lever.exact(), n, r * 0x1_0000_0000, 0x1_0000_0000);
    crate::exact::lemma_dot_linear(
        c,
        spin.exact(),
        spin.exact(),
        0x1_0000_0000_0000_0000_0000_0000,
    );
    crate::exact::lemma_dot_linear(c, c.under(m).times(l), e_spin, 0);
    crate::exact::lemma_dot_linear(c, c.under(m), c, l);
    let swing = 6 * jr + 6 * j + 3;
    crate::vehicle::laws::rounding::lemma_multiples(2 * r, swing);
    assert((2 * r) * swing == 12 * jrr + 12 * jr + 6 * r) by (nonlinear_arith)
        requires
            swing == 6 * jr + 6 * j + 3,
            jr == j * r,
            jrr == j * (r * r),
    ;
    crate::exact::lemma_dot_bound(
        c,
        e_spin,
        (2 * r) * 0x1_0000_0000_0000_0000,
        swing * 0x1_0000_0000_0000_0000_0000_0000,
    );
    // What the response says.
    lemma_self_response_near(body.inv_mass, m, lever, direction, ranges);
    let turn = c.under(m).dot(c);
    let e = response * 0x1_0000_0000_0000_0000_0000_0000_0000_0000int - (q
        * 0x1_0000_0000_0000_0000_0000_0000_0000_0000int + turn);
    let b = crate::scalar::magnitude(l);
    let rounded = 9 + 18 * r + 36 * jr;
    let limit = rounded * 0x1_0000_0000_0000_0000_0000_0000_0000_0000int;
    crate::exact::lemma_product_bound(e, l, limit, b);
    assert(limit * b == (rounded * b) * 0x1_0000_0000_0000_0000_0000_0000_0000_0000int)
        by (nonlinear_arith)
        requires
            limit == rounded * 0x1_0000_0000_0000_0000_0000_0000_0000_0000int,
    ;
    let unit_error = n.dot(n) - 0x1_0000_0000_0000_0000;
    crate::exact::lemma_product_bound(q, unit_error, k * 0x1_0000_0000, 0x10_0000_0000);
    let f = q * unit_error;
    let slack = 16 * k * 0x1_0000_0000_0000_0000;
    crate::exact::lemma_product_bound(f, l, slack, b);
    assert(slack * b == ((16 * k) * b) * 0x1_0000_0000_0000_0000) by (nonlinear_arith)
        requires
            slack == 16 * k * 0x1_0000_0000_0000_0000,
    ;
    assert((rounded + 16 * k) * b == rounded * b + (16 * k) * b) by (nonlinear_arith);
    assert(ranges.own_response_error() == rounded + 16 * k);
    let dot = n.dot(n);
    assert(e * l == (response * l) * 0x1_0000_0000_0000_0000_0000_0000_0000_0000int - ((dot * l)
        * q) * 0x1_0000_0000_0000_0000 + (f * l) * 0x1_0000_0000_0000_0000 - turn * l)
        by (nonlinear_arith)
        requires
            e == response * 0x1_0000_0000_0000_0000_0000_0000_0000_0000int - (q
                * 0x1_0000_0000_0000_0000_0000_0000_0000_0000int + turn),
            f == q * (dot - 0x1_0000_0000_0000_0000),
    ;
}

/// An impulse per velocity undoes the response that it was computed from.
proof fn lemma_impulse_undoes(x: Real, response: Real, mass: Real, impulse: Real)
    requires
        response.bits > 0,
        mass == Real::one().div(response),
        impulse == x.neg().mul(mass),
        i64::MIN < x.bits,
        mass.bits < i64::MAX,
        i64::MIN < impulse.bits < i64::MAX,
    ensures
        ({
            let rest = 2 * ONE_BITS * (response.bits * impulse.bits + x.bits * ONE_BITS);
            let bound = response.bits * (crate::scalar::magnitude(x.bits as int) + ONE_BITS);
            -bound <= rest <= bound
        }),
{
    let (r, v, k, l) = (
        response.bits as int,
        x.bits as int,
        mass.bits as int,
        impulse.bits as int,
    );
    let d = ONE_BITS as int;
    crate::scalar_lemmas::lemma_round_div_near(d * d, r);
    let e2 = 2 * k * r - 2 * (d * d);
    assert(k == crate::scalar::round_div(d * d, r)) by {
        crate::scalar_lemmas::lemma_round_div_exact(0, r);
        crate::scalar_lemmas::lemma_round_div_ordered(0 * r, d * d, r);
    }
    assert(-r <= e2 <= r);
    let product = x.neg().bits * mass.bits;
    crate::scalar_lemmas::lemma_round_div_near(product, d);
    assert(product == -(v * k)) by (nonlinear_arith)
        requires
            product == (-v) * k,
    ;
    let e1 = 2 * l * d + 2 * (v * k);
    assert(-d <= e1 <= d);
    let b = crate::scalar::magnitude(v);
    crate::exact::lemma_product_bound(e1, r, d, r);
    crate::exact::lemma_product_bound(v, e2, b, r);
    assert(e1 * r == 2 * (d * (r * l)) + 2 * (v * (k * r))) by (nonlinear_arith)
        requires
            e1 == 2 * l * d + 2 * (v * k),
    ;
    assert(v * e2 == 2 * (v * (k * r)) - 2 * (v * (d * d))) by (nonlinear_arith)
        requires
            e2 == 2 * k * r - 2 * (d * d),
    ;
    assert(2 * d * (r * l + v * d) == 2 * (d * (r * l)) + 2 * (v * (d * d))) by (nonlinear_arith);
    assert(r * (b + d) == d * r + b * r) by (nonlinear_arith);
}

/// The shares of an impulse make it up, up to their rounding.
proof fn lemma_shares_undo(
    x: Real,
    response: Real,
    mass: Real,
    whole: Real,
    count: usize,
    impulse: Real,
)
    requires
        response.bits > 0,
        mass == Real::one().div(response),
        whole == x.neg().mul(mass),
        0 < count <= 0x4000_0000,
        impulse == whole.div(Real::from_count(count)),
        i64::MIN < x.bits,
        mass.bits < i64::MAX,
        i64::MIN < whole.bits < i64::MAX,
    ensures
        ({
            let rest = 2 * ONE_BITS * (response.bits * (count * impulse.bits) + x.bits * ONE_BITS);
            let bound = response.bits * (crate::scalar::magnitude(x.bits as int) + ONE_BITS + count
                * ONE_BITS);
            -bound <= rest <= bound
        }),
{
    lemma_impulse_undoes(x, response, mass, whole);
    let (r, l, w, k) = (
        response.bits as int,
        impulse.bits as int,
        whole.bits as int,
        count as int,
    );
    let (n, d) = (w * 0x1_0000_0000, k * 0x1_0000_0000);
    assert(Real::from_count(count).bits == d);
    crate::scalar_lemmas::lemma_round_div_near(n, d);
    let q = crate::scalar::round_div(n, d);
    assert(2 * q * d == 2 * ((q * k) * 0x1_0000_0000)) by (nonlinear_arith)
        requires
            d == k * 0x1_0000_0000,
    ;
    lemma_share_in_range(w, k);
    assert(l == q);
    let e = 2 * (k * l) - 2 * w;
    assert(q * k == k * l) by (nonlinear_arith)
        requires
            l == q,
    ;
    assert(-k <= e <= k);
    crate::exact::lemma_product_bound(r, e, r, k);
    let kl = k * l;
    assert(r * e == 2 * (r * kl) - 2 * (r * w)) by (nonlinear_arith)
        requires
            e == 2 * kl - 2 * w,
    ;
    let v = x.bits as int;
    let b = crate::scalar::magnitude(v) + 0x1_0000_0000;
    assert(r * (b + k * 0x1_0000_0000) == r * b + (r * k) * 0x1_0000_0000) by (nonlinear_arith);
}

proof fn lemma_share_in_range(w: int, k: int)
    requires
        i64::MIN <= w <= i64::MAX,
        k >= 1,
    ensures
        i64::MIN <= crate::scalar::round_div(w * 0x1_0000_0000, k * 0x1_0000_0000) <= i64::MAX,
{
    let d = k * 0x1_0000_0000;
    let n = w * 0x1_0000_0000;
    crate::scalar_lemmas::lemma_round_div_exact(w, d);
    crate::scalar_lemmas::lemma_round_div_exact(0, d);
    if w >= 0 {
        assert(n <= w * d) by (nonlinear_arith)
            requires
                w >= 0,
                k >= 1,
                n == w * 0x1_0000_0000,
                d == k * 0x1_0000_0000,
        ;
        crate::scalar_lemmas::lemma_round_div_ordered(n, w * d, d);
        crate::scalar_lemmas::lemma_round_div_ordered(0 * d, n, d);
    } else {
        assert(w * d <= n) by (nonlinear_arith)
            requires
                w <= 0,
                k >= 1,
                n == w * 0x1_0000_0000,
                d == k * 0x1_0000_0000,
        ;
        crate::scalar_lemmas::lemma_round_div_ordered(w * d, n, d);
        crate::scalar_lemmas::lemma_round_div_ordered(n, 0 * d, d);
    }
}

/// Whether impulses neither move nor turn a body.
pub open spec fn is_immovable(body: RigidBody) -> bool {
    &&& !body.dynamic
    &&& body.inv_mass == Real::zero()
    &&& crate::exact::matrix_within(body.effective_world_inv_inertia, 0)
}

/// Whether the ground and what strikes it are within the ranges, before and
/// after, if there is a body there.
pub open spec fn ground_responds_within(
    ground: Option<&RigidBody>,
    pos: Point,
    direction: Vector,
    impulse: Real,
    ranges: Ranges,
) -> bool {
    ground matches Some(b) ==> {
        ||| responds_within(*b, pos, direction, impulse, ranges)
        ||| {
            &&& is_immovable(*b)
            &&& crate::vehicle::laws::stopping::moves_in_range(*b, ranges)
            &&& pos.sub(b.center_of_mass()).exact().within(ranges.lever * ONE_BITS)
        }
    }
}

/// The response of the ground, if there is a body there.
pub open spec fn ground_response(
    ground: Option<&RigidBody>,
    pos: Point,
    direction: Vector,
) -> Real {
    match ground {
        Some(b) => crate::vehicle::contact::impulse_response(*b, pos, direction),
        None => Real::zero(),
    }
}

/// The velocity of the ground at a point.
pub open spec fn ground_velocity(ground: Option<&RigidBody>, pos: Point) -> Vector {
    match ground {
        Some(b) => b.velocity_at_point(pos),
        None => Vector::zeros(),
    }
}

/// The velocity of the ground at a point once it was struck there.
pub open spec fn struck_ground_velocity(
    ground: Option<&RigidBody>,
    impulse: Vector,
    pos: Point,
) -> Vector {
    match ground {
        Some(b) => b.struck(impulse, pos).velocity_at_point(pos),
        None => Vector::zeros(),
    }
}

/// By how much the velocity that an impulse gives to a contact is rounded, in
/// squared units.
pub open spec fn sliding_error(impulse: Real, ranges: Ranges) -> int {
    ranges.velocity_error() * ONE_BITS + ranges.own_response_error() * crate::scalar::magnitude(
        impulse.bits as int,
    )
}

/// The ground is moved by what it responds with.
proof fn lemma_ground_change(
    ground: Option<&RigidBody>,
    pos: Point,
    direction: Vector,
    impulse: Real,
    ranges: Ranges,
)
    requires
        ranges.are_small(),
        ground_responds_within(ground, pos, direction, impulse, ranges),
        is_unit(direction),
    ensures
        ({
            let before = ground_velocity(ground, pos);
            let after = struck_ground_velocity(ground, direction.scale(impulse), pos);
            let change = direction.dot(after).bits - direction.dot(before).bits;
            let error = change * ONE_BITS - ground_response(ground, pos, direction).bits
                * impulse.bits;
            let bound = sliding_error(impulse, ranges);
            &&& -bound <= error <= bound
            &&& before.exact().within(0xc00_0000_0000_0002)
            &&& after.exact().within(0xc00_0000_0000_0002)
        }),
{
    crate::vehicle::laws::rounding::lemma_ranges(ranges);
    let size = crate::scalar::magnitude(impulse.bits as int);
    let rounded = ranges.own_response_error();
    assert(0 <= rounded * size) by (nonlinear_arith)
        requires
            rounded >= 0,
            size >= 0,
    ;
    assert(0 * impulse.bits == 0) by (nonlinear_arith);
    match ground {
        None => {},
        Some(b) => {
            crate::vehicle::laws::stopping::lemma_normal_velocity_in_range(
                *b,
                pos,
                direction,
                ranges,
            );
            let after = b.struck(direction.scale(impulse), pos);
            assert(after.center_of_mass() == b.center_of_mass());
            if is_immovable(*b) {
                assert(after == *b);
                lemma_no_response(*b, pos, direction);
            } else {
                crate::vehicle::laws::stopping::lemma_normal_velocity_in_range(
                    after,
                    pos,
                    direction,
                    ranges,
                );
                impulse_changes_sliding_by_response(*b, pos, direction, impulse, ranges);
            }
        },
    }
}

proof fn lemma_no_response(body: RigidBody, pos: Point, direction: Vector)
    requires
        is_immovable(body),
    ensures
        crate::vehicle::contact::impulse_response(body, pos, direction) == Real::zero(),
{
    let lever = pos.sub(body.center_of_mass());
    lemma_null_matrix(body.effective_world_inv_inertia, lever.cross(direction));
    crate::scalar_lemmas::lemma_mul_zero(lever.x);
    crate::scalar_lemmas::lemma_mul_zero(lever.y);
    crate::scalar_lemmas::lemma_mul_zero(lever.z);
    assert(Vector::zeros().cross(lever) == Vector::zeros());
    lemma_no_velocity(direction);
}

/// The part of a difference along a direction is the difference of the parts,
/// up to rounding.
proof fn lemma_dot_of_difference(direction: Vector, a: Vector, b: Vector)
    requires
        direction.exact().within(ONE_BITS as int),
        a.exact().within(0xc00_0000_0000_0002),
        b.exact().within(0xc00_0000_0000_0002),
    ensures
        ({
            let apart = direction.dot(a.sub(b)).bits - (direction.dot(a).bits - direction.dot(
                b,
            ).bits);
            &&& -9 <= apart <= 9
            &&& -0x4800_0000_0000_000f <= direction.dot(a.sub(b)).bits <= 0x4800_0000_0000_000f
        }),
{
    let (n, x, y) = (direction.exact(), a.exact(), b.exact());
    crate::exact::lemma_dot_near(direction, a, 0x1_0000_0000, 0xc00_0000_0000_0002);
    crate::exact::lemma_dot_near(direction, b, 0x1_0000_0000, 0xc00_0000_0000_0002);
    let d = a.sub(b);
    assert(d.exact() == x.plus(y.times(-1)));
    crate::exact::lemma_dot_near(direction, d, 0x1_0000_0000, 0x1800_0000_0000_0004);
    crate::exact::lemma_dot_bound(n, d.exact(), 0x1_0000_0000, 0x1800_0000_0000_0004);
    crate::exact::lemma_dot_linear(n, x, y.times(-1), 0);
    crate::exact::lemma_dot_linear(n, y, y, -1);
}

/// The impulse of a wheel, as long as it is not limited, takes away its share
/// of the velocity with which the contact slides over the ground, bias
/// included: where `count` wheels hold their contacts, the relative velocity
/// changes by the opposite of a `count`-th of it, up to rounding, when the
/// impulse acts on the body and its opposite on the ground. One wheel alone
/// cancels the relative velocity, and drives the drift that the bias stands
/// for back out. The ground may be a body that moves, one that impulses do not
/// move, or none.
#[verifier::rlimit(30)]
pub proof fn rolling_friction_cancels_sliding(
    body: RigidBody,
    ground: Option<&RigidBody>,
    pos: Point,
    direction: Vector,
    bias_velocity: Real,
    count: usize,
    impulse: Real,
    ranges: Ranges,
)
    requires
        is_unit(direction),
        0 < count <= 0x4000_0000,
        -0x2000_0000_0000_0000 <= bias_velocity.bits <= 0x2000_0000_0000_0000,
        responds_within(body, pos, direction, impulse, ranges),
        ground_responds_within(ground, pos, direction, impulse.neg(), ranges),
        ({
            let mass = WheelContactPoint::effective_mass(body, ground, pos, direction);
            let sliding = direction.dot(
                body.velocity_at_point(pos).sub(ground_velocity(ground, pos)),
            );
            let response = crate::vehicle::contact::impulse_response(body, pos, direction).add(
                ground_response(ground, pos, direction),
            );
            let whole = sliding.add(bias_velocity).neg().mul(mass);
            &&& impulse == whole.div(Real::from_count(count))
            &&& 0 < response.bits < i64::MAX
            &&& mass.bits < i64::MAX
            &&& i64::MIN < whole.bits < i64::MAX
        }),
    ensures
        ({
            let sliding = direction.dot(
                body.velocity_at_point(pos).sub(ground_velocity(ground, pos)),
            );
            let after = direction.dot(
                body.struck(direction.scale(impulse), pos).velocity_at_point(pos).sub(
                    struck_ground_velocity(ground, direction.scale(impulse.neg()), pos),
                ),
            );
            let response = crate::vehicle::contact::impulse_response(body, pos, direction).add(
                ground_response(ground, pos, direction),
            );
            let rest = count * (after.bits - sliding.bits) + sliding.bits + bias_velocity.bits;
            let undone = crate::scalar::magnitude(sliding.bits + bias_velocity.bits);
            let bound = response.bits * (undone + ONE_BITS + count * ONE_BITS) + 4 * ONE_BITS * (
            count * (sliding_error(impulse, ranges) + 9 * ONE_BITS));
            -bound <= 2 * ONE_BITS * (rest * ONE_BITS) <= bound
        }),
{
    let response0 = crate::vehicle::contact::impulse_response(body, pos, direction);
    let response1 = ground_response(ground, pos, direction);
    let response = response0.add(response1);
    let mass = WheelContactPoint::effective_mass(body, ground, pos, direction);
    assert(mass == Real::one().div(response));
    let (v0, v1) = (body.velocity_at_point(pos), ground_velocity(ground, pos));
    let struck = body.struck(direction.scale(impulse), pos);
    assert(struck.center_of_mass() == body.center_of_mass());
    let (w0, w1) = (
        struck.velocity_at_point(pos),
        struck_ground_velocity(ground, direction.scale(impulse.neg()), pos),
    );
    crate::vehicle::laws::rounding::lemma_ranges(ranges);
    crate::vehicle::laws::stopping::lemma_normal_velocity_in_range(body, pos, direction, ranges);
    crate::vehicle::laws::stopping::lemma_normal_velocity_in_range(struck, pos, direction, ranges);
    impulse_changes_sliding_by_response(body, pos, direction, impulse, ranges);
    lemma_ground_change(ground, pos, direction, impulse.neg(), ranges);
    lemma_dot_of_difference(direction, v0, v1);
    lemma_dot_of_difference(direction, w0, w1);
    let (sliding, after) = (direction.dot(v0.sub(v1)), direction.dot(w0.sub(w1)));
    let x = sliding.add(bias_velocity);
    assert(x.bits == sliding.bits + bias_velocity.bits);
    let whole = x.neg().mul(mass);
    lemma_shares_undo(x, response, mass, whole, count, impulse);
    let (l, k, r) = (impulse.bits as int, count as int, response.bits as int);
    let (r0, r1) = (response0.bits as int, response1.bits as int);
    assert(r == r0 + r1);
    assert(impulse.neg().bits == -l);
    assert(r1 * (-l) == -(r1 * l)) by (nonlinear_arith);
    assert(r * l == r0 * l + r1 * l) by (nonlinear_arith)
        requires
            r == r0 + r1,
    ;
    let change = after.bits - sliding.bits;
    let error = change * 0x1_0000_0000 - r * l;
    let slack = 2 * sliding_error(impulse, ranges) + 18 * 0x1_0000_0000;
    assert(-slack <= error <= slack);
    crate::exact::lemma_product_bound(k, error, k, slack);
    assert(k * error == (k * change) * 0x1_0000_0000 - r * (k * l)) by (nonlinear_arith)
        requires
            error == change * 0x1_0000_0000 - r * l,
    ;
    let half = sliding_error(impulse, ranges) + 9 * 0x1_0000_0000;
    assert(k * slack == 2 * (k * half)) by (nonlinear_arith)
        requires
            slack == 2 * half,
    ;
}

proof fn lemma_square_sum(v: Vector)
    ensures
        v.dot(v).bits >= 0,
{
    assert(v.x.bits * v.x.bits >= 0) by (nonlinear_arith);
    assert(v.y.bits * v.y.bits >= 0) by (nonlinear_arith);
    assert(v.z.bits * v.z.bits >= 0) by (nonlinear_arith);
}

proof fn lemma_dot_of_opposites(a: Vector, b: Vector)
    requires
        a.x.bits > i64::MIN,
        a.y.bits > i64::MIN,
        a.z.bits > i64::MIN,
        b.x.bits > i64::MIN,
        b.y.bits > i64::MIN,
        b.z.bits > i64::MIN,
    ensures
        a.neg().dot(b.neg()) == a.dot(b),
{
    lemma_opposites(a.x.bits as int, b.x.bits as int);
    lemma_opposites(a.y.bits as int, b.y.bits as int);
    lemma_opposites(a.z.bits as int, b.z.bits as int);
}

proof fn lemma_opposites(a: int, b: int)
    ensures
        (-a) * (-b) == a * b,
{
    assert((-a) * (-b) == a * b) by (nonlinear_arith);
}

/// The impulse between two bodies does not depend on which comes first: the
/// second receives along the opposite normal what the first receives along the
/// normal, as long as their relative velocity is in range.
pub proof fn bilateral_impulse_is_symmetric(
    body1: RigidBody,
    pt1: Point,
    body2: RigidBody,
    pt2: Point,
    normal: Vector,
    bias_velocity: Real,
)
    requires
        Real::zero().le(body1.inv_mass),
        Real::zero().le(body2.inv_mass),
        normal.exact().within(i64::MAX as int),
        ({
            let v1 = body1.velocity_at_point(pt1).exact();
            let v2 = body2.velocity_at_point(pt2).exact();
            v1.minus(v2).within(i64::MAX as int)
        }),
    ensures
        crate::vehicle::contact::bilateral_impulse(
            body2,
            pt2,
            body1,
            pt1,
            normal.neg(),
            bias_velocity,
        ) == crate::vehicle::contact::bilateral_impulse(
            body1,
            pt1,
            body2,
            pt2,
            normal,
            bias_velocity,
        ),
{
    let v1 = body1.velocity_at_point(pt1);
    let v2 = body2.velocity_at_point(pt2);
    assert(normal.neg().neg() == normal);
    assert(v2.sub(v1) == v1.sub(v2).neg());
    lemma_dot_of_opposites(normal, v1.sub(v2));
    lemma_square_sum(crate::vehicle::contact::angular_response(body1, pt1, normal));
    lemma_square_sum(crate::vehicle::contact::angular_response(body2, pt2, normal.neg()));
}

/// Two bodies that impulses move neither along nor around exchange none.
pub proof fn fixed_bodies_exchange_no_impulse(
    body1: RigidBody,
    pt1: Point,
    body2: RigidBody,
    pt2: Point,
    normal: Vector,
    bias_velocity: Real,
)
    requires
        body1.inv_mass == Real::zero(),
        body2.inv_mass == Real::zero(),
        crate::exact::matrix_within(body1.effective_world_inv_inertia, 0),
        crate::exact::matrix_within(body2.effective_world_inv_inertia, 0),
    ensures
        crate::vehicle::contact::bilateral_impulse(
            body1,
            pt1,
            body2,
            pt2,
            normal,
            bias_velocity,
        ) == Real::zero(),
{
    lemma_null_matrix(
        body1.effective_world_inv_inertia,
        pt1.sub(body1.center_of_mass()).cross(normal),
    );
    lemma_null_matrix(
        body2.effective_world_inv_inertia,
        pt2.sub(body2.center_of_mass()).cross(normal.neg()),
    );
    crate::scalar_lemmas::lemma_mul_zero(Real::zero());
    assert(Vector::zeros().dot(Vector::zeros()) == Real::zero());
    let rel_vel = normal.dot(body1.velocity_at_point(pt1).sub(body2.velocity_at_point(pt2)));
    crate::scalar_lemmas::lemma_mul_zero(
        crate::vehicle::contact::negated_contact_damping().mul(rel_vel.add(bias_velocity)),
    );
}

proof fn lemma_null_matrix(m: SdpMatrix3<Real>, v: Vector)
    requires
        crate::exact::matrix_within(m, 0),
    ensures
        m.transform(v) == Vector::zeros(),
{
    crate::scalar_lemmas::lemma_mul_zero(v.x);
    crate::scalar_lemmas::lemma_mul_zero(v.y);
    crate::scalar_lemmas::lemma_mul_zero(v.z);
    assert(m.m11 == Real::zero() && m.m12 == Real::zero() && m.m13 == Real::zero());
    assert(m.m22 == Real::zero() && m.m23 == Real::zero() && m.m33 == Real::zero());
}

/// Damping pushes against a bias: a body at rest is pushed along the opposite
/// of the side on which the bias lies.
pub proof fn unilateral_impulse_opposes_bias(
    body: RigidBody,
    pt: Point,
    normal: Vector,
    bias_velocity: Real,
)
    requires
        Real::zero().le(body.inv_mass),
        body.velocity_at_point(pt) == Vector::zeros(),
    ensures
        ({
            let impulse = crate::vehicle::contact::unilateral_impulse(
                body,
                pt,
                normal,
                bias_velocity,
            );
            &&& bias_velocity.bits >= 0 ==> impulse.bits <= 0
            &&& bias_velocity.bits <= 0 ==> impulse.bits >= 0
        }),
{
    lemma_no_velocity(normal);
    assert(Real::zero().add(bias_velocity) == bias_velocity);
    unilateral_impulse_opposes_velocity(body, pt, normal, bias_velocity);
}

/// The part of no velocity along a direction is null.
pub proof fn lemma_no_velocity(direction: Vector)
    ensures
        direction.dot(Vector::zeros()) == Real::zero(),
        Vector::zeros().sub(Vector::zeros()) == Vector::zeros(),
{
    crate::scalar_lemmas::lemma_mul_zero(direction.x);
    crate::scalar_lemmas::lemma_mul_zero(direction.y);
    crate::scalar_lemmas::lemma_mul_zero(direction.z);
}

proof fn lemma_opposite_cross(a: Vector, b: Vector, p: int, q: int)
    requires
        a.exact().within(p),
        b.exact().within(q),
        0 <= q < i64::MAX,
        p * q <= crate::exact::product_limit(),
    ensures
        a.cross(b.neg()) == a.cross(b).neg(),
{
    lemma_opposite_term(a.y, b.z, p, q);
    lemma_opposite_term(a.z, b.y, p, q);
    lemma_opposite_term(a.z, b.x, p, q);
    lemma_opposite_term(a.x, b.z, p, q);
    lemma_opposite_term(a.x, b.y, p, q);
    lemma_opposite_term(a.y, b.x, p, q);
}

proof fn lemma_opposite_term(a: Real, b: Real, p: int, q: int)
    requires
        -p <= a.bits <= p,
        -q <= b.bits <= q,
        0 <= q < i64::MAX,
        p * q <= crate::exact::product_limit(),
    ensures
        a.mul(b.neg()) == a.mul(b).neg(),
        -0x2000_0000_0000_0001 <= a.mul(b).bits <= 0x2000_0000_0000_0001,
{
    crate::exact::lemma_bounded_mul_near(a, b, p, q);
    crate::scalar_lemmas::lemma_mul_opposite(a, b);
}

proof fn lemma_opposite_transform(m: SdpMatrix3<Real>, v: Vector, p: int, q: int)
    requires
        crate::exact::matrix_within(m, p),
        v.exact().within(q),
        0 <= q < i64::MAX,
        p * q <= crate::exact::product_limit(),
    ensures
        m.transform(v.neg()) == m.transform(v).neg(),
        m.transform(v).exact().within(0x6000_0000_0000_0003),
{
    lemma_opposite_term(m.m11, v.x, p, q);
    lemma_opposite_term(m.m12, v.y, p, q);
    lemma_opposite_term(m.m13, v.z, p, q);
    lemma_opposite_term(m.m12, v.x, p, q);
    lemma_opposite_term(m.m22, v.y, p, q);
    lemma_opposite_term(m.m23, v.z, p, q);
    lemma_opposite_term(m.m13, v.x, p, q);
    lemma_opposite_term(m.m23, v.y, p, q);
    lemma_opposite_term(m.m33, v.z, p, q);
}

/// Whether the response of a body to impulses at a point is in range, for a
/// lever of `r` units and an inverse inertia of `j` units at most.
pub open spec fn responds_in_range(body: RigidBody, pt: Point, r: int, j: int) -> bool {
    &&& 0 <= r <= i64::MAX / 4
    &&& pt.sub(body.center_of_mass()).exact().within(r)
    &&& crate::exact::matrix_within(body.effective_world_inv_inertia, j)
    &&& j * (2 * r + 2) <= crate::exact::product_limit()
}

/// The angular response to the opposite impulse is the opposite one, and is as
/// long.
proof fn lemma_opposite_response(body: RigidBody, pt: Point, normal: Vector, r: int, j: int)
    requires
        responds_in_range(body, pt, r, j),
        normal.exact().within(ONE_BITS as int),
    ensures
        ({
            let one = crate::vehicle::contact::angular_response(body, pt, normal);
            let other = crate::vehicle::contact::angular_response(body, pt, normal.neg());
            other.dot(other) == one.dot(one)
        }),
{
    let lever = pt.sub(body.center_of_mass());
    let m = body.effective_world_inv_inertia;
    crate::exact::lemma_cross_near(lever, normal, r, 0x1_0000_0000);
    crate::exact::lemma_cross_bound(lever.exact(), normal.exact(), r, 0x1_0000_0000);
    let arm = lever.cross(normal);
    assert(arm.exact().within(2 * r + 2));
    lemma_opposite_cross(lever, normal, r, 0x1_0000_0000);
    lemma_opposite_transform(m, arm, j, 2 * r + 2);
    let spin = m.transform(arm);
    lemma_dot_of_opposites(spin, spin);
}

/// Without a bias, exchanging the two bodies negates their impulse: the second
/// receives, along the same normal, the opposite of what the first does, as
/// long as the responses, the relative velocity and the impulse are in range.
pub proof fn exchanging_bodies_negates_impulse(
    body1: RigidBody,
    pt1: Point,
    body2: RigidBody,
    pt2: Point,
    normal: Vector,
    r: int,
    j: int,
)
    requires
        Real::zero().le(body1.inv_mass),
        Real::zero().le(body2.inv_mass),
        normal.exact().within(ONE_BITS as int),
        responds_in_range(body1, pt1, r, j),
        responds_in_range(body2, pt2, r, j),
        ({
            let v1 = body1.velocity_at_point(pt1).exact();
            let v2 = body2.velocity_at_point(pt2).exact();
            v1.minus(v2).within(0x2000_0000_0000_0000)
        }),
        i64::MIN < crate::vehicle::contact::bilateral_impulse(
            body1,
            pt1,
            body2,
            pt2,
            normal,
            Real::zero(),
        ).bits < i64::MAX,
    ensures
        crate::vehicle::contact::bilateral_impulse(
            body2,
            pt2,
            body1,
            pt1,
            normal,
            Real::zero(),
        ) == crate::vehicle::contact::bilateral_impulse(
            body1,
            pt1,
            body2,
            pt2,
            normal,
            Real::zero(),
        ).neg(),
{
    assert(normal.neg().neg() == normal);
    bilateral_impulse_is_symmetric(body1, pt1, body2, pt2, normal.neg(), Real::zero());
    lemma_opposite_response(body1, pt1, normal, r, j);
    lemma_opposite_response(body2, pt2, normal, r, j);
    let d = body1.velocity_at_point(pt1).sub(body2.velocity_at_point(pt2));
    assert(d.exact().within(0x2000_0000_0000_0000));
    lemma_opposite_relative_velocity(normal, d);
    let rel = normal.dot(d);
    assert(rel.add(Real::zero()) == rel && rel.neg().add(Real::zero()) == rel.neg());
    let iaj = crate::vehicle::contact::angular_response(body1, pt1, normal);
    let ibj = crate::vehicle::contact::angular_response(body2, pt2, normal.neg());
    lemma_opposite_damping(
        rel,
        body1.inv_mass.add(body2.inv_mass).add(iaj.dot(iaj)).add(ibj.dot(ibj)),
    );
}

proof fn lemma_opposite_relative_velocity(normal: Vector, d: Vector)
    requires
        normal.exact().within(ONE_BITS as int),
        d.exact().within(0x2000_0000_0000_0000),
    ensures
        normal.neg().dot(d) == normal.dot(d).neg(),
        -0x6000_0000_0000_0003 <= normal.dot(d).bits <= 0x6000_0000_0000_0003,
{
    lemma_opposite_term(d.x, normal.x, 0x2000_0000_0000_0000, 0x1_0000_0000);
    lemma_opposite_term(d.y, normal.y, 0x2000_0000_0000_0000, 0x1_0000_0000);
    lemma_opposite_term(d.z, normal.z, 0x2000_0000_0000_0000, 0x1_0000_0000);
    lemma_product_exchanged(normal.x, d.x);
    lemma_product_exchanged(normal.y, d.y);
    lemma_product_exchanged(normal.z, d.z);
    lemma_product_exchanged(normal.neg().x, d.x);
    lemma_product_exchanged(normal.neg().y, d.y);
    lemma_product_exchanged(normal.neg().z, d.z);
}

proof fn lemma_opposite_damping(rel: Real, jac: Real)
    requires
        -0x6000_0000_0000_0003 <= rel.bits <= 0x6000_0000_0000_0003,
        i64::MIN < crate::vehicle::contact::negated_contact_damping().mul(rel).mul(jac.inv()).bits
            < i64::MAX,
    ensures
        crate::vehicle::contact::negated_contact_damping().mul(rel.neg()).mul(jac.inv())
            == crate::vehicle::contact::negated_contact_damping().mul(rel).mul(jac.inv()).neg(),
{
    let damping = crate::vehicle::contact::negated_contact_damping();
    assert(-ONE_BITS <= damping.bits <= 0) by {
        crate::scalar_lemmas::lemma_round_div_exact(0, 10);
        crate::scalar_lemmas::lemma_round_div_exact(ONE_BITS as int, 10);
        crate::scalar_lemmas::lemma_round_div_ordered(0, 2 * ONE_BITS, 10);
        crate::scalar_lemmas::lemma_round_div_ordered(2 * ONE_BITS, ONE_BITS * 10, 10);
    }
    crate::scalar_lemmas::lemma_mul_contracts(rel, damping.neg());
    crate::scalar_lemmas::lemma_mul_opposite(rel, damping.neg());
    assert(damping.neg().neg() == damping);
    lemma_product_exchanged(rel, damping);
    assert(i64::MIN < damping.mul(rel).bits < i64::MAX);
    crate::scalar_lemmas::lemma_mul_opposite(damping, rel);
    let damped = damping.mul(rel);
    lemma_product_exchanged(damped, jac.inv());
    crate::scalar_lemmas::lemma_mul_opposite(jac.inv(), damped);
}

proof fn lemma_product_exchanged(a: Real, b: Real)
    ensures
        a.mul(b) == b.mul(a),
{
    assert(a.bits * b.bits == b.bits * a.bits) by (nonlinear_arith);
}

/// What damps a velocity lies on the opposite side of it.
proof fn lemma_damping_opposes(velocity: Real, jac: Real)
    requires
        jac.bits >= 0,
    ensures
        crate::vehicle::laws::friction::opposes(
            crate::vehicle::contact::negated_contact_damping().mul(velocity).mul(jac.inv()),
            velocity,
        ),
{
    assert(jac.inv().bits >= 0) by {
        crate::scalar_lemmas::lemma_div_sign(Real::one(), jac);
    }
    let damping = crate::vehicle::contact::negated_contact_damping();
    assert(damping.bits <= 0) by {
        crate::scalar_lemmas::lemma_round_div_exact(0, 10);
        crate::scalar_lemmas::lemma_round_div_ordered(0, 2 * ONE_BITS, 10);
    }
    if velocity.bits >= 0 {
        crate::scalar_lemmas::lemma_mul_sign(damping, velocity);
    }
    if velocity.bits <= 0 {
        assert(damping.bits * velocity.bits >= 0) by (nonlinear_arith)
            requires
                damping.bits <= 0,
                velocity.bits <= 0,
        ;
    }
    crate::scalar_lemmas::lemma_mul_sign(damping.mul(velocity), jac.inv());
}

/// The impulse between two bodies opposes their relative velocity plus the
/// bias: it never adds to what it damps.
pub proof fn bilateral_impulse_opposes_velocity(
    body1: RigidBody,
    pt1: Point,
    body2: RigidBody,
    pt2: Point,
    normal: Vector,
    bias_velocity: Real,
)
    requires
        Real::zero().le(body1.inv_mass),
        Real::zero().le(body2.inv_mass),
    ensures
        ({
            let impulse = crate::vehicle::contact::bilateral_impulse(
                body1,
                pt1,
                body2,
                pt2,
                normal,
                bias_velocity,
            );
            let velocity = normal.dot(
                body1.velocity_at_point(pt1).sub(body2.velocity_at_point(pt2)),
            ).add(bias_velocity);
            &&& crate::vehicle::laws::friction::opposes(impulse, velocity)
            &&& impulse.bits * velocity.bits <= 0
        }),
{
    let iaj = crate::vehicle::contact::angular_response(body1, pt1, normal);
    let ibj = crate::vehicle::contact::angular_response(body2, pt2, normal.neg());
    lemma_square_sum(iaj);
    lemma_square_sum(ibj);
    let velocity = normal.dot(
        body1.velocity_at_point(pt1).sub(body2.velocity_at_point(pt2)),
    ).add(bias_velocity);
    lemma_damping_opposes(
        velocity,
        body1.inv_mass.add(body2.inv_mass).add(iaj.dot(iaj)).add(ibj.dot(ibj)),
    );
    let impulse = crate::vehicle::contact::bilateral_impulse(
        body1,
        pt1,
        body2,
        pt2,
        normal,
        bias_velocity,
    );
    lemma_product_of_opposing(impulse, velocity);
}

/// The impulse of a body against something that does not move opposes its
/// velocity plus the bias.
pub proof fn unilateral_impulse_opposes_velocity(
    body: RigidBody,
    pt: Point,
    normal: Vector,
    bias_velocity: Real,
)
    requires
        Real::zero().le(body.inv_mass),
    ensures
        ({
            let impulse = crate::vehicle::contact::unilateral_impulse(
                body,
                pt,
                normal,
                bias_velocity,
            );
            let velocity = normal.dot(body.velocity_at_point(pt)).add(bias_velocity);
            &&& crate::vehicle::laws::friction::opposes(impulse, velocity)
            &&& impulse.bits * velocity.bits <= 0
        }),
{
    let iaj = crate::vehicle::contact::angular_response(body, pt, normal);
    lemma_square_sum(iaj);
    let velocity = normal.dot(body.velocity_at_point(pt)).add(bias_velocity);
    lemma_damping_opposes(velocity, body.inv_mass.add(iaj.dot(iaj)));
    lemma_product_of_opposing(
        crate::vehicle::contact::unilateral_impulse(body, pt, normal, bias_velocity),
        velocity,
    );
}

proof fn lemma_product_of_opposing(a: Real, b: Real)
    requires
        crate::vehicle::laws::friction::opposes(a, b),
    ensures
        a.bits * b.bits <= 0,
{
    let (x, y) = (a.bits as int, b.bits as int);
    assert(x * y <= 0) by (nonlinear_arith)
        requires
            y >= 0 ==> x <= 0,
            y <= 0 ==> x >= 0,
    ;
}

} // verus!
