//! What the shape-casts promise.
use crate::bodies::{ColliderHandle, RigidBody};
use crate::math::Vector;
use crate::scalar::{Real, ONE_BITS};
use crate::vehicle::controller::DynamicShapeCastVehicleController;
use crate::vehicle::shape_cast::ShapeCastHit;
use crate::vehicle::wheel::{Wheel, WheelDesc};
use vstd::prelude::*;

verus! {

/// On the ground a suspension is never longer than its full extension nor
/// shorter than its full compression, which is never past the hard point.
pub proof fn grounded_length_is_in_range(
    wheel: Wheel,
    collider: ColliderHandle,
    hit: ShapeCastHit,
    chassis: RigidBody,
)
    requires
        Real::zero().le(wheel.max_suspension_length()),
    ensures
        ({
            let length = wheel.grounded(collider, hit, chassis).shape_cast_info.suspension_length;
            &&& Real::zero().le(wheel.min_suspension_length())
            &&& wheel.min_suspension_length().le(length)
            &&& length.le(wheel.max_suspension_length())
        }),
{
}

/// A wheel is bottomed out exactly when it overshoots, and its suspension is
/// then fully compressed.
pub proof fn bottomed_out_overshoots(
    wheel: Wheel,
    collider: ColliderHandle,
    hit: ShapeCastHit,
    chassis: RigidBody,
)
    requires
        Real::zero().le(wheel.max_suspension_length()),
    ensures
        ({
            let info = wheel.grounded(collider, hit, chassis).shape_cast_info;
            &&& info.bottomed_out <==> Real::zero().lt(info.bottom_out_overshoot)
            &&& !info.bottomed_out ==> info.bottom_out_overshoot == Real::zero()
            &&& info.bottomed_out ==> info.suspension_length == wheel.min_suspension_length()
        }),
{
}

/// After its cast a wheel that had no contact is in contact exactly when it
/// has ground, which is exactly when it stands on what it hit; its two normals
/// coincide, and in the air it has no overshoot.
pub proof fn contact_means_ground(
    wheel: Wheel,
    hit: Option<(ColliderHandle, ShapeCastHit)>,
    world_up: Vector,
    chassis: RigidBody,
    suspension_cos: Real,
    surface_cos: Real,
    decay: Real,
)
    requires
        !wheel.shape_cast_info.is_in_contact,
    ensures
        ({
            let info = wheel.after_cast(
                hit,
                world_up,
                chassis,
                suspension_cos,
                surface_cos,
                decay,
            ).shape_cast_info;
            let stands = hit matches Some((_, h)) && wheel.stands_on(
                h,
                world_up,
                suspension_cos,
                surface_cos,
            );
            &&& info.is_in_contact <==> stands
            &&& info.ground_object is Some <==> stands
            &&& stands ==> info.ground_object == Some(hit.unwrap().0)
            &&& info.contact_normal_ws == info.ground_normal_ws
            &&& !stands ==> !info.bottomed_out && info.bottom_out_overshoot == Real::zero()
        }),
{
}

/// A wheel whose suspension points too far from down stands on nothing,
/// whatever its cast hit.
pub proof fn inverted_suspension_is_rejected(
    wheel: Wheel,
    hit: Option<(ColliderHandle, ShapeCastHit)>,
    world_up: Vector,
    chassis: RigidBody,
    suspension_cos: Real,
    surface_cos: Real,
    decay: Real,
)
    requires
        wheel.cast_direction().dot(world_up).neg().le(suspension_cos),
    ensures
        wheel.after_cast(hit, world_up, chassis, suspension_cos, surface_cos, decay)
            == wheel.airborne(decay),
{
}

/// A wheel stands on no surface that points too far from up.
pub proof fn steep_surface_is_rejected(
    wheel: Wheel,
    collider: ColliderHandle,
    hit: ShapeCastHit,
    world_up: Vector,
    chassis: RigidBody,
    suspension_cos: Real,
    surface_cos: Real,
    decay: Real,
)
    requires
        hit.normal1.dot(world_up).le(surface_cos),
    ensures
        wheel.after_cast(
            Some((collider, hit)),
            world_up,
            chassis,
            suspension_cos,
            surface_cos,
            decay,
        ) == wheel.airborne(decay),
{
}

/// A suspension that hangs free moves towards its full extension and never
/// past it.
pub proof fn droop_approaches_full_extension(wheel: Wheel, decay: Real)
    requires
        Real::zero().le(decay),
        decay.le(Real::one()),
        i64::MIN <= wheel.max_suspension_length().bits
            - wheel.shape_cast_info.suspension_length.bits <= i64::MAX,
    ensures
        ({
            let from = wheel.shape_cast_info.suspension_length.bits;
            let to = wheel.max_suspension_length().bits;
            let drooped = wheel.drooped_length(decay).bits;
            &&& from <= to ==> from <= drooped <= to
            &&& to <= from ==> to <= drooped <= from
        }),
{
    crate::scalar_lemmas::lemma_mul_contracts(
        wheel.max_suspension_length().sub(wheel.shape_cast_info.suspension_length),
        Real::one().sub(decay),
    );
}

/// What a suspension that hangs free lacks of its full extension is its decay
/// times what it lacked, up to half a unit.
pub proof fn droop_leaves_its_decay(wheel: Wheel, decay: Real)
    requires
        Real::zero().le(decay),
        decay.le(Real::one()),
        i64::MIN <= wheel.max_suspension_length().bits
            - wheel.shape_cast_info.suspension_length.bits <= i64::MAX,
    ensures
        ({
            let lacked = wheel.max_suspension_length().bits
                - wheel.shape_cast_info.suspension_length.bits;
            let lacks = wheel.max_suspension_length().bits - wheel.drooped_length(decay).bits;
            -ONE_BITS <= 2 * (lacks * ONE_BITS) - 2 * (lacked * decay.bits) <= ONE_BITS
        }),
{
    droop_approaches_full_extension(wheel, decay);
    let gap = wheel.max_suspension_length().sub(wheel.shape_cast_info.suspension_length);
    let rest = Real::one().sub(decay);
    let (x, y, d) = (gap.bits as int, rest.bits as int, ONE_BITS as int);
    crate::scalar_lemmas::lemma_mul_contracts(gap, rest);
    crate::scalar_lemmas::lemma_round_div_near(x * y, d);
    crate::scalar_lemmas::lemma_product_in_range(x, y);
    let q = crate::scalar::round_div(x * y, d);
    assert(gap.mul(rest).bits == q);
    assert(2 * q * d == 2 * (q * d)) by (nonlinear_arith);
    assert(x * y == x * d - x * decay.bits) by (nonlinear_arith)
        requires
            y == d - decay.bits,
    ;
}

/// Two droops leave the length that one with the product of their decays
/// leaves, up to rounding: by two units, and one more for every length of one
/// that the suspension lacked.
pub proof fn droops_add_up(wheel: Wheel, first: Real, second: Real)
    requires
        Real::zero().le(first),
        first.le(Real::one()),
        Real::zero().le(second),
        second.le(Real::one()),
        i64::MIN <= wheel.max_suspension_length().bits
            - wheel.shape_cast_info.suspension_length.bits <= i64::MAX,
    ensures
        ({
            let twice = wheel.airborne(first).drooped_length(second).bits;
            let once = wheel.drooped_length(first.mul(second)).bits;
            let lacked = crate::scalar::magnitude(
                wheel.max_suspension_length().bits - wheel.shape_cast_info.suspension_length.bits,
            );
            let bound = 3 * ONE_BITS + lacked;
            -bound <= 2 * ((twice - once) * ONE_BITS) <= bound
        }),
{
    let both = first.mul(second);
    crate::scalar_lemmas::lemma_mul_contracts(first, second);
    droop_leaves_its_decay(wheel, first);
    droop_approaches_full_extension(wheel, first);
    let hung = wheel.airborne(first);
    assert(hung.max_suspension_length() == wheel.max_suspension_length());
    droop_leaves_its_decay(hung, second);
    droop_leaves_its_decay(wheel, both);
    let top = wheel.max_suspension_length().bits as int;
    let r0 = top - wheel.shape_cast_info.suspension_length.bits;
    let r1 = top - wheel.drooped_length(first).bits;
    let r2 = top - hung.drooped_length(second).bits;
    let r = top - wheel.drooped_length(both).bits;
    let (a, b, c, d) = (
        first.bits as int,
        second.bits as int,
        both.bits as int,
        0x1_0000_0000int,
    );
    crate::scalar_lemmas::lemma_round_div_near(a * b, d);
    crate::scalar_lemmas::lemma_product_in_range(a, b);
    assert(c == crate::scalar::round_div(a * b, d));
    assert(2 * c * d == 2 * (c * d)) by (nonlinear_arith);
    let e1 = 2 * (r1 * d) - 2 * (r0 * a);
    let e3 = 2 * (c * d) - 2 * (a * b);
    let m = crate::scalar::magnitude(r0);
    crate::exact::lemma_product_bound(e1, b, d, d);
    crate::exact::lemma_product_bound(r0, e3, m, d);
    assert(e1 * b == 2 * ((r1 * b) * d) - 2 * (r0 * (a * b))) by (nonlinear_arith)
        requires
            e1 == 2 * (r1 * d) - 2 * (r0 * a),
    ;
    assert(r0 * e3 == 2 * ((r0 * c) * d) - 2 * (r0 * (a * b))) by (nonlinear_arith)
        requires
            e3 == 2 * (c * d) - 2 * (a * b),
    ;
    let (e2, e4) = (2 * (r2 * d) - 2 * (r1 * b), 2 * (r * d) - 2 * (r0 * c));
    assert(-d <= e2 <= d && -d <= e4 <= d);
    assert(-(d * d) <= e1 * b <= d * d);
    assert(-(m * d) <= r0 * e3 <= m * d);
    assert(2 * ((r2 - r) * d) * d == e1 * b + e2 * d - r0 * e3 - e4 * d) by (nonlinear_arith)
        requires
            e1 * b == 2 * ((r1 * b) * d) - 2 * (r0 * (a * b)),
            r0 * e3 == 2 * ((r0 * c) * d) - 2 * (r0 * (a * b)),
            e2 == 2 * (r2 * d) - 2 * (r1 * b),
            e4 == 2 * (r * d) - 2 * (r0 * c),
    ;
    assert(-(3 * d + m) <= 2 * ((r2 - r) * d) <= 3 * d + m) by (nonlinear_arith)
        requires
            -(3 * (d * d) + m * d) <= 2 * ((r2 - r) * d) * d <= 3 * (d * d) + m * d,
            d == 0x1_0000_0000,
    ;
}

/// A wheel that was just added to a vehicle is settled, if its suspension can
/// travel.
pub proof fn added_wheel_is_settled(info: WheelDesc)
    requires
        Wheel::described(info).can_travel(),
    ensures
        Wheel::described(info).is_settled(),
{
}

/// The slope correction of a grounded wheel lies between zero and ten.
pub proof fn slope_correction_is_clipped(
    wheel: Wheel,
    collider: ColliderHandle,
    hit: ShapeCastHit,
    chassis: RigidBody,
)
    ensures
        ({
            let inv = wheel.grounded(collider, hit, chassis).clipped_inv_contact_dot_suspension;
            Real::zero().le(inv) && inv.le(Real::ratio(10, 1))
        }),
{
    let normal = wheel.push_normal(hit);
    assert(Real::ratio(10, 1).bits == 10 * ONE_BITS) by {
        crate::scalar_lemmas::lemma_round_div_exact(10 * ONE_BITS, 1);
    }
    if !wheel.push_is_oblique(normal) {
        let d = -(wheel.push_slope(normal).bits as int);
        assert(d > 429_496_729);
        let n = ONE_BITS * ONE_BITS;
        assert(0 * d <= n <= (10 * ONE_BITS) * d);
        crate::scalar_lemmas::lemma_round_div_exact(0, d);
        crate::scalar_lemmas::lemma_round_div_exact(10 * ONE_BITS, d);
        crate::scalar_lemmas::lemma_round_div_ordered(0 * d, n, d);
        crate::scalar_lemmas::lemma_round_div_ordered(n, (10 * ONE_BITS) * d, d);
    }
}

/// The direction of a suspension, of length one where it has a length.
pub open spec fn suspension_direction(wheel: Wheel) -> Vector {
    match wheel.wheel_direction_ws.try_normalize(crate::vehicle::shape_cast::min_norm()) {
        Some(direction) => direction,
        None => wheel.wheel_direction_ws,
    }
}

/// A cast stands its wheel on what it hit exactly when the suspension points
/// down and the surface up, each within its own angle: when the part of the
/// suspension against the world's up direction is larger than the cosine of the
/// reject angle of suspensions, and the part of the surface's normal along it
/// larger than the cosine of the reject angle of surfaces.
pub proof fn wheel_stands_within_its_angles(
    wheel: Wheel,
    hit: Option<(ColliderHandle, ShapeCastHit)>,
    world_up: Vector,
    chassis: RigidBody,
    dt: Real,
)
    requires
        !wheel.shape_cast_info.is_in_contact,
    ensures
        ({
            let after = DynamicShapeCastVehicleController::wheel_after_cast(
                wheel,
                hit,
                world_up,
                chassis,
                dt,
            );
            let suspension_cos = crate::transcendental::fixed_cos(
                wheel.suspension_reject_angle.bits,
            );
            let surface_cos = crate::transcendental::fixed_cos(wheel.surface_reject_angle.bits);
            let stands = hit matches Some((_, h)) && suspension_cos < -suspension_direction(
                wheel,
            ).dot(world_up).bits && surface_cos < h.normal1.dot(world_up).bits;
            &&& suspension_direction(wheel).dot(world_up).bits > i64::MIN ==> (
            after.shape_cast_info.is_in_contact <==> stands)
            &&& after.shape_cast_info.ground_object == if after.shape_cast_info.is_in_contact {
                Some(hit.unwrap().0)
            } else {
                None
            }
        }),
{
}

/// Whether the hit of a cast is in range.
pub open spec fn hits_in_range(
    wheel: Wheel,
    hit: ShapeCastHit,
    chassis: RigidBody,
    w: int,
    r: int,
) -> bool {
    &&& hit.normal1.exact().within(ONE_BITS as int)
    &&& wheel.wheel_direction_ws.exact().within(ONE_BITS as int)
    &&& crate::body_laws::moves_at(chassis, hit.witness1, w, r)
    &&& chassis.velocity_at_point(hit.witness1).exact().within(0x80_0000_0000_0000)
}

/// A grounded wheel touches where its cast hit, and pushes along the normal of
/// what it hit, or along its own suspension where that normal is more than
/// sixty degrees off it.
pub proof fn grounded_wheel_touches_what_it_hit(
    wheel: Wheel,
    collider: ColliderHandle,
    hit: ShapeCastHit,
    chassis: RigidBody,
)
    requires
        hit.normal1.exact().within(ONE_BITS as int),
        wheel.wheel_direction_ws.exact().within(ONE_BITS as int),
    ensures
        ({
            let info = wheel.grounded(collider, hit, chassis).shape_cast_info;
            let along = hit.normal1.exact().dot(wheel.wheel_direction_ws.exact());
            let half: int = 0x8000_0000_0000_0000;
            let slack = 4 * ONE_BITS;
            &&& info.contact_point_ws == hit.witness1
            &&& info.ground_normal_ws == info.contact_normal_ws
            &&& info.contact_normal_ws == hit.normal1 || info.contact_normal_ws.exact()
                == wheel.wheel_direction_ws.exact().times(-1)
            &&& -along > half + slack ==> info.contact_normal_ws == hit.normal1
            &&& -along < half - slack ==> info.contact_normal_ws.exact()
                == wheel.wheel_direction_ws.exact().times(-1)
        }),
{
    let axial = wheel.wheel_direction_ws.neg();
    let (n, d) = (hit.normal1.exact(), wheel.wheel_direction_ws.exact());
    assert(axial.exact() == d.times(-1));
    crate::exact::lemma_dot_near(hit.normal1, axial, 0x1_0000_0000, 0x1_0000_0000);
    crate::exact::lemma_dot_linear(n, d, d, -1);
    assert(Real::ratio(1, 2).bits == 0x8000_0000) by {
        crate::scalar_lemmas::lemma_round_div_exact(0x8000_0000, 2);
    }
}

/// The suspension of a grounded wheel is being compressed or released with the
/// velocity of the chassis' matter at the contact, along the contact's normal,
/// divided by minus the dot product of the normal and the suspension: their
/// product is the opposite of that velocity, up to rounding. The velocity is
/// that of the rigid motion of the chassis, its rotation around its center of
/// mass included. The slope correction is the same divisor's opposite inverse.
/// A push that is too oblique is not felt, and corrected by ten.
pub proof fn suspension_moves_with_its_contact(
    wheel: Wheel,
    collider: ColliderHandle,
    hit: ShapeCastHit,
    chassis: RigidBody,
    w: int,
    r: int,
)
    requires
        hits_in_range(wheel, hit, chassis, w, r),
    ensures
        ({
            let after = wheel.grounded(collider, hit, chassis);
            let normal = after.shape_cast_info.contact_normal_ws;
            let slope = normal.dot(wheel.wheel_direction_ws).bits as int;
            let velocity = normal.exact().dot(
                crate::body_laws::exact_velocity(chassis, hit.witness1),
            );
            let size = crate::scalar::magnitude(slope);
            let along = crate::scalar::magnitude(
                normal.dot(chassis.velocity_at_point(hit.witness1)).bits as int,
            );
            let bound = 9 * (ONE_BITS * ONE_BITS) + size * (along + ONE_BITS);
            &&& 10 * slope < -ONE_BITS - 10 ==> {
                &&& -bound <= (after.suspension_relative_velocity.bits * slope) * 0x1_0000_0000
                    + velocity <= bound
                &&& -size <= after.clipped_inv_contact_dot_suspension.bits * slope
                    + 0x1_0000_0000_0000_0000 <= size
            }
            &&& 10 * slope > -ONE_BITS + 10 ==> {
                &&& after.suspension_relative_velocity.bits == 0
                &&& after.clipped_inv_contact_dot_suspension.bits == 10 * ONE_BITS
            }
        }),
{
    let after = wheel.grounded(collider, hit, chassis);
    let normal = after.shape_cast_info.contact_normal_ws;
    grounded_wheel_touches_what_it_hit(wheel, collider, hit, chassis);
    assert(normal.exact().within(ONE_BITS as int));
    let slope = normal.dot(wheel.wheel_direction_ws);
    let point = hit.witness1;
    let velocity = chassis.velocity_at_point(point);
    crate::vehicle::laws::motion::lemma_velocity_along(normal, chassis, point, w, r);
    let along = normal.dot(velocity);
    crate::exact::lemma_dot_near(normal, velocity, 0x1_0000_0000, 0x80_0000_0000_0000);
    crate::exact::lemma_dot_bound(
        normal.exact(),
        velocity.exact(),
        0x1_0000_0000,
        0x80_0000_0000_0000,
    );
    let tenth = Real::ratio(1, 10);
    assert(tenth.bits == 429_496_730) by {
        crate::scalar_lemmas::lemma_round_div_near(ONE_BITS as int, 10);
    }
    assert(Real::ratio(10, 1).bits == 10 * ONE_BITS) by {
        crate::scalar_lemmas::lemma_round_div_exact(10 * ONE_BITS, 1);
    }
    if 10 * slope.bits < -ONE_BITS - 10 {
        assert(!wheel.push_is_oblique(normal));
        slope_correction_is_clipped(wheel, collider, hit, chassis);
        let inv = after.clipped_inv_contact_dot_suspension;
        crate::scalar_lemmas::lemma_div_within_half(Real::one().neg(), slope);
        let (s, i, p) = (slope.bits as int, inv.bits as int, along.bits as int);
        let size = crate::scalar::magnitude(s);
        let e2 = i * s + 0x1_0000_0000_0000_0000;
        crate::exact::lemma_bounded_mul_near(along, inv, 0x200_0000_0000_0000, 0xa_0000_0000);
        let v = along.mul(inv).bits as int;
        let e = v * 0x1_0000_0000 - p * i;
        let m = crate::scalar::magnitude(p);
        crate::exact::lemma_product_bound(e, s, 0x1_0000_0000, size);
        crate::exact::lemma_product_bound(p, e2, m, size);
        assert(e * s == (v * s) * 0x1_0000_0000 - (p * i) * s) by (nonlinear_arith)
            requires
                e == v * 0x1_0000_0000 - p * i,
        ;
        assert(p * e2 == (p * i) * s + p * 0x1_0000_0000_0000_0000) by (nonlinear_arith)
            requires
                e2 == i * s + 0x1_0000_0000_0000_0000,
        ;
        assert(size * (m + 0x1_0000_0000) == m * size + 0x1_0000_0000 * size)
            by (nonlinear_arith);
    }
}

/// The suspension of a grounded wheel is as long as its cast says: the time of
/// impact less the radius, that is the way from the hard point to where the
/// wheel's center stopped, kept between its stops. The wheel is bottomed out
/// exactly when its center stopped before the hard point, and overshoots by how
/// far.
pub proof fn suspension_reaches_what_it_hit(
    wheel: Wheel,
    collider: ColliderHandle,
    hit: ShapeCastHit,
    chassis: RigidBody,
)
    requires
        0 <= wheel.suspension_rest_length.bits <= 0x2000_0000_0000_0000,
        0 <= wheel.max_suspension_travel.bits <= 0x2000_0000_0000_0000,
        i64::MIN < hit.time_of_impact.bits - wheel.radius.bits <= i64::MAX,
    ensures
        ({
            let info = wheel.grounded(collider, hit, chassis).shape_cast_info;
            let reach = hit.time_of_impact.bits - wheel.radius.bits;
            let longest = wheel.suspension_rest_length.bits + wheel.max_suspension_travel.bits;
            let shortest = wheel.suspension_rest_length.bits - wheel.max_suspension_travel.bits;
            let length = info.suspension_length.bits;
            &&& 0 <= length <= longest
            &&& shortest <= length
            &&& shortest <= reach && 0 <= reach <= longest ==> length == reach
            &&& reach > longest ==> length == longest
            &&& reach < shortest && 0 <= shortest ==> length == shortest
            &&& reach < 0 && shortest < 0 ==> length == 0
            &&& info.bottomed_out <==> reach < 0
            &&& reach < 0 ==> info.bottom_out_overshoot.bits == -reach
            &&& reach >= 0 ==> info.bottom_out_overshoot.bits == 0
        }),
{
}

/// A cast starts one radius behind the hard point and goes along the
/// suspension, so that where the wheel's center stops is as far from the hard
/// point as the suspension is then long; and it reaches as far as the wheel's
/// rim does at the resting length. Both hold up to rounding.
pub proof fn cast_is_along_the_suspension(wheel: Wheel, toi: Real)
    requires
        wheel.shape_cast_info.hard_point_ws.exact().within(0x1000_0000_0000_0000),
        suspension_direction(wheel).exact().within(0x2_0000_0000),
        -0x80_0000_0000_0000 <= wheel.radius.bits <= 0x80_0000_0000_0000,
        -0x80_0000_0000_0000 <= toi.bits <= 0x80_0000_0000_0000,
        -0x80_0000_0000_0000 <= wheel.suspension_rest_length.bits <= 0x80_0000_0000_0000,
    ensures
        ({
            let request = wheel.cast_request();
            let direction = suspension_direction(wheel);
            let center = request.position.translation.exact().plus(
                direction.scale(toi).exact(),
            );
            let hung = wheel.shape_cast_info.hard_point_ws.exact().plus(
                direction.scale(toi.sub(wheel.radius)).exact(),
            );
            &&& request.direction == direction
            &&& request.cylinder.radius == wheel.radius
            &&& -1 <= 2 * request.cylinder.half_height.bits - wheel.width.bits <= 1
            &&& center.minus(hung).within(3)
            &&& request.options.max_time_of_impact.bits == wheel.suspension_rest_length.bits + 2
                * wheel.radius.bits
        }),
{
    let d = suspension_direction(wheel);
    assert(d == wheel.cast_direction());
    let (x, r, t) = (d.exact(), wheel.radius.bits as int, toi.bits as int);
    let span = toi.sub(wheel.radius);
    assert(span.bits == t - r);
    let (p, q): (int, int) = (0x2_0000_0000, 0x100_0000_0000_0000);
    crate::exact::lemma_scale_near(d, wheel.radius, p, q);
    crate::exact::lemma_scale_near(d, toi, p, q);
    crate::exact::lemma_scale_near(d, span, p, q);
    lemma_split(x.x, t, r);
    lemma_split(x.y, t, r);
    lemma_split(x.z, t, r);
    crate::exact::lemma_product_bound(x.x, r, p, q);
    crate::exact::lemma_product_bound(x.y, r, p, q);
    crate::exact::lemma_product_bound(x.z, r, p, q);
    let back = d.scale(wheel.radius);
    assert(back.exact().within(0x201_0000_0000_0000));
    assert(wheel.cast_request().position.translation.exact()
        == wheel.shape_cast_info.hard_point_ws.exact().minus(back.exact()));
    let half = Real::ratio(1, 2);
    assert(half.bits == 0x8000_0000) by {
        crate::scalar_lemmas::lemma_round_div_exact(0x8000_0000, 2);
    }
    crate::scalar_lemmas::lemma_mul_contracts(wheel.width, half);
    crate::scalar_lemmas::lemma_product_in_range(wheel.width.bits as int, half.bits as int);
    crate::scalar_lemmas::lemma_round_div_near(wheel.width.bits * half.bits, ONE_BITS as int);
}

proof fn lemma_split(x: int, t: int, r: int)
    ensures
        x * (t - r) == x * t - x * r,
{
    assert(x * (t - r) == x * t - x * r) by (nonlinear_arith);
}

/// What is left of a droop after a step depends on the length of the step over
/// a time constant of a fifth of a second.
pub proof fn droop_has_a_time_constant(dt: Real)
    requires
        -0x400_0000_0000_0000 <= dt.bits <= 0x400_0000_0000_0000,
    ensures
        ({
            let exponent = crate::vehicle::shape_cast::droop_exponent(dt).bits;
            let bound = ONE_BITS + crate::scalar::magnitude(exponent as int) * 5;
            -bound <= exponent * ONE_BITS + 5 * (dt.bits * ONE_BITS) <= bound
        }),
{
    let fifth = Real::ratio(1, 5);
    crate::scalar_lemmas::lemma_round_div_near(ONE_BITS as int, 5);
    let f = fifth.bits as int;
    assert(f == crate::scalar::round_div(ONE_BITS as int, 5));
    assert(-2 <= 5 * f - 0x1_0000_0000 <= 2);
    let t = -(dt.bits as int);
    let n = t * 0x1_0000_0000;
    let q = crate::scalar::round_div(n, f);
    let top: int = 0x4000_0000_0000_0000;
    crate::scalar_lemmas::lemma_round_div_exact(top, f);
    crate::scalar_lemmas::lemma_round_div_exact(-top, f);
    assert((-top) * f == -(top * f)) by (nonlinear_arith);
    assert(n <= top * f && (-top) * f <= n);
    crate::scalar_lemmas::lemma_round_div_ordered(n, top * f, f);
    crate::scalar_lemmas::lemma_round_div_ordered((-top) * f, n, f);
    crate::scalar_lemmas::lemma_div_within_half(dt.neg(), fifth);
    let x = crate::vehicle::shape_cast::droop_exponent(dt).bits as int;
    assert(x == q);
    let e = 5 * f - 0x1_0000_0000;
    crate::exact::lemma_product_bound(x, e, crate::scalar::magnitude(x), 2);
    assert(x * e == 5 * (x * f) - x * 0x1_0000_0000) by (nonlinear_arith)
        requires
            e == 5 * f - 0x1_0000_0000,
    ;
}

/// A wheel in the air feels nothing: its suspension moves with nothing, pushes
/// along its own axis without correction, and keeps where it was placed.
pub proof fn hanging_wheel_feels_nothing(wheel: Wheel, decay: Real)
    requires
        wheel.wheel_direction_ws.exact().within(i64::MAX as int),
    ensures
        ({
            let after = wheel.airborne(decay);
            let info = after.shape_cast_info;
            &&& after.suspension_relative_velocity.bits == 0
            &&& after.clipped_inv_contact_dot_suspension.bits == ONE_BITS
            &&& info.contact_normal_ws.exact() == wheel.wheel_direction_ws.exact().times(-1)
            &&& info.ground_normal_ws == info.contact_normal_ws
            &&& info.ground_object is None
            &&& !info.bottomed_out
            &&& info.bottom_out_overshoot.bits == 0
            &&& info.hard_point_ws == wheel.shape_cast_info.hard_point_ws
            &&& after.wheel_direction_ws == wheel.wheel_direction_ws
            &&& after.wheel_axle_ws == wheel.wheel_axle_ws
            &&& after.center == wheel.center
        }),
{
}

/// A suspension that finds no ground lacks of its full extension, after the
/// step, what it lacked before times the exponential of minus the step over its
/// time constant, up to half a unit.
pub proof fn hanging_wheel_droops_with_time(
    wheel: Wheel,
    hit: Option<(ColliderHandle, ShapeCastHit)>,
    world_up: Vector,
    chassis: RigidBody,
    dt: Real,
)
    requires
        !wheel.shape_cast_info.is_in_contact,
        ({
            let decay = crate::transcendental::fixed_exp(
                crate::vehicle::shape_cast::droop_exponent(dt).bits,
            );
            0 <= decay <= ONE_BITS
        }),
        i64::MIN <= wheel.suspension_rest_length.bits + wheel.max_suspension_travel.bits
            <= i64::MAX,
        i64::MIN <= wheel.suspension_rest_length.bits + wheel.max_suspension_travel.bits
            - wheel.shape_cast_info.suspension_length.bits <= i64::MAX,
        !DynamicShapeCastVehicleController::wheel_after_cast(
            wheel,
            hit,
            world_up,
            chassis,
            dt,
        ).shape_cast_info.is_in_contact,
    ensures
        ({
            let after = DynamicShapeCastVehicleController::wheel_after_cast(
                wheel,
                hit,
                world_up,
                chassis,
                dt,
            );
            let decay = crate::transcendental::fixed_exp(
                crate::vehicle::shape_cast::droop_exponent(dt).bits,
            );
            let longest = wheel.suspension_rest_length.bits + wheel.max_suspension_travel.bits;
            let lacked = longest - wheel.shape_cast_info.suspension_length.bits;
            let lacks = longest - after.shape_cast_info.suspension_length.bits;
            -ONE_BITS <= 2 * (lacks * ONE_BITS) - 2 * (lacked * decay) <= ONE_BITS
        }),
{
    let decay = Real {
        bits: crate::transcendental::fixed_exp(
            crate::vehicle::shape_cast::droop_exponent(dt).bits,
        ),
    };
    droop_leaves_its_decay(wheel, decay);
}

} // verus!
