//! What the impulses of the tires are for.
use crate::bodies::RigidBody;
use crate::math::{Point, Vector};
use crate::scalar::{Real, ONE_BITS};
use crate::vehicle::contact::WheelContactPoint;
use crate::vehicle::laws::rounding::Ranges;
use crate::vehicle::shape_cast::min_norm;
use crate::vehicle::wheel::Wheel;
use vstd::prelude::*;

verus! {

/// The body of the ground by reference, if there is one.
pub open spec fn lent<'a>(ground: Option<RigidBody>) -> Option<&'a RigidBody> {
    match ground {
        Some(b) => Some(&b),
        None => None,
    }
}

/// The velocity with which a contact slides over the ground along a direction.
pub open spec fn sliding(
    chassis: RigidBody,
    ground: Option<RigidBody>,
    contact: Point,
    direction: Vector,
) -> Real {
    direction.dot(
        chassis.velocity_at_point(contact).sub(
            match ground {
                Some(b) => b.velocity_at_point(contact),
                None => Vector::zeros(),
            },
        ),
    )
}

/// The velocity with which a contact slides over the ground once `impulse` acts
/// on the chassis there, and its opposite on the ground.
pub open spec fn sliding_after(
    chassis: RigidBody,
    ground: Option<RigidBody>,
    contact: Point,
    direction: Vector,
    impulse: Real,
) -> Real {
    direction.dot(
        chassis.struck(direction.scale(impulse), contact).velocity_at_point(contact).sub(
            match ground {
                Some(b) => b.struck(direction.scale(impulse.neg()), contact).velocity_at_point(
                    contact,
                ),
                None => Vector::zeros(),
            },
        ),
    )
}

/// Whether an impulse takes away a `count`-th of the velocity with which a
/// contact slides, and of the bias on top of it, up to rounding.
pub open spec fn takes_a_share(
    chassis: RigidBody,
    ground: Option<RigidBody>,
    contact: Point,
    direction: Vector,
    bias: Real,
    count: int,
    impulse: Real,
    ranges: Ranges,
) -> bool {
    let before = sliding(chassis, ground, contact, direction).bits as int;
    let after = sliding_after(chassis, ground, contact, direction, impulse).bits as int;
    let response = crate::vehicle::contact::impulse_response(chassis, contact, direction).add(
        match ground {
            Some(b) => crate::vehicle::contact::impulse_response(b, contact, direction),
            None => Real::zero(),
        },
    );
    let rest = count * (after - before) + before + bias.bits;
    let undone = crate::scalar::magnitude(before + bias.bits);
    let bound = response.bits * (undone + ONE_BITS + count * ONE_BITS) + 4 * ONE_BITS * (count * (
    crate::vehicle::laws::contact::sliding_error(impulse, ranges) + 9 * ONE_BITS));
    -bound <= 2 * ONE_BITS * (rest * ONE_BITS) <= bound
}

/// Whether a wheel that holds its contact along a direction does so in range.
pub open spec fn holds_in_range(
    wheel: Wheel,
    direction: Vector,
    chassis: RigidBody,
    ground: Option<RigidBody>,
    count: usize,
    impulse: Real,
    dt: Real,
    ranges: Ranges,
) -> bool {
    let contact = wheel.shape_cast_info.contact_point_ws;
    let mass = WheelContactPoint::effective_mass(chassis, lent(ground), contact, direction);
    let bias = wheel.drift_velocity(direction, dt);
    let response = crate::vehicle::contact::impulse_response(chassis, contact, direction).add(
        match ground {
            Some(b) => crate::vehicle::contact::impulse_response(b, contact, direction),
            None => Real::zero(),
        },
    );
    let whole = sliding(chassis, ground, contact, direction).add(bias).neg().mul(mass);
    &&& crate::vehicle::laws::contact::is_unit(direction)
    &&& 0 < count <= 0x4000_0000
    &&& -0x2000_0000_0000_0000 <= bias.bits <= 0x2000_0000_0000_0000
    &&& crate::vehicle::laws::contact::responds_within(
        chassis,
        contact,
        direction,
        impulse,
        ranges,
    )
    &&& crate::vehicle::laws::contact::ground_responds_within(
        lent(ground),
        contact,
        direction,
        impulse.neg(),
        ranges,
    )
    &&& 0 < response.bits < i64::MAX
    &&& mass.bits < i64::MAX
    &&& i64::MIN < whole.bits < i64::MAX
}

/// A wheel that is not driven, as long as its impulse is not limited, takes away
/// its share of the velocity with which its contact slides over the ground, and
/// of the drift that it has to undo: those of all the wheels on the ground
/// together cancel both. The velocities are those of the chassis and of the
/// ground at the contact.
pub proof fn undriven_wheel_takes_its_share(
    wheel: Wheel,
    direction: Vector,
    chassis: RigidBody,
    ground: Option<RigidBody>,
    count: usize,
    vehicle_speed: Real,
    dt: Real,
    ranges: Ranges,
)
    requires
        wheel.engine_force == Real::zero(),
        ({
            let impulse = wheel.rolling_friction(
                direction,
                chassis,
                ground,
                count,
                vehicle_speed,
                dt,
            );
            let limit = wheel.holding_impulse(vehicle_speed, dt).bits;
            &&& -limit < impulse.bits < limit
            &&& holds_in_range(
                wheel,
                direction,
                chassis,
                ground,
                count,
                impulse,
                dt,
                ranges,
            )
        }),
    ensures
        takes_a_share(
            chassis,
            ground,
            wheel.shape_cast_info.contact_point_ws,
            direction,
            wheel.drift_velocity(direction, dt),
            count as int,
            wheel.rolling_friction(direction, chassis, ground, count, vehicle_speed, dt),
            ranges,
        ),
{
    let impulse = wheel.rolling_friction(direction, chassis, ground, count, vehicle_speed, dt);
    let contact = wheel.shape_cast_info.contact_point_ws;
    let bias = wheel.drift_velocity(direction, dt);
    let mass = WheelContactPoint::effective_mass(chassis, lent(ground), contact, direction);
    let whole = sliding(chassis, ground, contact, direction).add(bias).neg().mul(mass);
    assert(impulse == whole.div(Real::from_count(count)));
    crate::vehicle::laws::contact::rolling_friction_cancels_sliding(
        chassis,
        lent(ground),
        contact,
        direction,
        bias,
        count,
        impulse,
        ranges,
    );
}

/// A driven wheel is pushed by the force of its engine over the step, up to
/// rounding, whatever the chassis does.
pub proof fn driven_wheel_is_pushed_by_its_engine(
    wheel: Wheel,
    direction: Vector,
    chassis: RigidBody,
    ground: Option<RigidBody>,
    count: usize,
    vehicle_speed: Real,
    dt: Real,
)
    requires
        wheel.engine_force != Real::zero(),
        -crate::exact::product_limit() <= wheel.engine_force.bits * dt.bits
            <= crate::exact::product_limit(),
    ensures
        ({
            let impulse = wheel.rolling_friction(
                direction,
                chassis,
                ground,
                count,
                vehicle_speed,
                dt,
            ).bits;
            -ONE_BITS <= impulse * ONE_BITS - wheel.engine_force.bits * dt.bits <= ONE_BITS
        }),
{
    crate::exact::lemma_mul_near(wheel.engine_force, dt);
}

/// A stuck contact is driven back by a fifth of its drift per step: the velocity
/// on top of its sliding, times the step, is a fifth of how far it drifted from
/// its anchor along the direction, up to rounding.
pub proof fn drift_is_undone_by_a_fifth(wheel: Wheel, anchor: Vector, direction: Vector, dt: Real)
    requires
        wheel.static_friction_anchor == Some(anchor),
        dt.bits != 0,
        direction.exact().within(ONE_BITS as int),
        wheel.shape_cast_info.contact_point_ws.exact().minus(anchor.exact()).within(
            0x1000_0000_0000_0000,
        ),
        i64::MIN < wheel.drift_velocity(direction, dt).bits < i64::MAX,
    ensures
        ({
            let slid = wheel.shape_cast_info.contact_point_ws.exact().minus(anchor.exact()).dot(
                direction.exact(),
            );
            let error = 5 * (wheel.drift_velocity(direction, dt).bits * dt.bits) - slid;
            let bound = 3 * crate::scalar::magnitude(dt.bits as int) + 2 * (
            crate::scalar::magnitude(slid) / (ONE_BITS as int)) + 8 * ONE_BITS;
            -bound <= error <= bound
        }),
{
    let gap = wheel.shape_cast_info.contact_point_ws.sub(anchor);
    assert(gap.exact() == wheel.shape_cast_info.contact_point_ws.exact().minus(anchor.exact()));
    crate::exact::lemma_dot_near(gap, direction, 0x1000_0000_0000_0000, 0x1_0000_0000);
    let exact = gap.exact().dot(direction.exact());
    let slid = gap.dot(direction);
    let share = crate::vehicle::friction::static_friction_erp();
    crate::scalar_lemmas::lemma_round_div_near(ONE_BITS as int, 5);
    let f = share.bits as int;
    assert(f == crate::scalar::round_div(ONE_BITS as int, 5));
    let e = 5 * f - 0x1_0000_0000;
    assert(-2 <= e <= 2);
    crate::exact::lemma_dot_bound(
        gap.exact(),
        direction.exact(),
        0x1000_0000_0000_0000,
        0x1_0000_0000,
    );
    crate::scalar_lemmas::lemma_mul_contracts(slid, share);
    crate::scalar_lemmas::lemma_mul_within_half(slid, share);
    let part = slid.mul(share);
    crate::scalar_lemmas::lemma_div_within_half(part, dt);
    let (s, p) = (slid.bits as int, part.bits as int);
    let m = crate::scalar::magnitude(s);
    crate::exact::lemma_product_bound(s, e, m, 2);
    assert(s * e == 5 * (s * f) - s * 0x1_0000_0000) by (nonlinear_arith)
        requires
            e == 5 * f - 0x1_0000_0000,
    ;
    let v = wheel.drift_velocity(direction, dt).bits * dt.bits;
    let size = crate::scalar::magnitude(exact);
    assert(m * 0x1_0000_0000 <= size + 3 * 0x1_0000_0000);
    assert(m <= size / 0x1_0000_0000 + 4);
}

/// What damps a velocity takes a fifth of it away from the share of the impulse:
/// five times the impulse times the resistance of the bodies is the opposite of
/// the velocity, up to rounding.
proof fn lemma_fifth(velocity: Real, jac: Real)
    requires
        0 < jac.bits,
        -i64::MAX < velocity.bits < i64::MAX,
        jac.inv().bits < i64::MAX,
        i64::MIN < crate::vehicle::contact::negated_contact_damping().mul(velocity).mul(
            jac.inv(),
        ).bits < i64::MAX,
    ensures
        is_fifth_of(
            crate::vehicle::contact::negated_contact_damping().mul(velocity).mul(jac.inv()),
            velocity,
            jac,
        ),
{
    let damping = crate::vehicle::contact::negated_contact_damping();
    crate::scalar_lemmas::lemma_round_div_near(2 * ONE_BITS, 10);
    let k = damping.bits as int;
    assert(-2 <= 5 * k + 0x1_0000_0000 <= 2) by {
        let q = crate::scalar::round_div(2 * ONE_BITS, 10);
        assert(2 * q * 10 <= 4 * 0x1_0000_0000 + 10);
        assert(2 * q * 10 >= 4 * 0x1_0000_0000 - 10);
        assert(k == -q);
    }
    let (v, j) = (velocity.bits as int, jac.bits as int);
    let damped = damping.mul(velocity);
    assert(damping.bits * velocity.bits == velocity.bits * damping.bits) by (nonlinear_arith);
    assert(damped == velocity.mul(damping));
    let against = damping.neg();
    assert(against.neg() == damping);
    crate::scalar_lemmas::lemma_mul_contracts(velocity, against);
    crate::scalar_lemmas::lemma_mul_opposite(velocity, against);
    assert(damped == velocity.mul(against).neg());
    crate::scalar_lemmas::lemma_mul_within_half(damping, velocity);
    let y = damped.bits as int;
    let m = crate::scalar::magnitude(v);
    assert(-m <= y <= m);
    let inv = jac.inv();
    crate::scalar_lemmas::lemma_div_sign(Real::one(), jac);
    crate::scalar_lemmas::lemma_div_within_half(Real::one(), jac);
    crate::scalar_lemmas::lemma_mul_within_half(damped, inv);
    let (i, l) = (inv.bits as int, damped.mul(inv).bits as int);
    let e = 5 * k + 0x1_0000_0000;
    let e1 = 2 * (y * 0x1_0000_0000) - 2 * (k * v);
    let e2 = 2 * (i * j) - 2 * 0x1_0000_0000_0000_0000;
    let e3 = 2 * (l * 0x1_0000_0000) - 2 * (y * i);
    crate::exact::lemma_product_bound(v, e, m, 2);
    crate::exact::lemma_product_bound(y, e2, m, j);
    crate::exact::lemma_product_bound(e3, j, 0x1_0000_0000, j);
    assert(v * e == 5 * (k * v) + v * 0x1_0000_0000) by (nonlinear_arith)
        requires
            e == 5 * k + 0x1_0000_0000,
    ;
    assert(y * e2 == 2 * ((y * i) * j) - 2 * (y * 0x1_0000_0000_0000_0000)) by (nonlinear_arith)
        requires
            e2 == 2 * (i * j) - 2 * 0x1_0000_0000_0000_0000,
    ;
    assert(e3 * j == 2 * ((l * j) * 0x1_0000_0000) - 2 * ((y * i) * j)) by (nonlinear_arith)
        requires
            e3 == 2 * (l * 0x1_0000_0000) - 2 * (y * i),
    ;
    assert(j * (m + 0x1_0000_0000) == m * j + 0x1_0000_0000 * j) by (nonlinear_arith);
}

/// Whether an impulse, times the velocity that it gives per unit, is the
/// opposite of a fifth of a velocity, up to rounding.
pub open spec fn is_fifth_of(impulse: Real, velocity: Real, resistance: Real) -> bool {
    let size = crate::scalar::magnitude(velocity.bits as int);
    let error = 5 * ((impulse.bits * resistance.bits) * 0x1_0000_0000) + velocity.bits
        * 0x1_0000_0000_0000_0000;
    let bound = 5 * (resistance.bits * (size + ONE_BITS)) + (2 * size + 3 * ONE_BITS) * ONE_BITS;
    -bound <= error <= bound
}

/// The angular velocity that a unit impulse along a normal at a point gives.
pub open spec fn spin_of_unit_impulse(body: RigidBody, pt: Point, normal: Vector) -> Vector {
    body.effective_world_inv_inertia.transform(pt.sub(body.center_of_mass()).cross(normal))
}

/// The impulse of a body against something that does not move takes a fifth of
/// its velocity at the point along the normal, bias included, where a unit
/// impulse counts its inverse mass and the square of the angular velocity that
/// it gives.
pub proof fn unilateral_impulse_takes_a_fifth(
    body: RigidBody,
    pt: Point,
    normal: Vector,
    bias: Real,
)
    requires
        ({
            let spin = spin_of_unit_impulse(body, pt, normal);
            let resistance = body.inv_mass.add(spin.dot(spin));
            let velocity = normal.dot(body.velocity_at_point(pt)).add(bias);
            let impulse = crate::vehicle::contact::unilateral_impulse(body, pt, normal, bias);
            &&& 0 < resistance.bits
            &&& resistance.inv().bits < i64::MAX
            &&& -i64::MAX < velocity.bits < i64::MAX
            &&& i64::MIN < impulse.bits < i64::MAX
        }),
    ensures
        ({
            let spin = spin_of_unit_impulse(body, pt, normal);
            is_fifth_of(
                crate::vehicle::contact::unilateral_impulse(body, pt, normal, bias),
                normal.dot(body.velocity_at_point(pt)).add(bias),
                body.inv_mass.add(spin.dot(spin)),
            )
        }),
{
    let spin = spin_of_unit_impulse(body, pt, normal);
    lemma_fifth(
        normal.dot(body.velocity_at_point(pt)).add(bias),
        body.inv_mass.add(spin.dot(spin)),
    );
}

/// The impulse between two bodies takes a fifth of their relative velocity along
/// the normal, each at its own point, bias included, where a unit impulse counts
/// both inverse masses and the squares of the angular velocities that it and
/// its opposite give.
pub proof fn bilateral_impulse_takes_a_fifth(
    body1: RigidBody,
    pt1: Point,
    body2: RigidBody,
    pt2: Point,
    normal: Vector,
    bias: Real,
)
    requires
        ({
            let spin1 = spin_of_unit_impulse(body1, pt1, normal);
            let spin2 = spin_of_unit_impulse(body2, pt2, normal.neg());
            let resistance = body1.inv_mass.add(body2.inv_mass).add(spin1.dot(spin1)).add(
                spin2.dot(spin2),
            );
            let velocity = normal.dot(
                body1.velocity_at_point(pt1).sub(body2.velocity_at_point(pt2)),
            ).add(bias);
            let impulse = crate::vehicle::contact::bilateral_impulse(
                body1,
                pt1,
                body2,
                pt2,
                normal,
                bias,
            );
            &&& 0 < resistance.bits
            &&& resistance.inv().bits < i64::MAX
            &&& -i64::MAX < velocity.bits < i64::MAX
            &&& i64::MIN < impulse.bits < i64::MAX
        }),
    ensures
        ({
            let spin1 = spin_of_unit_impulse(body1, pt1, normal);
            let spin2 = spin_of_unit_impulse(body2, pt2, normal.neg());
            is_fifth_of(
                crate::vehicle::contact::bilateral_impulse(body1, pt1, body2, pt2, normal, bias),
                normal.dot(
                    body1.velocity_at_point(pt1).sub(body2.velocity_at_point(pt2)),
                ).add(bias),
                body1.inv_mass.add(body2.inv_mass).add(spin1.dot(spin1)).add(spin2.dot(spin2)),
            )
        }),
{
    let spin1 = spin_of_unit_impulse(body1, pt1, normal);
    let spin2 = spin_of_unit_impulse(body2, pt2, normal.neg());
    lemma_fifth(
        normal.dot(body1.velocity_at_point(pt1).sub(body2.velocity_at_point(pt2))).add(bias),
        body1.inv_mass.add(body2.inv_mass).add(spin1.dot(spin1)).add(spin2.dot(spin2)),
    );
}

/// The grip of a tire over a step is the force of its suspension times the step
/// and its friction slip, up to rounding.
pub proof fn grip_is_of_the_load(wheel: Wheel, dt: Real)
    requires
        -crate::exact::product_limit() <= wheel.wheel_suspension_force.bits * dt.bits
            <= crate::exact::product_limit(),
        i64::MIN < wheel.grip(dt).bits < i64::MAX,
    ensures
        ({
            let exact = (wheel.wheel_suspension_force.bits * dt.bits) * wheel.friction_slip.bits;
            let bound = (crate::scalar::magnitude(wheel.friction_slip.bits as int) + ONE_BITS)
                * ONE_BITS;
            -bound <= wheel.grip(dt).bits * 0x1_0000_0000_0000_0000 - exact <= bound
        }),
{
    crate::exact::lemma_mul_near(wheel.wheel_suspension_force, dt);
    let load = wheel.wheel_suspension_force.mul(dt);
    crate::scalar_lemmas::lemma_mul_within_half(load, wheel.friction_slip);
    let (p, s) = (load.bits as int, wheel.friction_slip.bits as int);
    let x = wheel.wheel_suspension_force.bits * dt.bits;
    let e = p * 0x1_0000_0000 - x;
    let m = crate::scalar::magnitude(s);
    crate::exact::lemma_product_bound(e, s, 0x1_0000_0000, m);
    assert(e * s == (p * s) * 0x1_0000_0000 - x * s) by (nonlinear_arith)
        requires
            e == p * 0x1_0000_0000 - x,
    ;
}

/// A wheel holds its contact with its brake or, when the vehicle nearly stands,
/// with its grip if that is larger.
pub proof fn wheel_holds_with_its_brake_or_grip(wheel: Wheel, vehicle_speed: Real, dt: Real)
    ensures
        ({
            let limit = wheel.holding_impulse(vehicle_speed, dt).bits;
            let stands = 2 * vehicle_speed.bits < ONE_BITS;
            &&& stands ==> limit >= wheel.grip(dt).bits
            &&& !stands ==> limit >= 0
            &&& limit >= wheel.brake.bits
            &&& limit == wheel.brake.bits || (stands && limit == wheel.grip(dt).bits) || (!stands
                && limit == 0)
        }),
{
    assert(Real::ratio(1, 2).bits == 0x8000_0000) by {
        crate::scalar_lemmas::lemma_round_div_exact(0x8000_0000, 2);
    }
}

/// A contact is anchored exactly when the wheel has ground that no impulse moves
/// and is not driven, while the vehicle nearly stands: where it was anchored, or
/// where it is if it was not or slipped by more than a twentieth.
pub proof fn contact_sticks_where_it_was(
    wheel: Wheel,
    ground: Option<RigidBody>,
    vehicle_speed: Real,
)
    ensures
        ({
            let after = wheel.latched(ground, vehicle_speed).static_friction_anchor;
            let contact = wheel.shape_cast_info.contact_point_ws;
            let sticks = wheel.shape_cast_info.ground_object is Some && wheel.engine_force.bits == 0
                && 2 * vehicle_speed.bits < ONE_BITS && !(ground matches Some(b) && b.dynamic);
            &&& after is Some <==> sticks
            &&& sticks ==> match wheel.static_friction_anchor {
                None => after == Some(contact),
                Some(anchor) => if 20 * contact.sub(anchor).norm().bits > ONE_BITS + 20 {
                    after == Some(contact)
                } else {
                    20 * contact.sub(anchor).norm().bits < ONE_BITS - 20 ==> after == Some(anchor)
                },
            }
        }),
{
    assert(Real::ratio(1, 2).bits == 0x8000_0000) by {
        crate::scalar_lemmas::lemma_round_div_exact(0x8000_0000, 2);
    }
    crate::scalar_lemmas::lemma_round_div_near(ONE_BITS as int, 20);
    assert(crate::vehicle::friction::max_static_friction_slip().bits
        == crate::scalar::round_div(ONE_BITS as int, 20));
}

/// A stuck tire that spends all that it holds with breaks loose and grips anew
/// where its contact is; any other keeps its anchor.
pub proof fn spent_tire_grips_anew(
    wheel: Wheel,
    forward: Vector,
    chassis: RigidBody,
    ground: Option<RigidBody>,
    count: usize,
    vehicle_speed: Real,
    dt: Real,
)
    requires
        wheel.shape_cast_info.ground_object is Some,
        wheel.static_friction_anchor is Some,
        wheel.engine_force.bits == 0,
    ensures
        ({
            let after = wheel.rolled(forward, chassis, ground, count, vehicle_speed, dt);
            let limit = wheel.holding_impulse(vehicle_speed, dt).bits;
            let spent = crate::scalar::magnitude(after.forward_impulse.bits as int) >= limit;
            after.forward_impulse.bits > i64::MIN ==> after.static_friction_anchor == if spent {
                Some(wheel.shape_cast_info.contact_point_ws)
            } else {
                wheel.static_friction_anchor
            }
        }),
{
}

/// A vector divided by its length is one long and points the same way, up to
/// rounding: times the length it is the vector, and the square of its own length
/// is one up to a share that shrinks with the length.
pub proof fn normalized_vector_has_length_one(v: Vector)
    requires
        v.norm().bits > 0,
        v.norm().bits < i64::MAX,
    ensures
        ({
            let u = v.unscale(v.norm()).exact();
            let l = v.norm().bits as int;
            let bound = (2 * l + 1) * (ONE_BITS * ONE_BITS) + 6 * ((l * (l + 1)) * ONE_BITS) + 3
                * (l * l);
            &&& u.times(l).minus(v.exact().times(ONE_BITS as int)).within(l)
            &&& -bound <= (u.dot(u) - ONE_BITS * ONE_BITS) * (l * l) <= bound
        }),
{
    let len = v.norm();
    let l = len.bits as int;
    crate::vehicle::shape_cast::lemma_normalized_bounded(v);
    let (u, x) = (v.unscale(len).exact(), v.exact());
    crate::vehicle::laws::friction::lemma_quotient_near(v.x, len);
    crate::vehicle::laws::friction::lemma_quotient_near(v.y, len);
    crate::vehicle::laws::friction::lemma_quotient_near(v.z, len);
    let g = u.times(l).minus(x.times(0x1_0000_0000));
    let y = x.times(0x1_0000_0000);
    let z = u.times(l);
    assert(z == y.plus(g));
    let sum = v.squared_units() as int;
    assert(x.x * x.x >= 0) by (nonlinear_arith);
    assert(x.y * x.y >= 0) by (nonlinear_arith);
    assert(x.z * x.z >= 0) by (nonlinear_arith);
    assert(sum == x.dot(x));
    crate::scalar::lemma_floor_sqrt_exists(v.squared_units());
    assert(l * l <= sum < (l + 1) * (l + 1));
    lemma_side(x.x, l, sum);
    lemma_side(x.y, l, sum);
    lemma_side(x.z, l, sum);
    crate::exact::lemma_dot_linear(z, y, g, 0);
    crate::exact::lemma_dot_linear(z, z, z, 0);
    crate::exact::lemma_dot_linear(y, y, g, 0);
    crate::exact::lemma_dot_linear(g, y, g, 0);
    crate::exact::lemma_dot_linear(y, z, z, 0);
    crate::exact::lemma_dot_linear(g, z, z, 0);
    crate::exact::lemma_dot_linear(y, x, x, 0x1_0000_0000);
    crate::exact::lemma_dot_linear(x, x, x, 0x1_0000_0000);
    crate::exact::lemma_dot_linear(g, x, x, 0x1_0000_0000);
    crate::exact::lemma_dot_linear(y, g, g, 0);
    crate::exact::lemma_dot_linear(y, x, x, 0);
    crate::exact::lemma_dot_linear(g, x, x, 0);
    crate::exact::lemma_dot_bound(x, g, l + 1, l);
    crate::exact::lemma_dot_bound(g, g, l, l);
    crate::exact::lemma_dot_linear(z, u, u, l);
    crate::exact::lemma_dot_linear(u, u, u, l);
    crate::exact::lemma_dot_linear(z, u, u, 0);
    let uu = u.dot(u);
    assert((uu * l) * l == uu * (l * l)) by (nonlinear_arith);
    assert((uu - 0x1_0000_0000_0000_0000) * (l * l) == uu * (l * l) - 0x1_0000_0000_0000_0000 * (l
        * l)) by (nonlinear_arith);
    assert((l + 1) * (l + 1) == l * l + 2 * l + 1) by (nonlinear_arith);
    assert((l + 1) * l == l * (l + 1)) by (nonlinear_arith);
    let xg = x.dot(g);
    assert(z.dot(z) == sum * 0x1_0000_0000_0000_0000 + 2 * (xg * 0x1_0000_0000) + g.dot(g));
    assert(z.dot(z) == uu * (l * l));
    assert(ONE_BITS * ONE_BITS == 0x1_0000_0000_0000_0000);
    assert((2 * l + 1) * (ONE_BITS * ONE_BITS) == (2 * l + 1) * 0x1_0000_0000_0000_0000);
    assert((uu - ONE_BITS * ONE_BITS) * (l * l) == (uu - 0x1_0000_0000_0000_0000) * (l * l));
}

proof fn lemma_side(x: int, l: int, sum: int)
    requires
        x * x <= sum,
        sum < (l + 1) * (l + 1),
        l >= 0,
    ensures
        -(l + 1) <= x <= l + 1,
{
    assert(-(l + 1) <= x <= l + 1) by (nonlinear_arith)
        requires
            x * x <= sum,
            sum < (l + 1) * (l + 1),
            l >= 0,
    ;
}

/// The direction across a wheel is the part of its axle on the ground, and the
/// one in which it rolls the ground's normal crossed with that, each divided by
/// its length, up to rounding: the three turn counterclockwise.
pub proof fn wheel_directions_follow_its_axle(wheel: Wheel, b: int)
    requires
        wheel.shape_cast_info.ground_normal_ws.exact().within(ONE_BITS as int),
        0 <= b <= 0x10_0000 * ONE_BITS,
        wheel.wheel_axle_ws.exact().within(b),
    ensures
        ({
            let normal = wheel.shape_cast_info.ground_normal_ws;
            let (n, a) = (normal.exact(), wheel.wheel_axle_ws.exact());
            let along = wheel.wheel_axle_ws.sub(normal.scale(wheel.wheel_axle_ws.dot(normal)));
            let across = normal.cross(wheel.side_direction());
            let (l, k) = (along.norm().bits as int, across.norm().bits as int);
            let part = a.times(0x1_0000_0000_0000_0000).minus(n.times(a.dot(n)));
            &&& min_norm().lt(along.norm()) ==> wheel.side_direction().exact().times(l).times(
                0x1_0000_0000,
            ).minus(part).within(4 * (ONE_BITS * ONE_BITS) + l * ONE_BITS)
            &&& min_norm().lt(across.norm()) ==> wheel.forward_direction().exact().times(k).minus(
                n.cross(wheel.side_direction().exact()),
            ).within(2 * ONE_BITS + k)
        }),
{
    let normal = wheel.shape_cast_info.ground_normal_ws;
    let axle = wheel.wheel_axle_ws;
    let (n, a) = (normal.exact(), axle.exact());
    let tilt = axle.dot(normal);
    let d = tilt.bits as int;
    assert(min_norm().bits > 0) by {
        crate::scalar_lemmas::lemma_round_div_exact(1, 100_000);
        crate::scalar_lemmas::lemma_round_div_ordered(100_000, ONE_BITS as int, 100_000);
    }
    crate::exact::lemma_dot_near(axle, normal, b, 0x1_0000_0000);
    crate::exact::lemma_dot_bound(a, n, b, 0x1_0000_0000);
    let an = a.dot(n);
    let e = d * 0x1_0000_0000 - an;
    assert(-(3 * b + 3) <= d <= 3 * b + 3);
    let shadow = normal.scale(tilt);
    crate::exact::lemma_scale_near(normal, tilt, 0x1_0000_0000, 3 * b + 3);
    crate::exact::lemma_product_bound(n.x, d, 0x1_0000_0000, 3 * b + 3);
    crate::exact::lemma_product_bound(n.y, d, 0x1_0000_0000, 3 * b + 3);
    crate::exact::lemma_product_bound(n.z, d, 0x1_0000_0000, 3 * b + 3);
    assert(shadow.exact().within(3 * b + 4));
    let along = axle.sub(shadow);
    assert(along.exact() == a.minus(shadow.exact()));
    lemma_shadow_term(n.x, d, an, shadow.x.bits as int);
    lemma_shadow_term(n.y, d, an, shadow.y.bits as int);
    lemma_shadow_term(n.z, d, an, shadow.z.bits as int);
    let l = along.norm();
    let side = wheel.side_direction();
    if min_norm().lt(l) {
        crate::vehicle::shape_cast::lemma_normalized_bounded(along);
        crate::vehicle::laws::friction::lemma_quotient_near(along.x, l);
        crate::vehicle::laws::friction::lemma_quotient_near(along.y, l);
        crate::vehicle::laws::friction::lemma_quotient_near(along.z, l);
        assert(side == along.unscale(l));
    }
    assert(side.exact().within(0x2_0000_0000));
    let across = normal.cross(side);
    crate::exact::lemma_cross_near(normal, side, 0x1_0000_0000, 0x2_0000_0000);
    let k = across.norm();
    if min_norm().lt(k) {
        crate::vehicle::shape_cast::lemma_normalized_bounded(across);
        crate::vehicle::laws::friction::lemma_quotient_near(across.x, k);
        crate::vehicle::laws::friction::lemma_quotient_near(across.y, k);
        crate::vehicle::laws::friction::lemma_quotient_near(across.z, k);
        assert(wheel.forward_direction() == across.unscale(k));
    }
}

proof fn lemma_shadow_term(n: int, d: int, an: int, shadow: int)
    requires
        -0x1_0000_0000 <= n <= 0x1_0000_0000,
        -3 * 0x1_0000_0000 <= d * 0x1_0000_0000 - an <= 3 * 0x1_0000_0000,
        -0x1_0000_0000 <= shadow * 0x1_0000_0000 - n * d <= 0x1_0000_0000,
    ensures
        -4 * 0x1_0000_0000_0000_0000 <= shadow * 0x1_0000_0000_0000_0000 - n * an <= 4
            * 0x1_0000_0000_0000_0000,
{
    let e = d * 0x1_0000_0000 - an;
    crate::exact::lemma_product_bound(n, e, 0x1_0000_0000, 0x3_0000_0000);
    assert(n * e == (n * d) * 0x1_0000_0000 - n * an) by (nonlinear_arith)
        requires
            e == d * 0x1_0000_0000 - an,
    ;
}

} // verus!
