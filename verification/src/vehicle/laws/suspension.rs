//! What the suspensions promise.
use crate::scalar::{Real, ONE_BITS};
use crate::vehicle::controller::DynamicShapeCastVehicleController;
use crate::vehicle::wheel::Wheel;
use vstd::prelude::*;

verus! {

/// A suspension only pushes, and pushes nothing in the air.
pub proof fn suspension_only_pushes(wheel: Wheel, dampers: Real, chassis_mass: Real, dt: Real)
    ensures
        Real::zero().le(wheel.suspension_force(dampers, chassis_mass, dt)),
        !wheel.shape_cast_info.is_in_contact ==> wheel.suspension_force(dampers, chassis_mass, dt)
            == Real::zero(),
{
}

/// At rest the dampers do nothing: the force is that of the spring alone,
/// whatever the damping, the number of wheels and the time step.
pub proof fn dampers_leave_rest_untouched(
    wheel: Wheel,
    dampers: Real,
    chassis_mass: Real,
    dt: Real,
)
    requires
        wheel.shape_cast_info.is_in_contact,
        wheel.suspension_relative_velocity == Real::zero(),
    ensures
        wheel.suspension_force(dampers, chassis_mass, dt) == wheel.spring_push().mul(
            chassis_mass,
        ).max(Real::zero()),
{
    crate::scalar_lemmas::lemma_mul_zero(wheel.damping());
    crate::scalar_lemmas::lemma_mul_zero(wheel.implicit_factor(dampers, dt));
}

/// The implicit factor lies between zero and one when neither time nor damping
/// is negative.
pub proof fn implicit_factor_is_a_share(wheel: Wheel, dampers: Real, dt: Real)
    requires
        Real::zero().le(dt),
        Real::zero().le(wheel.damping()),
        Real::zero().le(dampers),
    ensures
        Real::zero().le(wheel.implicit_factor(dampers, dt)),
        wheel.implicit_factor(dampers, dt).le(Real::one()),
        Real::zero().le(wheel.damper_gain(dampers, dt)),
{
    crate::scalar_lemmas::lemma_mul_not_negative(dt, wheel.damping());
    crate::scalar_lemmas::lemma_mul_not_negative(dt.mul(wheel.damping()), dampers);
    let d = Real::one().add(wheel.damper_gain(dampers, dt)).bits as int;
    assert(d >= ONE_BITS);
    let n = ONE_BITS * ONE_BITS;
    assert(0 * d <= n <= ONE_BITS * d) by (nonlinear_arith)
        requires
            n == ONE_BITS * ONE_BITS,
            d >= ONE_BITS,
            ONE_BITS == 0x1_0000_0000,
    ;
    crate::scalar_lemmas::lemma_round_div_exact(0, d);
    crate::scalar_lemmas::lemma_round_div_exact(ONE_BITS as int, d);
    crate::scalar_lemmas::lemma_round_div_ordered(0 * d, n, d);
    crate::scalar_lemmas::lemma_round_div_ordered(n, ONE_BITS * d, d);
}

/// The damper is stable for any damping and any number of wheels: the share of
/// the velocity that all the dampers take away in a step, the gain times the
/// implicit factor, is one at most, up to the rounding of that factor by half
/// a unit, as long as the gain is in range.
pub proof fn dampers_never_overshoot(wheel: Wheel, dampers: Real, dt: Real)
    requires
        Real::zero().le(dt),
        Real::zero().le(wheel.damping()),
        Real::zero().le(dampers),
        wheel.damper_gain(dampers, dt).bits <= i64::MAX - ONE_BITS,
    ensures
        2 * wheel.damper_gain(dampers, dt).bits * wheel.implicit_factor(dampers, dt).bits <= 2
            * ONE_BITS * ONE_BITS + wheel.damper_gain(dampers, dt).bits,
{
    implicit_factor_is_a_share(wheel, dampers, dt);
    let k = wheel.damper_gain(dampers, dt).bits as int;
    let q = wheel.implicit_factor(dampers, dt).bits as int;
    let one = ONE_BITS as int;
    let d = one + k;
    crate::scalar_lemmas::lemma_round_div_near(one * one, d);
    assert(q == crate::scalar::round_div(one * one, d));
    assert(2 * k * q <= 2 * one * one + k) by (nonlinear_arith)
        requires
            2 * q * d <= 2 * (one * one) + d,
            d == one + k,
            k >= 0,
            one == 0x1_0000_0000,
            0 <= q <= one,
    ;
}

/// A damper never takes away more than it would at once, and never changes
/// sides.
pub proof fn damper_is_reduced(wheel: Wheel, dampers: Real, dt: Real)
    requires
        Real::zero().le(dt),
        Real::zero().le(wheel.damping()),
        Real::zero().le(dampers),
    ensures
        ({
            let at_once = wheel.damping().mul(wheel.suspension_relative_velocity).bits;
            let pull = wheel.damper_pull(dampers, dt).bits;
            &&& at_once >= 0 ==> 0 <= pull <= at_once
            &&& at_once <= 0 ==> at_once <= pull <= 0
        }),
{
    implicit_factor_is_a_share(wheel, dampers, dt);
    crate::scalar_lemmas::lemma_mul_contracts(
        wheel.damping().mul(wheel.suspension_relative_velocity),
        wheel.implicit_factor(dampers, dt),
    );
}

/// The damping that acts on a suspension: one while it is being compressed,
/// another while it is released.
pub open spec fn acting_damping(wheel: Wheel) -> int {
    if wheel.suspension_relative_velocity.bits < 0 {
        wheel.damping_compression.bits as int
    } else {
        wheel.damping_relaxation.bits as int
    }
}

/// How far a suspension is compressed from its resting length, in units.
pub open spec fn compression(wheel: Wheel) -> int {
    wheel.suspension_rest_length.bits - wheel.shape_cast_info.suspension_length.bits
}

/// Whether what a suspension computes with is in range, with `contacts` wheels
/// in contact.
pub open spec fn is_sprung_in_range(wheel: Wheel, contacts: int, dt: Real) -> bool {
    let limit = crate::exact::product_limit();
    let spring = wheel.suspension_stiffness.bits * compression(wheel);
    let sloped = spring * wheel.clipped_inv_contact_dot_suspension.bits;
    let velocity = acting_damping(wheel) * wheel.suspension_relative_velocity.bits;
    &&& i64::MIN <= compression(wheel) <= i64::MAX
    &&& -limit <= spring <= limit
    &&& -(limit * 0x8000_0000) <= sloped <= limit * 0x8000_0000
    &&& -limit <= velocity <= limit
    &&& 0 <= dt.bits
    &&& 0 <= acting_damping(wheel)
    &&& 1 <= contacts <= 0x4000_0000
    &&& 2 * ((dt.bits * acting_damping(wheel)) * contacts) <= limit
}

/// One plus the damping over the step of all the wheels in contact, in squared
/// units.
pub open spec fn folded_damping(wheel: Wheel, contacts: int, dt: Real) -> int {
    0x1_0000_0000_0000_0000 + (dt.bits * acting_damping(wheel)) * contacts
}

/// Whether `push` is the acceleration of a spring, in units: its stiffness times
/// its compression and the slope correction, up to rounding.
pub open spec fn is_spring_of(push: int, wheel: Wheel) -> bool {
    let slope = wheel.clipped_inv_contact_dot_suspension.bits as int;
    let exact = (wheel.suspension_stiffness.bits * compression(wheel)) * slope;
    let bound = 0x1_0000_0000_0000_0000 + crate::scalar::magnitude(slope) * 0x1_0000_0000;
    -bound <= push * 0x1_0000_0000_0000_0000 - exact <= bound
}

/// Whether `pull` is the acceleration of a damper, in units: its damping times
/// the velocity of the suspension, divided by one plus the damping over the
/// step of all the wheels in contact, up to rounding.
pub open spec fn is_damper_of(pull: int, wheel: Wheel, contacts: int, dt: Real) -> bool {
    let folded = folded_damping(wheel, contacts, dt);
    let velocity = acting_damping(wheel) * wheel.suspension_relative_velocity.bits;
    let size = crate::scalar::magnitude(velocity) + 0x1_0000_0000;
    let error = pull * folded - velocity * 0x1_0000_0000;
    let bound = 0x1_0000_0000_0000_0000_0000_0000_0000_0000int + (size + 0x1_0000_0000_0000_0000)
        * (folded + contacts * 0x1_0000_0000) + size * (contacts * 0x1_0000_0000_0000_0000);
    -bound <= error * 0x1_0000_0000_0000_0000 <= bound
}

proof fn lemma_spring(wheel: Wheel)
    requires
        i64::MIN <= compression(wheel) <= i64::MAX,
        ({
            let limit = crate::exact::product_limit();
            let spring = wheel.suspension_stiffness.bits * compression(wheel);
            let sloped = spring * wheel.clipped_inv_contact_dot_suspension.bits;
            &&& -limit <= spring <= limit
            &&& -(limit * 0x8000_0000) <= sloped <= limit * 0x8000_0000
        }),
    ensures
        is_spring_of(wheel.spring_push().bits as int, wheel),
        -0x2000_0000_0000_0001 <= wheel.spring_push().bits <= 0x2000_0000_0000_0001,
{
    let gap = wheel.suspension_rest_length.sub(wheel.shape_cast_info.suspension_length);
    assert(gap.bits == compression(wheel));
    crate::exact::lemma_mul_near(wheel.suspension_stiffness, gap);
    let p = wheel.suspension_stiffness.mul(gap);
    let (x, i) = (p.bits as int, wheel.clipped_inv_contact_dot_suspension.bits as int);
    let kd = wheel.suspension_stiffness.bits * compression(wheel);
    let e = x * 0x1_0000_0000 - kd;
    let m = crate::scalar::magnitude(i);
    crate::exact::lemma_product_bound(e, i, 0x1_0000_0000, m);
    assert(e * i == (x * i) * 0x1_0000_0000 - kd * i) by (nonlinear_arith)
        requires
            e == x * 0x1_0000_0000 - kd,
    ;
    crate::exact::lemma_mul_near(p, wheel.clipped_inv_contact_dot_suspension);
}

#[verifier::rlimit(30)]
proof fn lemma_damper(wheel: Wheel, contacts: usize, dt: Real)
    requires
        is_sprung_in_range(wheel, contacts as int, dt),
    ensures
        is_damper_of(
            wheel.damper_pull(Real::from_count(contacts), dt).bits as int,
            wheel,
            contacts as int,
            dt,
        ),
        -0x2000_0000_0000_0001 <= wheel.damper_pull(Real::from_count(contacts), dt).bits
            <= 0x2000_0000_0000_0001,
{
    let damping = wheel.damping();
    let velocity = wheel.suspension_relative_velocity;
    let dampers = Real::from_count(contacts);
    let n = contacts as int;
    assert(dampers.bits == n * 0x1_0000_0000);
    assert(damping.bits == acting_damping(wheel));
    let (c, v, t) = (damping.bits as int, velocity.bits as int, dt.bits as int);
    // What all the dampers take away.
    let tc = t * c;
    assert(0 <= tc <= tc * n) by (nonlinear_arith)
        requires
            t >= 0,
            c >= 0,
            n >= 1,
            tc == t * c,
    ;
    crate::exact::lemma_mul_near(dt, damping);
    let each = dt.mul(damping);
    let y = each.bits as int;
    crate::scalar_lemmas::lemma_mul_not_negative(dt, damping);
    let yn = y * n;
    let e0 = y * 0x1_0000_0000 - tc;
    crate::exact::lemma_product_bound(e0, n, 0x1_0000_0000, n);
    assert(e0 * n == yn * 0x1_0000_0000 - tc * n) by (nonlinear_arith)
        requires
            e0 == y * 0x1_0000_0000 - tc,
            yn == y * n,
    ;
    assert(0 <= yn) by (nonlinear_arith)
        requires
            y >= 0,
            n >= 1,
            yn == y * n,
    ;
    let gain = wheel.damper_gain(dampers, dt);
    assert(y * (n * 0x1_0000_0000) == yn * 0x1_0000_0000) by (nonlinear_arith)
        requires
            yn == y * n,
    ;
    crate::scalar_lemmas::lemma_round_div_exact(yn, ONE_BITS as int);
    assert(gain.bits == yn);
    // The factor.
    let whole = Real::one().add(gain);
    let d = 0x1_0000_0000 + yn;
    assert(whole.bits == d);
    implicit_factor_is_a_share(wheel, dampers, dt);
    let f = wheel.implicit_factor(dampers, dt).bits as int;
    crate::scalar_lemmas::lemma_div_within_half(Real::one(), whole);
    let e2 = f * d - 0x1_0000_0000_0000_0000;
    assert(-d <= e2 <= d);
    // The damper.
    crate::exact::lemma_mul_near(damping, velocity);
    let at_once = damping.mul(velocity);
    let x = at_once.bits as int;
    let e1 = x * 0x1_0000_0000 - c * v;
    let pull = wheel.damper_pull(dampers, dt);
    crate::scalar_lemmas::lemma_mul_contracts(at_once, wheel.implicit_factor(dampers, dt));
    crate::scalar_lemmas::lemma_mul_within_half(at_once, wheel.implicit_factor(dampers, dt));
    let p = pull.bits as int;
    let e3 = p * 0x1_0000_0000 - x * f;
    assert(-0x1_0000_0000 <= e3 <= 0x1_0000_0000);
    let g = folded_damping(wheel, n, dt);
    let e4 = d * 0x1_0000_0000 - g;
    assert(-(n * 0x1_0000_0000) <= e4 <= n * 0x1_0000_0000);
    lemma_damper_error(x, f, d, p, g, c * v, n, e1, e2, e3, e4);
}

proof fn lemma_damper_error(
    x: int,
    f: int,
    d: int,
    p: int,
    g: int,
    cv: int,
    n: int,
    e1: int,
    e2: int,
    e3: int,
    e4: int,
)
    requires
        n >= 1,
        d >= 0x1_0000_0000,
        e1 == x * 0x1_0000_0000 - cv,
        e2 == f * d - 0x1_0000_0000_0000_0000,
        e3 == p * 0x1_0000_0000 - x * f,
        e4 == d * 0x1_0000_0000 - g,
        -0x1_0000_0000 <= e1 <= 0x1_0000_0000,
        -d <= e2 <= d,
        -0x1_0000_0000 <= e3 <= 0x1_0000_0000,
        -(n * 0x1_0000_0000) <= e4 <= n * 0x1_0000_0000,
        x >= 0 ==> 0 <= p <= x,
        x <= 0 ==> x <= p <= 0,
    ensures
        ({
            let size = crate::scalar::magnitude(cv) + 0x1_0000_0000;
            let error = p * g - cv * 0x1_0000_0000;
            let bound = 0x1_0000_0000_0000_0000_0000_0000_0000_0000int + (size
                + 0x1_0000_0000_0000_0000) * (g + n * 0x1_0000_0000) + size * (n
                * 0x1_0000_0000_0000_0000);
            -bound <= error * 0x1_0000_0000_0000_0000 <= bound
        }),
{
    let m = crate::scalar::magnitude(x);
    let size = crate::scalar::magnitude(cv) + 0x1_0000_0000;
    assert(m * 0x1_0000_0000 <= size);
    let error = p * g - cv * 0x1_0000_0000;
    let (a, b, c) = (x * e2, e3 * d, p * e4);
    assert(p * (d * 0x1_0000_0000) == (p * 0x1_0000_0000) * d) by (nonlinear_arith);
    assert(p * e4 == p * (d * 0x1_0000_0000) - p * g) by (nonlinear_arith)
        requires
            e4 == d * 0x1_0000_0000 - g,
    ;
    assert(e3 * d == (p * 0x1_0000_0000) * d - (x * f) * d) by (nonlinear_arith)
        requires
            e3 == p * 0x1_0000_0000 - x * f,
    ;
    assert(x * e2 == (x * f) * d - x * 0x1_0000_0000_0000_0000) by (nonlinear_arith)
        requires
            e2 == f * d - 0x1_0000_0000_0000_0000,
    ;
    assert(error == a + b - c + e1 * 0x1_0000_0000);
    crate::exact::lemma_product_bound(x, e2, m, d);
    crate::exact::lemma_product_bound(e3, d, 0x1_0000_0000, d);
    crate::exact::lemma_product_bound(p, e4, m, n * 0x1_0000_0000);
    let (md, mn) = (m * d, m * (n * 0x1_0000_0000));
    let top = g + n * 0x1_0000_0000;
    assert(0 <= d * 0x1_0000_0000 <= top);
    assert(md * 0x1_0000_0000_0000_0000 <= size * top) by (nonlinear_arith)
        requires
            md == m * d,
            0 <= m * 0x1_0000_0000 <= size,
            0 <= d * 0x1_0000_0000 <= top,
    {
        assert((m * 0x1_0000_0000) * (d * 0x1_0000_0000) <= size * top);
    }
    assert(mn * 0x1_0000_0000_0000_0000 <= size * (n * 0x1_0000_0000_0000_0000))
        by (nonlinear_arith)
        requires
            mn == m * (n * 0x1_0000_0000),
            0 <= m * 0x1_0000_0000 <= size,
            n >= 1,
    {
        assert((m * 0x1_0000_0000) * (n * 0x1_0000_0000_0000_0000) <= size * (n
            * 0x1_0000_0000_0000_0000));
    }
    let big = 0x1_0000_0000_0000_0000 * top;
    assert((d * 0x1_0000_0000) * 0x1_0000_0000_0000_0000 <= big);
    assert((size + 0x1_0000_0000_0000_0000) * top == size * top + big) by (nonlinear_arith)
        requires
            big == 0x1_0000_0000_0000_0000 * top,
    ;
}

/// The number of wheels in contact, one at least.
pub open spec fn wheels_in_contact(wheels: Seq<Wheel>) -> int {
    let contacts = wheels.filter(|w: Wheel| w.shape_cast_info.is_in_contact).len();
    if contacts == 0 {
        1
    } else {
        contacts as int
    }
}

proof fn lemma_contacts(wheels: Seq<Wheel>)
    ensures
        crate::vehicle::suspension::contact_count(wheels) == wheels.filter(
            |w: Wheel| w.shape_cast_info.is_in_contact,
        ).len(),
    decreases wheels.len(),
{
    reveal(Seq::filter);
    if wheels.len() > 0 {
        lemma_contacts(wheels.drop_last());
    }
}

/// A suspension is a spring and a damper that push the chassis by its mass: in
/// contact the force is the mass times the acceleration of the spring less that
/// of the damper, if that is positive, and null otherwise. The damper counts
/// the wheels in contact, all of which damp the same chassis. In the air the
/// force is null.
pub proof fn suspension_is_a_spring_and_a_damper(
    wheels: Seq<Wheel>,
    chassis_mass: Real,
    dt: Real,
    i: int,
) -> (r: (int, int))
    requires
        0 <= i < wheels.len(),
        wheels[i].shape_cast_info.is_in_contact ==> is_sprung_in_range(
            wheels[i],
            wheels_in_contact(wheels),
            dt,
        ),
        DynamicShapeCastVehicleController::suspended_wheels(
            wheels,
            chassis_mass,
            dt,
        )[i].wheel_suspension_force.bits < i64::MAX,
    ensures
        ({
            let force = DynamicShapeCastVehicleController::suspended_wheels(
                wheels,
                chassis_mass,
                dt,
            )[i].wheel_suspension_force.bits;
            let (push, pull) = r;
            let pushed = (push - pull) * chassis_mass.bits;
            &&& !wheels[i].shape_cast_info.is_in_contact ==> force == 0
            &&& wheels[i].shape_cast_info.is_in_contact ==> {
                &&& is_spring_of(push, wheels[i])
                &&& is_damper_of(pull, wheels[i], wheels_in_contact(wheels), dt)
                &&& pushed <= 0 ==> force == 0
                &&& pushed >= 0 ==> -ONE_BITS <= force * ONE_BITS - pushed <= ONE_BITS
            }
        }),
{
    lemma_contacts(wheels);
    let wheel = wheels[i];
    let contacts = wheels_in_contact(wheels) as usize;
    let dampers = Real::from_count(contacts);
    let (push, pull) = (wheel.spring_push(), wheel.damper_pull(dampers, dt));
    if wheel.shape_cast_info.is_in_contact {
        assert(crate::vehicle::suspension::damper_count(wheels) == contacts);
        lemma_spring(wheel);
        lemma_damper(wheel, contacts, dt);
        let a = push.sub(pull);
        assert(a.bits == push.bits - pull.bits);
        let n = a.bits * chassis_mass.bits;
        let q = crate::scalar::round_div(n, ONE_BITS as int);
        crate::scalar_lemmas::lemma_round_div_exact(0, ONE_BITS as int);
        if n <= 0 {
            crate::scalar_lemmas::lemma_round_div_ordered(n, 0 * ONE_BITS, ONE_BITS as int);
        } else {
            crate::scalar_lemmas::lemma_round_div_ordered(0 * ONE_BITS, n, ONE_BITS as int);
            crate::scalar_lemmas::lemma_round_div_near(n, ONE_BITS as int);
            assert(2 * q * ONE_BITS == 2 * (q * 0x1_0000_0000));
        }
    }
    (push.bits as int, pull.bits as int)
}

/// The force of a suspension is proportional to the mass of the chassis, damper
/// included: the forces that two masses feel, each times the other mass, are
/// the same up to rounding.
pub proof fn suspension_force_is_proportional_to_mass(
    wheels: Seq<Wheel>,
    mass1: Real,
    mass2: Real,
    dt: Real,
    i: int,
)
    requires
        0 <= i < wheels.len(),
        0 <= mass1.bits,
        0 <= mass2.bits,
        wheels[i].shape_cast_info.is_in_contact ==> is_sprung_in_range(
            wheels[i],
            wheels_in_contact(wheels),
            dt,
        ),
        DynamicShapeCastVehicleController::suspended_wheels(
            wheels,
            mass1,
            dt,
        )[i].wheel_suspension_force.bits < i64::MAX,
        DynamicShapeCastVehicleController::suspended_wheels(
            wheels,
            mass2,
            dt,
        )[i].wheel_suspension_force.bits < i64::MAX,
    ensures
        ({
            let force1 = DynamicShapeCastVehicleController::suspended_wheels(
                wheels,
                mass1,
                dt,
            )[i].wheel_suspension_force.bits;
            let force2 = DynamicShapeCastVehicleController::suspended_wheels(
                wheels,
                mass2,
                dt,
            )[i].wheel_suspension_force.bits;
            let bound = mass1.bits + mass2.bits;
            -bound <= force1 * mass2.bits - force2 * mass1.bits <= bound
        }),
{
    let wheel = wheels[i];
    let (m1, m2) = (mass1.bits as int, mass2.bits as int);
    let f1 = DynamicShapeCastVehicleController::suspended_wheels(
        wheels,
        mass1,
        dt,
    )[i].wheel_suspension_force.bits as int;
    let f2 = DynamicShapeCastVehicleController::suspended_wheels(
        wheels,
        mass2,
        dt,
    )[i].wheel_suspension_force.bits as int;
    if wheel.shape_cast_info.is_in_contact {
        lemma_contacts(wheels);
        let contacts = wheels_in_contact(wheels) as usize;
        assert(crate::vehicle::suspension::damper_count(wheels) == contacts);
        lemma_spring(wheel);
        lemma_damper(wheel, contacts, dt);
        let a = wheel.spring_push().bits - wheel.damper_pull(
            Real::from_count(contacts),
            dt,
        ).bits;
        let (n1, n2) = (a * m1, a * m2);
        let d = ONE_BITS as int;
        crate::scalar_lemmas::lemma_round_div_exact(0, d);
        if a <= 0 {
            assert(n1 <= 0 && n2 <= 0) by (nonlinear_arith)
                requires
                    a <= 0,
                    m1 >= 0,
                    m2 >= 0,
                    n1 == a * m1,
                    n2 == a * m2,
            ;
            crate::scalar_lemmas::lemma_round_div_ordered(n1, 0 * d, d);
            crate::scalar_lemmas::lemma_round_div_ordered(n2, 0 * d, d);
            assert(f1 == 0 && f2 == 0);
        } else {
            assert(n1 >= 0 && n2 >= 0) by (nonlinear_arith)
                requires
                    a >= 0,
                    m1 >= 0,
                    m2 >= 0,
                    n1 == a * m1,
                    n2 == a * m2,
            ;
            crate::scalar_lemmas::lemma_round_div_ordered(0 * d, n1, d);
            crate::scalar_lemmas::lemma_round_div_ordered(0 * d, n2, d);
            crate::scalar_lemmas::lemma_round_div_near(n1, d);
            crate::scalar_lemmas::lemma_round_div_near(n2, d);
            let (q1, q2) = (
                crate::scalar::round_div(n1, d),
                crate::scalar::round_div(n2, d),
            );
            assert(f1 == q1 && f2 == q2);
            assert(2 * q1 * d == 2 * (q1 * 0x1_0000_0000));
            assert(2 * q2 * d == 2 * (q2 * 0x1_0000_0000));
            let (e1, e2) = (f1 * 0x1_0000_0000 - n1, f2 * 0x1_0000_0000 - n2);
            crate::exact::lemma_product_bound(e1, m2, 0x1_0000_0000, m2);
            crate::exact::lemma_product_bound(e2, m1, 0x1_0000_0000, m1);
            assert(e1 * m2 - e2 * m1 == (f1 * m2 - f2 * m1) * 0x1_0000_0000) by (nonlinear_arith)
                requires
                    e1 == f1 * 0x1_0000_0000 - a * m1,
                    e2 == f2 * 0x1_0000_0000 - a * m2,
            ;
        }
    }
    assert(f1 == 0 && f2 == 0 ==> f1 * m2 == 0 && f2 * m1 == 0) by (nonlinear_arith);
}

} // verus!
