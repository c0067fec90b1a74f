//! What the mass-ratio clamp promises.
use crate::mass_clamp::{SimdRealCopy, MASS_RATIO_CAP};
use crate::math::{SdpMatrix3, Vector};
use crate::scalar::{Real, ONE_BITS};
use vstd::prelude::*;

verus! {

/// A factor is never below one: clamping only ever shrinks an effective mass.
pub proof fn clamp_never_shrinks_inverse_mass(im: Real, other: Real)
    ensures
        Real::one().le(crate::mass_clamp::clamp_scale(im, other)),
{
    if crate::mass_clamp::both_dynamic(im, other) {
        crate::scalar_lemmas::lemma_div_smaller(
            im.max(crate::mass_clamp::inverse_mass_floor(im, other)),
            im,
        );
    }
}

/// A pair with a static or kinematic body is left as it is.
pub proof fn clamp_skips_static_bodies(im: Real, other: Real)
    requires
        im.le(Real::zero()) || other.le(Real::zero()),
    ensures
        crate::mass_clamp::clamp_scale(im, other) == Real::one(),
        crate::mass_clamp::clamp_scale(other, im) == Real::one(),
{
}

/// A body that is not heavier than the cap times the other is left as it is.
pub proof fn clamp_keeps_masses_within_cap(im: Real, other: Real)
    requires
        other.bits <= MASS_RATIO_CAP * im.bits,
    ensures
        crate::mass_clamp::clamp_scale(im, other) == Real::one(),
{
    if crate::mass_clamp::both_dynamic(im, other) {
        let m = im.max(other);
        let sixteenth = Real::ratio(1, MASS_RATIO_CAP);
        assert(sixteenth.bits == 0x1000_0000) by {
            crate::scalar_lemmas::lemma_round_div_exact(0x1000_0000, 16);
        }
        assert(m.bits * 0x1000_0000 <= im.bits * ONE_BITS);
        crate::scalar_lemmas::lemma_round_div_exact(im.bits as int, ONE_BITS as int);
        crate::scalar_lemmas::lemma_round_div_ordered(
            m.bits * sixteenth.bits,
            im.bits * ONE_BITS,
            ONE_BITS as int,
        );
        crate::scalar_lemmas::lemma_div_self(im);
    }
}

/// The lighter body of a pair is left as it is, so that one body at most is
/// scaled.
pub proof fn clamp_keeps_lighter_body(im: Real, other: Real)
    requires
        other.le(im),
    ensures
        crate::mass_clamp::clamp_scale(im, other) == Real::one(),
{
    if crate::mass_clamp::both_dynamic(im, other) {
        clamp_keeps_masses_within_cap(im, other);
    }
}

/// The factor brings the inverse mass of a dynamic body up to the sixteenth
/// of the other's where it was smaller, up to the rounding of the factor by
/// half a unit, as long as the factor is in range.
pub proof fn clamp_reaches_cap(im: Real, other: Real)
    requires
        crate::mass_clamp::both_dynamic(im, other),
        crate::mass_clamp::inverse_mass_floor(im, other).bits < im.bits * 0x4000_0000,
    ensures
        ({
            let target = im.max(crate::mass_clamp::inverse_mass_floor(im, other)).bits * ONE_BITS;
            let scaled = im.bits * crate::mass_clamp::clamp_scale(im, other).bits;
            2 * target - im.bits <= 2 * scaled <= 2 * target + im.bits
        }),
{
    let clamped = im.max(crate::mass_clamp::inverse_mass_floor(im, other));
    let n = clamped.bits * ONE_BITS;
    let d = im.bits as int;
    let q = crate::scalar::round_div(n, d);
    crate::scalar_lemmas::lemma_round_div_near(n, d);
    let limit = 0x4000_0000 * ONE_BITS;
    assert(n <= limit * d) by (nonlinear_arith)
        requires
            n == clamped.bits * ONE_BITS,
            clamped.bits <= d * 0x4000_0000,
            limit == 0x4000_0000 * ONE_BITS,
            ONE_BITS == 0x1_0000_0000,
            d > 0,
    ;
    crate::scalar_lemmas::lemma_round_div_exact(limit, d);
    crate::scalar_lemmas::lemma_round_div_ordered(n, limit * d, d);
    crate::scalar_lemmas::lemma_round_div_exact(0, d);
    crate::scalar_lemmas::lemma_round_div_ordered(0 * d, n, d);
    assert(2 * q * d == 2 * (d * q)) by (nonlinear_arith);
}

/// The inverse mass of a body beside another for one constraint, before it is
/// written as a factor.
pub open spec fn clamped_inverse_mass(im: Real, other: Real) -> Real {
    if crate::mass_clamp::both_dynamic(im, other) {
        im.max(crate::mass_clamp::inverse_mass_floor(im, other))
    } else {
        im
    }
}

/// Inverse masses that were clamped are not clamped again.
pub proof fn clamping_twice_is_clamping_once(im1: Real, im2: Real)
    ensures
        ({
            let c1 = clamped_inverse_mass(im1, im2);
            let c2 = clamped_inverse_mass(im2, im1);
            &&& crate::mass_clamp::clamp_scale(c1, c2) == Real::one()
            &&& crate::mass_clamp::clamp_scale(c2, c1) == Real::one()
        }),
{
    if crate::mass_clamp::both_dynamic(im1, im2) {
        if im2.le(im1) {
            lemma_clamping_twice(im1, im2);
        } else {
            lemma_clamping_twice(im2, im1);
        }
    }
}

proof fn lemma_clamping_twice(light: Real, heavy: Real)
    requires
        crate::mass_clamp::both_dynamic(light, heavy),
        heavy.le(light),
    ensures
        ({
            let c1 = clamped_inverse_mass(light, heavy);
            let c2 = clamped_inverse_mass(heavy, light);
            &&& crate::mass_clamp::clamp_scale(c1, c2) == Real::one()
            &&& crate::mass_clamp::clamp_scale(c2, c1) == Real::one()
        }),
{
    let sixteenth = Real::ratio(1, MASS_RATIO_CAP);
    assert(sixteenth.bits == 0x1000_0000) by {
        crate::scalar_lemmas::lemma_round_div_exact(0x1000_0000, 16);
    }
    crate::scalar_lemmas::lemma_mul_contracts(light, sixteenth);
    let c1 = clamped_inverse_mass(light, heavy);
    let c2 = clamped_inverse_mass(heavy, light);
    assert(c1 == light);
    assert(c2.le(c1) && c2.bits > 0);
    clamp_keeps_lighter_body(c1, c2);
    crate::scalar_lemmas::lemma_div_self(c2);
}

/// The factors depend on the ratio of the masses alone: multiplying both
/// inverse masses changes nothing, as long as their sixteenths are exact and
/// they stay in range.
pub proof fn clamp_depends_on_mass_ratio(im: Real, other: Real, k: int)
    requires
        k >= 1,
        im.max(other).bits % 16 == 0,
        im.bits * k <= i64::MAX,
        other.bits * k <= i64::MAX,
        crate::mass_clamp::both_dynamic(im, other),
    ensures
        crate::mass_clamp::clamp_scale(Real::of(im.bits * k), Real::of(other.bits * k))
            == crate::mass_clamp::clamp_scale(im, other),
{
    let (x, y) = (im.bits as int, other.bits as int);
    assert(x * k >= 1 && y * k >= 1 && (x < y ==> x * k <= y * k) && (y <= x ==> y * k <= x * k))
        by (nonlinear_arith)
        requires
            x >= 1,
            y >= 1,
            k >= 1,
    ;
    assert(x < y ==> x * k < y * k) by (nonlinear_arith)
        requires
            k >= 1,
    ;
    let sixteenth = Real::ratio(1, MASS_RATIO_CAP);
    assert(sixteenth.bits == 0x1000_0000) by {
        crate::scalar_lemmas::lemma_round_div_exact(0x1000_0000, 16);
    }
    let m = im.max(other).bits as int;
    let part = m / 16;
    assert(m == 16 * part);
    crate::scalar_lemmas::lemma_round_div_exact(part, ONE_BITS as int);
    crate::scalar_lemmas::lemma_round_div_exact(part * k, ONE_BITS as int);
    assert(m * k == 16 * (part * k)) by (nonlinear_arith)
        requires
            m == 16 * part,
    ;
    let (im_k, other_k) = (Real::of(x * k), Real::of(y * k));
    assert(im_k.max(other_k).bits == m * k);
    assert(0 <= part * k <= m * k) by (nonlinear_arith)
        requires
            m == 16 * part,
            part >= 0,
            k >= 1,
    ;
    assert(crate::mass_clamp::inverse_mass_floor(im, other).bits == part);
    assert(crate::mass_clamp::inverse_mass_floor(im_k, other_k).bits == part * k);
    assert(x < part ==> x * k < part * k) by (nonlinear_arith)
        requires
            k >= 1,
    ;
    assert(part <= x ==> part * k <= x * k) by (nonlinear_arith)
        requires
            k >= 1,
    ;
    let c = im.max(crate::mass_clamp::inverse_mass_floor(im, other)).bits as int;
    let c_k = im_k.max(crate::mass_clamp::inverse_mass_floor(im_k, other_k)).bits as int;
    assert(c_k == c * k);
    crate::scalar_lemmas::lemma_round_div_cancels(c * ONE_BITS, x, k);
    assert(k * (c * ONE_BITS) == (c * k) * ONE_BITS) by (nonlinear_arith);
    assert(k * x == x * k) by (nonlinear_arith);
}

/// Whether clamping a body of inverse mass `scaled` beside one of inverse mass
/// `other` leaves it as it is, up to the rounding that brought it there from
/// `im`; and exactly where that was below one.
pub open spec fn is_hardly_clamped(scaled: Real, other: Real, im: Real) -> bool {
    let again = crate::mass_clamp::clamp_scale(scaled, other);
    &&& again.bits >= ONE_BITS
    &&& 2 * ((again.bits - ONE_BITS) * scaled.bits) <= im.bits + ONE_BITS + scaled.bits
    &&& im.bits < ONE_BITS ==> again == Real::one()
}

/// Inverse masses multiplied by their factors are not clamped again, up to the
/// rounding of the factors and of the products, as long as the factors are in
/// range; and not at all where both inverse masses are below one.
pub proof fn clamping_scaled_masses_again(im1: Real, im2: Real)
    requires
        crate::mass_clamp::both_dynamic(im1, im2),
        crate::mass_clamp::inverse_mass_floor(im1, im2).bits < im1.bits * 0x4000_0000,
        crate::mass_clamp::inverse_mass_floor(im2, im1).bits < im2.bits * 0x4000_0000,
    ensures
        ({
            let c1 = im1.mul(crate::mass_clamp::clamp_scale(im1, im2));
            let c2 = im2.mul(crate::mass_clamp::clamp_scale(im2, im1));
            &&& is_hardly_clamped(c1, c2, im1)
            &&& is_hardly_clamped(c2, c1, im2)
        }),
{
    if im2.le(im1) {
        lemma_scaled_pair(im1, im2);
    } else {
        lemma_scaled_pair(im2, im1);
    }
}

/// The sixteenth of the larger inverse mass, compared to the exact one.
proof fn lemma_floor_near(im: Real, other: Real)
    requires
        crate::mass_clamp::both_dynamic(im, other),
    ensures
        ({
            let floor = crate::mass_clamp::inverse_mass_floor(im, other).bits;
            let m = im.max(other).bits;
            &&& m - 8 <= 16 * floor <= m + 8
            &&& 0 <= floor <= m
        }),
{
    let sixteenth = Real::ratio(1, MASS_RATIO_CAP);
    assert(sixteenth.bits == 0x1000_0000) by {
        crate::scalar_lemmas::lemma_round_div_exact(0x1000_0000, 16);
    }
    let m = im.max(other);
    crate::scalar_lemmas::lemma_mul_contracts(m, sixteenth);
    let n = m.bits * sixteenth.bits;
    let q = crate::scalar::round_div(n, ONE_BITS as int);
    crate::scalar_lemmas::lemma_round_div_near(n, ONE_BITS as int);
    assert(n == m.bits * 0x1000_0000);
    crate::scalar_lemmas::lemma_product_in_range(m.bits as int, sixteenth.bits as int);
    assert(2 * q * ONE_BITS == 2 * (q * 0x1_0000_0000));
    assert(crate::mass_clamp::inverse_mass_floor(im, other).bits == q);
}

proof fn lemma_scaled_pair(light: Real, heavy: Real)
    requires
        crate::mass_clamp::both_dynamic(light, heavy),
        heavy.le(light),
        crate::mass_clamp::inverse_mass_floor(heavy, light).bits < heavy.bits * 0x4000_0000,
    ensures
        ({
            let c1 = light.mul(crate::mass_clamp::clamp_scale(light, heavy));
            let c2 = heavy.mul(crate::mass_clamp::clamp_scale(heavy, light));
            &&& is_hardly_clamped(c1, c2, light)
            &&& is_hardly_clamped(c2, c1, heavy)
        }),
{
    clamp_keeps_lighter_body(light, heavy);
    crate::scalar_lemmas::lemma_mul_one(light);
    let s = crate::mass_clamp::clamp_scale(heavy, light);
    let c = heavy.mul(s);
    let floor = crate::mass_clamp::inverse_mass_floor(heavy, light);
    lemma_floor_near(heavy, light);
    assert(heavy.max(light).bits == light.bits);
    if floor.bits <= heavy.bits {
        crate::scalar_lemmas::lemma_div_self(heavy);
        crate::scalar_lemmas::lemma_mul_one(heavy);
        assert(c == heavy);
        assert(heavy.max(floor) == heavy);
    } else {
        clamp_reaches_cap(heavy, light);
        let (h, k, f, l) = (
            heavy.bits as int,
            s.bits as int,
            floor.bits as int,
            light.bits as int,
        );
        let n = h * k;
        crate::scalar_lemmas::lemma_round_div_near(n, ONE_BITS as int);
        let q = crate::scalar::round_div(n, ONE_BITS as int);
        assert(2 * q * ONE_BITS == 2 * (q * 0x1_0000_0000));
        assert(-(h + 0x1_0000_0000) <= 2 * ((q - f) * 0x1_0000_0000) <= h + 0x1_0000_0000);
        assert(0 < q <= l);
        assert(c.bits == q);
        assert(c.max(light).bits == l);
        assert(crate::mass_clamp::inverse_mass_floor(c, light) == floor);
        if q >= f {
            crate::scalar_lemmas::lemma_div_self(c);
        } else {
            lemma_hardly_scaled(c, floor, h);
        }
    }
    let again = crate::mass_clamp::clamp_scale(c, light);
    assert(crate::mass_clamp::clamp_scale(light, c) == Real::one()) by {
        clamp_keeps_lighter_body(light, c);
    }
    assert(0 * light.bits == 0);
    assert(0 * c.bits == 0);
}

proof fn lemma_hardly_scaled(c: Real, floor: Real, h: int)
    requires
        0 < c.bits < floor.bits,
        0 < h < floor.bits,
        2 * ((floor.bits - c.bits) * 0x1_0000_0000) <= h + 0x1_0000_0000,
    ensures
        ({
            let again = floor.div(c);
            &&& again.bits >= ONE_BITS
            &&& 2 * ((again.bits - ONE_BITS) * c.bits) <= h + ONE_BITS + c.bits
            &&& h >= ONE_BITS
        }),
{
    let (f, d) = (floor.bits as int, c.bits as int);
    crate::scalar_lemmas::lemma_div_smaller(floor, c);
    let n = f * ONE_BITS;
    let q = crate::scalar::round_div(n, d);
    crate::scalar_lemmas::lemma_round_div_near(n, d);
    assert(n <= 0x2_0000_0000 * d);
    crate::scalar_lemmas::lemma_round_div_exact(0x2_0000_0000, d);
    crate::scalar_lemmas::lemma_round_div_ordered(n, 0x2_0000_0000 * d, d);
    crate::scalar_lemmas::lemma_round_div_exact(0, d);
    crate::scalar_lemmas::lemma_round_div_ordered(0 * d, n, d);
    assert(floor.div(c).bits == q);
    assert(2 * q * d == 2 * ((q - 0x1_0000_0000) * d) + 2 * (d * 0x1_0000_0000))
        by (nonlinear_arith);
}

/// The factor of a body, compared to the one that the exact ratio gives.
proof fn lemma_scale_near(im: Real, other: Real)
    requires
        crate::mass_clamp::both_dynamic(im, other),
        crate::mass_clamp::inverse_mass_floor(im, other).bits < im.bits * 0x4000_0000,
    ensures
        ({
            let exact = if other.bits <= 16 * im.bits {
                16 * im.bits
            } else {
                other.bits as int
            };
            let error = 16 * (im.bits * crate::mass_clamp::clamp_scale(im, other).bits) - exact
                * 0x1_0000_0000;
            let bound = 8 * im.bits + 0x8_0000_0000;
            -bound <= error <= bound
        }),
{
    lemma_floor_near(im, other);
    clamp_reaches_cap(im, other);
}

/// The factors depend on the ratio of the masses alone: those of two pairs of
/// bodies differ by no more than the ratios of the pairs do, up to the rounding
/// of the sixteenths and of the factors, as long as the factors are in range.
pub proof fn clamp_depends_on_mass_ratio_alone(im: Real, other: Real, im_b: Real, other_b: Real)
    requires
        crate::mass_clamp::both_dynamic(im, other),
        crate::mass_clamp::both_dynamic(im_b, other_b),
        crate::mass_clamp::inverse_mass_floor(im, other).bits < im.bits * 0x4000_0000,
        crate::mass_clamp::inverse_mass_floor(im_b, other_b).bits < im_b.bits * 0x4000_0000,
    ensures
        ({
            let s = crate::mass_clamp::clamp_scale(im, other).bits;
            let s_b = crate::mass_clamp::clamp_scale(im_b, other_b).bits;
            let apart = crate::scalar::magnitude(other.bits * im_b.bits - other_b.bits * im.bits);
            let bound = apart * ONE_BITS + 8 * ((im.bits + im_b.bits) * ONE_BITS) + 16 * (im.bits
                * im_b.bits);
            -bound <= 16 * ((im.bits * im_b.bits) * (s - s_b)) <= bound
        }),
{
    lemma_scale_near(im, other);
    lemma_scale_near(im_b, other_b);
    let (a, b) = (im.bits as int, other.bits as int);
    let (c, d) = (im_b.bits as int, other_b.bits as int);
    let s = crate::mass_clamp::clamp_scale(im, other).bits as int;
    let t = crate::mass_clamp::clamp_scale(im_b, other_b).bits as int;
    let x = if b <= 16 * a {
        16 * a
    } else {
        b
    };
    let y = if d <= 16 * c {
        16 * c
    } else {
        d
    };
    let e = 16 * (a * s) - x * 0x1_0000_0000;
    let g = 16 * (c * t) - y * 0x1_0000_0000;
    crate::exact::lemma_product_bound(e, c, 8 * a + 0x8_0000_0000, c);
    crate::exact::lemma_product_bound(g, a, 8 * c + 0x8_0000_0000, a);
    assert((8 * a + 0x8_0000_0000) * c == 8 * (a * c) + 8 * (c * 0x1_0000_0000))
        by (nonlinear_arith);
    assert((8 * c + 0x8_0000_0000) * a == 8 * (a * c) + 8 * (a * 0x1_0000_0000))
        by (nonlinear_arith);
    assert(e * c - g * a == 16 * ((a * c) * (s - t)) - (x * c - y * a) * 0x1_0000_0000)
        by (nonlinear_arith)
        requires
            e == 16 * (a * s) - x * 0x1_0000_0000,
            g == 16 * (c * t) - y * 0x1_0000_0000,
    ;
    let apart = crate::scalar::magnitude(b * c - d * a);
    assert(16 * (a * c) == (16 * a) * c && 16 * (a * c) == (16 * c) * a) by (nonlinear_arith);
    assert(b <= 16 * a ==> b * c <= (16 * a) * c) by (nonlinear_arith)
        requires
            c > 0,
    ;
    assert(b > 16 * a ==> b * c >= (16 * a) * c) by (nonlinear_arith)
        requires
            c > 0,
    ;
    assert(d <= 16 * c ==> d * a <= (16 * c) * a) by (nonlinear_arith)
        requires
            a > 0,
    ;
    assert(d > 16 * c ==> d * a >= (16 * c) * a) by (nonlinear_arith)
        requires
            a > 0,
    ;
    assert(-apart <= x * c - y * a <= apart);
}

/// Multiplying both inverse masses by one number leaves the factors, up to the
/// rounding of the products, of the sixteenths and of the factors, as long as
/// they are in range.
pub proof fn clamp_ignores_common_factor(im: Real, other: Real, k: Real)
    requires
        crate::mass_clamp::both_dynamic(im, other),
        Real::zero().lt(k),
        crate::mass_clamp::both_dynamic(im.mul(k), other.mul(k)),
        im.mul(k).bits < i64::MAX,
        other.mul(k).bits < i64::MAX,
        crate::mass_clamp::inverse_mass_floor(im, other).bits < im.bits * 0x4000_0000,
        crate::mass_clamp::inverse_mass_floor(im.mul(k), other.mul(k)).bits < im.mul(k).bits
            * 0x4000_0000,
    ensures
        ({
            let s = crate::mass_clamp::clamp_scale(im, other).bits;
            let s_k = crate::mass_clamp::clamp_scale(im.mul(k), other.mul(k)).bits;
            let (a, a_k) = (im.bits as int, im.mul(k).bits as int);
            let bound = (im.bits + other.bits) * ONE_BITS + 16 * ((a + a_k) * ONE_BITS) + 32 * (a
                * a_k);
            -bound <= 32 * ((a * a_k) * (s - s_k)) <= bound
        }),
{
    clamp_depends_on_mass_ratio_alone(im, other, im.mul(k), other.mul(k));
    let (a, b, f) = (im.bits as int, other.bits as int, k.bits as int);
    let (c, d) = (im.mul(k).bits as int, other.mul(k).bits as int);
    crate::scalar_lemmas::lemma_round_div_near(a * f, ONE_BITS as int);
    crate::scalar_lemmas::lemma_round_div_near(b * f, ONE_BITS as int);
    assert(a * f > 0 && b * f > 0) by (nonlinear_arith)
        requires
            a > 0,
            b > 0,
            f > 0,
    ;
    assert(c == crate::scalar::round_div(a * f, ONE_BITS as int));
    assert(d == crate::scalar::round_div(b * f, ONE_BITS as int));
    let e = 2 * (c * 0x1_0000_0000) - 2 * (a * f);
    let g = 2 * (d * 0x1_0000_0000) - 2 * (b * f);
    assert(2 * c * ONE_BITS == 2 * (c * 0x1_0000_0000));
    assert(2 * d * ONE_BITS == 2 * (d * 0x1_0000_0000));
    crate::exact::lemma_product_bound(b, e, b, 0x1_0000_0000);
    crate::exact::lemma_product_bound(a, g, a, 0x1_0000_0000);
    assert(b * e - a * g == 2 * ((b * c - d * a) * 0x1_0000_0000)) by (nonlinear_arith)
        requires
            e == 2 * (c * 0x1_0000_0000) - 2 * (a * f),
            g == 2 * (d * 0x1_0000_0000) - 2 * (b * f),
    ;
    let apart = crate::scalar::magnitude(b * c - d * a);
    assert(2 * apart <= a + b);
}

/// Whether two numbers are within `bound` units of units of each other.
pub open spec fn is_near(a: Real, b: Real, bound: int) -> bool {
    -bound <= (a.bits - b.bits) * ONE_BITS <= bound
}

proof fn lemma_mul_twice_near(m: Real, a: Real, b: Real)
    requires
        -0x200_0000_0000 <= m.bits <= 0x200_0000_0000,
        -0x200_0000_0000 <= a.bits <= 0x200_0000_0000,
        -0x200_0000_0000 <= b.bits <= 0x200_0000_0000,
    ensures
        is_near(
            m.mul(a).mul(b),
            m.mul(a.mul(b)),
            crate::scalar::magnitude(b.bits as int) + crate::scalar::magnitude(m.bits as int) + 2
                * ONE_BITS,
        ),
{
    let (x, y, z) = (m.bits as int, a.bits as int, b.bits as int);
    let (bm, bz) = (crate::scalar::magnitude(x), crate::scalar::magnitude(z));
    crate::exact::lemma_bounded_mul_near(m, a, 0x200_0000_0000, 0x200_0000_0000);
    crate::exact::lemma_bounded_mul_near(a, b, 0x200_0000_0000, 0x200_0000_0000);
    crate::exact::lemma_product_bound(x, y, 0x200_0000_0000, 0x200_0000_0000);
    crate::exact::lemma_product_bound(y, z, 0x200_0000_0000, 0x200_0000_0000);
    let (p, d) = (m.mul(a), a.mul(b));
    assert(-0x4_0000_0000_0001 <= p.bits <= 0x4_0000_0000_0001);
    assert(-0x4_0000_0000_0001 <= d.bits <= 0x4_0000_0000_0001);
    crate::exact::lemma_bounded_mul_near(p, b, 0x4_0000_0000_0001, 0x200_0000_0000);
    crate::exact::lemma_bounded_mul_near(m, d, 0x200_0000_0000, 0x4_0000_0000_0001);
    let e1 = p.bits * 0x1_0000_0000 - x * y;
    let e3 = d.bits * 0x1_0000_0000 - y * z;
    crate::exact::lemma_product_bound(e1, z, 0x1_0000_0000, bz);
    crate::exact::lemma_product_bound(x, e3, bm, 0x1_0000_0000);
    assert(e1 * z == (p.bits * z) * 0x1_0000_0000 - (x * y) * z) by (nonlinear_arith)
        requires
            e1 == p.bits * 0x1_0000_0000 - x * y,
    ;
    assert(x * e3 == (x * d.bits) * 0x1_0000_0000 - x * (y * z)) by (nonlinear_arith)
        requires
            e3 == d.bits * 0x1_0000_0000 - y * z,
    ;
    assert((x * y) * z == x * (y * z)) by (nonlinear_arith);
    assert(bm * 0x1_0000_0000 == 0x1_0000_0000 * bm);
}

/// Whether no component of two matrices differs by more than `bound` units of
/// units.
pub open spec fn matrices_are_near(a: SdpMatrix3<Real>, b: SdpMatrix3<Real>, bound: int) -> bool {
    &&& is_near(a.m11, b.m11, bound)
    &&& is_near(a.m12, b.m12, bound)
    &&& is_near(a.m13, b.m13, bound)
    &&& is_near(a.m22, b.m22, bound)
    &&& is_near(a.m23, b.m23, bound)
    &&& is_near(a.m33, b.m33, bound)
}

/// Scaling an inertia of space twice is scaling it by the product, up to
/// rounding, for components and factors of five hundred at most.
pub proof fn scaling_inertia_composes(ii: SdpMatrix3<Real>, a: Real, b: Real)
    requires
        crate::exact::matrix_within(ii, 0x200 * ONE_BITS),
        -0x200 * ONE_BITS <= a.bits <= 0x200 * ONE_BITS,
        -0x200 * ONE_BITS <= b.bits <= 0x200 * ONE_BITS,
    ensures
        matrices_are_near(
            crate::mass_clamp::dim3::scaled_inertia(
                crate::mass_clamp::dim3::scaled_inertia(ii, a),
                b,
            ),
            crate::mass_clamp::dim3::scaled_inertia(ii, a.mul(b)),
            crate::scalar::magnitude(b.bits as int) + 0x202 * ONE_BITS,
        ),
{
    lemma_mul_twice_near(ii.m11, a, b);
    lemma_mul_twice_near(ii.m12, a, b);
    lemma_mul_twice_near(ii.m13, a, b);
    lemma_mul_twice_near(ii.m22, a, b);
    lemma_mul_twice_near(ii.m23, a, b);
    lemma_mul_twice_near(ii.m33, a, b);
}

/// Scaling a planar inertia twice is scaling it by the product, up to rounding.
pub proof fn scaling_planar_inertia_composes(ii: Real, a: Real, b: Real)
    requires
        -0x200 * ONE_BITS <= ii.bits <= 0x200 * ONE_BITS,
        -0x200 * ONE_BITS <= a.bits <= 0x200 * ONE_BITS,
        -0x200 * ONE_BITS <= b.bits <= 0x200 * ONE_BITS,
    ensures
        is_near(
            ii.product(a).product(b),
            ii.product(a.mul(b)),
            crate::scalar::magnitude(b.bits as int) + 0x202 * ONE_BITS,
        ),
{
    lemma_mul_twice_near(ii, a, b);
}

/// One term of a row: scaling the component or the product.
proof fn lemma_scaled_term(m: Real, s: Real, v: Real)
    requires
        -0x10_0000_0000 <= m.bits <= 0x10_0000_0000,
        -0x1000_0000_0000 <= s.bits <= 0x1000_0000_0000,
        -0x800_0000_0000 <= v.bits <= 0x800_0000_0000,
    ensures
        ({
            let left = m.mul(s).mul(v).bits * 0x1_0000_0000_0000_0000;
            let right = m.mul(v).bits * s.bits * 0x1_0000_0000;
            let bound = 0x1_0000_0000 * (0x800_0000_0000 + crate::scalar::magnitude(
                s.bits as int,
            ) + 0x1_0000_0000);
            -bound <= left - right <= bound
        }),
        -0x800_0000_0000_1000 <= m.mul(s).mul(v).bits <= 0x800_0000_0000_1000,
        -0x8000_0000_0001 <= m.mul(v).bits <= 0x8000_0000_0001,
{
    let (x, y, z) = (m.bits as int, s.bits as int, v.bits as int);
    let b = crate::scalar::magnitude(y);
    crate::exact::lemma_bounded_mul_near(m, s, 0x10_0000_0000, 0x1000_0000_0000);
    crate::exact::lemma_product_bound(x, y, 0x10_0000_0000, 0x1000_0000_0000);
    let p = m.mul(s);
    assert(-0x1_0000_0000_0001 <= p.bits <= 0x1_0000_0000_0001);
    crate::exact::lemma_bounded_mul_near(p, v, 0x1_0000_0000_0001, 0x800_0000_0000);
    crate::exact::lemma_product_bound(p.bits as int, z, 0x1_0000_0000_0001, 0x800_0000_0000);
    crate::exact::lemma_bounded_mul_near(m, v, 0x10_0000_0000, 0x800_0000_0000);
    crate::exact::lemma_product_bound(x, z, 0x10_0000_0000, 0x800_0000_0000);
    let r = m.mul(v);
    let e1 = p.bits * 0x1_0000_0000 - x * y;
    let e2 = r.bits * 0x1_0000_0000 - x * z;
    crate::exact::lemma_product_bound(e1, z, 0x1_0000_0000, 0x800_0000_0000);
    crate::exact::lemma_product_bound(e2, y, 0x1_0000_0000, b);
    assert(e1 * z == (p.bits * z) * 0x1_0000_0000 - (x * y) * z) by (nonlinear_arith)
        requires
            e1 == p.bits * 0x1_0000_0000 - x * y,
    ;
    assert(e2 * y == (r.bits * y) * 0x1_0000_0000 - (x * z) * y) by (nonlinear_arith)
        requires
            e2 == r.bits * 0x1_0000_0000 - x * z,
    ;
    assert((x * y) * z == (x * z) * y) by (nonlinear_arith);
}

proof fn lemma_scaled_row(a: Real, b: Real, c: Real, s: Real, v: Vector)
    requires
        -0x10_0000_0000 <= a.bits <= 0x10_0000_0000,
        -0x10_0000_0000 <= b.bits <= 0x10_0000_0000,
        -0x10_0000_0000 <= c.bits <= 0x10_0000_0000,
        -0x1000_0000_0000 <= s.bits <= 0x1000_0000_0000,
        v.exact().within(0x800_0000_0000),
    ensures
        is_near(
            a.mul(s).mul(v.x).add(b.mul(s).mul(v.y)).add(c.mul(s).mul(v.z)),
            a.mul(v.x).add(b.mul(v.y)).add(c.mul(v.z)).mul(s),
            3 * (0x800_0000_0000 + crate::scalar::magnitude(s.bits as int)) + 4 * ONE_BITS,
        ),
{
    lemma_scaled_term(a, s, v.x);
    lemma_scaled_term(b, s, v.y);
    lemma_scaled_term(c, s, v.z);
    let sum = a.mul(v.x).add(b.mul(v.y)).add(c.mul(v.z));
    let (p, q, r, k) = (
        a.mul(v.x).bits as int,
        b.mul(v.y).bits as int,
        c.mul(v.z).bits as int,
        s.bits as int,
    );
    assert(sum.bits == p + q + r);
    assert((p + q + r) * k == p * k + q * k + r * k) by (nonlinear_arith);
    crate::exact::lemma_bounded_mul_near(sum, s, 0x1_8000_0000_0003, 0x1000_0000_0000);
}

/// Scaling an inertia of space and applying it to a vector is applying it and
/// scaling the result, up to rounding, for components of sixteen, a factor of
/// four thousand and coordinates of two thousand at most.
pub proof fn scaling_inertia_commutes_with_applying(ii: SdpMatrix3<Real>, s: Real, v: Vector)
    requires
        crate::exact::matrix_within(ii, 16 * ONE_BITS),
        -0x1000 * ONE_BITS <= s.bits <= 0x1000 * ONE_BITS,
        v.exact().within(0x800 * ONE_BITS),
    ensures
        ({
            let left = crate::mass_clamp::dim3::scaled_inertia(ii, s).transform(v);
            let right = ii.transform(v).scale(s);
            let bound = 3 * crate::scalar::magnitude(s.bits as int) + 0x1804 * ONE_BITS;
            &&& is_near(left.x, right.x, bound)
            &&& is_near(left.y, right.y, bound)
            &&& is_near(left.z, right.z, bound)
        }),
{
    lemma_scaled_row(ii.m11, ii.m12, ii.m13, s, v);
    lemma_scaled_row(ii.m12, ii.m22, ii.m23, s, v);
    lemma_scaled_row(ii.m13, ii.m23, ii.m33, s, v);
}

/// Scaling a planar inertia by one changes nothing.
pub proof fn scaling_planar_inertia_by_one(ii: Real)
    ensures
        ii.product(Real::one()) == ii,
{
    crate::scalar_lemmas::lemma_mul_one(ii);
}

/// Scaling an inertia of space by one changes nothing.
pub proof fn scaling_inertia_by_one(ii: SdpMatrix3<Real>)
    ensures
        crate::mass_clamp::dim3::scaled_inertia(ii, Real::one()) == ii,
{
    crate::scalar_lemmas::lemma_mul_one(ii.m11);
    crate::scalar_lemmas::lemma_mul_one(ii.m12);
    crate::scalar_lemmas::lemma_mul_one(ii.m13);
    crate::scalar_lemmas::lemma_mul_one(ii.m22);
    crate::scalar_lemmas::lemma_mul_one(ii.m23);
    crate::scalar_lemmas::lemma_mul_one(ii.m33);
}

} // verus!
