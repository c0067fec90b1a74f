//! Facts about the arithmetic of fixed-point numbers.
use crate::scalar::{Real, ONE_BITS};
use vstd::prelude::*;

verus! {

/// Rounding keeps the order.
pub proof fn lemma_round_div_ordered(a: int, b: int, d: int)
    requires
        a <= b,
        d > 0,
    ensures
        crate::scalar::round_div(a, d) <= crate::scalar::round_div(b, d),
{
    if a >= 0 {
        vstd::arithmetic::div_mod::lemma_div_is_ordered(a + d / 2, b + d / 2, d);
    } else if b < 0 {
        vstd::arithmetic::div_mod::lemma_div_is_ordered(-b + d / 2, -a + d / 2, d);
    } else {
        vstd::arithmetic::div_mod::lemma_div_pos_is_pos(-a + d / 2, d);
        vstd::arithmetic::div_mod::lemma_div_pos_is_pos(b + d / 2, d);
    }
}

/// Rounding a multiple of the divisor is exact.
pub proof fn lemma_round_div_exact(q: int, d: int)
    requires
        d > 0,
    ensures
        crate::scalar::round_div(q * d, d) == q,
{
    if q >= 0 {
        assert(q * d >= 0) by (nonlinear_arith)
            requires
                q >= 0,
                d > 0,
        ;
        assert((q * d + d / 2) / d == q) by (nonlinear_arith)
            requires
                d > 0,
        ;
    } else {
        assert(q * d < 0) by (nonlinear_arith)
            requires
                q < 0,
                d > 0,
        ;
        let p = -q;
        assert(-(q * d) == p * d) by (nonlinear_arith)
            requires
                p == -q,
        ;
        assert((p * d + d / 2) / d == p) by (nonlinear_arith)
            requires
                d > 0,
        ;
    }
}

/// Rounding moves a quotient by half a unit at most.
pub proof fn lemma_round_div_near(n: int, d: int)
    requires
        d > 0,
    ensures
        2 * crate::scalar::round_div(n, d) * d <= 2 * n + d,
        2 * crate::scalar::round_div(n, d) * d >= 2 * n - d,
{
    let m = if n >= 0 {
        n
    } else {
        -n
    };
    let q = (m + d / 2) / d;
    vstd::arithmetic::div_mod::lemma_fundamental_div_mod(m + d / 2, d);
    vstd::arithmetic::div_mod::lemma_mod_bound(m + d / 2, d);
    let r = crate::scalar::round_div(n, d);
    assert(2 * (d * q) <= 2 * m + d);
    assert(2 * (d * q) >= 2 * m - d);
    assert(r == q || r == -q);
    assert(2 * r * d == 2 * (d * r)) by (nonlinear_arith);
    assert(r == -q ==> d * r == -(d * q)) by (nonlinear_arith);
}

/// Multiplying by one changes nothing.
pub proof fn lemma_mul_one(a: Real)
    ensures
        a.mul(Real::one()) == a,
        Real::one().mul(a) == a,
{
    lemma_round_div_exact(a.bits as int, ONE_BITS as int);
}

/// Multiplying by zero gives zero.
pub proof fn lemma_mul_zero(a: Real)
    ensures
        a.mul(Real::zero()) == Real::zero(),
        Real::zero().mul(a) == Real::zero(),
{
    assert(a.bits * 0int == 0) by (nonlinear_arith);
    assert(0int * a.bits == 0) by (nonlinear_arith);
}

/// Multiplying by a factor between zero and one brings a number closer to
/// zero, on its own side.
pub proof fn lemma_mul_contracts(a: Real, f: Real)
    requires
        0 <= f.bits <= ONE_BITS,
    ensures
        a.bits >= 0 ==> 0 <= a.mul(f).bits <= a.bits,
        a.bits <= 0 ==> a.bits <= a.mul(f).bits <= 0,
{
    let (x, y, d) = (a.bits as int, f.bits as int, ONE_BITS as int);
    lemma_round_div_exact(x, d);
    lemma_round_div_exact(0, d);
    if x >= 0 {
        assert(0 * d <= x * y <= x * d) by (nonlinear_arith)
            requires
                x >= 0,
                0 <= y <= d,
        ;
        lemma_round_div_ordered(0 * d, x * y, d);
        lemma_round_div_ordered(x * y, x * d, d);
    }
    if x <= 0 {
        assert(x * d <= x * y <= 0 * d) by (nonlinear_arith)
            requires
                x <= 0,
                0 <= y <= d,
        ;
        lemma_round_div_ordered(x * d, x * y, d);
        lemma_round_div_ordered(x * y, 0 * d, d);
    }
}

/// The product of numbers that are not negative is not negative.
pub proof fn lemma_mul_not_negative(a: Real, b: Real)
    requires
        a.bits >= 0,
        b.bits >= 0,
    ensures
        a.mul(b).bits >= 0,
{
    assert(a.bits * b.bits >= 0) by (nonlinear_arith)
        requires
            a.bits >= 0,
            b.bits >= 0,
    ;
}

/// A positive number divided by itself is one.
pub proof fn lemma_div_self(a: Real)
    requires
        a.bits > 0,
    ensures
        a.div(a) == Real::one(),
{
    assert(a.bits * ONE_BITS == ONE_BITS * a.bits) by (nonlinear_arith);
    lemma_round_div_exact(ONE_BITS as int, a.bits as int);
}

/// A positive number divided by a smaller one is one at least.
pub proof fn lemma_div_smaller(a: Real, b: Real)
    requires
        0 < b.bits <= a.bits,
    ensures
        a.div(b).bits >= ONE_BITS,
{
    assert(a.bits * ONE_BITS >= ONE_BITS * b.bits) by (nonlinear_arith)
        requires
            0 < b.bits <= a.bits,
            ONE_BITS == 0x1_0000_0000,
    ;
    lemma_round_div_exact(ONE_BITS as int, b.bits as int);
    lemma_round_div_ordered(ONE_BITS * b.bits, a.bits * ONE_BITS, b.bits as int);
}

/// Multiplying by a number that is not negative keeps the side of zero.
pub proof fn lemma_mul_sign(a: Real, b: Real)
    requires
        b.bits >= 0,
    ensures
        a.bits >= 0 ==> a.mul(b).bits >= 0 && b.mul(a).bits >= 0,
        a.bits <= 0 ==> a.mul(b).bits <= 0 && b.mul(a).bits <= 0,
{
    let (x, y, d) = (a.bits as int, b.bits as int, ONE_BITS as int);
    lemma_round_div_exact(0, d);
    assert(x * y == y * x) by (nonlinear_arith);
    if x >= 0 {
        lemma_mul_not_negative(a, b);
        lemma_mul_not_negative(b, a);
    }
    if x <= 0 {
        assert(x * y <= 0) by (nonlinear_arith)
            requires
                x <= 0,
                y >= 0,
        ;
        lemma_round_div_ordered(x * y, 0 * d, d);
    }
}

/// Dividing by a number that is not negative keeps the side of zero.
pub proof fn lemma_div_sign(a: Real, b: Real)
    requires
        b.bits >= 0,
    ensures
        a.bits >= 0 ==> a.div(b).bits >= 0,
        a.bits <= 0 ==> a.div(b).bits <= 0,
{
    if b.bits > 0 {
        let (n, d) = (a.bits * ONE_BITS, b.bits as int);
        lemma_round_div_exact(0, d);
        if a.bits >= 0 {
            lemma_round_div_ordered(0 * d, n, d);
        }
        if a.bits <= 0 {
            lemma_round_div_ordered(n, 0 * d, d);
        }
    }
}

/// Rounding a quotient does not depend on a factor of both its terms.
pub proof fn lemma_round_div_cancels(n: int, d: int, k: int)
    requires
        n >= 0,
        d > 0,
        k > 0,
    ensures
        crate::scalar::round_div(k * n, k * d) == crate::scalar::round_div(n, d),
{
    lemma_round_div_doubled(n, d);
    assert(k * n >= 0 && k * d > 0) by (nonlinear_arith)
        requires
            n >= 0,
            d > 0,
            k > 0,
    ;
    lemma_round_div_doubled(k * n, k * d);
    let (a, b) = (2 * n + d, 2 * d);
    assert(2 * (k * n) + k * d == k * a) by (nonlinear_arith)
        requires
            a == 2 * n + d,
    ;
    assert(2 * (k * d) == k * b) by (nonlinear_arith)
        requires
            b == 2 * d,
    ;
    let q = a / b;
    vstd::arithmetic::div_mod::lemma_fundamental_div_mod(a, b);
    vstd::arithmetic::div_mod::lemma_mod_bound(a, b);
    let r = a % b;
    assert(k * a == q * (k * b) + k * r) by (nonlinear_arith)
        requires
            a == b * q + r,
    ;
    assert(0 <= k * r < k * b) by (nonlinear_arith)
        requires
            0 <= r < b,
            k > 0,
    ;
    vstd::arithmetic::div_mod::lemma_fundamental_div_mod_converse(k * a, k * b, q, k * r);
}

proof fn lemma_round_div_doubled(n: int, d: int)
    requires
        n >= 0,
        d > 0,
    ensures
        crate::scalar::round_div(n, d) == (2 * n + d) / (2 * d),
{
    let m = n + d / 2;
    let q = m / d;
    vstd::arithmetic::div_mod::lemma_fundamental_div_mod(m, d);
    vstd::arithmetic::div_mod::lemma_mod_bound(m, d);
    let r = m % d;
    let s = 2 * r + d % 2;
    assert(2 * n + d == 2 * m + d % 2);
    assert(2 * m + d % 2 == q * (2 * d) + s) by (nonlinear_arith)
        requires
            m == d * q + r,
            s == 2 * r + d % 2,
    ;
    vstd::arithmetic::div_mod::lemma_fundamental_div_mod_converse(2 * n + d, 2 * d, q, s);
}

/// A product whose factor changes its side changes its own, while it is in
/// range.
pub proof fn lemma_mul_opposite(a: Real, b: Real)
    requires
        i64::MIN < b.bits,
        i64::MIN < a.mul(b).bits < i64::MAX,
    ensures
        a.mul(b.neg()) == a.mul(b).neg(),
        b.neg().mul(a) == a.mul(b).neg(),
{
    let (x, y, d) = (a.bits as int, b.bits as int, ONE_BITS as int);
    assert(x * (-y) == -(x * y)) by (nonlinear_arith);
    assert((-y) * x == -(x * y)) by (nonlinear_arith);
    assert(crate::scalar::round_div(-(x * y), d) == -crate::scalar::round_div(x * y, d));
}

/// A product that is not at the end of the range is within half a unit of the
/// exact one.
pub proof fn lemma_mul_within_half(a: Real, b: Real)
    requires
        i64::MIN < a.mul(b).bits < i64::MAX,
    ensures
        -ONE_BITS <= 2 * (a.mul(b).bits * ONE_BITS) - 2 * (a.bits * b.bits) <= ONE_BITS,
{
    let (n, d) = (a.bits * b.bits, ONE_BITS as int);
    let q = crate::scalar::round_div(n, d);
    lemma_round_div_near(n, d);
    assert(2 * q * d == 2 * (q * d)) by (nonlinear_arith);
}

/// A quotient that is not at the end of the range, times its divisor, is the
/// dividend up to half of the divisor.
pub proof fn lemma_div_within_half(a: Real, b: Real)
    requires
        b.bits != 0,
        i64::MIN < a.div(b).bits < i64::MAX,
    ensures
        ({
            let size = crate::scalar::magnitude(b.bits as int);
            -size <= 2 * (a.div(b).bits * b.bits) - 2 * (a.bits * ONE_BITS) <= size
        }),
{
    let (x, y) = (a.bits as int, b.bits as int);
    if y > 0 {
        let q = crate::scalar::round_div(x * ONE_BITS, y);
        lemma_round_div_near(x * ONE_BITS, y);
        assert(2 * q * y == 2 * (q * y)) by (nonlinear_arith);
    } else {
        let q = crate::scalar::round_div(-x * ONE_BITS, -y);
        lemma_round_div_near(-x * ONE_BITS, -y);
        assert(2 * q * (-y) == -(2 * (q * y))) by (nonlinear_arith);
    }
}

/// The share of a number is in range.
pub proof fn lemma_product_in_range(x: int, y: int)
    requires
        i64::MIN <= x <= i64::MAX,
        0 <= y <= ONE_BITS,
    ensures
        i64::MIN <= crate::scalar::round_div(x * y, ONE_BITS as int) <= i64::MAX,
{
    let d = ONE_BITS as int;
    lemma_round_div_exact(x, d);
    lemma_round_div_exact(0, d);
    if x >= 0 {
        assert(0 * d <= x * y <= x * d) by (nonlinear_arith)
            requires
                x >= 0,
                0 <= y <= d,
        ;
        lemma_round_div_ordered(0 * d, x * y, d);
        lemma_round_div_ordered(x * y, x * d, d);
    } else {
        assert(x * d <= x * y <= 0 * d) by (nonlinear_arith)
            requires
                x <= 0,
                0 <= y <= d,
        ;
        lemma_round_div_ordered(x * d, x * y, d);
        lemma_round_div_ordered(x * y, 0 * d, d);
    }
}

} // verus!
