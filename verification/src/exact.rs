//! Exact vectors of integers, and how far rounded operations are from them.
use crate::math::{SdpMatrix3, Vector};
use crate::scalar::{Real, ONE_BITS};
use vstd::prelude::*;

verus! {

/// A vector of integers.
pub struct Exact {
    pub x: int,
    pub y: int,
    pub z: int,
}

impl Exact {
    pub open spec fn plus(self, rhs: Exact) -> Exact {
        Exact { x: self.x + rhs.x, y: self.y + rhs.y, z: self.z + rhs.z }
    }

    pub open spec fn minus(self, rhs: Exact) -> Exact {
        Exact { x: self.x - rhs.x, y: self.y - rhs.y, z: self.z - rhs.z }
    }

    pub open spec fn times(self, k: int) -> Exact {
        Exact { x: self.x * k, y: self.y * k, z: self.z * k }
    }

    pub open spec fn dot(self, rhs: Exact) -> int {
        self.x * rhs.x + self.y * rhs.y + self.z * rhs.z
    }

    pub open spec fn cross(self, rhs: Exact) -> Exact {
        Exact {
            x: self.y * rhs.z - self.z * rhs.y,
            y: self.z * rhs.x - self.x * rhs.z,
            z: self.x * rhs.y - self.y * rhs.x,
        }
    }

    /// The product of a symmetric matrix, in units, and this vector.
    pub open spec fn under(self, m: SdpMatrix3<Real>) -> Exact {
        Exact {
            x: m.m11.bits * self.x + m.m12.bits * self.y + m.m13.bits * self.z,
            y: m.m12.bits * self.x + m.m22.bits * self.y + m.m23.bits * self.z,
            z: m.m13.bits * self.x + m.m23.bits * self.y + m.m33.bits * self.z,
        }
    }

    /// Whether no coordinate is larger than `b` in magnitude.
    pub open spec fn within(self, b: int) -> bool {
        &&& -b <= self.x <= b
        &&& -b <= self.y <= b
        &&& -b <= self.z <= b
    }
}

impl Vector {
    /// The coordinates, in units.
    pub open spec fn exact(self) -> Exact {
        Exact { x: self.x.bits as int, y: self.y.bits as int, z: self.z.bits as int }
    }
}

/// Whether no component of the matrix is larger than `b` units in magnitude.
pub open spec fn matrix_within(m: SdpMatrix3<Real>, b: int) -> bool {
    &&& -b <= m.m11.bits <= b
    &&& -b <= m.m12.bits <= b
    &&& -b <= m.m13.bits <= b
    &&& -b <= m.m22.bits <= b
    &&& -b <= m.m23.bits <= b
    &&& -b <= m.m33.bits <= b
}

/// A product is bounded by the product of the bounds.
pub proof fn lemma_product_bound(a: int, b: int, p: int, q: int)
    requires
        -p <= a <= p,
        -q <= b <= q,
    ensures
        -(p * q) <= a * b <= p * q,
{
    assert(-(p * q) <= a * b <= p * q) by (nonlinear_arith)
        requires
            -p <= a <= p,
            -q <= b <= q,
    ;
}

pub proof fn lemma_dot_bound(a: Exact, b: Exact, p: int, q: int)
    requires
        a.within(p),
        b.within(q),
    ensures
        -(3 * (p * q)) <= a.dot(b) <= 3 * (p * q),
{
    lemma_product_bound(a.x, b.x, p, q);
    lemma_product_bound(a.y, b.y, p, q);
    lemma_product_bound(a.z, b.z, p, q);
}

pub proof fn lemma_cross_bound(a: Exact, b: Exact, p: int, q: int)
    requires
        a.within(p),
        b.within(q),
    ensures
        a.cross(b).within(2 * (p * q)),
{
    lemma_product_bound(a.y, b.z, p, q);
    lemma_product_bound(a.z, b.y, p, q);
    lemma_product_bound(a.z, b.x, p, q);
    lemma_product_bound(a.x, b.z, p, q);
    lemma_product_bound(a.x, b.y, p, q);
    lemma_product_bound(a.y, b.x, p, q);
}

pub proof fn lemma_under_bound(m: SdpMatrix3<Real>, a: Exact, p: int, q: int)
    requires
        matrix_within(m, p),
        a.within(q),
    ensures
        a.under(m).within(3 * (p * q)),
{
    lemma_product_bound(m.m11.bits as int, a.x, p, q);
    lemma_product_bound(m.m12.bits as int, a.y, p, q);
    lemma_product_bound(m.m13.bits as int, a.z, p, q);
    lemma_product_bound(m.m12.bits as int, a.x, p, q);
    lemma_product_bound(m.m22.bits as int, a.y, p, q);
    lemma_product_bound(m.m23.bits as int, a.z, p, q);
    lemma_product_bound(m.m13.bits as int, a.x, p, q);
    lemma_product_bound(m.m23.bits as int, a.y, p, q);
    lemma_product_bound(m.m33.bits as int, a.z, p, q);
}

/// The dot product is linear in its second factor.
pub proof fn lemma_dot_linear(a: Exact, b: Exact, c: Exact, k: int)
    ensures
        a.dot(b.plus(c)) == a.dot(b) + a.dot(c),
        a.dot(b.times(k)) == a.dot(b) * k,
        a.dot(b) == b.dot(a),
{
    let (ax, ay, az, bx, by, bz, cx, cy, cz) = (a.x, a.y, a.z, b.x, b.y, b.z, c.x, c.y, c.z);
    assert(ax * (bx + cx) + ay * (by + cy) + az * (bz + cz) == (ax * bx + ay * by + az * bz) + (ax
        * cx + ay * cy + az * cz)) by (nonlinear_arith);
    assert(ax * (bx * k) + ay * (by * k) + az * (bz * k) == (ax * bx + ay * by + az * bz) * k)
        by (nonlinear_arith);
    assert(ax * bx + ay * by + az * bz == bx * ax + by * ay + bz * az) by (nonlinear_arith);
}

/// The cross product is linear in its second factor.
pub proof fn lemma_cross_linear(a: Exact, b: Exact, c: Exact, k: int)
    ensures
        a.cross(b.plus(c)) == a.cross(b).plus(a.cross(c)),
        a.cross(b.times(k)) == a.cross(b).times(k),
{
    let (ax, ay, az, bx, by, bz, cx, cy, cz) = (a.x, a.y, a.z, b.x, b.y, b.z, c.x, c.y, c.z);
    lemma_det_linear(ay, az, by, bz, cy, cz, k);
    lemma_det_linear(az, ax, bz, bx, cz, cx, k);
    lemma_det_linear(ax, ay, bx, by, cx, cy, k);
}

proof fn lemma_det_linear(p: int, q: int, b: int, c: int, d: int, e: int, k: int)
    ensures
        p * (c + e) - q * (b + d) == (p * c - q * b) + (p * e - q * d),
        p * (c * k) - q * (b * k) == (p * c - q * b) * k,
{
    assert(p * (c + e) - q * (b + d) == (p * c - q * b) + (p * e - q * d)) by (nonlinear_arith);
    assert(p * (c * k) - q * (b * k) == (p * c - q * b) * k) by (nonlinear_arith);
}

/// The cross product is linear in its first factor.
pub proof fn lemma_cross_linear_left(a: Exact, b: Exact, c: Exact, k: int)
    ensures
        b.plus(c).cross(a) == b.cross(a).plus(c.cross(a)),
        b.minus(c).cross(a) == b.cross(a).minus(c.cross(a)),
        b.times(k).cross(a) == b.cross(a).times(k),
{
    let (ax, ay, az, bx, by, bz, cx, cy, cz) = (a.x, a.y, a.z, b.x, b.y, b.z, c.x, c.y, c.z);
    lemma_det_linear_left(ay, az, by, bz, cy, cz, k);
    lemma_det_linear_left(az, ax, bz, bx, cz, cx, k);
    lemma_det_linear_left(ax, ay, bx, by, cx, cy, k);
}

proof fn lemma_det_linear_left(p: int, q: int, b: int, c: int, d: int, e: int, k: int)
    ensures
        (b + d) * q - (c + e) * p == (b * q - c * p) + (d * q - e * p),
        (b - d) * q - (c - e) * p == (b * q - c * p) - (d * q - e * p),
        (b * k) * q - (c * k) * p == (b * q - c * p) * k,
{
    assert((b + d) * q - (c + e) * p == (b * q - c * p) + (d * q - e * p)) by (nonlinear_arith);
    assert((b - d) * q - (c - e) * p == (b * q - c * p) - (d * q - e * p)) by (nonlinear_arith);
    assert((b * k) * q - (c * k) * p == (b * q - c * p) * k) by (nonlinear_arith);
}

/// A matrix is linear.
pub proof fn lemma_under_linear(m: SdpMatrix3<Real>, a: Exact, b: Exact, k: int)
    ensures
        a.plus(b).under(m) == a.under(m).plus(b.under(m)),
        a.times(k).under(m) == a.under(m).times(k),
{
    let (p, q, r, s, t, u) = (
        m.m11.bits as int,
        m.m12.bits as int,
        m.m13.bits as int,
        m.m22.bits as int,
        m.m23.bits as int,
        m.m33.bits as int,
    );
    lemma_row_linear(p, q, r, a, b, k);
    lemma_row_linear(q, s, t, a, b, k);
    lemma_row_linear(r, t, u, a, b, k);
}

proof fn lemma_row_linear(p: int, q: int, r: int, a: Exact, b: Exact, k: int)
    ensures
        p * (a.x + b.x) + q * (a.y + b.y) + r * (a.z + b.z) == (p * a.x + q * a.y + r * a.z) + (p
            * b.x + q * b.y + r * b.z),
        p * (a.x * k) + q * (a.y * k) + r * (a.z * k) == (p * a.x + q * a.y + r * a.z) * k,
{
    lemma_dot_linear(Exact { x: p, y: q, z: r }, a, b, k);
}

proof fn lemma_box_term(n: int, a: int, r: int, b: int, s: int)
    ensures
        n * (a * r - b * s) == a * (r * n) - b * (s * n),
{
    assert(n * (a * r - b * s) == a * (r * n) - b * (s * n)) by (nonlinear_arith);
}

proof fn lemma_spread(a: int, b: int, c: int)
    ensures
        a * (b - c) == a * b - a * c,
{
    assert(a * (b - c) == a * b - a * c) by (nonlinear_arith);
}

proof fn lemma_row_term(p: int, q: int, r: int, a: int, b: int, c: int, k: int)
    ensures
        (p * a + q * b + r * c) * k == p * (a * k) + q * (b * k) + r * (c * k),
{
    assert((p * a + q * b + r * c) * k == p * (a * k) + q * (b * k) + r * (c * k))
        by (nonlinear_arith);
}

/// The box product does not change when its factors turn around.
pub proof fn lemma_box_product(n: Exact, a: Exact, r: Exact)
    ensures
        n.dot(a.cross(r)) == a.dot(r.cross(n)),
{
    let (nx, ny, nz, ax, ay, az, rx, ry, rz) = (n.x, n.y, n.z, a.x, a.y, a.z, r.x, r.y, r.z);
    lemma_box_term(nx, ay, rz, az, ry);
    lemma_box_term(ny, az, rx, ax, rz);
    lemma_box_term(nz, ax, ry, ay, rx);
    lemma_spread(ax, ry * nz, rz * ny);
    lemma_spread(ay, rz * nx, rx * nz);
    lemma_spread(az, rx * ny, ry * nx);
}

/// A cross product is perpendicular to its first factor.
pub proof fn lemma_cross_perpendicular(n: Exact, v: Exact)
    ensures
        n.dot(n.cross(v)) == 0,
{
    lemma_box_product(n, n, v);
    vstd::arithmetic::mul::lemma_mul_is_commutative(n.x, v.y);
    vstd::arithmetic::mul::lemma_mul_is_commutative(n.y, v.x);
    vstd::arithmetic::mul::lemma_mul_is_commutative(n.y, v.z);
    vstd::arithmetic::mul::lemma_mul_is_commutative(n.z, v.y);
    vstd::arithmetic::mul::lemma_mul_is_commutative(n.z, v.x);
    vstd::arithmetic::mul::lemma_mul_is_commutative(n.x, v.z);
    assert(v.cross(n) == n.cross(v).times(-1));
    lemma_dot_linear(n, n.cross(v), v, -1);
}

/// Exchanging the factors of a cross product negates it.
pub proof fn lemma_cross_exchanged(a: Exact, b: Exact)
    ensures
        b.cross(a) == a.cross(b).times(-1),
{
    vstd::arithmetic::mul::lemma_mul_is_commutative(a.x, b.y);
    vstd::arithmetic::mul::lemma_mul_is_commutative(a.y, b.x);
    vstd::arithmetic::mul::lemma_mul_is_commutative(a.y, b.z);
    vstd::arithmetic::mul::lemma_mul_is_commutative(a.z, b.y);
    vstd::arithmetic::mul::lemma_mul_is_commutative(a.z, b.x);
    vstd::arithmetic::mul::lemma_mul_is_commutative(a.x, b.z);
}

proof fn lemma_twice_crossed_term(p: int, q: int, r: int, a: int, b: int, c: int, x: int, y: int, z: int)
    ensures
        q * (x * b - y * a) - r * (z * a - x * c) == x * (p * a + q * b + r * c) - a * (p * x + q
            * y + r * z),
{
    assert(q * (x * b - y * a) == x * (q * b) - a * (q * y)) by (nonlinear_arith);
    assert(r * (z * a - x * c) == a * (r * z) - x * (r * c)) by (nonlinear_arith);
    assert(x * (p * a + q * b + r * c) == x * (p * a) + x * (q * b) + x * (r * c))
        by (nonlinear_arith);
    assert(a * (p * x + q * y + r * z) == a * (p * x) + a * (q * y) + a * (r * z))
        by (nonlinear_arith);
    assert(x * (p * a) == a * (p * x)) by (nonlinear_arith);
}

/// A cross product with a cross product lies in the plane of that one's
/// factors.
pub proof fn lemma_twice_crossed(b: Exact, u: Exact, a: Exact)
    ensures
        b.cross(u.cross(a)) == u.times(b.dot(a)).minus(a.times(b.dot(u))),
{
    lemma_twice_crossed_term(b.x, b.y, b.z, a.x, a.y, a.z, u.x, u.y, u.z);
    lemma_twice_crossed_term(b.y, b.z, b.x, a.y, a.z, a.x, u.y, u.z, u.x);
    lemma_twice_crossed_term(b.z, b.x, b.y, a.z, a.x, a.y, u.z, u.x, u.y);
}

/// The dot product of two cross products that share a factor perpendicular to
/// the others.
pub proof fn lemma_shared_factor(u: Exact, a: Exact, b: Exact)
    requires
        u.dot(a) == 0,
    ensures
        u.cross(a).dot(u.cross(b)) == a.dot(b) * u.dot(u),
{
    lemma_box_product(u.cross(a), u, b);
    lemma_twice_crossed(b, u, a);
    lemma_dot_linear(u, u, u, b.dot(a));
    lemma_dot_linear(u, a, a, -b.dot(u));
    assert(a.times(b.dot(u)) == a.times(-b.dot(u)).times(-1)) by {
        lemma_opposite_product(a.x, b.dot(u));
        lemma_opposite_product(a.y, b.dot(u));
        lemma_opposite_product(a.z, b.dot(u));
    }
    lemma_dot_linear(u, u.times(b.dot(a)), a.times(-b.dot(u)), 0);
    assert(u.times(b.dot(a)).minus(a.times(b.dot(u))) == u.times(b.dot(a)).plus(
        a.times(-b.dot(u)),
    ));
    lemma_dot_linear(a, b, b, 0);
    assert(0 * -b.dot(u) == 0) by (nonlinear_arith);
    vstd::arithmetic::mul::lemma_mul_is_commutative(u.dot(u), a.dot(b));
}

proof fn lemma_opposite_product(x: int, k: int)
    ensures
        x * k == -(x * -k),
{
    assert(x * k == -(x * -k)) by (nonlinear_arith);
}

/// A symmetric matrix can be moved to the other factor of a dot product.
pub proof fn lemma_under_symmetric(m: SdpMatrix3<Real>, a: Exact, b: Exact)
    ensures
        a.under(m).dot(b) == b.under(m).dot(a),
{
    let (p, q, r, s, t, u) = (
        m.m11.bits as int,
        m.m12.bits as int,
        m.m13.bits as int,
        m.m22.bits as int,
        m.m23.bits as int,
        m.m33.bits as int,
    );
    let (ax, ay, az, bx, by, bz) = (a.x, a.y, a.z, b.x, b.y, b.z);
    lemma_row_term(p, q, r, ax, ay, az, bx);
    lemma_row_term(q, s, t, ax, ay, az, by);
    lemma_row_term(r, t, u, ax, ay, az, bz);
    lemma_row_term(p, q, r, bx, by, bz, ax);
    lemma_row_term(q, s, t, bx, by, bz, ay);
    lemma_row_term(r, t, u, bx, by, bz, az);
    vstd::arithmetic::mul::lemma_mul_is_commutative(ax, bx);
    vstd::arithmetic::mul::lemma_mul_is_commutative(ax, by);
    vstd::arithmetic::mul::lemma_mul_is_commutative(ax, bz);
    vstd::arithmetic::mul::lemma_mul_is_commutative(ay, bx);
    vstd::arithmetic::mul::lemma_mul_is_commutative(ay, by);
    vstd::arithmetic::mul::lemma_mul_is_commutative(ay, bz);
    vstd::arithmetic::mul::lemma_mul_is_commutative(az, bx);
    vstd::arithmetic::mul::lemma_mul_is_commutative(az, by);
    vstd::arithmetic::mul::lemma_mul_is_commutative(az, bz);
}

/// The largest product of units whose rounded sums stay in range.
pub open spec fn product_limit() -> int {
    0x2000_0000_0000_0000 * ONE_BITS
}

/// A rounded product is within one unit of the exact one.
pub proof fn lemma_mul_near(a: Real, b: Real)
    requires
        -product_limit() <= a.bits * b.bits <= product_limit(),
    ensures
        -ONE_BITS <= a.mul(b).bits * ONE_BITS - a.bits * b.bits <= ONE_BITS,
        -0x2000_0000_0000_0001 <= a.mul(b).bits <= 0x2000_0000_0000_0001,
{
    let n = a.bits * b.bits;
    let d = ONE_BITS as int;
    let q = crate::scalar::round_div(n, d);
    crate::scalar_lemmas::lemma_round_div_near(n, d);
    assert(2 * q * d == 2 * (q * d)) by (nonlinear_arith);
    assert(-0x2000_0000_0000_0001 <= q <= 0x2000_0000_0000_0001) by (nonlinear_arith)
        requires
            2 * (q * d) <= 2 * n + d,
            2 * (q * d) >= 2 * n - d,
            -(0x2000_0000_0000_0000 * d) <= n <= 0x2000_0000_0000_0000 * d,
            d == 0x1_0000_0000,
    ;
}

/// The product of bounded numbers is within one unit of the exact one.
pub proof fn lemma_bounded_mul_near(a: Real, b: Real, p: int, q: int)
    requires
        -p <= a.bits <= p,
        -q <= b.bits <= q,
        p * q <= product_limit(),
    ensures
        -ONE_BITS <= a.mul(b).bits * ONE_BITS - a.bits * b.bits <= ONE_BITS,
        -0x2000_0000_0000_0001 <= a.mul(b).bits <= 0x2000_0000_0000_0001,
{
    lemma_product_bound(a.bits as int, b.bits as int, p, q);
    lemma_mul_near(a, b);
}

/// A scaled vector is within one unit of the exact one.
pub proof fn lemma_scale_near(v: Vector, k: Real, p: int, q: int)
    requires
        v.exact().within(p),
        -q <= k.bits <= q,
        p * q <= product_limit(),
    ensures
        v.scale(k).exact().times(ONE_BITS as int).minus(v.exact().times(k.bits as int)).within(
            ONE_BITS as int,
        ),
{
    lemma_bounded_mul_near(v.x, k, p, q);
    lemma_bounded_mul_near(v.y, k, p, q);
    lemma_bounded_mul_near(v.z, k, p, q);
}

/// A rounded dot product is within three units of the exact one.
pub proof fn lemma_dot_near(a: Vector, b: Vector, p: int, q: int)
    requires
        a.exact().within(p),
        b.exact().within(q),
        p * q <= product_limit(),
    ensures
        -3 * ONE_BITS <= a.dot(b).bits * ONE_BITS - a.exact().dot(b.exact()) <= 3 * ONE_BITS,
{
    lemma_bounded_mul_near(a.x, b.x, p, q);
    lemma_bounded_mul_near(a.y, b.y, p, q);
    lemma_bounded_mul_near(a.z, b.z, p, q);
}

/// A rounded cross product is within two units of the exact one.
pub proof fn lemma_cross_near(a: Vector, b: Vector, p: int, q: int)
    requires
        a.exact().within(p),
        b.exact().within(q),
        p * q <= product_limit(),
    ensures
        a.cross(b).exact().times(ONE_BITS as int).minus(a.exact().cross(b.exact())).within(
            2 * ONE_BITS,
        ),
{
    lemma_bounded_mul_near(a.y, b.z, p, q);
    lemma_bounded_mul_near(a.z, b.y, p, q);
    lemma_bounded_mul_near(a.z, b.x, p, q);
    lemma_bounded_mul_near(a.x, b.z, p, q);
    lemma_bounded_mul_near(a.x, b.y, p, q);
    lemma_bounded_mul_near(a.y, b.x, p, q);
}

/// A rounded product of a matrix and a vector is within three units of the
/// exact one.
pub proof fn lemma_transform_near(m: SdpMatrix3<Real>, v: Vector, p: int, q: int)
    requires
        matrix_within(m, p),
        v.exact().within(q),
        p * q <= product_limit(),
    ensures
        m.transform(v).exact().times(ONE_BITS as int).minus(v.exact().under(m)).within(
            3 * ONE_BITS,
        ),
{
    lemma_bounded_mul_near(m.m11, v.x, p, q);
    lemma_bounded_mul_near(m.m12, v.y, p, q);
    lemma_bounded_mul_near(m.m13, v.z, p, q);
    lemma_bounded_mul_near(m.m12, v.x, p, q);
    lemma_bounded_mul_near(m.m22, v.y, p, q);
    lemma_bounded_mul_near(m.m23, v.z, p, q);
    lemma_bounded_mul_near(m.m13, v.x, p, q);
    lemma_bounded_mul_near(m.m23, v.y, p, q);
    lemma_bounded_mul_near(m.m33, v.z, p, q);
}

} // verus!
