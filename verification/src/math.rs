//! Vectors, rotations, isometries and symmetric matrices of [`Real`]s.
use crate::scalar::{is_longer, length_of, Real};
use crate::transcendental::{cos, sin};
use vstd::prelude::*;

verus! {

/// The half angle, in units, up to which a rotation is taken for none: the
/// machine epsilon of single-precision numbers, which is `2^-23`.
pub const NO_ROTATION_BITS: i64 = 512;

/// A vector, or a point given by its coordinates.
#[derive(Clone, Copy, Debug, PartialEq, Eq, Structural)]
pub struct Vector {
    pub x: Real,
    pub y: Real,
    pub z: Real,
}

/// A point of space.
pub type Point = Vector;

/// A unit quaternion `x i + y j + z k + w`.
#[derive(Clone, Copy, Debug, PartialEq, Eq, Structural)]
pub struct Rotation {
    pub x: Real,
    pub y: Real,
    pub z: Real,
    pub w: Real,
}

/// A rotation followed by a translation.
#[derive(Clone, Copy, Debug, PartialEq, Eq, Structural)]
pub struct Isometry {
    pub translation: Vector,
    pub rotation: Rotation,
}

/// A symmetric 3x3 matrix.
#[derive(Clone, Copy, Debug, PartialEq, Eq, Structural)]
pub struct SdpMatrix3<N> {
    pub m11: N,
    pub m12: N,
    pub m13: N,
    pub m22: N,
    pub m23: N,
    pub m33: N,
}

impl Vector {
    pub open spec fn spec_new(x: Real, y: Real, z: Real) -> Vector {
        Vector { x, y, z }
    }

    /// The vector of the given coordinates.
    #[verifier::when_used_as_spec(spec_new)]
    pub fn new(x: Real, y: Real, z: Real) -> (r: Vector)
        ensures
            r == Vector::spec_new(x, y, z),
    {
        Vector { x, y, z }
    }

    pub open spec fn spec_zeros() -> Vector {
        Vector { x: Real::zero(), y: Real::zero(), z: Real::zero() }
    }

    /// The null vector.
    #[verifier::when_used_as_spec(spec_zeros)]
    pub fn zeros() -> (r: Vector)
        ensures
            r == Vector::spec_zeros(),
    {
        Vector { x: Real::zero(), y: Real::zero(), z: Real::zero() }
    }

    pub open spec fn spec_ith(i: usize, val: Real) -> Vector {
        Vector {
            x: if i == 0 { val } else { Real::zero() },
            y: if i == 1 { val } else { Real::zero() },
            z: if i == 2 { val } else { Real::zero() },
        }
    }

    /// The vector with `val` as its `i`-th coordinate and zero elsewhere.
    #[verifier::when_used_as_spec(spec_ith)]
    pub fn ith(i: usize, val: Real) -> (r: Vector)
        requires
            i < 3,
        ensures
            r == Vector::spec_ith(i, val),
    {
        if i == 0 {
            Vector { x: val, y: Real::zero(), z: Real::zero() }
        } else if i == 1 {
            Vector { x: Real::zero(), y: val, z: Real::zero() }
        } else {
            Vector { x: Real::zero(), y: Real::zero(), z: val }
        }
    }

    pub open spec fn spec_add(self, rhs: Vector) -> Vector {
        Vector { x: self.x.add(rhs.x), y: self.y.add(rhs.y), z: self.z.add(rhs.z) }
    }

    /// The sum.
    #[verifier::when_used_as_spec(spec_add)]
    pub fn add(self, rhs: Vector) -> (r: Vector)
        ensures
            r == self.spec_add(rhs),
    {
        Vector { x: self.x.add(rhs.x), y: self.y.add(rhs.y), z: self.z.add(rhs.z) }
    }

    pub open spec fn spec_sub(self, rhs: Vector) -> Vector {
        Vector { x: self.x.sub(rhs.x), y: self.y.sub(rhs.y), z: self.z.sub(rhs.z) }
    }

    /// The difference.
    #[verifier::when_used_as_spec(spec_sub)]
    pub fn sub(self, rhs: Vector) -> (r: Vector)
        ensures
            r == self.spec_sub(rhs),
    {
        Vector { x: self.x.sub(rhs.x), y: self.y.sub(rhs.y), z: self.z.sub(rhs.z) }
    }

    pub open spec fn spec_neg(self) -> Vector {
        Vector { x: self.x.neg(), y: self.y.neg(), z: self.z.neg() }
    }

    /// The opposite.
    #[verifier::when_used_as_spec(spec_neg)]
    pub fn neg(self) -> (r: Vector)
        ensures
            r == self.spec_neg(),
    {
        Vector { x: self.x.neg(), y: self.y.neg(), z: self.z.neg() }
    }

    pub open spec fn spec_scale(self, factor: Real) -> Vector {
        Vector { x: self.x.mul(factor), y: self.y.mul(factor), z: self.z.mul(factor) }
    }

    /// Each coordinate multiplied by `factor`.
    #[verifier::when_used_as_spec(spec_scale)]
    pub fn scale(self, factor: Real) -> (r: Vector)
        ensures
            r == self.spec_scale(factor),
    {
        Vector { x: self.x.mul(factor), y: self.y.mul(factor), z: self.z.mul(factor) }
    }

    pub open spec fn spec_unscale(self, divisor: Real) -> Vector {
        Vector { x: self.x.div(divisor), y: self.y.div(divisor), z: self.z.div(divisor) }
    }

    /// Each coordinate divided by `divisor`.
    #[verifier::when_used_as_spec(spec_unscale)]
    pub fn unscale(self, divisor: Real) -> (r: Vector)
        ensures
            r == self.spec_unscale(divisor),
    {
        Vector { x: self.x.div(divisor), y: self.y.div(divisor), z: self.z.div(divisor) }
    }

    pub open spec fn spec_component_mul(self, rhs: Vector) -> Vector {
        Vector { x: self.x.mul(rhs.x), y: self.y.mul(rhs.y), z: self.z.mul(rhs.z) }
    }

    /// The coordinate-wise product.
    #[verifier::when_used_as_spec(spec_component_mul)]
    pub fn component_mul(self, rhs: Vector) -> (r: Vector)
        ensures
            r == self.spec_component_mul(rhs),
    {
        Vector { x: self.x.mul(rhs.x), y: self.y.mul(rhs.y), z: self.z.mul(rhs.z) }
    }

    pub open spec fn spec_dot(self, rhs: Vector) -> Real {
        self.x.mul(rhs.x).add(self.y.mul(rhs.y)).add(self.z.mul(rhs.z))
    }

    /// The dot product.
    #[verifier::when_used_as_spec(spec_dot)]
    pub fn dot(self, rhs: Vector) -> (r: Real)
        ensures
            r == self.spec_dot(rhs),
    {
        self.x.mul(rhs.x).add(self.y.mul(rhs.y)).add(self.z.mul(rhs.z))
    }

    pub open spec fn spec_cross(self, rhs: Vector) -> Vector {
        Vector {
            x: self.y.mul(rhs.z).sub(self.z.mul(rhs.y)),
            y: self.z.mul(rhs.x).sub(self.x.mul(rhs.z)),
            z: self.x.mul(rhs.y).sub(self.y.mul(rhs.x)),
        }
    }

    /// The cross product.
    #[verifier::when_used_as_spec(spec_cross)]
    pub fn cross(self, rhs: Vector) -> (r: Vector)
        ensures
            r == self.spec_cross(rhs),
    {
        Vector {
            x: self.y.mul(rhs.z).sub(self.z.mul(rhs.y)),
            y: self.z.mul(rhs.x).sub(self.x.mul(rhs.z)),
            z: self.x.mul(rhs.y).sub(self.y.mul(rhs.x)),
        }
    }

    /// The sum of the squares of the coordinates, in squared units.
    pub open spec fn squared_units(self) -> nat {
        (self.x.bits * self.x.bits + self.y.bits * self.y.bits + self.z.bits * self.z.bits) as nat
    }

    pub open spec fn spec_norm(self) -> Real {
        Real::of(crate::scalar::floor_sqrt(self.squared_units()) as int)
    }

    /// The length, rounded down.
    #[verifier::when_used_as_spec(spec_norm)]
    pub fn norm(self) -> (r: Real)
        ensures
            r == self.spec_norm(),
    {
        length_of(self.x.bits, self.y.bits, self.z.bits)
    }

    pub open spec fn spec_try_normalize(self, min_norm: Real) -> Option<Vector> {
        if self.norm().le(min_norm) {
            None
        } else {
            Some(self.unscale(self.norm()))
        }
    }

    /// The vector divided by its length, if that is larger than `min_norm`.
    #[verifier::when_used_as_spec(spec_try_normalize)]
    pub fn try_normalize(self, min_norm: Real) -> (r: Option<Vector>)
        ensures
            r == self.spec_try_normalize(min_norm),
    {
        let n = self.norm();
        if n.le(min_norm) {
            None
        } else {
            Some(self.unscale(n))
        }
    }
}

impl Rotation {
    pub open spec fn spec_identity() -> Rotation {
        Rotation { x: Real::zero(), y: Real::zero(), z: Real::zero(), w: Real::one() }
    }

    /// The rotation that moves nothing.
    #[verifier::when_used_as_spec(spec_identity)]
    pub fn identity() -> (r: Rotation)
        ensures
            r == Rotation::spec_identity(),
    {
        Rotation { x: Real::zero(), y: Real::zero(), z: Real::zero(), w: Real::one() }
    }

    /// The coordinates of `i`, `j` and `k`.
    pub open spec fn imaginary(self) -> Vector {
        Vector { x: self.x, y: self.y, z: self.z }
    }

    pub open spec fn spec_rotate(self, v: Vector) -> Vector {
        let t = self.imaginary().cross(v).scale(Real::ratio(2, 1));
        t.scale(self.w).add(self.imaginary().cross(t)).add(v)
    }

    /// The vector turned by this rotation.
    #[verifier::when_used_as_spec(spec_rotate)]
    pub fn rotate(self, v: Vector) -> (r: Vector)
        ensures
            r == self.spec_rotate(v),
    {
        let u = Vector { x: self.x, y: self.y, z: self.z };
        let t = u.cross(v).scale(Real::ratio(2, 1));
        t.scale(self.w).add(u.cross(t)).add(v)
    }

    /// Half of a scaled axis, as the imaginary part of a quaternion's logarithm.
    pub open spec fn half_axis(axisangle: Vector) -> Vector {
        axisangle.unscale(Real::ratio(2, 1))
    }

    /// Whether half of a scaled axis is too short to turn around.
    pub open spec fn is_no_rotation(half: Vector) -> bool {
        half.x.bits * half.x.bits + half.y.bits * half.y.bits + half.z.bits * half.z.bits
            <= NO_ROTATION_BITS * NO_ROTATION_BITS
    }

    pub open spec fn spec_from_half_axis(half: Vector, sin: Real, cos: Real) -> Rotation {
        if Rotation::is_no_rotation(half) {
            Rotation::identity()
        } else {
            let v = half.scale(sin.div(half.norm()));
            Rotation { x: v.x, y: v.y, z: v.z, w: cos }
        }
    }

    /// The rotation around `half` by twice its length, given the sine and the
    /// cosine of that length; none at all if `half` is no longer than
    /// [`NO_ROTATION_BITS`].
    #[verifier::when_used_as_spec(spec_from_half_axis)]
    pub fn from_half_axis(half: Vector, sin: Real, cos: Real) -> (r: Rotation)
        ensures
            r == Rotation::spec_from_half_axis(half, sin, cos),
    {
        if is_longer(half.x.bits, half.y.bits, half.z.bits, NO_ROTATION_BITS) {
            let v = half.scale(sin.div(half.norm()));
            Rotation { x: v.x, y: v.y, z: v.z, w: cos }
        } else {
            Rotation::identity()
        }
    }

    pub open spec fn spec_new(axisangle: Vector) -> Rotation {
        let half = Rotation::half_axis(axisangle);
        Rotation::from_half_axis(
            half,
            Real { bits: crate::transcendental::fixed_sin(half.norm().bits) },
            Real { bits: crate::transcendental::fixed_cos(half.norm().bits) },
        )
    }

    /// The rotation around `axisangle` by its length, or none if half of it is
    /// no longer than [`NO_ROTATION_BITS`].
    #[verifier::when_used_as_spec(spec_new)]
    pub fn new(axisangle: Vector) -> (r: Rotation)
        ensures
            r == Rotation::spec_new(axisangle),
    {
        let half = axisangle.unscale(Real::ratio(2, 1));
        let n = half.norm();
        Rotation::from_half_axis(half, sin(n), cos(n))
    }
}

impl Isometry {
    pub open spec fn spec_transform_vector(self, v: Vector) -> Vector {
        self.rotation.rotate(v)
    }

    /// The image of a vector: it is turned and not translated.
    #[verifier::when_used_as_spec(spec_transform_vector)]
    pub fn transform_vector(self, v: Vector) -> (r: Vector)
        ensures
            r == self.spec_transform_vector(v),
    {
        self.rotation.rotate(v)
    }

    pub open spec fn spec_transform_point(self, p: Point) -> Point {
        self.rotation.rotate(p).add(self.translation)
    }

    /// The image of a point.
    #[verifier::when_used_as_spec(spec_transform_point)]
    pub fn transform_point(self, p: Point) -> (r: Point)
        ensures
            r == self.spec_transform_point(p),
    {
        self.rotation.rotate(p).add(self.translation)
    }
}

impl SdpMatrix3<Real> {
    pub open spec fn spec_transform(self, v: Vector) -> Vector {
        Vector {
            x: self.m11.mul(v.x).add(self.m12.mul(v.y)).add(self.m13.mul(v.z)),
            y: self.m12.mul(v.x).add(self.m22.mul(v.y)).add(self.m23.mul(v.z)),
            z: self.m13.mul(v.x).add(self.m23.mul(v.y)).add(self.m33.mul(v.z)),
        }
    }

    /// The product of the matrix and a vector.
    #[verifier::when_used_as_spec(spec_transform)]
    pub fn transform(self, v: Vector) -> (r: Vector)
        ensures
            r == self.spec_transform(v),
    {
        Vector {
            x: self.m11.mul(v.x).add(self.m12.mul(v.y)).add(self.m13.mul(v.z)),
            y: self.m12.mul(v.x).add(self.m22.mul(v.y)).add(self.m23.mul(v.z)),
            z: self.m13.mul(v.x).add(self.m23.mul(v.y)).add(self.m33.mul(v.z)),
        }
    }
}

} // verus!
