//! The functions of [`Real`]s that the `simba` and `nalgebra` crates compute.
use crate::math::{Rotation, Vector};
use crate::scalar::{Real, ONE_BITS};
use nalgebra::{UnitQuaternion, Vector3};
use simba::scalar::{ComplexField, FixedI32F32};
use vstd::prelude::*;

verus! {

/// The sine that `simba` computes for an angle, both in units.
pub uninterp spec fn fixed_sin(angle: i64) -> i64;

/// The cosine that `simba` computes for an angle, both in units.
pub uninterp spec fn fixed_cos(angle: i64) -> i64;

/// The exponential that `simba` computes for an exponent, both in units.
pub uninterp spec fn fixed_exp(exponent: i64) -> i64;

/// The coordinates, in units, of the unit quaternion that `nalgebra` computes
/// to turn the first vector into the direction of the second.
pub uninterp spec fn fixed_rotation_between(
    from: (i64, i64, i64),
    to: (i64, i64, i64),
) -> Option<(i64, i64, i64, i64)>;

/// The exponent, in units, beyond which an exponential leaves the range.
pub const MAX_EXPONENT_BITS: i64 = 0x15_0000_0000;

/// Calls `simba`'s `ComplexField::sin` on a 32.32 fixed-point number. The
/// result is a function of the angle; nothing else is said of it.
#[verifier::external_body]
pub(crate) fn sin(angle: Real) -> (r: Real)
    ensures
        r.bits == fixed_sin(angle.bits),
{
    Real { bits: FixedI32F32::from_bits(angle.bits).sin().to_bits() }
}

/// Calls `simba`'s `ComplexField::cos` on a 32.32 fixed-point number. The
/// result is a function of the angle; nothing else is said of it.
#[verifier::external_body]
pub(crate) fn cos(angle: Real) -> (r: Real)
    ensures
        r.bits == fixed_cos(angle.bits),
{
    Real { bits: FixedI32F32::from_bits(angle.bits).cos().to_bits() }
}

/// Calls `simba`'s `ComplexField::exp` on a 32.32 fixed-point number, whose
/// result overflows beyond the largest exponent. The result is a function of
/// the exponent, and lies between zero and one where that is not positive: the
/// exponential of the fraction, a product of factors rounded down from one to
/// less than Euler's number, is then divided by that number for every unit of
/// the whole part.
#[verifier::external_body]
pub(crate) fn exp(exponent: Real) -> (r: Real)
    requires
        exponent.bits <= MAX_EXPONENT_BITS,
    ensures
        r.bits == fixed_exp(exponent.bits),
        exponent.bits <= 0 ==> 0 <= r.bits <= ONE_BITS,
{
    Real { bits: FixedI32F32::from_bits(exponent.bits).exp().to_bits() }
}

/// Whether every coordinate lies between minus two and two.
pub open spec fn within_two(v: Vector) -> bool {
    &&& -2 * ONE_BITS <= v.x.bits <= 2 * ONE_BITS
    &&& -2 * ONE_BITS <= v.y.bits <= 2 * ONE_BITS
    &&& -2 * ONE_BITS <= v.z.bits <= 2 * ONE_BITS
}

/// The rotation whose coordinates count the given units.
pub open spec fn rotation_of_units(q: (i64, i64, i64, i64)) -> Rotation {
    Rotation {
        x: Real { bits: q.0 },
        y: Real { bits: q.1 },
        z: Real { bits: q.2 },
        w: Real { bits: q.3 },
    }
}

/// Calls `nalgebra`'s `UnitQuaternion::rotation_between` on vectors of 32.32
/// fixed-point numbers, small enough that no product overflows. The result is
/// a function of the two vectors; nothing else is said of it.
#[verifier::external_body]
pub(crate) fn rotation_between(from: Vector, to: Vector) -> (r: Option<Rotation>)
    requires
        within_two(from),
        within_two(to),
    ensures
        r == (match fixed_rotation_between(
            (from.x.bits, from.y.bits, from.z.bits),
            (to.x.bits, to.y.bits, to.z.bits),
        ) {
            Some(q) => Some(rotation_of_units(q)),
            None => None,
        }),
{
    let a = Vector3::new(from.x.bits, from.y.bits, from.z.bits).map(FixedI32F32::from_bits);
    let b = Vector3::new(to.x.bits, to.y.bits, to.z.bits).map(FixedI32F32::from_bits);
    UnitQuaternion::rotation_between(&a, &b).map(|q| Rotation {
        x: Real { bits: q.i.to_bits() },
        y: Real { bits: q.j.to_bits() },
        z: Real { bits: q.k.to_bits() },
        w: Real { bits: q.w.to_bits() },
    })
}

} // verus!
