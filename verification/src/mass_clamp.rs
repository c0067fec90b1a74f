//! Per-constraint mass-ratio clamping for solver stability.
//!
//! When two dynamic bodies in a constraint have very different masses, the
//! solver gives the lighter one huge impulses. For the purposes of the one
//! constraint, the heavier body's mass is capped to [`MASS_RATIO_CAP`] times
//! the lighter one's: the functions below return the factors, never below
//! one, by which the constraint multiplies the inverse masses and inertias.
pub mod dim2;
pub mod dim3;
pub mod laws;

use crate::math::Vector;
use crate::scalar::Real;
use vstd::prelude::*;

verus! {

/// The largest mass ratio, heavier over lighter, that two dynamic bodies have
/// in a constraint.
pub const MASS_RATIO_CAP: i64 = 16;

/// The number of lanes of a [`SimdReal`].
pub const SIMD_WIDTH: usize = 4;

/// Numbers computed with side by side.
#[derive(Clone, Copy, Debug)]
pub struct SimdReal {
    pub lanes: [Real; 4],
}

/// A vector of the numbers of several lanes.
#[derive(Clone, Copy, Debug)]
pub struct SimdVector {
    pub x: SimdReal,
    pub y: SimdReal,
    pub z: SimdReal,
}

/// A number, or numbers side by side, that can be multiplied.
pub trait SimdRealCopy: Sized + Copy {
    /// The product.
    spec fn product(self, rhs: Self) -> Self;

    /// Multiplies two numbers, or each lane of one by the lane of the other.
    fn times(self, rhs: Self) -> (r: Self)
        ensures
            r == self.product(rhs),
    ;
}

impl SimdRealCopy for Real {
    open spec fn product(self, rhs: Self) -> Self {
        self.mul(rhs)
    }

    fn times(self, rhs: Self) -> (r: Self) {
        self.mul(rhs)
    }
}

impl SimdRealCopy for SimdReal {
    open spec fn product(self, rhs: Self) -> Self {
        SimdReal {
            lanes: [
                self.lanes[0].mul(rhs.lanes[0]),
                self.lanes[1].mul(rhs.lanes[1]),
                self.lanes[2].mul(rhs.lanes[2]),
                self.lanes[3].mul(rhs.lanes[3]),
            ],
        }
    }

    fn times(self, rhs: Self) -> (r: Self) {
        SimdReal {
            lanes: [
                self.lanes[0].mul(rhs.lanes[0]),
                self.lanes[1].mul(rhs.lanes[1]),
                self.lanes[2].mul(rhs.lanes[2]),
                self.lanes[3].mul(rhs.lanes[3]),
            ],
        }
    }
}

/// Whether neither inverse mass is that of a static or kinematic body.
pub open spec fn both_dynamic(im1: Real, im2: Real) -> bool {
    Real::zero().lt(im1) && Real::zero().lt(im2)
}

/// The smallest inverse mass that a body has beside one of inverse mass `other`
/// when its own is `im`.
pub open spec fn inverse_mass_floor(im: Real, other: Real) -> Real {
    im.max(other).mul(Real::ratio(1, MASS_RATIO_CAP))
}

/// The factor on the inverse mass `im` of a body beside one of inverse mass
/// `other`.
pub open spec fn clamp_scale(im: Real, other: Real) -> Real {
    if both_dynamic(im, other) {
        im.max(inverse_mass_floor(im, other)).div(im)
    } else {
        Real::one()
    }
}

/// The factors to be applied to the inverse mass and inverse inertia of two
/// bodies for one constraint, given their inverse masses, which are sampled
/// along the first axis. Bodies that are not a pair of plain rigid-bodies are
/// left as they are.
pub fn mass_clamp_scales_scalar(im1: Vector, im2: Vector, dynamic_pair: bool) -> (r: (Real, Real))
    ensures
        dynamic_pair ==> r == (clamp_scale(im1.x, im2.x), clamp_scale(im2.x, im1.x)),
        !dynamic_pair ==> r == (Real::one(), Real::one()),
{
    if !dynamic_pair {
        return (Real::one(), Real::one());
    }
    lane_scales(im1.x, im2.x)
}

fn lane_scales(im1: Real, im2: Real) -> (r: (Real, Real))
    ensures
        r == (clamp_scale(im1, im2), clamp_scale(im2, im1)),
{
    if im1.le(Real::zero()) || im2.le(Real::zero()) {
        return (Real::one(), Real::one());
    }
    let threshold = im1.max(im2).mul(Real::ratio(1, MASS_RATIO_CAP));
    (im1.max(threshold).div(im1), im2.max(threshold).div(im2))
}

/// The factors of [`mass_clamp_scales_scalar`], lane by lane, for pairs of
/// plain rigid-bodies.
pub fn mass_clamp_scales_simd(im1: SimdVector, im2: SimdVector) -> (r: (SimdReal, SimdReal))
    ensures
        forall|i: int|
            0 <= i < SIMD_WIDTH ==> {
                &&& #[trigger] r.0.lanes[i] == clamp_scale(im1.x.lanes[i], im2.x.lanes[i])
                &&& #[trigger] r.1.lanes[i] == clamp_scale(im2.x.lanes[i], im1.x.lanes[i])
            },
{
    let a = lane_scales(im1.x.lanes[0], im2.x.lanes[0]);
    let b = lane_scales(im1.x.lanes[1], im2.x.lanes[1]);
    let c = lane_scales(im1.x.lanes[2], im2.x.lanes[2]);
    let d = lane_scales(im1.x.lanes[3], im2.x.lanes[3]);
    (SimdReal { lanes: [a.0, b.0, c.0, d.0] }, SimdReal { lanes: [a.1, b.1, c.1, d.1] })
}

} // verus!
