//! Inertia scaling in space, where an inertia is a symmetric matrix.
use crate::mass_clamp::SimdRealCopy;
use crate::math::SdpMatrix3;
use vstd::prelude::*;

verus! {

/// An angular inertia of space.
pub type AngularInertia<N> = SdpMatrix3<N>;

/// An inertia with every component multiplied by `scale`.
pub open spec fn scaled_inertia<N: SimdRealCopy>(ii: AngularInertia<N>, scale: N) -> AngularInertia<
    N,
> {
    SdpMatrix3 {
        m11: ii.m11.product(scale),
        m12: ii.m12.product(scale),
        m13: ii.m13.product(scale),
        m22: ii.m22.product(scale),
        m23: ii.m23.product(scale),
        m33: ii.m33.product(scale),
    }
}

/// The inertia with every component multiplied by `scale`.
pub fn scale_inertia<N: SimdRealCopy>(ii: AngularInertia<N>, scale: N) -> (r: AngularInertia<N>)
    ensures
        r == scaled_inertia(ii, scale),
{
    SdpMatrix3 {
        m11: ii.m11.times(scale),
        m12: ii.m12.times(scale),
        m13: ii.m13.times(scale),
        m22: ii.m22.times(scale),
        m23: ii.m23.times(scale),
        m33: ii.m33.times(scale),
    }
}

} // verus!
