//! Inertia scaling in the plane, where an inertia is a number.
use crate::mass_clamp::SimdRealCopy;
use vstd::prelude::*;

verus! {

/// An angular inertia of the plane.
pub type AngularInertia<N> = N;

/// The inertia multiplied by `scale`.
pub fn scale_inertia<N: SimdRealCopy>(ii: AngularInertia<N>, scale: N) -> (r: AngularInertia<N>)
    ensures
        r == ii.product(scale),
{
    ii.times(scale)
}

} // verus!
