use shape_cast_vehicle::mass_clamp::{
    dim2, dim3, mass_clamp_scales_scalar, mass_clamp_scales_simd, SimdReal, SimdVector,
    MASS_RATIO_CAP,
};
use shape_cast_vehicle::math::{SdpMatrix3, Vector};
use shape_cast_vehicle::scalar::Real;

fn im(num: i64, den: i64) -> Vector {
    let m = Real::ratio(num, den);
    Vector::new(m, m, m)
}

#[test]
fn heavier_body_is_capped() {
    let (a, b) = mass_clamp_scales_scalar(im(1, 1), im(1, 64), true);
    assert_eq!(a, Real::one());
    assert_eq!(b, Real::ratio(4, 1));
    let (a, b) = mass_clamp_scales_scalar(im(1, 64), im(1, 1), true);
    assert_eq!(a, Real::ratio(4, 1));
    assert_eq!(b, Real::one());
}

#[test]
fn ratio_at_the_cap_is_kept() {
    assert_eq!(MASS_RATIO_CAP, 16);
    assert_eq!(
        mass_clamp_scales_scalar(im(1, 1), im(1, 16), true),
        (Real::one(), Real::one())
    );
    assert_eq!(
        mass_clamp_scales_scalar(im(3, 1), im(2, 1), true),
        (Real::one(), Real::one())
    );
}

#[test]
fn static_bodies_are_skipped() {
    for (a, b) in [(im(0, 1), im(1, 1)), (im(1, 1), im(0, 1)), (im(-1, 1), im(1, 1))] {
        assert_eq!(mass_clamp_scales_scalar(a, b, true), (Real::one(), Real::one()));
    }
}

#[test]
fn multibodies_are_skipped() {
    assert_eq!(
        mass_clamp_scales_scalar(im(1, 1), im(1, 64), false),
        (Real::one(), Real::one())
    );
}

#[test]
fn only_the_first_axis_is_sampled() {
    let a = Vector::new(Real::one(), Real::zero(), Real::ratio(9, 1));
    let b = Vector::new(Real::ratio(1, 32), Real::ratio(5, 1), Real::zero());
    assert_eq!(mass_clamp_scales_scalar(a, b, true), (Real::one(), Real::ratio(2, 1)));
}

#[test]
fn lanes_are_clamped_on_their_own() {
    let zero = SimdReal { lanes: [Real::zero(); 4] };
    let x1 = SimdReal {
        lanes: [Real::one(), Real::ratio(1, 64), Real::zero(), Real::one()],
    };
    let x2 = SimdReal {
        lanes: [Real::ratio(1, 64), Real::one(), Real::one(), Real::one()],
    };
    let (a, b) = mass_clamp_scales_simd(
        SimdVector { x: x1, y: zero, z: zero },
        SimdVector { x: x2, y: zero, z: zero },
    );
    let (one, four) = (Real::one(), Real::ratio(4, 1));
    assert_eq!(a.lanes, [one, four, one, one]);
    assert_eq!(b.lanes, [four, one, one, one]);
}

#[test]
fn inertias_are_scaled() {
    assert_eq!(dim2::scale_inertia(Real::ratio(3, 1), Real::ratio(4, 1)), Real::ratio(12, 1));
    let r = |n: i64| Real::ratio(n, 1);
    let m = SdpMatrix3 { m11: r(1), m12: r(2), m13: r(3), m22: r(4), m23: r(5), m33: r(6) };
    let doubled = SdpMatrix3 { m11: r(2), m12: r(4), m13: r(6), m22: r(8), m23: r(10), m33: r(12) };
    assert_eq!(dim3::scale_inertia(m, r(2)), doubled);
    assert_eq!(dim3::scale_inertia(m, Real::one()), m);
    let lanes = SimdReal { lanes: [r(1), r(2), r(3), r(4)] };
    assert_eq!(dim2::scale_inertia(lanes, lanes).lanes, [r(1), r(4), r(9), r(16)]);
}

#[test]
fn clamped_masses_are_kept() {
    let (a, b) = (im(3, 1), im(1, 1000));
    let (s1, s2) = mass_clamp_scales_scalar(a, b, true);
    let (c1, c2) = (a.scale(s1), Vector::new(Real::ratio(3, 16), b.y, b.z));
    assert_eq!(s1, Real::one());
    assert!((b.x.mul(s2).bits - c2.x.bits).abs() <= 1);
    assert_eq!(mass_clamp_scales_scalar(c1, c2, true), (Real::one(), Real::one()));
}

#[test]
fn scales_depend_on_the_mass_ratio() {
    let expected = mass_clamp_scales_scalar(im(1, 1), im(1, 256), true);
    for k in [2, 3, 7, 1000] {
        assert_eq!(mass_clamp_scales_scalar(im(k, 1), im(k, 256), true), expected);
    }
    // Sixteenths that round change the scale of the smallest inverse masses.
    let tiny = |bits: i64| Vector::new(Real::from_bits(bits), Real::zero(), Real::zero());
    let (_, once) = mass_clamp_scales_scalar(tiny(24), tiny(1), true);
    let (_, twice) = mass_clamp_scales_scalar(tiny(48), tiny(2), true);
    assert_eq!(once, Real::ratio(2, 1));
    assert_eq!(twice, Real::ratio(3, 2));
}

#[test]
fn scaling_an_inertia_composes_and_commutes() {
    let q = |n: i64| Real::ratio(n, 7);
    let ii = SdpMatrix3 { m11: q(9), m12: q(-2), m13: q(3), m22: q(8), m23: q(1), m33: q(11) };
    let (a, b) = (q(30), q(12));
    let twice = dim3::scale_inertia(dim3::scale_inertia(ii, a), b);
    let once = dim3::scale_inertia(ii, a.mul(b));
    assert!((twice.m11.bits - once.m11.bits).abs() < 16);
    assert!((twice.m23.bits - once.m23.bits).abs() < 16);
    let planar = dim2::scale_inertia(dim2::scale_inertia(q(9), a), b);
    assert!((planar.bits - dim2::scale_inertia(q(9), a.mul(b)).bits).abs() < 16);
    let v = Vector::new(q(5), q(-6), q(1));
    let left = dim3::scale_inertia(ii, a).transform(v);
    let right = ii.transform(v).scale(a);
    assert!((left.x.bits - right.x.bits).abs() < 64);
    assert!((left.y.bits - right.y.bits).abs() < 64);
    assert!((left.z.bits - right.z.bits).abs() < 64);
}

#[test]
fn scaled_masses_are_clamped_no_further() {
    // Exactly where both inverse masses are below one.
    for (a, b) in [((1, 3), (1, 1000)), ((1, 7), (1, 113)), ((9, 10), (1, 77_777))] {
        let (a, b) = (im(a.0, a.1), im(b.0, b.1));
        let (s1, s2) = mass_clamp_scales_scalar(a, b, true);
        assert_ne!(s2, Real::one());
        let again = mass_clamp_scales_scalar(a.scale(s1), b.scale(s2), true);
        assert_eq!(again, (Real::one(), Real::one()));
    }
    // Up to rounding elsewhere.
    let (a, b) = (im(1_000_003, 1), im(29, 3));
    let (s1, s2) = mass_clamp_scales_scalar(a, b, true);
    let (t1, t2) = mass_clamp_scales_scalar(a.scale(s1), b.scale(s2), true);
    assert_eq!(t1, Real::one());
    assert!(0 <= t2.bits - Real::one().bits && t2.bits - Real::one().bits <= 2);
}

#[test]
fn scales_hardly_depend_on_a_common_factor() {
    let (a, b) = (im(22, 7), im(1, 33));
    let (s1, s2) = mass_clamp_scales_scalar(a, b, true);
    for k in [Real::ratio(1, 3), Real::ratio(7, 5), Real::ratio(355, 113)] {
        let (t1, t2) = mass_clamp_scales_scalar(a.scale(k), b.scale(k), true);
        assert_eq!((s1, t1), (Real::one(), Real::one()));
        assert!((s2.bits - t2.bits).abs() < 4096);
    }
}
