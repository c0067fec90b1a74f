use shape_cast_vehicle::scalar::{Real, ONE_BITS};

fn r(n: i64) -> Real {
    Real::ratio(n, 1)
}

#[test]
fn sums_and_products_of_integers_are_exact() {
    assert_eq!(r(2).add(r(3)), r(5));
    assert_eq!(r(2).sub(r(3)), r(-1));
    assert_eq!(r(2).mul(r(3)), r(6));
    assert_eq!(r(-2).mul(r(3)), r(-6));
    assert_eq!(r(6).div(r(-3)), r(-2));
    assert_eq!(r(4).neg(), r(-4));
    assert_eq!(Real::from_count(7), r(7));
}

#[test]
fn results_are_rounded_to_the_nearest_unit() {
    // Half a unit goes away from zero.
    assert_eq!(Real::from_bits(1).mul(Real::ratio(1, 2)), Real::from_bits(1));
    assert_eq!(Real::from_bits(-1).mul(Real::ratio(1, 2)), Real::from_bits(-1));
    assert_eq!(Real::from_bits(1).mul(Real::ratio(1, 4)), Real::from_bits(0));
    assert_eq!(Real::from_bits(1).div(r(3)), Real::from_bits(0));
    assert_eq!(Real::from_bits(2).div(r(3)), Real::from_bits(1));
    assert_eq!(Real::ratio(1, 10).bits, 429_496_730);
    assert_eq!(Real::ratio(-1, 10).bits, -429_496_730);
}

#[test]
fn results_out_of_range_saturate() {
    let max = Real::from_bits(i64::MAX);
    let min = Real::from_bits(i64::MIN);
    assert_eq!(max.add(Real::one()), max);
    assert_eq!(min.sub(Real::one()), min);
    assert_eq!(max.mul(r(2)), max);
    assert_eq!(max.mul(r(-2)), min);
    assert_eq!(min.neg(), max);
    assert_eq!(min.abs(), max);
    assert_eq!(max.div(Real::ratio(1, 2)), max);
    assert_eq!(Real::ratio(i64::MAX, 1), max);
}

#[test]
fn division_by_zero_goes_to_the_end_of_the_range() {
    assert_eq!(Real::one().div(Real::zero()).bits, i64::MAX);
    assert_eq!(Real::one().neg().div(Real::zero()).bits, i64::MIN);
    assert_eq!(Real::zero().div(Real::zero()), Real::zero());
    assert_eq!(Real::zero().inv(), Real::zero());
    assert_eq!(r(4).inv(), Real::ratio(1, 4));
}

#[test]
fn comparisons_follow_the_units() {
    assert!(Real::zero().lt(Real::one()));
    assert!(!Real::one().lt(Real::one()));
    assert!(Real::one().le(Real::one()));
    assert_eq!(r(2).max(r(3)), r(3));
    assert_eq!(r(2).min(r(3)), r(2));
    assert_eq!(r(5).clamp(r(0), r(3)), r(3));
    assert_eq!(r(-5).clamp(r(0), r(3)), r(0));
    assert_eq!(r(1).clamp(r(0), r(3)), r(1));
    assert_eq!(r(-5).abs(), r(5));
    assert_eq!(Real::one().bits, ONE_BITS);
}
