use shape_cast_vehicle::math::{Isometry, Rotation, SdpMatrix3, Vector};
use shape_cast_vehicle::scalar::{Real, ONE_BITS};
use shape_cast_vehicle::vehicle::wheel::PI_BITS;

fn r(n: i64) -> Real {
    Real::ratio(n, 1)
}

fn v(x: i64, y: i64, z: i64) -> Vector {
    Vector::new(r(x), r(y), r(z))
}

fn close(a: Real, b: f64) -> bool {
    (a.bits as f64 / ONE_BITS as f64 - b).abs() < 1.0e-6
}

#[test]
fn vector_products() {
    assert_eq!(v(1, 2, 3).dot(v(4, 5, 6)), r(32));
    assert_eq!(v(1, 0, 0).cross(v(0, 1, 0)), v(0, 0, 1));
    assert_eq!(v(1, 2, 3).component_mul(v(4, 5, 6)), v(4, 10, 18));
    assert_eq!(v(1, 2, 3).scale(r(2)), v(2, 4, 6));
    assert_eq!(v(2, 4, 6).unscale(r(2)), v(1, 2, 3));
    assert_eq!(v(1, 2, 3).add(v(1, 1, 1)).sub(v(2, 3, 4)), Vector::zeros());
    assert_eq!(Vector::ith(2, r(7)), v(0, 0, 7));
}

#[test]
fn lengths_and_directions() {
    assert_eq!(v(3, 4, 0).norm(), r(5));
    assert_eq!(v(2, 3, 6).norm(), r(7));
    assert_eq!(v(0, 5, 0).try_normalize(Real::ratio(1, 100_000)), Some(v(0, 1, 0)));
    assert_eq!(v(0, 5, 0).try_normalize(r(5)), None);
    assert_eq!(Vector::zeros().try_normalize(Real::zero()), None);
}

#[test]
fn long_vectors_have_a_length() {
    let m = Real::from_bits(i64::MAX);
    assert_eq!(Vector::new(m, m, m).norm(), m);
}

#[test]
fn identity_turns_nothing() {
    assert_eq!(Rotation::identity().rotate(v(1, 2, 3)), v(1, 2, 3));
    assert_eq!(Rotation::new(Vector::zeros()), Rotation::identity());
}

#[test]
fn quarter_turn_around_y() {
    let half_pi = Real::from_bits(PI_BITS).div(r(2));
    let q = Rotation::new(Vector::new(Real::zero(), half_pi, Real::zero()));
    assert!(close(q.y, std::f64::consts::FRAC_1_SQRT_2));
    assert!(close(q.w, std::f64::consts::FRAC_1_SQRT_2));
    let turned = q.rotate(v(1, 0, 0));
    assert!(close(turned.x, 0.0) && close(turned.y, 0.0) && close(turned.z, -1.0));
}

#[test]
fn third_of_a_turn_has_distinct_sine_and_cosine() {
    // Half of two radians is one radian.
    let q = Rotation::new(v(2, 0, 0));
    assert!(close(q.x, 1.0f64.sin()));
    assert!(close(q.w, 1.0f64.cos()));
}

#[test]
fn rotation_takes_the_given_sine_and_cosine() {
    let q = Rotation::from_half_axis(v(0, 2, 0), Real::ratio(3, 4), Real::ratio(1, 4));
    assert_eq!(q.y, Real::ratio(3, 4));
    assert_eq!(q.w, Real::ratio(1, 4));
}

#[test]
fn isometries_translate_points_only() {
    let iso = Isometry { translation: v(10, 20, 30), rotation: Rotation::identity() };
    assert_eq!(iso.transform_point(v(1, 2, 3)), v(11, 22, 33));
    assert_eq!(iso.transform_vector(v(1, 2, 3)), v(1, 2, 3));
}

#[test]
fn symmetric_matrices_multiply_vectors() {
    let m = SdpMatrix3 { m11: r(1), m12: r(2), m13: r(3), m22: r(4), m23: r(5), m33: r(6) };
    assert_eq!(m.transform(v(1, 10, 100)), v(321, 542, 653));
}

#[test]
fn rotations_up_to_the_epsilon_are_none() {
    let bits = Real::from_bits;
    let along_y = |y: i64| Vector::new(bits(0), bits(y), bits(0));
    assert_eq!(Rotation::new(along_y(1024)), Rotation::identity());
    assert_eq!(Rotation::new(along_y(-1024)), Rotation::identity());
    let turn = |half: Vector| Rotation::from_half_axis(half, half.norm(), r(1));
    assert_eq!(turn(along_y(512)), Rotation::identity());
    assert_eq!(turn(along_y(513)).y, bits(513));
    // The square of the length is compared, not the length rounded down.
    assert_eq!(turn(Vector::new(bits(362), bits(362), bits(0))), Rotation::identity());
    let longer = turn(Vector::new(bits(362), bits(362), bits(8)));
    assert_eq!((longer.x, longer.y, longer.z), (bits(362), bits(362), bits(8)));
}
