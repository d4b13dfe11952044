//! Vector arithmetic on exact fixed-point values (one unit is 10^-6).

use nbody_sim::num::SCALE;
use nbody_sim::particle::BidimensionalVector;

#[test]
fn new_caches_magnitude() {
    let v = BidimensionalVector::new(3 * SCALE, 4 * SCALE);
    assert_eq!(v.get_x(), 3 * SCALE);
    assert_eq!(v.get_y(), 4 * SCALE);
    assert_eq!(v.get_module(), 5 * SCALE);
}

#[test]
fn zero_vector_has_zero_magnitude() {
    let v = BidimensionalVector::new(0, 0);
    assert_eq!(v.get_module(), 0);
}

#[test]
fn magnitude_rounds_down() {
    // |(1, 1)| = sqrt(2), and the floor square root of 2 is 1.
    let v = BidimensionalVector::new(1, 1);
    assert_eq!(v.get_module(), 1);
    assert_eq!(BidimensionalVector::calc_vector_module(1, 1), 1);
}

#[test]
fn calc_own_module_is_identity() {
    let mut v = BidimensionalVector::new(-7, 24);
    let (x, y, m) = (v.get_x(), v.get_y(), v.get_module());
    v.calc_own_module();
    assert_eq!(v.get_x(), x);
    assert_eq!(v.get_y(), y);
    assert_eq!(v.get_module(), m);
}

#[test]
fn add_vector_is_componentwise() {
    let a = BidimensionalVector::new(2 * SCALE, -3 * SCALE);
    let b = BidimensionalVector::new(5 * SCALE, 10 * SCALE);
    let s = a.add_vector(b);
    assert_eq!(s.get_x(), 7 * SCALE);
    assert_eq!(s.get_y(), 7 * SCALE);
}

#[test]
fn multiply_rescales_the_product() {
    // (2, -3) * 2.5
    let mut v = BidimensionalVector::new(2 * SCALE, -3 * SCALE);
    let r = v.multiply_vector_by_f64(2 * SCALE + SCALE / 2);
    assert_eq!(r.get_x(), 5 * SCALE);
    assert_eq!(r.get_y(), -(7 * SCALE + SCALE / 2));
}

#[test]
fn divide_rescales_the_quotient() {
    // (5, -3) / 2, components truncated toward zero
    let mut v = BidimensionalVector::new(5 * SCALE, -3 * SCALE);
    let r = v.divide_by_f64(2 * SCALE);
    assert_eq!(r.get_x(), 2 * SCALE + SCALE / 2);
    assert_eq!(r.get_y(), -(SCALE + SCALE / 2));
}

#[test]
fn unit_vector_of_pythagorean_triple_is_exact() {
    let v = BidimensionalVector::new(3 * SCALE, 4 * SCALE);
    let u = v.unitary_vector();
    assert_eq!(u.get_x(), 600_000);
    assert_eq!(u.get_y(), 800_000);
    assert_eq!(u.get_module(), SCALE);
}

#[test]
fn unit_vector_magnitude_is_one_within_tolerance() {
    // The diagonal has an irrational magnitude; the unit vector's cached
    // magnitude still lands within a few millionths of 1.
    for (x, y) in [
        (SCALE, SCALE),
        (-SCALE, 2 * SCALE),
        (123_456_789, -987_654_321),
        (1, 1),
        (7, 0),
        (1_000_000_000_000_000_000, 31_415_926),
    ] {
        let v = BidimensionalVector::new(x, y);
        let m = v.get_module();
        assert!(m >= 1);
        let u = v.unitary_vector();
        assert!(u.get_module() >= SCALE - 3, "low for ({x}, {y}): {}", u.get_module());
        assert!(
            (m as i128) * (u.get_module() as i128) < m * SCALE + SCALE,
            "high for ({x}, {y}): {}",
            u.get_module()
        );
    }
}

#[test]
fn distance_vector_points_from_first_to_second() {
    let a = BidimensionalVector::new(SCALE, 2 * SCALE);
    let b = BidimensionalVector::new(4 * SCALE, 6 * SCALE);
    let d = a.distance_vector(b);
    assert_eq!(d.get_x(), 3 * SCALE);
    assert_eq!(d.get_y(), 4 * SCALE);
    assert_eq!(d.get_module(), 5 * SCALE);
}

#[test]
fn distance_vector_is_antisymmetric() {
    let a = BidimensionalVector::new(-17, 250_000);
    let b = BidimensionalVector::new(90_000, -3);
    let ab = a.distance_vector(b);
    let ba = b.distance_vector(a);
    assert_eq!(ab.get_x(), -ba.get_x());
    assert_eq!(ab.get_y(), -ba.get_y());
    assert_eq!(ab.get_module(), ba.get_module());
    assert_eq!(a.distance_vector_module(b), b.distance_vector_module(a));
    assert_eq!(a.distance_vector_module(b), ab.get_module());
}

#[test]
fn to_string_renders_components() {
    let v = BidimensionalVector::new(2, -3);
    assert_eq!(v.to_string(), "2, -3");
}
