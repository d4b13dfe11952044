//! Particle construction, collision tests, and the single-peer gravity
//! example: an Earth-mass body pulling a 1 kg body at surface distance.

use nbody_sim::num::SCALE;
use nbody_sim::particle::{BidimensionalVector, Particle, GRAV_DEN, GRAV_NUM};

// 5.972e24 kg, in millionths of a kilogram.
const EARTH_MASS: i128 = 5_972_000_000_000_000_000_000_000_000_000;
// 6.371e6 m, in millionths of a metre.
const EARTH_RADIUS: i128 = 6_371_000_000_000;

#[test]
fn gravitational_constant_matches_codata() {
    let g = GRAV_NUM as f64 / GRAV_DEN as f64;
    let reference = physical_constants::NEWTONIAN_CONSTANT_OF_GRAVITATION;
    assert!((g - reference).abs() / reference < 1e-9, "G = {g}");
}

#[test]
fn new_defaults_kinematics_to_zero() {
    let p = Particle::new(SCALE, 0, 0, None, None, None);
    assert_eq!(p.mass, SCALE);
    assert_eq!(p.charge, 0);
    assert_eq!(p.radius, 0);
    assert!(!p.fixed);
    assert_eq!(p.position.get_x(), 0);
    assert_eq!(p.position.get_y(), 0);
    assert_eq!(p.velocity.get_x(), 0);
    assert_eq!(p.velocity.get_y(), 0);
    assert_eq!(p.acceleration.get_x(), 0);
    assert_eq!(p.acceleration.get_y(), 0);
}

#[test]
fn new_keeps_explicit_state() {
    let p = Particle::new(
        2 * SCALE,
        -SCALE,
        3 * SCALE,
        Some(BidimensionalVector::new(10, 20)),
        Some(BidimensionalVector::new(-1, -2)),
        Some(true),
    );
    assert_eq!(p.charge, -SCALE);
    assert!(p.fixed);
    assert_eq!(p.position.get_x(), 10);
    assert_eq!(p.position.get_y(), 20);
    assert_eq!(p.velocity.get_x(), -1);
    assert_eq!(p.velocity.get_y(), -2);
}

#[test]
fn get_distance_is_euclidean() {
    let mut a = Particle::new(SCALE, 0, 0, Some(BidimensionalVector::new(0, 0)), None, None);
    let b = Particle::new(
        SCALE,
        0,
        0,
        Some(BidimensionalVector::new(3 * SCALE, 4 * SCALE)),
        None,
        None,
    );
    assert_eq!(a.get_distance(b), 5 * SCALE);
}

#[test]
fn collision_test_includes_the_boundary() {
    let make = |x: i128, radius: i128| {
        Particle::new(SCALE, 0, radius, Some(BidimensionalVector::new(x, 0)), None, None)
    };
    // separation 1000, radii summing to exactly 1000: touching counts.
    assert!(make(0, 600).is_going_to_collision(make(1000, 400)));
    // radii summing to 999: apart by one unit.
    assert!(!make(0, 600).is_going_to_collision(make(1000, 399)));
}

#[test]
fn surface_gravity_of_earth_mass_body() {
    // A 1 kg body 6.371e6 m above an Earth-mass point (its collision
    // radius kept small so the surface-distance body is not touching)
    // feels ~9.82 m/s^2 toward it, and after a 0.1 s tick moves at
    // ~0.982 m/s.
    let earth = Particle::new(
        EARTH_MASS,
        0,
        SCALE,
        Some(BidimensionalVector::new(0, 0)),
        None,
        Some(true),
    );
    let mut body = Particle::new(
        SCALE,
        0,
        SCALE,
        Some(BidimensionalVector::new(0, EARTH_RADIUS)),
        None,
        None,
    );
    let a = body.calc_gravity_field_acceleration(&vec![earth]);
    // 9.82 m/s^2 is 9_820_000 units; allow 0.2% for the constant and
    // fixed-point rounding.
    assert_eq!(a.get_x(), 0);
    assert!(a.get_y() < 0, "acceleration points toward the origin");
    let mag = a.get_module();
    assert!((mag - 9_820_000).abs() < 20_000, "acceleration {mag}");

    // For a 1 kg body the force equals the acceleration numerically.
    let mut body2 = Particle::new(
        SCALE,
        0,
        SCALE,
        Some(BidimensionalVector::new(0, EARTH_RADIUS)),
        None,
        None,
    );
    let f = body2.calc_gravity_field_force(&vec![earth]);
    assert_eq!(f.get_x(), a.get_x());
    assert_eq!(f.get_y(), a.get_y());

    // One 0.1 s force phase: velocity becomes acceleration / 10.
    body.sim_forces(SCALE / 10, vec![earth]);
    assert_eq!(body.velocity.get_x(), 0);
    assert!(body.velocity.get_y() < 0, "velocity points toward the origin");
    let v = body.velocity.get_module();
    assert!((v - 982_000).abs() < 2_000, "velocity {v}");
}

#[test]
fn collision_zeroes_velocity_and_suppresses_acceleration() {
    let peer = Particle::new(
        EARTH_MASS,
        0,
        1_000_000_000,
        Some(BidimensionalVector::new(900_000_000, 0)),
        None,
        None,
    );
    let mut body = Particle::new(
        SCALE,
        0,
        1_000_000_000,
        Some(BidimensionalVector::new(0, 0)),
        Some(BidimensionalVector::new(5 * SCALE, -2 * SCALE)),
        None,
    );
    let a = body.calc_gravity_field_acceleration(&vec![peer]);
    assert_eq!(a.get_x(), 0);
    assert_eq!(a.get_y(), 0);
    assert_eq!(body.velocity.get_x(), 0);
    assert_eq!(body.velocity.get_y(), 0);
}

#[test]
fn one_collision_suppresses_all_other_peers() {
    // A colliding peer suppresses even a huge non-colliding one.
    let colliding = Particle::new(
        SCALE,
        0,
        2 * SCALE,
        Some(BidimensionalVector::new(SCALE, 0)),
        None,
        None,
    );
    let heavy = Particle::new(
        EARTH_MASS,
        0,
        SCALE,
        Some(BidimensionalVector::new(0, EARTH_RADIUS)),
        None,
        None,
    );
    let mut body = Particle::new(SCALE, 0, SCALE, Some(BidimensionalVector::new(0, 0)), None, None);
    let a = body.calc_gravity_field_acceleration(&vec![heavy, colliding]);
    assert_eq!((a.get_x(), a.get_y()), (0, 0));
    assert_eq!((body.velocity.get_x(), body.velocity.get_y()), (0, 0));
}

#[test]
fn fixed_particle_ignores_forces() {
    let peer = Particle::new(EARTH_MASS, 0, SCALE, Some(BidimensionalVector::new(0, EARTH_RADIUS)), None, None);
    let mut body = Particle::new(
        SCALE,
        0,
        SCALE,
        Some(BidimensionalVector::new(0, 0)),
        Some(BidimensionalVector::new(3, 4)),
        Some(true),
    );
    body.sim_forces(SCALE, vec![peer]);
    assert_eq!(body.velocity.get_x(), 3);
    assert_eq!(body.velocity.get_y(), 4);
    assert_eq!(body.acceleration.get_x(), 0);
    body.sim_time(SCALE);
    assert_eq!(body.position.get_x(), 0);
    assert_eq!(body.position.get_y(), 0);
}

#[test]
fn sim_time_moves_by_velocity() {
    let mut body = Particle::new(
        SCALE,
        0,
        0,
        Some(BidimensionalVector::new(10 * SCALE, 0)),
        Some(BidimensionalVector::new(2 * SCALE, -SCALE)),
        None,
    );
    // Half a second.
    body.sim_time(SCALE / 2);
    assert_eq!(body.position.get_x(), 11 * SCALE);
    assert_eq!(body.position.get_y(), -SCALE / 2);
}

#[test]
fn derived_particle_inherits_reference_state() {
    let reference = Particle::new(
        2 * SCALE,
        0,
        SCALE,
        Some(BidimensionalVector::new(100, 200)),
        Some(BidimensionalVector::new(7, -8)),
        None,
    );
    let p = reference.new_particle_from_reference(
        SCALE,
        0,
        0,
        Some(BidimensionalVector::new(1000, 0)),
        None,
        None,
    );
    assert_eq!(p.position.get_x(), 1100);
    assert_eq!(p.position.get_y(), 200);
    assert_eq!(p.velocity.get_x(), 7);
    assert_eq!(p.velocity.get_y(), -8);
    assert!(!p.fixed);
    assert_eq!(p.acceleration.get_x(), 0);
}

#[test]
fn stable_orbit_speed_is_vis_viva() {
    // Around an Earth-mass body at 400 km altitude the circular speed is
    // sqrt(G M / r) with r = 6.771e6 m: about 7672.5 m/s.
    let earth = Particle::new(
        EARTH_MASS,
        0,
        EARTH_RADIUS,
        Some(BidimensionalVector::new(0, 0)),
        None,
        Some(true),
    );
    let sat = earth.new_particle_in_stable_orbit(SCALE, 0, SCALE, 400_000_000_000);
    assert_eq!(sat.position.get_x(), EARTH_RADIUS + 400_000_000_000);
    assert_eq!(sat.position.get_y(), 0);
    assert_eq!(sat.velocity.get_x(), 0);
    assert!(!sat.fixed);
    let v = sat.velocity.get_y();
    let expected = (physical_constants::NEWTONIAN_CONSTANT_OF_GRAVITATION * 5.972e24
        / 6.771e6)
        .sqrt();
    let got = v as f64 / SCALE as f64;
    assert!((got - expected).abs() / expected < 1e-3, "orbit speed {got} vs {expected}");
}
