//! Whole-simulation scenarios: symmetry, fixed bodies, collisions,
//! tick composition, and a full circular orbit.

use nbody_sim::num::SCALE;
use nbody_sim::particle::{BidimensionalVector, Particle};
use nbody_sim::sim::Simulator;

const EARTH_MASS: i128 = 5_972_000_000_000_000_000_000_000_000_000;
const EARTH_RADIUS: i128 = 6_371_000_000_000;

fn body_at(mass: i128, radius: i128, x: i128, y: i128, vx: i128, vy: i128, fixed: bool) -> Particle {
    Particle::new(
        mass,
        0,
        radius,
        Some(BidimensionalVector::new(x, y)),
        Some(BidimensionalVector::new(vx, vy)),
        Some(fixed),
    )
}

#[test]
fn empty_simulation_ticks_quietly() {
    let mut sim = Simulator::new(SCALE);
    sim.simulate_n_times(10);
    assert_eq!(sim.particle_array.len(), 0);
}

#[test]
fn added_particles_keep_insertion_order() {
    let mut sim = Simulator::new(SCALE);
    sim.add_particle(body_at(SCALE, 0, 1, 0, 0, 0, false));
    sim.add_particle(body_at(2 * SCALE, 0, 2, 0, 0, 0, false));
    sim.add_particle(body_at(3 * SCALE, 0, 3, 0, 0, 0, true));
    assert_eq!(sim.particle_array.len(), 3);
    assert_eq!(sim.particle_array[0].mass, SCALE);
    assert_eq!(sim.particle_array[1].mass, 2 * SCALE);
    assert_eq!(sim.particle_array[2].mass, 3 * SCALE);
}

#[test]
fn fixed_body_is_bit_identical_after_many_ticks() {
    let mut sim = Simulator::new(SCALE / 10);
    // A fixed body with (never-applied) stored velocity, among live peers.
    sim.add_particle(body_at(EARTH_MASS, EARTH_RADIUS, 0, 0, 123, -456, true));
    sim.add_particle(body_at(SCALE, SCALE, 2 * EARTH_RADIUS, 0, 0, 3_000_000_000, false));
    sim.add_particle(body_at(SCALE, SCALE, 0, 3 * EARTH_RADIUS, 1_000_000_000, 0, false));
    let before = sim.particle_array[0];
    sim.simulate_n_times(50);
    let after = sim.particle_array[0];
    assert_eq!(before.position.get_x(), after.position.get_x());
    assert_eq!(before.position.get_y(), after.position.get_y());
    assert_eq!(before.velocity.get_x(), after.velocity.get_x());
    assert_eq!(before.velocity.get_y(), after.velocity.get_y());
}

#[test]
fn symmetric_pair_stays_mirrored() {
    // Equal masses at +/- 1000 m on the x axis, at rest: mirror images
    // through the origin after a tick.
    let m = 1_000_000_000_000_000_000_000_000_000_000; // 1e24 kg
    let mut sim = Simulator::new(SCALE);
    sim.add_particle(body_at(m, SCALE, -1_000_000_000, 0, 0, 0, false));
    sim.add_particle(body_at(m, SCALE, 1_000_000_000, 0, 0, 0, false));
    sim.simulate_n_times(1);
    let a = sim.particle_array[0];
    let b = sim.particle_array[1];
    assert_eq!(a.position.get_x(), -b.position.get_x());
    assert_eq!(a.position.get_y(), -b.position.get_y());
    assert_eq!(a.velocity.get_x(), -b.velocity.get_x());
    assert_eq!(a.velocity.get_y(), -b.velocity.get_y());
    // They did attract each other.
    assert!(a.velocity.get_x() > 0);
    assert!(a.position.get_x() > -1_000_000_000);
}

#[test]
fn colliding_body_halts() {
    // Radii sum (2000 m) exceeds the separation (1500 m) at tick start.
    let mut sim = Simulator::new(SCALE);
    sim.add_particle(body_at(SCALE, 1_000_000_000, 0, 0, 5 * SCALE, 7 * SCALE, false));
    sim.add_particle(body_at(SCALE, 1_000_000_000, 1_500_000_000, 0, 0, 0, false));
    sim.simulate_n_times(1);
    let a = sim.particle_array[0];
    assert_eq!(a.velocity.get_x(), 0);
    assert_eq!(a.velocity.get_y(), 0);
    assert_eq!(a.position.get_x(), 0);
    assert_eq!(a.position.get_y(), 0);
}

#[test]
fn n_ticks_equal_n_single_ticks() {
    let build = || {
        let mut sim = Simulator::new(SCALE / 10);
        sim.add_particle(body_at(EARTH_MASS, EARTH_RADIUS, 0, 0, 0, 0, true));
        sim.add_particle(body_at(SCALE, SCALE, 0, 2 * EARTH_RADIUS, 4_000_000_000, 0, false));
        sim
    };
    let mut many = build();
    many.simulate_n_times(7);
    let mut single = build();
    for _ in 0..7 {
        single.simulate_n_times(1);
    }
    for i in 0..2 {
        let p = many.particle_array[i];
        let q = single.particle_array[i];
        assert_eq!(p.position.get_x(), q.position.get_x());
        assert_eq!(p.position.get_y(), q.position.get_y());
        assert_eq!(p.velocity.get_x(), q.velocity.get_x());
        assert_eq!(p.velocity.get_y(), q.velocity.get_y());
        assert_eq!(p.acceleration.get_x(), q.acceleration.get_x());
        assert_eq!(p.acceleration.get_y(), q.acceleration.get_y());
    }
}

#[test]
fn negative_tick_count_does_nothing() {
    let mut sim = Simulator::new(SCALE);
    sim.add_particle(body_at(SCALE, 0, 5, 6, 7, 8, false));
    sim.simulate_n_times(-3);
    assert_eq!(sim.particle_array[0].position.get_x(), 5);
    assert_eq!(sim.particle_array[0].velocity.get_x(), 7);
}

#[test]
fn simulate_seconds_overshoots_by_at_most_one_tick() {
    // Tick duration 3 us; 7 us of simulation takes 3 ticks.
    let run_seconds = {
        let mut sim = Simulator::new(3);
        sim.add_particle(body_at(SCALE, 0, 0, 0, SCALE, 0, false));
        sim.simulate_seconds(7);
        sim.particle_array[0].position.get_x()
    };
    let run_ticks = {
        let mut sim = Simulator::new(3);
        sim.add_particle(body_at(SCALE, 0, 0, 0, SCALE, 0, false));
        sim.simulate_n_times(3);
        sim.particle_array[0].position.get_x()
    };
    assert_eq!(run_seconds, run_ticks);
    assert_eq!(run_seconds, 9);
}

#[test]
fn circular_orbit_returns_to_start_after_one_period() {
    // A light satellite seeded by the closed-form circular-orbit helper
    // around a fixed Earth-mass body, advanced one full period in 0.1 s
    // ticks, comes back close to its starting point.
    let mut sim = Simulator::new(SCALE / 10);
    let earth = body_at(EARTH_MASS, EARTH_RADIUS, 0, 0, 0, 0, true);
    sim.add_particle(earth);
    let sat = earth.new_particle_in_stable_orbit(SCALE, 0, SCALE, 400_000_000_000);
    let x0 = sat.position.get_x();
    let y0 = sat.position.get_y();
    sim.add_particle(sat);

    let radius_m = 6.771e6_f64;
    let speed = sat.velocity.get_module() as f64 / SCALE as f64;
    let period = 2.0 * std::f64::consts::PI * radius_m / speed;
    let ticks = (period / 0.1).round() as i32;
    sim.simulate_n_times(ticks);

    let p = sim.particle_array[1].position;
    let dx = (p.get_x() - x0) as f64 / SCALE as f64;
    let dy = (p.get_y() - y0) as f64 / SCALE as f64;
    let miss = (dx * dx + dy * dy).sqrt();
    // Within 20 km of the start on a 6771 km orbit (0.3%).
    assert!(miss < 20_000.0, "missed the start by {miss} m");
    // Still on the orbit: distance from the centre within 0.3%.
    let r = (p.get_x() as f64 * p.get_x() as f64 + p.get_y() as f64 * p.get_y() as f64)
        .sqrt()
        / SCALE as f64;
    assert!((r - radius_m).abs() / radius_m < 3e-3, "radius drifted to {r} m");
}
