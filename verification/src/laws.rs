//! Laws of the simulation, stated and proved over the model that the
//! executable contracts speak of.

use vstd::prelude::*;

use crate::num::{sat_i, SCALE};
use crate::particle::{
    lemma_spec_vec, lemma_wf_module, spec_accel_sum, spec_accel_vec, spec_any_collision,
    spec_colliding, spec_dist_vec, spec_distance, spec_field_accel, spec_forces,
    spec_grav_accel_mag, spec_move, spec_smul, spec_sq_sum, spec_vec, BidimensionalVector,
    Particle, GRAV_DEN, GRAV_NUM,
};
use crate::sim::{lemma_ticks_preserve, lemma_ticks_succ, spec_tick_particles, spec_ticks};

verus! {

/// The distance vector is antisymmetric and the distance symmetric:
/// `distance_vector(a, b)` is the componentwise negation of
/// `distance_vector(b, a)`, and both have the same magnitude. Holds whenever
/// the componentwise differences stay strictly inside the `i128` range,
/// where negation cannot saturate.
pub proof fn lemma_distance_vector_antisymmetric(a: BidimensionalVector, b: BidimensionalVector)
    requires
        -(i128::MAX as int) <= b.spec_x() - a.spec_x() <= i128::MAX as int,
        -(i128::MAX as int) <= b.spec_y() - a.spec_y() <= i128::MAX as int,
    ensures
        spec_dist_vec(a, b).spec_x() == -spec_dist_vec(b, a).spec_x(),
        spec_dist_vec(a, b).spec_y() == -spec_dist_vec(b, a).spec_y(),
        spec_distance(a, b) == spec_distance(b, a),
{
    let dx = b.spec_x() - a.spec_x();
    let dy = b.spec_y() - a.spec_y();
    assert(sat_i(dx) == dx);
    assert(sat_i(dy) == dy);
    assert(sat_i(-dx) == -dx);
    assert(sat_i(-dy) == -dy);
    lemma_spec_vec(dx, dy);
    lemma_spec_vec(-dx, -dy);
    assert(spec_sq_sum(dx, dy) == spec_sq_sum(-dx, -dy)) by {
        assert(-dx * -dx == dx * dx) by (nonlinear_arith);
        assert(-dy * -dy == dy * dy) by (nonlinear_arith);
    }
}

/// A fixed particle's whole state, position and velocity included, survives
/// any number of ticks bit for bit, whatever its peers do.
pub proof fn lemma_fixed_particle_is_constant(ps: Seq<Particle>, t: int, n: nat, i: int)
    requires
        0 <= i < ps.len(),
        ps[i].fixed,
    ensures
        spec_ticks(ps, t, n).len() == ps.len(),
        spec_ticks(ps, t, n)[i] == ps[i],
{
    lemma_ticks_preserve(ps, t, n);
}

/// A non-fixed particle that starts a tick within collision range of any
/// peer comes out of the tick with exactly zero velocity and an unmoved
/// position.
pub proof fn lemma_collision_halts_particle(ps: Seq<Particle>, t: int, i: int, j: int)
    requires
        0 <= i < ps.len(),
        0 <= j < ps.len(),
        i != j,
        spec_colliding(ps[i], ps[j]),
        !ps[i].fixed,
        ps[i].position.wf(),
    ensures
        spec_tick_particles(ps, t).len() == ps.len(),
        spec_tick_particles(ps, t)[i].velocity == spec_vec(0, 0),
        spec_tick_particles(ps, t)[i].position == ps[i].position,
{
    let peers = ps.remove(i);
    ps.remove_ensures(i);
    let j2: int = if j < i {
        j
    } else {
        j - 1
    };
    assert(peers[j2] == ps[j]);
    assert(spec_any_collision(ps[i], peers));
    lemma_spec_vec(0, 0);
    assert(spec_smul(0, t) == 0);
    let q = spec_forces(ps[i], peers, t);
    assert(q.velocity == spec_vec(0, 0));
    let px = ps[i].position.spec_x();
    let py = ps[i].position.spec_y();
    crate::particle::lemma_vec_in_range(ps[i].position);
    assert(sat_i(px + 0) == px);
    assert(sat_i(py + 0) == py);
    lemma_wf_module(ps[i].position);
    assert(spec_tick_particles(ps, t)[i] == spec_move(q, t));
    assert(spec_move(q, t).position == spec_vec(px, py));
}

/// The unit vector of any nonzero vector has magnitude one, up to the
/// fixed-point resolution: its cached magnitude differs from `SCALE`
/// (the representation of 1) by less than three units below and by less
/// than `SCALE / m + 1` above, where `m` is the vector's own magnitude.
/// Holds for components up to 9 * 10^18, within which no square saturates.
pub proof fn lemma_unit_vector_magnitude(v: BidimensionalVector)
    requires
        v.wf(),
        v.spec_module() >= 1,
        -9_000_000_000_000_000_000 <= v.spec_x() <= 9_000_000_000_000_000_000,
        -9_000_000_000_000_000_000 <= v.spec_y() <= 9_000_000_000_000_000_000,
    ensures
        SCALE - 3 <= crate::particle::spec_unit(v).spec_module(),
        v.spec_module() * crate::particle::spec_unit(v).spec_module() < v.spec_module() * SCALE
            + SCALE,
{
    let x = v.spec_x();
    let y = v.spec_y();
    let m = v.spec_module();
    let s = SCALE as int;
    lemma_wf_module(v);
    let sq = spec_sq_sum(x, y);
    assert(0 <= x * x <= 81_000_000_000_000_000_000_000_000_000_000_000_000) by (nonlinear_arith)
        requires
            -9_000_000_000_000_000_000 <= x <= 9_000_000_000_000_000_000,
    ;
    assert(0 <= y * y <= 81_000_000_000_000_000_000_000_000_000_000_000_000) by (nonlinear_arith)
        requires
            -9_000_000_000_000_000_000 <= y <= 9_000_000_000_000_000_000,
    ;
    assert(sq == x * x + y * y);
    assert(crate::num::is_sqrt(sq, m));
    assert(m * m <= sq && sq < (m + 1) * (m + 1));
    assert(m <= 13_000_000_000_000_000_000) by (nonlinear_arith)
        requires
            m * m <= sq,
            sq <= 162_000_000_000_000_000_000_000_000_000_000_000_000,
            m >= 0,
    ;
    let xa = if x >= 0 {
        x
    } else {
        -x
    };
    let ya = if y >= 0 {
        y
    } else {
        -y
    };
    assert(xa * xa == x * x) by (nonlinear_arith)
        requires
            xa == x || xa == -x,
    ;
    assert(ya * ya == y * y) by (nonlinear_arith)
        requires
            ya == y || ya == -y,
    ;
    assert(xa <= m) by (nonlinear_arith)
        requires
            xa * xa <= sq,
            sq < (m + 1) * (m + 1),
            m >= 0,
            xa >= 0,
    ;
    assert(ya <= m) by (nonlinear_arith)
        requires
            ya * ya <= sq,
            sq < (m + 1) * (m + 1),
            m >= 0,
            ya >= 0,
    ;
    let p = xa * s;
    let q = ya * s;
    assert(0 <= p <= m * s && p <= 9_000_000_000_000_000_000_000_000) by (nonlinear_arith)
        requires
            0 <= xa <= m,
            xa <= 9_000_000_000_000_000_000,
            s == 1_000_000,
            p == xa * s,
    ;
    assert(0 <= q <= m * s && q <= 9_000_000_000_000_000_000_000_000) by (nonlinear_arith)
        requires
            0 <= ya <= m,
            ya <= 9_000_000_000_000_000_000,
            s == 1_000_000,
            q == ya * s,
    ;
    let big_a = crate::num::tdiv(p, m);
    let big_b = crate::num::tdiv(q, m);
    crate::num::lemma_tdiv_trunc(p, m);
    crate::num::lemma_tdiv_trunc(q, m);
    crate::num::lemma_tdiv_bound(p, m, s);
    crate::num::lemma_tdiv_bound(q, m, s);
    assert(0 <= big_a <= s && 0 <= big_b <= s);

    let ux = crate::particle::spec_sdiv(x, m);
    let uy = crate::particle::spec_sdiv(y, m);
    assert(x * s == if x >= 0 {
        p
    } else {
        -p
    }) by (nonlinear_arith)
        requires
            p == xa * s,
            xa == if x >= 0 {
                x
            } else {
                -x
            },
    ;
    assert(y * s == if y >= 0 {
        q
    } else {
        -q
    }) by (nonlinear_arith)
        requires
            q == ya * s,
            ya == if y >= 0 {
                y
            } else {
                -y
            },
    ;
    crate::num::lemma_tdiv_odd(p, m);
    crate::num::lemma_tdiv_odd(q, m);
    assert(ux == if x >= 0 {
        big_a
    } else {
        -big_a
    });
    assert(uy == if y >= 0 {
        big_b
    } else {
        -big_b
    });
    assert(ux * ux == big_a * big_a && uy * uy == big_b * big_b) by (nonlinear_arith)
        requires
            ux == big_a || ux == -big_a,
            uy == big_b || uy == -big_b,
    ;
    let usum = spec_sq_sum(ux, uy);
    assert(0 <= big_a * big_a <= 1_000_000_000_000 && 0 <= big_b * big_b <= 1_000_000_000_000)
        by (nonlinear_arith)
        requires
            0 <= big_a <= 1_000_000,
            0 <= big_b <= 1_000_000,
    ;
    assert(usum == big_a * big_a + big_b * big_b);
    lemma_spec_vec(ux, uy);
    let um = crate::particle::spec_unit(v).spec_module();
    assert(um == crate::num::sqrt_floor(usum));
    assert(crate::num::is_sqrt(usum, um)) by {
        crate::num::lemma_sqrt_exists(usum);
    }
    assert(um * um <= usum && usum < (um + 1) * (um + 1) && um >= 0);

    // Upper bound: m * um < m * s + s.
    assert(m * m * (big_a * big_a) <= p * p) by (nonlinear_arith)
        requires
            0 <= m * big_a <= p,
    ;
    assert(m * m * (big_b * big_b) <= q * q) by (nonlinear_arith)
        requires
            0 <= m * big_b <= q,
    ;
    assert(p * p + q * q == s * s * sq) by (nonlinear_arith)
        requires
            p == xa * s,
            q == ya * s,
            sq == x * x + y * y,
            xa * xa == x * x,
            ya * ya == y * y,
    ;
    assert(s * s * sq < s * s * ((m + 1) * (m + 1))) by (nonlinear_arith)
        requires
            sq < (m + 1) * (m + 1),
            s == 1_000_000,
    ;
    assert((m * um) * (m * um) <= m * m * usum) by (nonlinear_arith)
        requires
            um * um <= usum,
            m >= 1,
            um >= 0,
    ;
    assert(m * m * usum <= p * p + q * q) by (nonlinear_arith)
        requires
            usum == big_a * big_a + big_b * big_b,
            m * m * (big_a * big_a) <= p * p,
            m * m * (big_b * big_b) <= q * q,
    ;
    assert((m * s + s) * (m * s + s) == s * s * ((m + 1) * (m + 1))) by (nonlinear_arith);
    assert((m * um) * (m * um) < (m * s + s) * (m * s + s));
    assert(m * um >= 0) by (nonlinear_arith)
        requires
            m >= 1,
            um >= 0,
    ;
    assert(m * um < m * s + s) by (nonlinear_arith)
        requires
            (m * um) * (m * um) < (m * s + s) * (m * s + s),
            m * um >= 0,
            m * s + s >= 0,
    ;

    // Lower bound: um >= s - 3.
    assert(m * big_a >= p - m + 1 && m * big_b >= q - m + 1);
    assert(m * m * (big_a * big_a) >= p * p - 2 * m * p) by (nonlinear_arith)
        requires
            m * big_a >= p - m + 1,
            big_a >= 0,
            m >= 1,
            p >= 0,
    ;
    assert(m * m * (big_b * big_b) >= q * q - 2 * m * q) by (nonlinear_arith)
        requires
            m * big_b >= q - m + 1,
            big_b >= 0,
            m >= 1,
            q >= 0,
    ;
    assert(s * s * sq >= s * s * (m * m)) by (nonlinear_arith)
        requires
            sq >= m * m,
            s == 1_000_000,
    ;
    assert(m * m * usum >= p * p + q * q - 2 * m * p - 2 * m * q) by (nonlinear_arith)
        requires
            usum == big_a * big_a + big_b * big_b,
            m * m * (big_a * big_a) >= p * p - 2 * m * p,
            m * m * (big_b * big_b) >= q * q - 2 * m * q,
    ;
    assert(2 * m * p + 2 * m * q <= 4 * (m * m) * s) by (nonlinear_arith)
        requires
            0 <= p <= m * s,
            0 <= q <= m * s,
            m >= 1,
            s >= 1,
    ;
    assert(s * s * (m * m) - 4 * (m * m) * s == m * m * (s * s - 4 * s)) by (nonlinear_arith);
    assert(m * m * usum >= m * m * (s * s - 4 * s));
    assert(usum >= s * s - 4 * s) by (nonlinear_arith)
        requires
            m * m * usum >= m * m * (s * s - 4 * s),
            m >= 1,
    ;
    assert((um + 1) * (um + 1) > (s - 3) * (s - 3)) by (nonlinear_arith)
        requires
            usum < (um + 1) * (um + 1),
            usum >= s * s - 4 * s,
            s == 1_000_000,
    ;
    assert(um + 1 > s - 3) by (nonlinear_arith)
        requires
            (um + 1) * (um + 1) > (s - 3) * (s - 3),
            um >= 0,
            s == 1_000_000,
    ;
}

/// Fixed-point scaling is odd in its first argument while the product stays
/// exact.
proof fn lemma_mirror_smul(a: int, k: int)
    requires
        -(i128::MAX as int) <= a * k <= i128::MAX as int,
    ensures
        spec_smul(-a, k) == -spec_smul(a, k),
        spec_smul(a, k) == crate::num::tdiv(a * k, SCALE as int),
{
    assert(-a * k == -(a * k)) by (nonlinear_arith);
    crate::num::lemma_tdiv_odd(a * k, SCALE as int);
    crate::num::lemma_tdiv_magnitude(a * k, SCALE as int);
    crate::num::lemma_tdiv_magnitude(-(a * k), SCALE as int);
}

/// Fixed-point division is odd in its numerator while the scaled numerator
/// stays exact.
proof fn lemma_mirror_sdiv(a: int, b: int)
    requires
        b > 0,
        -(i128::MAX as int) <= a * SCALE <= i128::MAX as int,
    ensures
        crate::particle::spec_sdiv(-a, b) == -crate::particle::spec_sdiv(a, b),
        crate::particle::spec_sdiv(a, b) == crate::num::tdiv(a * SCALE, b),
{
    assert(-a * SCALE == -(a * SCALE)) by (nonlinear_arith);
    crate::num::lemma_tdiv_odd(a * SCALE, b);
    crate::num::lemma_tdiv_magnitude(a * SCALE, b);
    crate::num::lemma_tdiv_magnitude(-(a * SCALE), b);
}

/// Two equal, non-fixed particles at rest, placed mirror-symmetrically about
/// the origin, stay mirror images of each other through one tick: their new
/// positions and velocities are exact componentwise negations. Holds away
/// from the extremes where fixed-point saturation could break the symmetry:
/// coordinates up to 10^18, mass up to 10^30, radius between one metre
/// (10^6) and 10^18, and a tick duration up to 10^7.
pub proof fn lemma_symmetric_pair(p0: Particle, p1: Particle, t: int)
    requires
        p0.wf(),
        p1.wf(),
        !p0.fixed,
        !p1.fixed,
        p1.mass == p0.mass,
        p1.radius == p0.radius,
        p1.position.spec_x() == -p0.position.spec_x(),
        p1.position.spec_y() == -p0.position.spec_y(),
        p0.velocity == spec_vec(0, 0),
        p1.velocity == spec_vec(0, 0),
        -1_000_000_000_000_000_000 <= p0.position.spec_x() <= 1_000_000_000_000_000_000,
        -1_000_000_000_000_000_000 <= p0.position.spec_y() <= 1_000_000_000_000_000_000,
        p0.mass <= 1_000_000_000_000_000_000_000_000_000_000,
        1_000_000 <= p0.radius <= 1_000_000_000_000_000_000,
        0 < t <= 10_000_000,
    ensures
        spec_tick_particles(seq![p0, p1], t).len() == 2,
        spec_tick_particles(seq![p0, p1], t)[0].position.spec_x() == -spec_tick_particles(
            seq![p0, p1],
            t,
        )[1].position.spec_x(),
        spec_tick_particles(seq![p0, p1], t)[0].position.spec_y() == -spec_tick_particles(
            seq![p0, p1],
            t,
        )[1].position.spec_y(),
        spec_tick_particles(seq![p0, p1], t)[0].velocity.spec_x() == -spec_tick_particles(
            seq![p0, p1],
            t,
        )[1].velocity.spec_x(),
        spec_tick_particles(seq![p0, p1], t)[0].velocity.spec_y() == -spec_tick_particles(
            seq![p0, p1],
            t,
        )[1].velocity.spec_y(),
{
    let ps = seq![p0, p1];
    let peers0 = ps.remove(0);
    let peers1 = ps.remove(1);
    ps.remove_ensures(0);
    ps.remove_ensures(1);
    assert(peers0 =~= seq![p1]);
    assert(peers1 =~= seq![p0]);
    lemma_spec_vec(0, 0);

    let p0x = p0.position.spec_x();
    let p0y = p0.position.spec_y();
    let dx = sat_i(p1.position.spec_x() - p0x);
    let dy = sat_i(p1.position.spec_y() - p0y);
    assert(dx == -2 * p0x && dy == -2 * p0y);
    assert(sat_i(p0x - p1.position.spec_x()) == -dx);
    assert(sat_i(p0y - p1.position.spec_y()) == -dy);
    lemma_spec_vec(dx, dy);
    lemma_spec_vec(-dx, -dy);
    assert(spec_sq_sum(dx, dy) == spec_sq_sum(-dx, -dy)) by {
        assert(-dx * -dx == dx * dx) by (nonlinear_arith);
        assert(-dy * -dy == dy * dy) by (nonlinear_arith);
    }
    let sq = spec_sq_sum(dx, dy);
    assert(dx * dx <= 4_000_000_000_000_000_000_000_000_000_000_000_000
        && dx * dx >= 0) by (nonlinear_arith)
        requires
            -2_000_000_000_000_000_000 <= dx <= 2_000_000_000_000_000_000,
    ;
    assert(dy * dy <= 4_000_000_000_000_000_000_000_000_000_000_000_000
        && dy * dy >= 0) by (nonlinear_arith)
        requires
            -2_000_000_000_000_000_000 <= dy <= 2_000_000_000_000_000_000,
    ;
    assert(sq == dx * dx + dy * dy);
    let m = spec_dist_vec(p0.position, p1.position).spec_module();
    assert(m == crate::num::sqrt_floor(sq));
    assert(spec_dist_vec(p1.position, p0.position).spec_module() == m);
    assert(crate::num::is_sqrt(sq, m)) by {
        crate::num::lemma_sqrt_exists(sq);
    }
    assert(m * m <= sq && sq < (m + 1) * (m + 1) && m >= 0);
    assert(m <= 3_000_000_000_000_000_000) by (nonlinear_arith)
        requires
            m * m <= sq,
            sq <= 8_000_000_000_000_000_000_000_000_000_000_000_000,
            m >= 0,
    ;
    assert(-m <= dx <= m) by (nonlinear_arith)
        requires
            dx * dx <= sq,
            sq < (m + 1) * (m + 1),
            m >= 0,
            dy * dy >= 0,
            sq == dx * dx + dy * dy,
    ;
    assert(-m <= dy <= m) by (nonlinear_arith)
        requires
            dy * dy <= sq,
            sq < (m + 1) * (m + 1),
            m >= 0,
            dx * dx >= 0,
            sq == dx * dx + dy * dy,
    ;

    let rsum = sat_i(p0.radius + p1.radius);
    assert(rsum == p0.radius + p1.radius);
    assert(spec_colliding(p0, p1) == spec_colliding(p1, p0));
    assert(spec_any_collision(p0, peers0) == spec_colliding(p0, p1)) by {
        if spec_colliding(p0, p1) {
            assert(peers0[0] == p1);
        }
        if spec_any_collision(p0, peers0) {
            let w = choose|w: int| 0 <= w < peers0.len() && spec_colliding(p0, peers0[w]);
            assert(peers0[w] == p1);
        }
    }
    assert(spec_any_collision(p1, peers1) == spec_colliding(p1, p0)) by {
        if spec_colliding(p1, p0) {
            assert(peers1[0] == p0);
        }
        if spec_any_collision(p1, peers1) {
            let w = choose|w: int| 0 <= w < peers1.len() && spec_colliding(p1, peers1[w]);
            assert(peers1[w] == p0);
        }
    }

    assert(spec_smul(0, t) == 0);
    assert(spec_tick_particles(ps, t)[0] == spec_move(spec_forces(p0, peers0, t), t));
    assert(spec_tick_particles(ps, t)[1] == spec_move(spec_forces(p1, peers1, t), t));
    crate::particle::lemma_vec_in_range(p0.position);

    if spec_colliding(p0, p1) {
        let q0 = spec_forces(p0, peers0, t);
        let q1 = spec_forces(p1, peers1, t);
        assert(q0.velocity == spec_vec(0, 0) && q1.velocity == spec_vec(0, 0));
        assert(q0.position == p0.position && q1.position == p1.position);
        lemma_wf_module(p0.position);
        lemma_wf_module(p1.position);
        assert(spec_move(q0, t).position == spec_vec(p0x, p0y));
        assert(spec_move(q1, t).position == spec_vec(-p0x, -p0y));
        lemma_spec_vec(p0x, p0y);
        lemma_spec_vec(-p0x, -p0y);
    } else {
        assert(m > rsum);
        assert(m >= 2_000_001);
        let mass = p0.mass as int;
        let t1 = sat_i(GRAV_NUM * mass);
        assert(0 < GRAV_NUM * mass <= 66_743_000_000_000_000_000_000_000_000_000_000)
            by (nonlinear_arith)
            requires
                0 < mass <= 1_000_000_000_000_000_000_000_000_000_000,
        ;
        assert(t1 == GRAV_NUM * mass);
        let t2 = sat_i(crate::num::tdiv(t1, GRAV_DEN as int));
        crate::num::lemma_tdiv_nonneg(t1, GRAV_DEN as int);
        crate::num::lemma_tdiv_bound(t1, GRAV_DEN as int, 66_743_000_000_000_000_000);
        assert(t2 == crate::num::tdiv(t1, GRAV_DEN as int));
        assert(0 <= t2 <= 66_743_000_000_000_000_000);
        let t3 = sat_i(t2 * SCALE);
        assert(0 <= t2 * SCALE <= 66_743_000_000_000_000_000_000_000) by (nonlinear_arith)
            requires
                0 <= t2 <= 66_743_000_000_000_000_000,
        ;
        assert(t3 == t2 * SCALE);
        let t4 = sat_i(t3 * SCALE);
        assert(0 <= t3 * SCALE <= 66_743_000_000_000_000_000_000_000_000_000) by (nonlinear_arith)
            requires
                0 <= t3 <= 66_743_000_000_000_000_000_000_000,
        ;
        assert(t4 == t3 * SCALE);
        let d2 = sat_i(m * m);
        assert(d2 == m * m);
        assert(m * m >= 4_000_000_000_000) by (nonlinear_arith)
            requires
                m >= 2_000_001,
        ;
        assert(d2 >= 4_000_000_000_000);
        let amag = spec_grav_accel_mag(p1.mass as int, m);
        assert(amag == sat_i(crate::num::tdiv(t4, d2)));
        assert(t4 <= d2 * 17_000_000_000_000_000_000) by (nonlinear_arith)
            requires
                d2 >= 4_000_000_000_000,
                t4 <= 66_743_000_000_000_000_000_000_000_000_000,
        ;
        assert(-(d2 * 17_000_000_000_000_000_000) <= t4) by (nonlinear_arith)
            requires
                d2 >= 4_000_000_000_000,
                t4 >= 0,
        ;
        crate::num::lemma_tdiv_bound(t4, d2, 17_000_000_000_000_000_000);
        assert(amag == crate::num::tdiv(t4, d2));
        assert(-17_000_000_000_000_000_000 <= amag <= 17_000_000_000_000_000_000);
        assert(spec_grav_accel_mag(p0.mass as int, m) == amag);

        assert(-(m * SCALE) <= dx * SCALE <= m * SCALE) by (nonlinear_arith)
            requires
                -m <= dx <= m,
                SCALE > 0,
        ;
        assert(-(m * SCALE) <= dy * SCALE <= m * SCALE) by (nonlinear_arith)
            requires
                -m <= dy <= m,
                SCALE > 0,
        ;
        assert(m * SCALE <= 3_000_000_000_000_000_000_000_000) by (nonlinear_arith)
            requires
                m <= 3_000_000_000_000_000_000,
        ;
        let ux = crate::particle::spec_sdiv(dx, m);
        let uy = crate::particle::spec_sdiv(dy, m);
        lemma_mirror_sdiv(dx, m);
        lemma_mirror_sdiv(dy, m);
        crate::num::lemma_tdiv_bound(dx * SCALE, m, SCALE as int);
        crate::num::lemma_tdiv_bound(dy * SCALE, m, SCALE as int);
        assert(-SCALE <= ux <= SCALE && -SCALE <= uy <= SCALE);
        assert(crate::particle::spec_sdiv(-dx, m) == -ux);
        assert(crate::particle::spec_sdiv(-dy, m) == -uy);

        let cx = spec_smul(ux, amag);
        let cy = spec_smul(uy, amag);
        assert(-17_000_000_000_000_000_000_000_000 <= ux * amag
            <= 17_000_000_000_000_000_000_000_000) by (nonlinear_arith)
            requires
                -1_000_000 <= ux <= 1_000_000,
                -17_000_000_000_000_000_000 <= amag <= 17_000_000_000_000_000_000,
        ;
        assert(-17_000_000_000_000_000_000_000_000 <= uy * amag
            <= 17_000_000_000_000_000_000_000_000) by (nonlinear_arith)
            requires
                -1_000_000 <= uy <= 1_000_000,
                -17_000_000_000_000_000_000 <= amag <= 17_000_000_000_000_000_000,
        ;
        lemma_mirror_smul(ux, amag);
        lemma_mirror_smul(uy, amag);
        crate::num::lemma_tdiv_bound(ux * amag, SCALE as int, 17_000_000_000_000_000_000);
        crate::num::lemma_tdiv_bound(uy * amag, SCALE as int, 17_000_000_000_000_000_000);
        assert(-17_000_000_000_000_000_000 <= cx <= 17_000_000_000_000_000_000);
        assert(-17_000_000_000_000_000_000 <= cy <= 17_000_000_000_000_000_000);
        assert(spec_smul(-ux, amag) == -cx);
        assert(spec_smul(-uy, amag) == -cy);

        let a0 = spec_accel_vec(p0, p1);
        let a1 = spec_accel_vec(p1, p0);
        assert(a0 == spec_vec(cx, cy));
        assert(a1 == spec_vec(-cx, -cy));
        lemma_spec_vec(cx, cy);
        lemma_spec_vec(-cx, -cy);

        assert(spec_accel_sum(p0, peers0, 0) == (0int, 0int));
        assert(spec_accel_sum(p1, peers1, 0) == (0int, 0int));
        assert(spec_accel_sum(p0, peers0, 1) == (sat_i(0 + cx), sat_i(0 + cy)));
        assert(spec_accel_sum(p1, peers1, 1) == (sat_i(0 + -cx), sat_i(0 + -cy)));
        let f0 = spec_field_accel(p0, peers0);
        let f1 = spec_field_accel(p1, peers1);
        assert(f0 == spec_vec(cx, cy));
        assert(f1 == spec_vec(-cx, -cy));

        let q0 = spec_forces(p0, peers0, t);
        let q1 = spec_forces(p1, peers1, t);
        assert(-170_000_000_000_000_000_000_000_000 <= cx * t
            <= 170_000_000_000_000_000_000_000_000) by (nonlinear_arith)
            requires
                -17_000_000_000_000_000_000 <= cx <= 17_000_000_000_000_000_000,
                0 < t <= 10_000_000,
        ;
        assert(-170_000_000_000_000_000_000_000_000 <= cy * t
            <= 170_000_000_000_000_000_000_000_000) by (nonlinear_arith)
            requires
                -17_000_000_000_000_000_000 <= cy <= 17_000_000_000_000_000_000,
                0 < t <= 10_000_000,
        ;
        lemma_mirror_smul(cx, t);
        lemma_mirror_smul(cy, t);
        crate::num::lemma_tdiv_bound(cx * t, SCALE as int, 170_000_000_000_000_000_000);
        crate::num::lemma_tdiv_bound(cy * t, SCALE as int, 170_000_000_000_000_000_000);
        let vx = spec_smul(cx, t);
        let vy = spec_smul(cy, t);
        assert(spec_smul(-cx, t) == -vx);
        assert(spec_smul(-cy, t) == -vy);
        assert(-170_000_000_000_000_000_000 <= vx <= 170_000_000_000_000_000_000);
        assert(-170_000_000_000_000_000_000 <= vy <= 170_000_000_000_000_000_000);
        assert(q0.velocity == spec_vec(sat_i(0 + vx), sat_i(0 + vy)));
        assert(q1.velocity == spec_vec(sat_i(0 + -vx), sat_i(0 + -vy)));
        assert(q0.velocity == spec_vec(vx, vy));
        assert(q1.velocity == spec_vec(-vx, -vy));
        lemma_spec_vec(vx, vy);
        lemma_spec_vec(-vx, -vy);
        assert(q0.position == p0.position && q1.position == p1.position);

        assert(-1_700_000_000_000_000_000_000_000_000 <= vx * t
            <= 1_700_000_000_000_000_000_000_000_000) by (nonlinear_arith)
            requires
                -170_000_000_000_000_000_000 <= vx <= 170_000_000_000_000_000_000,
                0 < t <= 10_000_000,
        ;
        assert(-1_700_000_000_000_000_000_000_000_000 <= vy * t
            <= 1_700_000_000_000_000_000_000_000_000) by (nonlinear_arith)
            requires
                -170_000_000_000_000_000_000 <= vy <= 170_000_000_000_000_000_000,
                0 < t <= 10_000_000,
        ;
        lemma_mirror_smul(vx, t);
        lemma_mirror_smul(vy, t);
        crate::num::lemma_tdiv_bound(vx * t, SCALE as int, 1_700_000_000_000_000_000_000);
        crate::num::lemma_tdiv_bound(vy * t, SCALE as int, 1_700_000_000_000_000_000_000);
        let mx = spec_smul(vx, t);
        let my = spec_smul(vy, t);
        assert(spec_smul(-vx, t) == -mx);
        assert(spec_smul(-vy, t) == -my);
        let r0 = spec_move(q0, t);
        let r1 = spec_move(q1, t);
        assert(r0.position == spec_vec(sat_i(p0x + mx), sat_i(p0y + my)));
        assert(r1.position == spec_vec(sat_i(-p0x + -mx), sat_i(-p0y + -my)));
        assert(sat_i(p0x + mx) == p0x + mx && sat_i(-p0x + -mx) == -(p0x + mx));
        assert(sat_i(p0y + my) == p0y + my && sat_i(-p0y + -my) == -(p0y + my));
        lemma_spec_vec(p0x + mx, p0y + my);
        lemma_spec_vec(-(p0x + mx), -(p0y + my));
        assert(r0.velocity == spec_vec(vx, vy) && r1.velocity == spec_vec(-vx, -vy));
    }
}

/// Advancing by `n` ticks is the same as advancing one tick at a time,
/// `n` times: zero ticks change nothing, and `n` ticks are `n - 1` ticks
/// followed by a single tick of the result.
pub proof fn lemma_advance_ticks_iterates(ps: Seq<Particle>, t: int, n: nat)
    ensures
        n == 0 ==> spec_ticks(ps, t, n) == ps,
        n > 0 ==> spec_ticks(ps, t, n) == spec_tick_particles(
            spec_ticks(ps, t, (n - 1) as nat),
            t,
        ),
{
    if n > 0 {
        lemma_ticks_succ(ps, t, (n - 1) as nat);
    }
}

} // verus!
