//! Point masses and the two-dimensional vectors they move by.
//!
//! `BidimensionalVector` is an immutable value type whose magnitude is
//! computed once, at construction, and cached in the `module` field; a type
//! invariant keeps the cache exact for every value in existence. `Particle`
//! couples a mass, charge and collision radius with kinematic state and a
//! `fixed` flag; a fixed particle exerts gravity but never reacts to it.

use vstd::prelude::*;

use crate::num::{
    is_sqrt, isqrt, lemma_sqrt_is, sat_add, sat_i, sat_mul, sat_sub, div_t,
    sqrt_floor, tdiv, SCALE,
};

verus! {

/// Numerator of the gravitational constant: `G = GRAV_NUM / GRAV_DEN`
/// in cubic metres per kilogram per square second.
pub const GRAV_NUM: i128 = 66_743;

/// Denominator of the gravitational constant.
pub const GRAV_DEN: i128 = 1_000_000_000_000_000;

/// An immutable 2-D vector in fixed-point coordinates, with its magnitude
/// cached in `module`.
#[derive(Clone, Copy, PartialEq, Eq, Structural)]
pub struct BidimensionalVector {
    pub(crate) x: i128,
    pub(crate) y: i128,
    pub(crate) module: i128,
}

/// The saturated sum of squares `x*x + y*y`, the quantity whose floor square
/// root is a vector's magnitude.
pub open spec fn spec_sq_sum(x: int, y: int) -> int {
    sat_i(sat_i(x * x) + sat_i(y * y))
}

/// Componentwise saturated fixed-point product: `a * b` rescaled.
pub open spec fn spec_smul(a: int, b: int) -> int {
    sat_i(tdiv(sat_i(a * b), SCALE as int))
}

/// Saturated fixed-point quotient: `a / b` rescaled. Meaningful for `b != 0`.
pub open spec fn spec_sdiv(a: int, b: int) -> int
    recommends
        b != 0,
{
    sat_i(tdiv(sat_i(a * SCALE), b))
}

impl BidimensionalVector {
    /// The cached `module` field is exactly the floor square root of the
    /// saturated sum of squared components.
    #[verifier::type_invariant]
    pub closed spec fn wf(self) -> bool {
        is_sqrt(spec_sq_sum(self.x as int, self.y as int), self.module as int)
    }

    /// The x component, as an unbounded integer.
    pub closed spec fn spec_x(self) -> int {
        self.x as int
    }

    /// The y component, as an unbounded integer.
    pub closed spec fn spec_y(self) -> int {
        self.y as int
    }

    /// The cached magnitude, as an unbounded integer.
    pub closed spec fn spec_module(self) -> int {
        self.module as int
    }
}

/// The unique well-formed vector with the given components
/// (meaningful when both are in the `i128` range).
pub closed spec fn spec_vec(x: int, y: int) -> BidimensionalVector {
    BidimensionalVector {
        x: x as i128,
        y: y as i128,
        module: sqrt_floor(spec_sq_sum(x, y)) as i128,
    }
}

/// The square-sum of two `i128` components is a nonnegative `i128`.
pub proof fn lemma_sq_sum_range(x: int, y: int)
    ensures
        0 <= spec_sq_sum(x, y) <= i128::MAX,
{
    assert(x * x >= 0) by (nonlinear_arith);
    assert(y * y >= 0) by (nonlinear_arith);
}

/// A floor square root of an `i128` quantity fits well inside `i128`.
pub proof fn lemma_sqrt_fits(n: int, r: int)
    requires
        is_sqrt(n, r),
        n <= i128::MAX,
    ensures
        0 <= r < 0x1_0000_0000_0000_0000,
{
    assert(r < 0x1_0000_0000_0000_0000) by (nonlinear_arith)
        requires
            is_sqrt(n, r),
            n <= i128::MAX,
    ;
}

/// What `spec_vec` holds: the given components, a well-formed cache.
pub proof fn lemma_spec_vec(x: int, y: int)
    requires
        i128::MIN <= x <= i128::MAX,
        i128::MIN <= y <= i128::MAX,
    ensures
        spec_vec(x, y).spec_x() == x,
        spec_vec(x, y).spec_y() == y,
        spec_vec(x, y).spec_module() == sqrt_floor(spec_sq_sum(x, y)),
        is_sqrt(spec_sq_sum(x, y), spec_vec(x, y).spec_module()),
        spec_vec(x, y).wf(),
{
    lemma_sq_sum_range(x, y);
    crate::num::lemma_sqrt_exists(spec_sq_sum(x, y));
    lemma_sqrt_fits(spec_sq_sum(x, y), sqrt_floor(spec_sq_sum(x, y)));
}

/// A vector's components and cached magnitude are `i128` values.
pub proof fn lemma_vec_in_range(v: BidimensionalVector)
    ensures
        i128::MIN <= v.spec_x() <= i128::MAX,
        i128::MIN <= v.spec_y() <= i128::MAX,
        i128::MIN <= v.spec_module() <= i128::MAX,
{
}

/// Vectors with equal components and equal cached magnitudes are equal.
pub proof fn lemma_vec_eq(a: BidimensionalVector, b: BidimensionalVector)
    requires
        a.spec_x() == b.spec_x(),
        a.spec_y() == b.spec_y(),
        a.spec_module() == b.spec_module(),
    ensures
        a == b,
{
}

/// A well-formed vector's cached magnitude is the floor square root of its
/// squared components.
pub proof fn lemma_wf_module(v: BidimensionalVector)
    requires
        v.wf(),
    ensures
        is_sqrt(spec_sq_sum(v.spec_x(), v.spec_y()), v.spec_module()),
        v == spec_vec(v.spec_x(), v.spec_y()),
{
    lemma_sq_sum_range(v.spec_x(), v.spec_y());
    lemma_sqrt_is(spec_sq_sum(v.spec_x(), v.spec_y()), v.spec_module());
    lemma_spec_vec(v.spec_x(), v.spec_y());
    lemma_vec_eq(v, spec_vec(v.spec_x(), v.spec_y()));
}

impl BidimensionalVector {
    /// Construct a vector and cache its magnitude.
    pub fn new(vector_x: i128, vector_y: i128) -> (r: BidimensionalVector)
        ensures
            r == spec_vec(vector_x as int, vector_y as int),
            r.spec_x() == vector_x,
            r.spec_y() == vector_y,
            r.wf(),
    {
        proof {
            lemma_spec_vec(vector_x as int, vector_y as int);
        }
        let module = BidimensionalVector::calc_vector_module(vector_x, vector_y);
        BidimensionalVector { x: vector_x, y: vector_y, module }
    }

    /// The x component.
    pub fn get_x(self) -> (r: i128)
        ensures
            r == self.spec_x(),
    {
        self.x
    }

    /// The y component.
    pub fn get_y(self) -> (r: i128)
        ensures
            r == self.spec_y(),
    {
        self.y
    }

    /// The cached magnitude.
    pub fn get_module(self) -> (r: i128)
        ensures
            r == self.spec_module(),
            is_sqrt(spec_sq_sum(self.spec_x(), self.spec_y()), r as int),
            r >= 0,
    {
        proof {
            use_type_invariant(&self);
        }
        self.module
    }

    /// The magnitude determined by two components: the floor square root of
    /// their saturated sum of squares.
    pub fn calc_vector_module(vector_x: i128, vector_y: i128) -> (r: i128)
        ensures
            r == sqrt_floor(spec_sq_sum(vector_x as int, vector_y as int)),
            is_sqrt(spec_sq_sum(vector_x as int, vector_y as int), r as int),
            r >= 0,
    {
        proof {
            lemma_sq_sum_range(vector_x as int, vector_y as int);
        }
        let xx = sat_mul(vector_x, vector_x);
        let yy = sat_mul(vector_y, vector_y);
        isqrt(sat_add(xx, yy))
    }

    /// Recompute the cached magnitude in place. Because the cache is already
    /// exact for every vector, this never changes the value.
    pub fn calc_own_module(&mut self)
        ensures
            *final(self) == *old(self),
    {
        proof {
            use_type_invariant(&*self);
            lemma_sq_sum_range(self.spec_x(), self.spec_y());
            lemma_sqrt_is(spec_sq_sum(self.spec_x(), self.spec_y()), self.spec_module());
        }
        let m = BidimensionalVector::calc_vector_module(self.x, self.y);
        self.module = m;
    }

    /// Scale each component by the fixed-point scalar `multiplier`.
    pub fn multiply_vector_by_f64(&mut self, multiplier: i128) -> (r: BidimensionalVector)
        ensures
            *final(self) == *old(self),
            r == spec_vec(
                spec_smul(old(self).spec_x(), multiplier as int),
                spec_smul(old(self).spec_y(), multiplier as int),
            ),
    {
        let new_x = smul(self.x, multiplier);
        let new_y = smul(self.y, multiplier);
        BidimensionalVector::new(new_x, new_y)
    }

    /// The unit vector in this vector's direction, as a fixed-point ratio.
    /// Callers must rule out the zero vector first.
    pub fn unitary_vector(self) -> (r: BidimensionalVector)
        requires
            self.spec_module() != 0,
        ensures
            r == spec_vec(
                spec_sdiv(self.spec_x(), self.spec_module()),
                spec_sdiv(self.spec_y(), self.spec_module()),
            ),
    {
        proof {
            use_type_invariant(&self);
        }
        let ux = sdiv(self.x, self.module);
        let uy = sdiv(self.y, self.module);
        BidimensionalVector::new(ux, uy)
    }

    /// Componentwise saturated sum.
    pub fn add_vector(self, second_vector: BidimensionalVector) -> (r: BidimensionalVector)
        ensures
            r == spec_vec(
                sat_i(self.spec_x() + second_vector.spec_x()),
                sat_i(self.spec_y() + second_vector.spec_y()),
            ),
    {
        BidimensionalVector::new(
            sat_add(self.x, second_vector.x),
            sat_add(self.y, second_vector.y),
        )
    }

    /// The components rendered as `"x, y"`, in fixed-point units.
    /// Relies on `format!` with core::fmt's `Display` for `i128`.
    #[verifier::external_body]
    pub fn to_string(self) -> String {
        format!("{}, {}", self.x, self.y)
    }

    /// The vector that points from `self` toward `second_vector`.
    pub fn distance_vector(self, second_vector: BidimensionalVector) -> (r: BidimensionalVector)
        ensures
            r == spec_dist_vec(self, second_vector),
    {
        BidimensionalVector::new(
            sat_sub(second_vector.x, self.x),
            sat_sub(second_vector.y, self.y),
        )
    }

    /// The distance between the two points, computed directly from the
    /// componentwise differences.
    pub fn distance_vector_module(self, second_vector: BidimensionalVector) -> (r: i128)
        ensures
            r == spec_distance(second_vector, self),
            r >= 0,
    {
        proof {
            lemma_spec_vec(
                sat_i(self.spec_x() - second_vector.spec_x()),
                sat_i(self.spec_y() - second_vector.spec_y()),
            );
        }
        let dx = sat_sub(self.x, second_vector.x);
        let dy = sat_sub(self.y, second_vector.y);
        isqrt(sq_sum_guarded(dx, dy))
    }

    /// Divide each component by the fixed-point scalar `divisor`.
    pub fn divide_by_f64(&mut self, divisor: i128) -> (r: BidimensionalVector)
        requires
            divisor != 0,
        ensures
            *final(self) == *old(self),
            r == spec_vec(
                spec_sdiv(old(self).spec_x(), divisor as int),
                spec_sdiv(old(self).spec_y(), divisor as int),
            ),
    {
        let new_x = sdiv(self.x, divisor);
        let new_y = sdiv(self.y, divisor);
        BidimensionalVector::new(new_x, new_y)
    }
}

/// The unit vector in `v`'s direction, as the fixed-point ratio that
/// `unitary_vector` computes. Meaningful for a nonzero magnitude.
pub open spec fn spec_unit(v: BidimensionalVector) -> BidimensionalVector
    recommends
        v.spec_module() != 0,
{
    spec_vec(
        spec_sdiv(v.spec_x(), v.spec_module()),
        spec_sdiv(v.spec_y(), v.spec_module()),
    )
}

/// The vector pointing from `a` toward `b`.
pub open spec fn spec_dist_vec(a: BidimensionalVector, b: BidimensionalVector)
    -> BidimensionalVector {
    spec_vec(sat_i(b.spec_x() - a.spec_x()), sat_i(b.spec_y() - a.spec_y()))
}

/// The distance from `a` to `b`: the magnitude of their distance vector.
pub open spec fn spec_distance(a: BidimensionalVector, b: BidimensionalVector) -> int {
    spec_dist_vec(a, b).spec_module()
}

/// Saturated fixed-point product of two scalars.
pub fn smul(a: i128, b: i128) -> (r: i128)
    ensures
        r == spec_smul(a as int, b as int),
{
    div_t(sat_mul(a, b), SCALE)
}

/// Saturated fixed-point quotient of two scalars.
pub fn sdiv(a: i128, b: i128) -> (r: i128)
    requires
        b != 0,
    ensures
        r == spec_sdiv(a as int, b as int),
{
    div_t(sat_mul(a, SCALE), b)
}

/// The saturated sum of squares of two scalars, as a nonnegative `i128`.
pub fn sq_sum_guarded(x: i128, y: i128) -> (r: i128)
    ensures
        r == spec_sq_sum(x as int, y as int),
        r >= 0,
{
    proof {
        lemma_sq_sum_range(x as int, y as int);
    }
    sat_add(sat_mul(x, x), sat_mul(y, y))
}

/// A point mass: mass, charge and collision radius, with kinematic state
/// and a `fixed` flag.
#[derive(Clone, Copy, PartialEq, Eq, Structural)]
pub struct Particle {
    pub mass: i128,
    pub charge: i128,
    pub radius: i128,
    pub acceleration: BidimensionalVector,
    pub velocity: BidimensionalVector,
    pub position: BidimensionalVector,
    pub fixed: bool,
}

impl Particle {
    /// A particle's mass is positive and its radius nonnegative.
    pub open spec fn valid(self) -> bool {
        self.mass > 0 && self.radius >= 0
    }

    /// Validity together with well-formed kinematic vectors.
    pub open spec fn wf(self) -> bool {
        &&& self.valid()
        &&& self.position.wf()
        &&& self.velocity.wf()
        &&& self.acceleration.wf()
    }
}

/// Whether the separation of `p` and `q` is within the sum of their radii.
pub open spec fn spec_colliding(p: Particle, q: Particle) -> bool {
    spec_distance(p.position, q.position) <= sat_i(p.radius + q.radius)
}

/// Whether `p` collides with some particle of `peers`.
pub open spec fn spec_any_collision(p: Particle, peers: Seq<Particle>) -> bool {
    exists|i: int| 0 <= i < peers.len() && spec_colliding(p, #[trigger] peers[i])
}

/// Magnitude of the gravitational acceleration `G * peer_mass / dist^2`
/// exerted at separation `dist`, in fixed-point units.
pub open spec fn spec_grav_accel_mag(peer_mass: int, dist: int) -> int
    recommends
        dist > 0,
{
    let t1 = sat_i(GRAV_NUM * peer_mass);
    let t2 = sat_i(tdiv(t1, GRAV_DEN as int));
    let t3 = sat_i(t2 * SCALE);
    let t4 = sat_i(t3 * SCALE);
    sat_i(tdiv(t4, sat_i(dist * dist)))
}

/// The gravitational acceleration `q` exerts on `p`: the unit vector from
/// `p` toward `q`, scaled by `spec_grav_accel_mag`.
pub open spec fn spec_accel_vec(p: Particle, q: Particle) -> BidimensionalVector
    recommends
        spec_distance(p.position, q.position) > 0,
{
    let dv = spec_dist_vec(p.position, q.position);
    let m = dv.spec_module();
    let a = spec_grav_accel_mag(q.mass as int, m);
    spec_vec(
        spec_smul(spec_sdiv(dv.spec_x(), m), a),
        spec_smul(spec_sdiv(dv.spec_y(), m), a),
    )
}

/// Left fold of the accelerations of the first `n` peers, saturating
/// componentwise at every step, as the field-acceleration loop does.
pub open spec fn spec_accel_sum(p: Particle, peers: Seq<Particle>, n: int) -> (int, int)
    decreases n,
{
    if n <= 0 {
        (0, 0)
    } else {
        let prev = spec_accel_sum(p, peers, n - 1);
        let c = spec_accel_vec(p, peers[n - 1]);
        (sat_i(prev.0 + c.spec_x()), sat_i(prev.1 + c.spec_y()))
    }
}

/// Components of a partial acceleration sum stay in the `i128` range.
pub proof fn lemma_accel_sum_range(p: Particle, peers: Seq<Particle>, n: int)
    ensures
        i128::MIN <= spec_accel_sum(p, peers, n).0 <= i128::MAX,
        i128::MIN <= spec_accel_sum(p, peers, n).1 <= i128::MAX,
    decreases n,
{
    if n > 0 {
        lemma_accel_sum_range(p, peers, n - 1);
    }
}

/// The total field acceleration on `p`: zero if any peer collides with `p`
/// (one collision suppresses every contribution this tick), otherwise the
/// saturating sum over all peers in order.
pub open spec fn spec_field_accel(p: Particle, peers: Seq<Particle>) -> BidimensionalVector {
    if spec_any_collision(p, peers) {
        spec_vec(0, 0)
    } else {
        let s = spec_accel_sum(p, peers, peers.len() as int);
        spec_vec(s.0, s.1)
    }
}

/// `p` after the field computation's side effect: a collision zeroes the
/// velocity, otherwise nothing changes.
pub open spec fn spec_after_field(p: Particle, peers: Seq<Particle>) -> Particle {
    if spec_any_collision(p, peers) {
        Particle { velocity: spec_vec(0, 0), ..p }
    } else {
        p
    }
}

/// The field acceleration scaled by `p`'s own mass: `F = m * a`.
pub open spec fn spec_field_force(p: Particle, peers: Seq<Particle>) -> BidimensionalVector {
    let a = spec_field_accel(p, peers);
    spec_vec(
        spec_smul(a.spec_x(), p.mass as int),
        spec_smul(a.spec_y(), p.mass as int),
    )
}

/// The force phase of one tick for `p` against `peers`: a fixed particle is
/// untouched; otherwise the new acceleration is the field acceleration and
/// the (possibly collision-zeroed) velocity gains `acceleration * t`.
pub open spec fn spec_forces(p: Particle, peers: Seq<Particle>, t: int) -> Particle {
    if p.fixed {
        p
    } else {
        let q = spec_after_field(p, peers);
        let a = spec_field_accel(p, peers);
        Particle {
            acceleration: a,
            velocity: spec_vec(
                sat_i(q.velocity.spec_x() + spec_smul(a.spec_x(), t)),
                sat_i(q.velocity.spec_y() + spec_smul(a.spec_y(), t)),
            ),
            ..p
        }
    }
}

/// The integration phase of one tick for `p`: a fixed particle is untouched;
/// otherwise the position gains `velocity * t`.
pub open spec fn spec_move(p: Particle, t: int) -> Particle {
    if p.fixed {
        p
    } else {
        Particle {
            position: spec_vec(
                sat_i(p.position.spec_x() + spec_smul(p.velocity.spec_x(), t)),
                sat_i(p.position.spec_y() + spec_smul(p.velocity.spec_y(), t)),
            ),
            ..p
        }
    }
}

/// The particle produced by `Particle::new`: explicit or zero-defaulted
/// kinematic state, zero acceleration.
pub open spec fn spec_new_particle(
    particle_mass: i128,
    particle_charge: i128,
    particle_radius: i128,
    initial_position: Option<BidimensionalVector>,
    initial_velocity: Option<BidimensionalVector>,
    is_particle_fixed: Option<bool>,
) -> Particle {
    Particle {
        mass: particle_mass,
        charge: particle_charge,
        radius: particle_radius,
        acceleration: spec_vec(0, 0),
        velocity: match initial_velocity {
            Some(v) => v,
            None => spec_vec(0, 0),
        },
        position: match initial_position {
            Some(p) => p,
            None => spec_vec(0, 0),
        },
        fixed: match is_particle_fixed {
            Some(b) => b,
            None => false,
        },
    }
}

/// The particle produced by `Particle::new_particle_from_reference`: the
/// offsets, zero-defaulted, added onto the reference's state.
pub open spec fn spec_from_reference(
    reference: Particle,
    particle_mass: i128,
    particle_charge: i128,
    particle_radius: i128,
    initial_position: Option<BidimensionalVector>,
    initial_velocity: Option<BidimensionalVector>,
    is_particle_fixed: Option<bool>,
) -> Particle {
    let pos0 = match initial_position {
        Some(p) => p,
        None => spec_vec(0, 0),
    };
    let vel0 = match initial_velocity {
        Some(v) => v,
        None => spec_vec(0, 0),
    };
    Particle {
        mass: particle_mass,
        charge: particle_charge,
        radius: particle_radius,
        acceleration: spec_vec(0, 0),
        velocity: spec_vec(
            sat_i(vel0.spec_x() + reference.velocity.spec_x()),
            sat_i(vel0.spec_y() + reference.velocity.spec_y()),
        ),
        position: spec_vec(
            sat_i(pos0.spec_x() + reference.position.spec_x()),
            sat_i(pos0.spec_y() + reference.position.spec_y()),
        ),
        fixed: match is_particle_fixed {
            Some(b) => b,
            None => false,
        },
    }
}

/// Circular-orbit speed `sqrt(G * m / r)` at orbit radius `r` around mass
/// `m`, in fixed-point units.
pub open spec fn spec_orbit_speed(m: int, r: int) -> int
    recommends
        m > 0,
        r > 0,
{
    let t1 = sat_i(GRAV_NUM * m);
    let t2 = sat_i(tdiv(t1, GRAV_DEN as int));
    let t3 = sat_i(t2 * SCALE);
    let q = sat_i(tdiv(t3, r));
    sqrt_floor(sat_i(q * SCALE))
}

/// The particle produced by `Particle::new_particle_in_stable_orbit`:
/// placed along local +x at the orbit radius, moving along +y at the
/// circular-orbit speed, both relative to the reference.
pub open spec fn spec_stable_orbit(
    reference: Particle,
    particle_mass: i128,
    particle_charge: i128,
    particle_radius: i128,
    distance_from_radius: i128,
) -> Particle {
    let orb = sat_i(reference.radius + distance_from_radius);
    let speed = spec_orbit_speed(reference.mass as int, orb);
    Particle {
        mass: particle_mass,
        charge: particle_charge,
        radius: particle_radius,
        acceleration: spec_vec(0, 0),
        velocity: spec_vec(
            sat_i(0 + reference.velocity.spec_x()),
            sat_i(speed + reference.velocity.spec_y()),
        ),
        position: spec_vec(
            sat_i(orb + reference.position.spec_x()),
            sat_i(0 + reference.position.spec_y()),
        ),
        fixed: false,
    }
}

impl Particle {
    /// Construct a particle; omitted kinematic state defaults to zero.
    pub fn new(
        particle_mass: i128,
        particle_charge: i128,
        particle_radius: i128,
        initial_position: Option<BidimensionalVector>,
        initial_velocity: Option<BidimensionalVector>,
        is_particle_fixed: Option<bool>,
    ) -> (r: Particle)
        requires
            particle_mass > 0,
            particle_radius >= 0,
        ensures
            r == spec_new_particle(
                particle_mass,
                particle_charge,
                particle_radius,
                initial_position,
                initial_velocity,
                is_particle_fixed,
            ),
            r.valid(),
    {
        Particle {
            mass: particle_mass,
            charge: particle_charge,
            radius: particle_radius,
            acceleration: BidimensionalVector::new(0, 0),
            velocity: initial_velocity.unwrap_or(BidimensionalVector::new(0, 0)),
            position: initial_position.unwrap_or(BidimensionalVector::new(0, 0)),
            fixed: is_particle_fixed.unwrap_or(false),
        }
    }

    /// The force phase of one tick: update acceleration from the peer set
    /// and fold it into the velocity. A fixed particle is left untouched.
    pub fn sim_forces(&mut self, time: i128, particles: Vec<Particle>)
        requires
            old(self).valid(),
            forall|i: int| 0 <= i < particles@.len() ==> (#[trigger] particles@[i]).valid(),
        ensures
            *final(self) == spec_forces(*old(self), particles@, time as int),
    {
        if !(self.fixed) {
            self.acceleration = self.calc_gravity_field_acceleration(&particles);
            let change_in_velocity = self.calc_change_in_velocity(self.acceleration, time);
            self.velocity = self.velocity.add_vector(change_in_velocity);
        }
    }

    /// The integration phase of one tick: advance the position by
    /// `velocity * time`. A fixed particle never moves.
    pub fn sim_time(&mut self, time: i128)
        ensures
            *final(self) == spec_move(*old(self), time as int),
    {
        if !(self.fixed) {
            let moved = self.move_particle(time);
            self.position = moved;
        }
    }

    /// The position advanced by `velocity * time`, without storing it.
    fn move_particle(&mut self, time: i128) -> (r: BidimensionalVector)
        ensures
            *final(self) == *old(self),
            r == spec_vec(
                sat_i(old(self).position.spec_x() + spec_smul(old(self).velocity.spec_x(), time as int)),
                sat_i(old(self).position.spec_y() + spec_smul(old(self).velocity.spec_y(), time as int)),
            ),
    {
        let mut vel = self.velocity;
        let delta = vel.multiply_vector_by_f64(time);
        self.position.add_vector(delta)
    }

    /// The distance between this particle and `second_particle`.
    pub fn get_distance(&mut self, second_particle: Particle) -> (r: i128)
        ensures
            *final(self) == *old(self),
            r == spec_distance(old(self).position, second_particle.position),
            r >= 0,
    {
        proof {
            lemma_spec_vec(
                sat_i(second_particle.position.spec_x() - self.position.spec_x()),
                sat_i(second_particle.position.spec_y() - self.position.spec_y()),
            );
        }
        self.position.distance_vector(second_particle.position).get_module()
    }

    /// Whether this particle's separation from `second_particle` is within
    /// the sum of their radii.
    pub fn is_going_to_collision(self, second_particle: Particle) -> (r: bool)
        ensures
            r == spec_colliding(self, second_particle),
    {
        let mut this = self;
        if this.get_distance(second_particle) <= sat_add(self.radius, second_particle.radius) {
            true
        } else {
            false
        }
    }

    /// The total gravitational force on this particle: the field
    /// acceleration scaled by its own mass.
    pub fn calc_gravity_field_force(&mut self, particles: &Vec<Particle>) -> (r: BidimensionalVector)
        requires
            old(self).valid(),
            forall|i: int| 0 <= i < particles@.len() ==> (#[trigger] particles@[i]).valid(),
        ensures
            *final(self) == spec_after_field(*old(self), particles@),
            r == spec_field_force(*old(self), particles@),
    {
        let mut a = self.calc_gravity_field_acceleration(particles);
        a.multiply_vector_by_f64(self.mass)
    }

    /// The total gravitational acceleration on this particle from `particles`.
    /// The first colliding peer, in order, zeroes this particle's velocity and
    /// suppresses every peer's contribution for the tick.
    pub fn calc_gravity_field_acceleration(&mut self, particles: &Vec<Particle>) -> (r:
        BidimensionalVector)
        requires
            old(self).valid(),
            forall|i: int| 0 <= i < particles@.len() ==> (#[trigger] particles@[i]).valid(),
        ensures
            *final(self) == spec_after_field(*old(self), particles@),
            r == spec_field_accel(*old(self), particles@),
    {
        let ghost p0 = *self;
        let mut total_acceleration = BidimensionalVector::new(0, 0);
        let mut idx: usize = 0;
        while idx < particles.len()
            invariant
                *self == p0,
                p0 == *old(self),
                p0.valid(),
                forall|i: int| 0 <= i < particles@.len() ==> (#[trigger] particles@[i]).valid(),
                0 <= idx <= particles@.len(),
                forall|j: int| 0 <= j < idx ==> !spec_colliding(p0, #[trigger] particles@[j]),
                total_acceleration == spec_vec(
                    spec_accel_sum(p0, particles@, idx as int).0,
                    spec_accel_sum(p0, particles@, idx as int).1,
                ),
            decreases particles@.len() - idx,
        {
            let affecting_particle = particles[idx];
            if !(self.is_going_to_collision(affecting_particle)) {
                proof {
                    lemma_accel_sum_range(p0, particles@, idx as int);
                    lemma_spec_vec(
                        spec_accel_sum(p0, particles@, idx as int).0,
                        spec_accel_sum(p0, particles@, idx as int).1,
                    );
                }
                let peer_accel = self.calc_gravity_acceleration(affecting_particle);
                proof {
                    let dv = spec_dist_vec(p0.position, affecting_particle.position);
                    let m = dv.spec_module();
                    let am = spec_grav_accel_mag(affecting_particle.mass as int, m);
                    lemma_spec_vec(
                        spec_smul(spec_sdiv(dv.spec_x(), m), am),
                        spec_smul(spec_sdiv(dv.spec_y(), m), am),
                    );
                }
                total_acceleration = total_acceleration.add_vector(peer_accel);
            } else {
                self.velocity = BidimensionalVector::new(0, 0);
                proof {
                    assert(spec_colliding(p0, particles@[idx as int]));
                }
                return BidimensionalVector::new(0, 0);
            }
            idx += 1;
        }
        proof {
            assert(!spec_any_collision(p0, particles@));
        }
        total_acceleration
    }

    /// The velocity gained in `time` under the given acceleration.
    fn calc_change_in_velocity(
        &mut self,
        mut acceleration: BidimensionalVector,
        time: i128,
    ) -> (r: BidimensionalVector)
        ensures
            *final(self) == *old(self),
            r == spec_vec(
                spec_smul(acceleration.spec_x(), time as int),
                spec_smul(acceleration.spec_y(), time as int),
            ),
    {
        acceleration.multiply_vector_by_f64(time)
    }

    /// The gravitational acceleration from a single peer at positive
    /// separation: `G * peer_mass / d^2` along the unit vector toward it.
    fn calc_gravity_acceleration(&mut self, second_particle: Particle) -> (r: BidimensionalVector)
        requires
            spec_distance(old(self).position, second_particle.position) > 0,
        ensures
            *final(self) == *old(self),
            r == spec_accel_vec(*old(self), second_particle),
    {
        proof {
            lemma_spec_vec(
                sat_i(second_particle.position.spec_x() - self.position.spec_x()),
                sat_i(second_particle.position.spec_y() - self.position.spec_y()),
            );
        }
        let distance_vector = self.position.distance_vector(second_particle.position);
        let distance = distance_vector.get_module();
        let mut unitary_vector = distance_vector.unitary_vector();
        let t1 = sat_mul(GRAV_NUM, second_particle.mass);
        let t2 = div_t(t1, GRAV_DEN);
        let t3 = sat_mul(t2, SCALE);
        let t4 = sat_mul(t3, SCALE);
        proof {
            assert(sat_i((distance as int) * (distance as int)) >= 1) by (nonlinear_arith)
                requires
                    distance >= 1,
            ;
        }
        let d2 = sat_mul(distance, distance);
        let acceleration = div_t(t4, d2);
        proof {
            let dv = spec_dist_vec(old(self).position, second_particle.position);
            lemma_spec_vec(
                spec_sdiv(dv.spec_x(), dv.spec_module()),
                spec_sdiv(dv.spec_y(), dv.spec_module()),
            );
        }
        unitary_vector.multiply_vector_by_f64(acceleration)
    }

    /// A particle built relative to this one: the given offsets, defaulted
    /// to zero, are added onto this particle's position and velocity.
    pub fn new_particle_from_reference(
        self,
        particle_mass: i128,
        particle_charge: i128,
        particle_radius: i128,
        initial_position: Option<BidimensionalVector>,
        initial_velocity: Option<BidimensionalVector>,
        is_particle_fixed: Option<bool>,
    ) -> (r: Particle)
        requires
            particle_mass > 0,
            particle_radius >= 0,
        ensures
            r == spec_from_reference(
                self,
                particle_mass,
                particle_charge,
                particle_radius,
                initial_position,
                initial_velocity,
                is_particle_fixed,
            ),
            r.valid(),
    {
        Particle {
            mass: particle_mass,
            charge: particle_charge,
            radius: particle_radius,
            acceleration: BidimensionalVector::new(0, 0),
            velocity: initial_velocity
                .unwrap_or(BidimensionalVector::new(0, 0))
                .add_vector(self.velocity),
            position: initial_position
                .unwrap_or(BidimensionalVector::new(0, 0))
                .add_vector(self.position),
            fixed: is_particle_fixed.unwrap_or(false),
        }
    }

    /// A non-fixed particle seeded on a circular orbit around this one, at
    /// `self.radius + distance_from_radius` along local +x, with the
    /// closed-form orbital speed `sqrt(G * mass / r)` along local +y.
    pub fn new_particle_in_stable_orbit(
        self,
        particle_mass: i128,
        particle_charge: i128,
        particle_radius: i128,
        distance_from_radius: i128,
    ) -> (r: Particle)
        requires
            self.valid(),
            particle_mass > 0,
            particle_radius >= 0,
            sat_i(self.radius + distance_from_radius) > 0,
        ensures
            r == spec_stable_orbit(
                self,
                particle_mass,
                particle_charge,
                particle_radius,
                distance_from_radius,
            ),
            r.valid(),
    {
        let orb = sat_add(self.radius, distance_from_radius);
        let t1 = sat_mul(GRAV_NUM, self.mass);
        proof {
            assert(GRAV_NUM * self.mass > 0) by (nonlinear_arith)
                requires
                    self.mass > 0,
            ;
            crate::num::lemma_tdiv_nonneg(sat_i(GRAV_NUM * self.mass), GRAV_DEN as int);
        }
        let t2 = div_t(t1, GRAV_DEN);
        proof {
            assert(t2 * SCALE >= 0) by (nonlinear_arith)
                requires
                    t2 >= 0,
            ;
        }
        let t3 = sat_mul(t2, SCALE);
        proof {
            crate::num::lemma_tdiv_nonneg(t3 as int, orb as int);
        }
        let q = div_t(t3, orb);
        proof {
            assert(q * SCALE >= 0) by (nonlinear_arith)
                requires
                    q >= 0,
            ;
        }
        let s2 = sat_mul(q, SCALE);
        let speed = isqrt(s2);
        Particle {
            mass: particle_mass,
            charge: particle_charge,
            radius: particle_radius,
            acceleration: BidimensionalVector::new(0, 0),
            velocity: BidimensionalVector::new(0, speed).add_vector(self.velocity),
            position: BidimensionalVector::new(orb, 0).add_vector(self.position),
            fixed: false,
        }
    }
}

} // verus!
