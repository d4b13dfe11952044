//! The simulation driver: an ordered collection of particles advanced by
//! fixed-duration ticks.
//!
//! Each tick has two phases. Phase one computes every particle's new
//! acceleration and velocity against a snapshot of the pre-tick state, so no
//! particle ever sees a peer already updated this tick; phase two then moves
//! every particle by its updated velocity. Fixed particles pass through both
//! phases unchanged.

use vstd::prelude::*;

use crate::num::{sat_add, sat_i};
use crate::particle::{spec_forces, spec_move, Particle};

verus! {

/// Every particle of the sequence is valid (positive mass, nonnegative
/// radius).
pub open spec fn all_valid(ps: Seq<Particle>) -> bool {
    forall|i: int| 0 <= i < ps.len() ==> (#[trigger] ps[i]).valid()
}

/// One tick over a particle sequence: the force phase for every particle
/// against the snapshot of all others, then the integration phase.
pub open spec fn spec_tick_particles(ps: Seq<Particle>, t: int) -> Seq<Particle> {
    let after_forces = Seq::new(ps.len(), |i: int| spec_forces(ps[i], ps.remove(i), t));
    Seq::new(after_forces.len(), |i: int| spec_move(after_forces[i], t))
}

/// `n` ticks over a particle sequence.
pub open spec fn spec_ticks(ps: Seq<Particle>, t: int, n: nat) -> Seq<Particle>
    decreases n,
{
    if n == 0 {
        ps
    } else {
        spec_ticks(spec_tick_particles(ps, t), t, (n - 1) as nat)
    }
}

/// The elapsed time after `n` more ticks of duration `gap`.
pub open spec fn spec_elapse(e: int, gap: int, n: nat) -> int
    decreases n,
{
    if n == 0 {
        e
    } else {
        spec_elapse(sat_i(e + gap), gap, (n - 1) as nat)
    }
}

/// A tick changes only kinematic state: the length of the sequence and each
/// particle's mass, charge, radius and flag survive, and a fixed particle
/// survives untouched.
pub proof fn lemma_tick_preserves(ps: Seq<Particle>, t: int)
    ensures
        spec_tick_particles(ps, t).len() == ps.len(),
        forall|i: int| 0 <= i < ps.len() ==> {
            let q = #[trigger] spec_tick_particles(ps, t)[i];
            &&& q.mass == ps[i].mass
            &&& q.charge == ps[i].charge
            &&& q.radius == ps[i].radius
            &&& q.fixed == ps[i].fixed
            &&& (ps[i].fixed ==> q == ps[i])
        },
{
}

/// `lemma_tick_preserves`, carried through `n` ticks.
pub proof fn lemma_ticks_preserve(ps: Seq<Particle>, t: int, n: nat)
    ensures
        spec_ticks(ps, t, n).len() == ps.len(),
        forall|i: int| 0 <= i < ps.len() ==> {
            let q = #[trigger] spec_ticks(ps, t, n)[i];
            &&& q.mass == ps[i].mass
            &&& q.charge == ps[i].charge
            &&& q.radius == ps[i].radius
            &&& q.fixed == ps[i].fixed
            &&& (ps[i].fixed ==> q == ps[i])
        },
    decreases n,
{
    if n > 0 {
        lemma_tick_preserves(ps, t);
        lemma_ticks_preserve(spec_tick_particles(ps, t), t, (n - 1) as nat);
    }
}

/// Appending one tick at the end equals prepending it at the front.
pub proof fn lemma_ticks_succ(ps: Seq<Particle>, t: int, n: nat)
    ensures
        spec_ticks(ps, t, n + 1) == spec_tick_particles(spec_ticks(ps, t, n), t),
    decreases n,
{
    if n == 0 {
        assert(spec_ticks(ps, t, 1) == spec_ticks(spec_tick_particles(ps, t), t, 0));
        assert(spec_ticks(spec_tick_particles(ps, t), t, 0) == spec_tick_particles(ps, t));
    } else {
        lemma_ticks_succ(spec_tick_particles(ps, t), t, (n - 1) as nat);
    }
}

/// The elapsed-time analogue of `lemma_ticks_succ`.
pub proof fn lemma_elapse_succ(e: int, gap: int, n: nat)
    ensures
        spec_elapse(e, gap, n + 1) == sat_i(spec_elapse(e, gap, n) + gap),
    decreases n,
{
    if n == 0 {
        assert(spec_elapse(e, gap, 1) == spec_elapse(sat_i(e + gap), gap, 0));
        assert(spec_elapse(sat_i(e + gap), gap, 0) == sat_i(e + gap));
    } else {
        lemma_elapse_succ(sat_i(e + gap), gap, (n - 1) as nat);
    }
}

/// Ticks compose: `m + n` ticks are `m` ticks followed by `n` ticks.
pub proof fn lemma_ticks_add(ps: Seq<Particle>, t: int, m: nat, n: nat)
    ensures
        spec_ticks(ps, t, m + n) == spec_ticks(spec_ticks(ps, t, m), t, n),
    decreases m,
{
    if m > 0 {
        lemma_ticks_add(spec_tick_particles(ps, t), t, (m - 1) as nat, n);
    }
}

/// A tick keeps every particle valid.
pub proof fn lemma_tick_valid(ps: Seq<Particle>, t: int)
    requires
        all_valid(ps),
    ensures
        all_valid(spec_tick_particles(ps, t)),
{
    lemma_tick_preserves(ps, t);
}

/// The number of ticks `simulate_seconds` runs: enough for the elapsed time
/// to reach `seconds`, overshooting by less than one tick.
pub open spec fn spec_ticks_for(seconds: int, gap: int) -> nat
    recommends
        gap > 0,
        seconds >= 0,
{
    if seconds <= 0 {
        0
    } else {
        (((seconds - 1) / gap) + 1) as nat
    }
}

/// The driver: a tick duration, the accumulated elapsed time, and the
/// ordered particles.
#[derive(Clone)]
pub struct Simulator {
    pub(crate) time_elapsed: i128,
    pub(crate) time_gap: i128,
    pub particle_array: Vec<Particle>,
}

impl Simulator {
    /// The accumulated elapsed time, as an unbounded integer.
    pub closed spec fn spec_elapsed(self) -> int {
        self.time_elapsed as int
    }

    /// The tick duration, as an unbounded integer.
    pub closed spec fn spec_gap(self) -> int {
        self.time_gap as int
    }

    /// The particle sequence, in insertion order.
    pub closed spec fn spec_particles(self) -> Seq<Particle> {
        self.particle_array@
    }

    /// A positive tick duration and a nonnegative elapsed time.
    pub open spec fn wf(self) -> bool {
        self.spec_gap() > 0 && self.spec_elapsed() >= 0
    }

    /// An empty simulation with the given tick duration.
    pub fn new(gap: i128) -> (r: Simulator)
        requires
            gap > 0,
        ensures
            r.spec_gap() == gap,
            r.spec_elapsed() == 0,
            r.spec_particles() == Seq::<Particle>::empty(),
            r.wf(),
    {
        let r = Simulator { time_elapsed: 0, time_gap: gap, particle_array: Vec::new() };
        proof {
            assert(r.particle_array@ =~= Seq::<Particle>::empty());
        }
        r
    }

    /// Append a particle; it takes the next index.
    pub fn add_particle(&mut self, particle: Particle)
        requires
            particle.valid(),
        ensures
            final(self).spec_particles() == old(self).spec_particles().push(particle),
            final(self).spec_elapsed() == old(self).spec_elapsed(),
            final(self).spec_gap() == old(self).spec_gap(),
            old(self).wf() ==> final(self).wf(),
            all_valid(old(self).spec_particles()) ==> all_valid(final(self).spec_particles()),
    {
        self.particle_array.push(particle);
    }

    /// Advance the simulation by one tick.
    pub fn simulate(&mut self)
        requires
            old(self).wf(),
            all_valid(old(self).spec_particles()),
        ensures
            final(self).spec_particles() == spec_tick_particles(
                old(self).spec_particles(),
                old(self).spec_gap(),
            ),
            final(self).spec_elapsed() == sat_i(old(self).spec_elapsed() + old(self).spec_gap()),
            final(self).spec_gap() == old(self).spec_gap(),
            final(self).wf(),
            all_valid(final(self).spec_particles()),
    {
        let ghost ps0 = self.particle_array@;
        let ghost gap0 = self.spec_gap();
        self.time_elapsed = sat_add(self.time_elapsed, self.time_gap);
        let n = self.particle_array.len();
        let mut staged: Vec<Particle> = Vec::new();
        let mut i: usize = 0;
        while i < n
            invariant
                i <= n,
                n == self.particle_array@.len(),
                self.particle_array@ == ps0,
                self.time_gap as int == gap0,
                all_valid(ps0),
                staged@.len() == i,
                forall|j: int| 0 <= j < i ==> #[trigger] staged@[j] == spec_forces(
                    ps0[j],
                    ps0.remove(j),
                    gap0,
                ),
            decreases n - i,
        {
            let peers = copy_without(&self.particle_array, i);
            proof {
                ps0.remove_ensures(i as int);
                assert forall|k: int| 0 <= k < peers@.len() implies (#[trigger] peers@[k]).valid()
                by {
                    if k < i {
                        assert(peers@[k] == ps0[k]);
                    } else {
                        assert(peers@[k] == ps0[k + 1]);
                    }
                }
            }
            let mut p = self.particle_array[i];
            p.sim_forces(self.time_gap, peers);
            staged.push(p);
            i += 1;
        }
        self.particle_array = staged;
        let ghost after_forces = Seq::new(ps0.len(), |j: int| spec_forces(ps0[j], ps0.remove(j), gap0));
        proof {
            assert(self.particle_array@ =~= after_forces);
        }
        let mut moved: Vec<Particle> = Vec::new();
        let mut i: usize = 0;
        while i < n
            invariant
                i <= n,
                n == self.particle_array@.len(),
                self.particle_array@ == after_forces,
                self.time_gap as int == gap0,
                moved@.len() == i,
                forall|j: int| 0 <= j < i ==> #[trigger] moved@[j] == spec_move(
                    after_forces[j],
                    gap0,
                ),
            decreases n - i,
        {
            let mut p = self.particle_array[i];
            p.sim_time(self.time_gap);
            moved.push(p);
            i += 1;
        }
        self.particle_array = moved;
        proof {
            assert(self.particle_array@ =~= spec_tick_particles(ps0, gap0));
            lemma_tick_valid(ps0, gap0);
        }
    }

    /// Advance the simulation by `times` ticks (none if `times` is not
    /// positive).
    pub fn simulate_n_times(&mut self, times: i32)
        requires
            old(self).wf(),
            all_valid(old(self).spec_particles()),
        ensures
            final(self).spec_particles() == spec_ticks(
                old(self).spec_particles(),
                old(self).spec_gap(),
                if times >= 0 {
                    times as nat
                } else {
                    0
                },
            ),
            final(self).spec_elapsed() == spec_elapse(
                old(self).spec_elapsed(),
                old(self).spec_gap(),
                if times >= 0 {
                    times as nat
                } else {
                    0
                },
            ),
            final(self).spec_gap() == old(self).spec_gap(),
            final(self).wf(),
            all_valid(final(self).spec_particles()),
    {
        let ghost ps0 = self.particle_array@;
        let ghost e0 = self.spec_elapsed();
        let ghost gap0 = self.spec_gap();
        let mut count: i32 = 0;
        if times <= 0 {
            return ;
        }
        while count < times
            invariant
                0 <= count <= times,
                self.wf(),
                all_valid(self.particle_array@),
                self.spec_gap() == gap0,
                self.particle_array@ == spec_ticks(ps0, gap0, count as nat),
                self.spec_elapsed() == spec_elapse(e0, gap0, count as nat),
            decreases times - count,
        {
            proof {
                lemma_ticks_succ(ps0, gap0, count as nat);
                lemma_elapse_succ(e0, gap0, count as nat);
            }
            self.simulate();
            count = count + 1;
        }
    }

    /// Advance the simulation until at least `seconds` more have elapsed.
    /// Because the tick duration need not divide `seconds` evenly, the run
    /// may overshoot by up to one tick.
    pub fn simulate_seconds(&mut self, seconds: i128)
        requires
            old(self).wf(),
            all_valid(old(self).spec_particles()),
            seconds >= 0,
            old(self).spec_elapsed() + seconds + old(self).spec_gap() <= i128::MAX,
        ensures
            final(self).spec_particles() == spec_ticks(
                old(self).spec_particles(),
                old(self).spec_gap(),
                spec_ticks_for(seconds as int, old(self).spec_gap()),
            ),
            final(self).spec_elapsed() == old(self).spec_elapsed() + spec_ticks_for(
                seconds as int,
                old(self).spec_gap(),
            ) * old(self).spec_gap(),
            final(self).spec_elapsed() - old(self).spec_elapsed() >= seconds,
            final(self).spec_elapsed() - old(self).spec_elapsed() < seconds + old(self).spec_gap(),
            final(self).spec_gap() == old(self).spec_gap(),
            final(self).wf(),
            all_valid(final(self).spec_particles()),
    {
        let ghost ps0 = self.particle_array@;
        let ghost e0 = self.spec_elapsed();
        let ghost gap0 = self.spec_gap();
        let start = self.time_elapsed;
        let ghost mut k: nat = 0;
        while self.time_elapsed - start < seconds
            invariant
                self.wf(),
                all_valid(self.particle_array@),
                self.spec_gap() == gap0,
                gap0 > 0,
                start as int == e0,
                e0 >= 0,
                seconds >= 0,
                e0 + seconds + gap0 <= i128::MAX,
                self.spec_elapsed() >= e0,
                self.spec_elapsed() == e0 + k * gap0,
                self.particle_array@ == spec_ticks(ps0, gap0, k),
                k > 0 ==> (k - 1) * gap0 < seconds,
            decreases e0 + seconds + gap0 - self.spec_elapsed(),
        {
            proof {
                lemma_ticks_succ(ps0, gap0, k);
                assert((k + 1 - 1) * gap0 == k * gap0) by (nonlinear_arith);
                assert(e0 + (k + 1) * gap0 == e0 + k * gap0 + gap0) by (nonlinear_arith);
            }
            self.simulate();
            proof {
                k = k + 1;
            }
        }
        proof {
            assert(k * gap0 >= seconds);
            if seconds == 0 {
                assert(k == 0) by (nonlinear_arith)
                    requires
                        gap0 > 0,
                        k >= 0,
                        k > 0 ==> (k - 1) * gap0 < 0,
                ;
                assert(k * gap0 == 0) by (nonlinear_arith)
                    requires
                        k == 0,
                ;
            } else {
                assert(k > 0) by (nonlinear_arith)
                    requires
                        k * gap0 >= seconds,
                        seconds > 0,
                        k >= 0,
                        gap0 > 0,
                ;
                let q = (seconds - 1) as int;
                assert(0 <= q - (k - 1) * gap0 < gap0) by (nonlinear_arith)
                    requires
                        (k - 1) * gap0 < seconds,
                        k * gap0 >= seconds,
                        q == seconds - 1,
                        gap0 > 0,
                        k > 0,
                ;
                vstd::arithmetic::div_mod::lemma_fundamental_div_mod_converse(
                    q,
                    gap0,
                    k - 1,
                    q - (k - 1) * gap0,
                );
                assert(q / gap0 == k - 1);
                assert(spec_ticks_for(seconds as int, gap0) == k);
                assert(k * gap0 < seconds + gap0) by (nonlinear_arith)
                    requires
                        (k - 1) * gap0 < seconds,
                        gap0 > 0,
                        k > 0,
                ;
            }
        }
    }
}

/// A copy of `ps` with the element at `skip_index` left out, in order.
fn copy_without(ps: &Vec<Particle>, skip_index: usize) -> (r: Vec<Particle>)
    requires
        skip_index < ps@.len(),
    ensures
        r@ == ps@.remove(skip_index as int),
{
    let mut r: Vec<Particle> = Vec::new();
    let mut j: usize = 0;
    while j < ps.len()
        invariant
            j <= ps@.len(),
            skip_index < ps@.len(),
            j <= skip_index ==> r@ == ps@.subrange(0, j as int),
            j > skip_index ==> r@ == ps@.subrange(0, skip_index as int) + ps@.subrange(
                skip_index as int + 1,
                j as int,
            ),
        decreases ps@.len() - j,
    {
        if j != skip_index {
            r.push(ps[j]);
        }
        proof {
            if j < skip_index {
                assert(r@ =~= ps@.subrange(0, j as int + 1));
            } else if j == skip_index {
                assert(r@ =~= ps@.subrange(0, skip_index as int) + ps@.subrange(
                    skip_index as int + 1,
                    j as int + 1,
                ));
            } else {
                assert(r@ =~= ps@.subrange(0, skip_index as int) + ps@.subrange(
                    skip_index as int + 1,
                    j as int + 1,
                ));
            }
        }
        j += 1;
    }
    proof {
        assert(r@ =~= ps@.remove(skip_index as int));
    }
    r
}

} // verus!
