//! The simulation and its time step.

use vstd::prelude::*;

use crate::angle::{swing_of, Angle, Swing};
use crate::body::RigidBody;
use crate::cannon::{resolve_particle_against_cannon, Cannon};
use crate::collision::{Pair, Strike};
use crate::contacts::{contact_pairs, contact_pairs_are_contacts, find_contacts};
use crate::domain::SimulationParams;
use crate::grid::{cell_axis, cell_ids_of, fits_grid, overlapping, span_of, HashGrid};
use crate::neighborhood::block_members;
use crate::scalar::{Number, Scalar};
use crate::vector::{sum_of, total, Vec3};
use crate::walls::{body_walled, resolve_body_wall, resolve_wall, walled};

verus! {

/// What a simulation consists of, as a value: `inv_cell_size` is the reciprocal of the size of
/// the cells in which neighbors are sought.
#[verifier::ext_equal]
pub struct State<S> {
    pub params: SimulationParams<S>,
    pub positions: Seq<Vec3<S>>,
    pub velocities: Seq<Vec3<S>>,
    pub bodies: Seq<RigidBody<S>>,
    pub cannons: Seq<Cannon<S>>,
    pub inv_cell_size: S,
}

impl<S: Number> State<S> {
    /// Particles alone, in cells that are two radii wide.
    pub open spec fn fresh(
        params: SimulationParams<S>,
        positions: Seq<Vec3<S>>,
        velocities: Seq<Vec3<S>>,
    ) -> Self {
        State {
            params,
            positions,
            velocities,
            bodies: Seq::empty(),
            cannons: Seq::empty(),
            inv_cell_size: S::whole(1).quotient(S::whole(2).product(params.radius)),
        }
    }

    /// Every particle moved by its velocity.
    pub open spec fn integrated(self, dt: S) -> Self {
        State {
            positions: Seq::new(
                self.positions.len(),
                |i: int| self.positions[i].sum(self.velocities[i].scaled(dt)),
            ),
            ..self
        }
    }

    /// Every body moved by its velocity.
    pub open spec fn bodies_integrated(self, dt: S) -> Self {
        State {
            bodies: Seq::new(
                self.bodies.len(),
                |i: int|
                    RigidBody {
                        pos: self.bodies[i].pos.sum(self.bodies[i].vel.scaled(dt)),
                        ..self.bodies[i]
                    },
            ),
            ..self
        }
    }

    /// Every piston moved on; `swings` holds the cosine and sine of each phase.
    pub open spec fn cannons_advanced(self, dt: S, swings: Seq<Swing<S>>) -> Self {
        State {
            cannons: Seq::new(
                self.cannons.len(),
                |i: int| self.cannons[i].advanced(dt, swings[i]),
            ),
            ..self
        }
    }

    /// Every particle reflected off the walls.
    pub open spec fn walls_resolved(self) -> Self {
        let met = |i: int|
            walled(
                self.params.domain,
                self.params.radius,
                self.positions[i],
                self.velocities[i],
            );
        State {
            positions: Seq::new(self.positions.len(), |i: int| met(i).0),
            velocities: Seq::new(self.velocities.len(), |i: int| met(i).1),
            ..self
        }
    }

    /// Every body reflected off the walls.
    pub open spec fn body_walls_resolved(self) -> Self {
        State {
            bodies: Seq::new(
                self.bodies.len(),
                |i: int| body_walled(self.params.domain, self.bodies[i]),
            ),
            ..self
        }
    }

    /// Every particle resolved against one cannon.
    pub open spec fn cannon_resolved(self, cannon: Cannon<S>) -> Self {
        let met = |i: int|
            cannon.met(self.params.radius, self.positions[i], self.velocities[i]);
        State {
            positions: Seq::new(self.positions.len(), |i: int| met(i).0),
            velocities: Seq::new(self.velocities.len(), |i: int| met(i).1),
            ..self
        }
    }

    /// Every particle resolved against the first `k` cannons, one cannon after the other.
    pub open spec fn cannons_resolved(self, k: int) -> Self
        decreases k,
    {
        if k <= 0 {
            self
        } else {
            self.cannons_resolved(k - 1).cannon_resolved(self.cannons[k - 1])
        }
    }

    /// The distance at which two particles touch.
    pub open spec fn contact_distance(self) -> S {
        S::whole(2).product(self.params.radius)
    }

    /// The particles `i` and `j` after their collision; nothing else changes.
    pub open spec fn pair_resolved(self, i: int, j: int) -> Self {
        let after = (Pair {
            pos_i: self.positions[i],
            vel_i: self.velocities[i],
            pos_j: self.positions[j],
            vel_j: self.velocities[j],
        }).collided(self.contact_distance());
        State {
            positions: self.positions.update(i, after.pos_i).update(j, after.pos_j),
            velocities: self.velocities.update(i, after.vel_i).update(j, after.vel_j),
            ..self
        }
    }

    /// The listed pairs resolved one after the other, each from the state that the earlier ones
    /// left.
    pub open spec fn pair_list_resolved(self, pairs: Seq<(usize, usize)>) -> Self
        decreases pairs.len(),
    {
        if pairs.len() == 0 {
            self
        } else {
            self.pair_list_resolved(pairs.drop_last()).pair_resolved(
                pairs.last().0 as int,
                pairs.last().1 as int,
            )
        }
    }

    /// The pairs of particles in contact.
    pub open spec fn contacts(self) -> Seq<(usize, usize)> {
        let reach = self.contact_distance().product(self.contact_distance());
        contact_pairs(self.positions, self.inv_cell_size, reach)
    }

    /// All pairs in contact resolved, in ascending order.
    pub open spec fn pairs_resolved(self) -> Self {
        self.pair_list_resolved(self.contacts())
    }

    /// The inverse mass of a particle.
    pub open spec fn inv_mass(self) -> S {
        if S::whole(0).less(self.params.mass) {
            S::whole(1).quotient(self.params.mass)
        } else {
            S::whole(0)
        }
    }

    /// The distance at which a particle touches body `b`.
    pub open spec fn body_distance(self, b: int) -> S {
        self.bodies[b].radius.sum(self.params.radius)
    }

    /// The particles that share a cell with the box around body `b`; `ids` holds the cell of each
    /// particle.
    pub open spec fn body_candidates(self, ids: Seq<u64>, b: int) -> Seq<usize> {
        let pad = Vec3::splatted(self.body_distance(b));
        overlapping(
            ids,
            self.bodies[b].pos.difference(pad),
            self.bodies[b].pos.sum(pad),
            self.inv_cell_size,
        )
    }

    /// Particle `j` and body `b` after their collision; nothing else changes.
    pub open spec fn strike_resolved(self, b: int, j: int) -> Self {
        let after = (Strike {
            pos: self.positions[j],
            vel: self.velocities[j],
            body: self.bodies[b],
        }).collided(self.body_distance(b), self.inv_mass());
        State {
            positions: self.positions.update(j, after.pos),
            velocities: self.velocities.update(j, after.vel),
            bodies: self.bodies.update(b, after.body),
            ..self
        }
    }

    /// Body `b` resolved against the listed particles, one after the other.
    pub open spec fn body_resolved(self, b: int, candidates: Seq<usize>) -> Self
        decreases candidates.len(),
    {
        if candidates.len() == 0 {
            self
        } else {
            self.body_resolved(b, candidates.drop_last()).strike_resolved(
                b,
                candidates.last() as int,
            )
        }
    }

    /// The first `k` bodies resolved, each against the particles near it; `ids` holds the cell of
    /// each particle.
    pub open spec fn bodies_resolved(self, ids: Seq<u64>, k: int) -> Self
        decreases k,
    {
        if k <= 0 {
            self
        } else {
            let before = self.bodies_resolved(ids, k - 1);
            before.body_resolved(k - 1, before.body_candidates(ids, k - 1))
        }
    }

    /// All bodies resolved against the particles.
    pub open spec fn body_particles_resolved(self) -> Self {
        self.bodies_resolved(
            cell_ids_of(self.positions, self.inv_cell_size),
            self.bodies.len() as int,
        )
    }

    /// One time step.
    pub open spec fn stepped(self, dt: S, swings: Seq<Swing<S>>) -> Self {
        let moved = self.integrated(dt).bodies_integrated(dt).cannons_advanced(dt, swings);
        let inside = moved.walls_resolved().body_walls_resolved();
        let clear = inside.cannons_resolved(inside.cannons.len() as int);
        clear.pairs_resolved().body_particles_resolved()
    }
}

/// The kinetic energy of particles of mass `mass`, added up in order.
pub open spec fn energy_of<S: Number>(mass: S, velocities: Seq<Vec3<S>>) -> S
    decreases velocities.len(),
{
    if velocities.len() == 0 {
        S::whole(0)
    } else {
        energy_of(mass, velocities.drop_last()).sum(
            S::decimal(5, 1).product(mass).product(velocities.last().squared_length()),
        )
    }
}

/// A box or sphere full of particles, with bodies and cannons among them.
pub struct Simulation<S> {
    pub params: SimulationParams<S>,
    pub positions: Vec<Vec3<S>>,
    pub velocities: Vec<Vec3<S>>,
    pub bodies: Vec<RigidBody<S>>,
    pub cannons: Vec<Cannon<S>>,
    pub grid: HashGrid<S>,
}

impl<S: Number> Simulation<S> {
    /// The reciprocal of the cell size.
    pub open spec fn inv_cell_size(&self) -> S {
        self.grid.scale()
    }

    /// The simulation as a value.
    pub open spec fn state(&self) -> State<S> {
        State {
            params: self.params,
            positions: self.positions@,
            velocities: self.velocities@,
            bodies: self.bodies@,
            cannons: self.cannons@,
            inv_cell_size: self.inv_cell_size(),
        }
    }

    /// Every particle has a position and a velocity, and the grid can number the particles.
    pub open spec fn wf(&self) -> bool {
        &&& self.positions@.len() == self.velocities@.len()
        &&& fits_grid(self.positions@.len())
    }
}

impl<S: Angle> State<S> {
    /// The cosine and sine of the phase of each piston after `dt` more.
    pub open spec fn swings_after(self, dt: S) -> Seq<Swing<S>> {
        Seq::new(self.cannons.len(), |i: int| swing_of(self.cannons[i].phase_after(dt)))
    }
}

impl<S: Angle> Simulation<S> {
    /// Advances the simulation by `dt`.
    pub fn step(&mut self, dt: S)
        requires
            old(self).wf(),
        ensures
            final(self).wf(),
            final(self).state() == old(self).state().stepped(
                dt,
                old(self).state().swings_after(dt),
            ),
    {
        self.integrate(dt);
        self.integrate_bodies(dt);
        self.advance_cannons(dt);
        self.resolve_walls();
        self.resolve_body_walls();
        self.resolve_cannons();
        self.resolve_pairs();
        self.resolve_body_particles();
    }

    pub fn advance_cannons(&mut self, dt: S)
        ensures
            final(self).state() == old(self).state().cannons_advanced(
                dt,
                old(self).state().swings_after(dt),
            ),
    {
        let ghost swings = self.state().swings_after(dt);
        let ghost goal = self.state().cannons_advanced(dt, swings);
        let n: usize = self.cannons.len();
        let mut i: usize = 0;
        while i < n
            invariant
                i <= n,
                n == self.cannons@.len() == old(self).cannons@.len(),
                swings == old(self).state().swings_after(dt),
                goal == old(self).state().cannons_advanced(dt, swings),
                self.state() == (State { cannons: self.cannons@, ..old(self).state() }),
                forall|k: int| 0 <= k < i ==> #[trigger] self.cannons@[k] == goal.cannons[k],
                forall|k: int| i <= k < n ==> #[trigger] self.cannons@[k] == old(self).cannons@[k],
            decreases n - i,
        {
            let mut cannon = self.cannons[i];
            cannon.advance(dt);
            self.cannons.set(i, cannon);
            i = i + 1;
        }
        assert(self.state() =~= goal);
    }
}

impl<S: Scalar> Simulation<S> {
    pub fn new(
        params: SimulationParams<S>,
        positions: Vec<Vec3<S>>,
        velocities: Vec<Vec3<S>>,
    ) -> (r: Self)
        requires
            positions@.len() == velocities@.len(),
        ensures
            r.state() == (State {
                params,
                positions: positions@,
                velocities: velocities@,
                bodies: Seq::empty(),
                cannons: Seq::empty(),
                inv_cell_size: S::whole(1).quotient(S::whole(2).product(params.radius)),
            }),
            r.state() == State::fresh(params, positions@, velocities@),
            r.grid.cell_edge() == S::whole(2).product(params.radius),
            fits_grid(positions@.len()) ==> r.wf(),
    {
        let grid = HashGrid::new(S::from_u64(2).mul(params.radius));
        let r = Simulation {
            params,
            positions,
            velocities,
            bodies: Vec::new(),
            cannons: Vec::new(),
            grid,
        };
        proof {
            assert(r.bodies@ =~= Seq::empty());
            assert(r.cannons@ =~= Seq::empty());
        }
        r
    }

    pub fn add_body(&mut self, body: RigidBody<S>)
        ensures
            final(self).state() == (State {
                bodies: old(self).bodies@.push(body),
                ..old(self).state()
            }),
    {
        self.bodies.push(body);
    }

    pub fn add_cannon(&mut self, cannon: Cannon<S>)
        ensures
            final(self).state() == (State {
                cannons: old(self).cannons@.push(cannon),
                ..old(self).state()
            }),
    {
        self.cannons.push(cannon);
    }

    /// The number of particles.
    pub fn len(&self) -> (r: usize)
        ensures
            r == self.positions@.len(),
    {
        self.positions.len()
    }

    pub fn is_empty(&self) -> (r: bool)
        ensures
            r == (self.positions@.len() == 0),
    {
        self.positions.len() == 0
    }

    pub fn integrate(&mut self, dt: S)
        requires
            old(self).wf(),
        ensures
            final(self).wf(),
            final(self).state() == old(self).state().integrated(dt),
    {
        let ghost goal = self.state().integrated(dt);
        let n: usize = self.positions.len();
        let mut i: usize = 0;
        while i < n
            invariant
                i <= n,
                n == self.positions@.len() == self.velocities@.len(),
                old(self).wf(),
                n == old(self).positions@.len(),
                goal == old(self).state().integrated(dt),
                self.state() == (State { positions: self.positions@, ..old(self).state() }),
                forall|k: int| 0 <= k < i ==> #[trigger] self.positions@[k] == goal.positions[k],
                forall|k: int|
                    i <= k < n ==> #[trigger] self.positions@[k] == old(self).positions@[k],
            decreases n - i,
        {
            let p = self.positions[i].add(self.velocities[i].scale(dt));
            self.positions.set(i, p);
            i = i + 1;
        }
        assert(self.state() =~= goal);
    }

    pub fn integrate_bodies(&mut self, dt: S)
        ensures
            final(self).state() == old(self).state().bodies_integrated(dt),
    {
        let ghost goal = self.state().bodies_integrated(dt);
        let n: usize = self.bodies.len();
        let mut i: usize = 0;
        while i < n
            invariant
                i <= n,
                n == self.bodies@.len() == old(self).bodies@.len(),
                goal == old(self).state().bodies_integrated(dt),
                self.state() == (State { bodies: self.bodies@, ..old(self).state() }),
                forall|k: int| 0 <= k < i ==> #[trigger] self.bodies@[k] == goal.bodies[k],
                forall|k: int| i <= k < n ==> #[trigger] self.bodies@[k] == old(self).bodies@[k],
            decreases n - i,
        {
            let mut body = self.bodies[i];
            body.pos = body.pos.add(body.vel.scale(dt));
            self.bodies.set(i, body);
            i = i + 1;
        }
        assert(self.state() =~= goal);
    }

    pub fn resolve_walls(&mut self)
        requires
            old(self).wf(),
        ensures
            final(self).wf(),
            final(self).state() == old(self).state().walls_resolved(),
    {
        let ghost goal = self.state().walls_resolved();
        let n: usize = self.positions.len();
        let mut i: usize = 0;
        while i < n
            invariant
                i <= n,
                n == self.positions@.len() == self.velocities@.len(),
                n == old(self).positions@.len() == old(self).velocities@.len(),
                goal == old(self).state().walls_resolved(),
                self.state() == (State {
                    positions: self.positions@,
                    velocities: self.velocities@,
                    ..old(self).state()
                }),
                forall|k: int| 0 <= k < i ==> #[trigger] self.positions@[k] == goal.positions[k],
                forall|k: int| 0 <= k < i ==> #[trigger] self.velocities@[k] == goal.velocities[k],
                forall|k: int|
                    i <= k < n ==> #[trigger] self.positions@[k] == old(self).positions@[k],
                forall|k: int|
                    i <= k < n ==> #[trigger] self.velocities@[k] == old(self).velocities@[k],
            decreases n - i,
        {
            let (p, v) = resolve_wall(
                &self.params.domain,
                self.params.radius,
                self.positions[i],
                self.velocities[i],
            );
            self.positions.set(i, p);
            self.velocities.set(i, v);
            i = i + 1;
        }
        assert(self.state() =~= goal);
    }

    pub fn resolve_body_walls(&mut self)
        ensures
            final(self).state() == old(self).state().body_walls_resolved(),
    {
        let ghost goal = self.state().body_walls_resolved();
        let n: usize = self.bodies.len();
        let mut i: usize = 0;
        while i < n
            invariant
                i <= n,
                n == self.bodies@.len() == old(self).bodies@.len(),
                goal == old(self).state().body_walls_resolved(),
                self.state() == (State { bodies: self.bodies@, ..old(self).state() }),
                forall|k: int| 0 <= k < i ==> #[trigger] self.bodies@[k] == goal.bodies[k],
                forall|k: int| i <= k < n ==> #[trigger] self.bodies@[k] == old(self).bodies@[k],
            decreases n - i,
        {
            let body = resolve_body_wall(&self.params.domain, self.bodies[i]);
            self.bodies.set(i, body);
            i = i + 1;
        }
        assert(self.state() =~= goal);
    }

    pub fn resolve_cannons(&mut self)
        requires
            old(self).wf(),
        ensures
            final(self).wf(),
            final(self).state() == old(self).state().cannons_resolved(
                old(self).cannons@.len() as int,
            ),
    {
        let mut c: usize = 0;
        while c < self.cannons.len()
            invariant
                c <= self.cannons@.len(),
                self.wf(),
                self.cannons@ == old(self).cannons@,
                self.state() == old(self).state().cannons_resolved(c as int),
            decreases self.cannons.len() - c,
        {
            let cannon = self.cannons[c];
            self.resolve_cannon(&cannon);
            c = c + 1;
        }
    }

    /// Resolves every particle against one cannon.
    fn resolve_cannon(&mut self, cannon: &Cannon<S>)
        requires
            old(self).wf(),
        ensures
            final(self).wf(),
            final(self).state() == old(self).state().cannon_resolved(*cannon),
    {
        let ghost goal = self.state().cannon_resolved(*cannon);
        let n: usize = self.positions.len();
        let r_p = self.params.radius;
        let mut i: usize = 0;
        while i < n
            invariant
                i <= n,
                n == self.positions@.len() == self.velocities@.len(),
                n == old(self).positions@.len() == old(self).velocities@.len(),
                r_p == old(self).params.radius,
                goal == old(self).state().cannon_resolved(*cannon),
                self.state() == (State {
                    positions: self.positions@,
                    velocities: self.velocities@,
                    ..old(self).state()
                }),
                forall|k: int| 0 <= k < i ==> #[trigger] self.positions@[k] == goal.positions[k],
                forall|k: int| 0 <= k < i ==> #[trigger] self.velocities@[k] == goal.velocities[k],
                forall|k: int|
                    i <= k < n ==> #[trigger] self.positions@[k] == old(self).positions@[k],
                forall|k: int|
                    i <= k < n ==> #[trigger] self.velocities@[k] == old(self).velocities@[k],
            decreases n - i,
        {
            let mut p = self.positions[i];
            let mut v = self.velocities[i];
            resolve_particle_against_cannon(&mut p, &mut v, r_p, cannon);
            self.positions.set(i, p);
            self.velocities.set(i, v);
            i = i + 1;
        }
        assert(self.state() =~= goal);
    }

    pub fn resolve_pairs(&mut self)
        requires
            old(self).wf(),
        ensures
            final(self).wf(),
            final(self).state() == old(self).state().pairs_resolved(),
    {
        let n: usize = self.positions.len();
        let min_dist = S::from_u64(2).mul(self.params.radius);
        self.grid.rebuild(self.positions.as_slice());
        let pairs: Vec<(usize, usize)> = find_contacts(
            &self.grid,
            &self.positions,
            min_dist.mul(min_dist),
        );
        let ghost start = old(self).state();
        proof {
            contact_pairs_are_contacts(
                start.positions,
                start.inv_cell_size,
                min_dist.product(min_dist),
            );
            assert(pairs@ == start.contacts());
            assert forall|m: int| 0 <= m < pairs@.len() implies (#[trigger] pairs@[m]).0
                < pairs@[m].1 && pairs@[m].1 < n by {
                let (a, b) = pairs@[m];
                assert(pairs@.contains((a, b)));
            }
            assert(pairs@.take(0) =~= Seq::<(usize, usize)>::empty());
        }
        let mut k: usize = 0;
        while k < pairs.len()
            invariant
                k <= pairs@.len(),
                self.wf(),
                n == self.positions@.len(),
                self.params == old(self).params,
                start == old(self).state(),
                min_dist == start.contact_distance(),
                self.params == start.params,
                forall|m: int|
                    0 <= m < pairs@.len() ==> (#[trigger] pairs@[m]).0 < pairs@[m].1 && pairs@[m].1
                        < n,
                self.state() == start.pair_list_resolved(pairs@.take(k as int)),
            decreases pairs.len() - k,
        {
            let (i, j) = pairs[k];
            let ghost before = self.state();
            let pair = Pair {
                pos_i: self.positions[i],
                vel_i: self.velocities[i],
                pos_j: self.positions[j],
                vel_j: self.velocities[j],
            };
            let after = pair.collide(min_dist);
            self.positions.set(i, after.pos_i);
            self.positions.set(j, after.pos_j);
            self.velocities.set(i, after.vel_i);
            self.velocities.set(j, after.vel_j);
            proof {
                assert(self.state() =~= before.pair_resolved(i as int, j as int));
                assert(pairs@.take(k + 1).drop_last() =~= pairs@.take(k as int));
            }
            k = k + 1;
        }
        proof {
            assert(pairs@.take(k as int) =~= pairs@);
        }
    }

    pub fn resolve_body_particles(&mut self)
        requires
            old(self).wf(),
        ensures
            final(self).wf(),
            final(self).state() == old(self).state().body_particles_resolved(),
    {
        if self.bodies.len() == 0 {
            return ;
        }
        let inv_m_p = if S::from_u64(0).lt(self.params.mass) {
            S::from_u64(1).div(self.params.mass)
        } else {
            S::from_u64(0)
        };
        // The grid must reflect the positions after the pairs (they may have nudged particles).
        self.grid.rebuild(self.positions.as_slice());
        let ghost start = old(self).state();
        let ghost ids = cell_ids_of(start.positions, start.inv_cell_size);
        let mut b: usize = 0;
        while b < self.bodies.len()
            invariant
                b <= self.bodies@.len(),
                self.bodies@.len() == start.bodies.len(),
                self.wf(),
                self.positions@.len() == ids.len(),
                self.params == start.params,
                inv_m_p == start.inv_mass(),
                self.grid.wf(),
                self.grid@ == ids,
                self.state() == start.bodies_resolved(ids, b as int),
            decreases self.bodies.len() - b,
        {
            self.resolve_body(b, inv_m_p);
            b = b + 1;
        }
    }

    /// Resolves one body against the particles near it.
    fn resolve_body(&mut self, b: usize, inv_m_p: S)
        requires
            old(self).wf(),
            b < old(self).bodies@.len(),
            old(self).grid.wf(),
            old(self).grid@.len() == old(self).positions@.len(),
            inv_m_p == old(self).state().inv_mass(),
        ensures
            final(self).wf(),
            final(self).grid == old(self).grid,
            final(self).positions@.len() == old(self).positions@.len(),
            final(self).bodies@.len() == old(self).bodies@.len(),
            final(self).params == old(self).params,
            final(self).state() == old(self).state().body_resolved(
                b as int,
                old(self).state().body_candidates(old(self).grid@, b as int),
            ),
    {
        let n: usize = self.positions.len();
        let body = self.bodies[b];
        let min_dist = body.radius.add(self.params.radius);
        let pad = Vec3::splat(min_dist);
        let candidates: Vec<usize> = self.grid.for_each_in_aabb(
            body.pos.sub(pad),
            body.pos.add(pad),
        );
        let ghost start = old(self).state();
        proof {
            assert(candidates@ == start.body_candidates(self.grid@, b as int));
            assert forall|m: int| 0 <= m < candidates@.len() implies #[trigger] candidates@[m]
                < n by {
                assert(candidates@.contains(candidates@[m]));
                candidates_exist(start, self.grid@, b as int, candidates@[m]);
            }
            assert(candidates@.take(0) =~= Seq::<usize>::empty());
        }
        let mut k: usize = 0;
        while k < candidates.len()
            invariant
                k <= candidates@.len(),
                self.wf(),
                self.grid == old(self).grid,
                n == self.positions@.len(),
                n == old(self).positions@.len(),
                b < self.bodies@.len(),
                self.bodies@.len() == old(self).bodies@.len(),
                self.params == old(self).params,
                start == old(self).state(),
                inv_m_p == start.inv_mass(),
                self.bodies@[b as int].radius == start.bodies[b as int].radius,
                min_dist == start.body_distance(b as int),
                forall|m: int| 0 <= m < candidates@.len() ==> #[trigger] candidates@[m] < n,
                self.state() == start.body_resolved(b as int, candidates@.take(k as int)),
            decreases candidates.len() - k,
        {
            let j: usize = candidates[k];
            let ghost before = self.state();
            let strike = Strike {
                pos: self.positions[j],
                vel: self.velocities[j],
                body: self.bodies[b],
            };
            let after = strike.collide(min_dist, inv_m_p);
            self.positions.set(j, after.pos);
            self.velocities.set(j, after.vel);
            self.bodies.set(b, after.body);
            proof {
                assert(self.state() =~= before.strike_resolved(b as int, j as int));
                assert(candidates@.take(k + 1).drop_last() =~= candidates@.take(k as int));
            }
            k = k + 1;
        }
        proof {
            assert(candidates@.take(k as int) =~= candidates@);
        }
    }

    /// The total kinetic energy of the particles.
    pub fn kinetic_energy(&self) -> (r: S)
        ensures
            r == energy_of(self.params.mass, self.velocities@),
    {
        let half_m = S::from_decimal(5, 1).mul(self.params.mass);
        let mut sum = S::from_u64(0);
        let mut i: usize = 0;
        proof {
            assert(self.velocities@.take(0) =~= Seq::<Vec3<S>>::empty());
        }
        while i < self.velocities.len()
            invariant
                i <= self.velocities@.len(),
                half_m == S::decimal(5, 1).product(self.params.mass),
                sum == energy_of(self.params.mass, self.velocities@.take(i as int)),
            decreases self.velocities.len() - i,
        {
            proof {
                assert(self.velocities@.take(i + 1).drop_last() =~= self.velocities@.take(
                    i as int,
                ));
            }
            sum = sum.add(half_m.mul(self.velocities[i].length_squared()));
            i = i + 1;
        }
        proof {
            assert(self.velocities@.take(i as int) =~= self.velocities@);
        }
        sum
    }

    /// The total momentum of the particles.
    pub fn momentum(&self) -> (r: Vec3<S>)
        ensures
            r == total(self.velocities@).scaled(self.params.mass),
    {
        sum_of(&self.velocities).scale(self.params.mass)
    }
}

/// The candidates for a collision with a body are particles.
pub proof fn candidates_exist<S: Number>(state: State<S>, ids: Seq<u64>, b: int, j: usize)
    requires
        ids.len() <= usize::MAX,
        state.body_candidates(ids, b).contains(j),
    ensures
        j < ids.len(),
{
    if j >= ids.len() {
        let pad = Vec3::splatted(state.body_distance(b));
        let lo = state.bodies[b].pos.difference(pad);
        let hi = state.bodies[b].pos.sum(pad);
        let x = cell_axis(lo.x, state.inv_cell_size);
        let y = cell_axis(lo.y, state.inv_cell_size);
        let z = cell_axis(lo.z, state.inv_cell_size);
        block_members(
            ids,
            x,
            y,
            z,
            span_of(x, cell_axis(hi.x, state.inv_cell_size)),
            span_of(y, cell_axis(hi.y, state.inv_cell_size)),
            span_of(z, cell_axis(hi.z, state.inv_cell_size)),
            j,
            (0, 0, 0),
        );
    }
}

} // verus!
