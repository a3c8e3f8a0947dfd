//! What a time step keeps: laws of [`crate::simulation`].

use vstd::prelude::*;

use crate::angle::Swing;
use crate::ballistics::{resting_cannon_keeps_speed, straight};
use crate::body::RigidBody;
use crate::collision::{Pair, Strike};
use crate::confinement::{
    numbers_are_ordered,
    recoverable,
    walls_keep_inside,
    walls_keep_speed,
    walls_leave_inside_alone,
};
use crate::contacts::contact_pairs_are_contacts;
use crate::elastic::{
    collision_keeps_center,
    collision_keeps_energy,
    collision_keeps_momentum,
    half_value,
    inverse_of,
    lemma_add_scaled,
    movable,
    strike_keeps_energy,
    strike_keeps_momentum,
};
use crate::exact::Exact;
use crate::geometry::roots_exist;
use crate::grid::{cell_ids_of, fits_grid};
use crate::scalar::Number;
use crate::simulation::{energy_of, candidates_exist, State};
use crate::vector::{total, Vec3};
use crate::walls::{body_walled, walled};

verus! {

/// The kinetic energy of the bodies.
pub open spec fn bodies_energy(bodies: Seq<RigidBody<Exact>>) -> real
    decreases bodies.len(),
{
    if bodies.len() == 0 {
        0real
    } else {
        bodies_energy(bodies.drop_last()) + (1real / 2real) * (bodies.last().mass.value
            * bodies.last().vel.squared_length().value)
    }
}

/// The momentum of the bodies.
pub open spec fn bodies_momentum(bodies: Seq<RigidBody<Exact>>) -> Vec3<Exact>
    decreases bodies.len(),
{
    if bodies.len() == 0 {
        Vec3::origin()
    } else {
        bodies_momentum(bodies.drop_last()).sum(bodies.last().vel.scaled(bodies.last().mass))
    }
}

/// The kinetic energy of particles and bodies.
pub open spec fn total_energy(state: State<Exact>) -> real {
    energy_of(state.params.mass, state.velocities).value + bodies_energy(state.bodies)
}

/// The momentum of particles and bodies.
pub open spec fn total_momentum(state: State<Exact>) -> Vec3<Exact> {
    total(state.velocities).scaled(state.params.mass).sum(bodies_momentum(state.bodies))
}

/// Whether every particle has a position and a velocity, and the grid can number the particles.
pub open spec fn countable<S: Number>(state: State<S>) -> bool {
    state.positions.len() == state.velocities.len() && fits_grid(state.positions.len())
}

/// Whether particles and bodies have positive masses, and bodies the inverse of theirs.
pub open spec fn massive(state: State<Exact>) -> bool {
    &&& 0real < state.params.mass.value
    &&& forall|b: int| 0 <= b < state.bodies.len() ==> movable(#[trigger] state.bodies[b])
}

/// What of a state no step changes: the parameters, the cell size, and how many particles,
/// bodies and cannons there are.
pub open spec fn same_frame<S: Number>(a: State<S>, b: State<S>) -> bool {
    &&& a.params == b.params
    &&& a.inv_cell_size == b.inv_cell_size
    &&& a.positions.len() == b.positions.len()
    &&& a.velocities.len() == b.velocities.len()
    &&& a.bodies.len() == b.bodies.len()
    &&& a.cannons.len() == b.cannons.len()
}

pub(crate) proof fn lemma_cannons_frame<S: Number>(state: State<S>, k: int)
    ensures
        same_frame(state, state.cannons_resolved(k)),
        state.cannons_resolved(k).bodies == state.bodies,
        state.cannons_resolved(k).cannons == state.cannons,
    decreases k,
{
    if k > 0 {
        lemma_cannons_frame(state, k - 1);
    }
}

/// Whether the pairs are of different particles out of `n`.
pub open spec fn pairs_among(pairs: Seq<(usize, usize)>, n: nat) -> bool {
    forall|m: int|
        0 <= m < pairs.len() ==> (#[trigger] pairs[m]).0 < n && pairs[m].1 < n && pairs[m].0
            != pairs[m].1
}

/// The contacts are pairs of different particles.
pub proof fn contacts_among<S: Number>(state: State<S>)
    requires
        state.positions.len() <= usize::MAX,
    ensures
        pairs_among(state.contacts(), state.positions.len()),
{
    let pairs = state.contacts();
    let reach = state.contact_distance().product(state.contact_distance());
    contact_pairs_are_contacts(state.positions, state.inv_cell_size, reach);
    assert forall|m: int| 0 <= m < pairs.len() implies (#[trigger] pairs[m]).0
        < state.positions.len() && pairs[m].1 < state.positions.len() && pairs[m].0
        != pairs[m].1 by {
        let (a, b) = pairs[m];
        assert(pairs.contains((a, b)));
    }
}

pub(crate) proof fn lemma_pairs_frame<S: Number>(state: State<S>, pairs: Seq<(usize, usize)>)
    requires
        state.positions.len() == state.velocities.len(),
        pairs_among(pairs, state.positions.len()),
    ensures
        same_frame(state, state.pair_list_resolved(pairs)),
        state.pair_list_resolved(pairs).bodies == state.bodies,
        state.pair_list_resolved(pairs).cannons == state.cannons,
    decreases pairs.len(),
{
    if pairs.len() > 0 {
        assert(pairs.last() == pairs[pairs.len() - 1]);
        assert forall|m: int| 0 <= m < pairs.drop_last().len() implies (
        #[trigger] pairs.drop_last()[m]).0 < state.positions.len() && pairs.drop_last()[m].1
            < state.positions.len() && pairs.drop_last()[m].0 != pairs.drop_last()[m].1 by {
            assert(pairs.drop_last()[m] == pairs[m]);
        }
        lemma_pairs_frame(state, pairs.drop_last());
    }
}

/// Whether the indices are of particles out of `n`.
pub open spec fn all_below(indices: Seq<usize>, n: nat) -> bool {
    forall|m: int| 0 <= m < indices.len() ==> #[trigger] indices[m] < n
}

/// The particles near a body are particles.
pub(crate) proof fn lemma_candidates_below<S: Number>(state: State<S>, ids: Seq<u64>, b: int)
    requires
        ids.len() <= usize::MAX,
    ensures
        all_below(state.body_candidates(ids, b), ids.len()),
{
    let candidates = state.body_candidates(ids, b);
    assert forall|m: int| 0 <= m < candidates.len() implies #[trigger] candidates[m]
        < ids.len() by {
        assert(candidates.contains(candidates[m]));
        candidates_exist(state, ids, b, candidates[m]);
    }
}

/// Whether corresponding bodies have the same radius and mass.
pub open spec fn same_bodies<S: Number>(a: Seq<RigidBody<S>>, b: Seq<RigidBody<S>>) -> bool {
    &&& a.len() == b.len()
    &&& forall|i: int|
        0 <= i < a.len() ==> (#[trigger] a[i]).radius == b[i].radius && a[i].mass == b[i].mass
            && a[i].inv_mass == b[i].inv_mass
}

pub(crate) proof fn lemma_body_frame<S: Number>(state: State<S>, b: int, candidates: Seq<usize>)
    requires
        state.positions.len() == state.velocities.len(),
        0 <= b < state.bodies.len(),
        all_below(candidates, state.positions.len()),
    ensures
        same_frame(state, state.body_resolved(b, candidates)),
        same_bodies(state.bodies, state.body_resolved(b, candidates).bodies),
        state.body_resolved(b, candidates).cannons == state.cannons,
    decreases candidates.len(),
{
    if candidates.len() > 0 {
        assert(candidates.last() == candidates[candidates.len() - 1]);
        assert forall|m: int| 0 <= m < candidates.drop_last().len() implies
            #[trigger] candidates.drop_last()[m] < state.positions.len() by {
            assert(candidates.drop_last()[m] == candidates[m]);
        }
        lemma_body_frame(state, b, candidates.drop_last());
    }
}

pub(crate) proof fn lemma_bodies_frame<S: Number>(state: State<S>, ids: Seq<u64>, k: int)
    requires
        state.positions.len() == state.velocities.len(),
        ids.len() == state.positions.len() <= usize::MAX,
        k <= state.bodies.len(),
    ensures
        same_frame(state, state.bodies_resolved(ids, k)),
        same_bodies(state.bodies, state.bodies_resolved(ids, k).bodies),
        state.bodies_resolved(ids, k).cannons == state.cannons,
    decreases k,
{
    if k > 0 {
        lemma_bodies_frame(state, ids, k - 1);
        let before = state.bodies_resolved(ids, k - 1);
        lemma_candidates_below(before, ids, k - 1);
        lemma_body_frame(before, k - 1, before.body_candidates(ids, k - 1));
        let after = state.bodies_resolved(ids, k);
        assert forall|i: int| 0 <= i < state.bodies.len() implies (#[trigger] state.bodies[i]).radius
            == after.bodies[i].radius && state.bodies[i].mass == after.bodies[i].mass
            && state.bodies[i].inv_mass == after.bodies[i].inv_mass by {
            assert(before.bodies[i].radius == after.bodies[i].radius);
        }
    }
}

/// A step keeps the parameters, the number of particles, bodies and cannons, and the sizes and
/// masses of the bodies. To the cannons it does nothing but advance their pistons.
pub proof fn step_keeps_frame<S: Number>(state: State<S>, dt: S, swings: Seq<Swing<S>>)
    requires
        countable(state),
    ensures
        same_frame(state, state.stepped(dt, swings)),
        same_bodies(state.bodies, state.stepped(dt, swings).bodies),
        state.stepped(dt, swings).cannons == state.cannons_advanced(dt, swings).cannons,
        countable(state.stepped(dt, swings)),
{
    let moved = state.integrated(dt).bodies_integrated(dt).cannons_advanced(dt, swings);
    let inside = moved.walls_resolved().body_walls_resolved();
    lemma_cannons_frame(inside, inside.cannons.len() as int);
    let clear = inside.cannons_resolved(inside.cannons.len() as int);
    contacts_among(clear);
    lemma_pairs_frame(clear, clear.contacts());
    let parted = clear.pairs_resolved();
    lemma_bodies_frame(
        parted,
        cell_ids_of(parted.positions, parted.inv_cell_size),
        parted.bodies.len() as int,
    );
    let after = state.stepped(dt, swings);
    assert forall|i: int| 0 <= i < state.bodies.len() implies (#[trigger] state.bodies[i]).radius
        == after.bodies[i].radius && state.bodies[i].mass == after.bodies[i].mass
        && state.bodies[i].inv_mass == after.bodies[i].inv_mass by {
        assert(inside.bodies[i].radius == state.bodies[i].radius);
        assert(inside.bodies[i].radius == after.bodies[i].radius);
    }
}

/// Energies of velocities with the same lengths.
proof fn lemma_energy_same(mass: Exact, a: Seq<Vec3<Exact>>, b: Seq<Vec3<Exact>>)
    requires
        a.len() == b.len(),
        forall|i: int|
            0 <= i < a.len() ==> (#[trigger] a[i]).squared_length() == b[i].squared_length(),
    ensures
        energy_of(mass, a) == energy_of(mass, b),
    decreases a.len(),
{
    if a.len() > 0 {
        lemma_energy_same(mass, a.drop_last(), b.drop_last());
        assert(a.last() == a[a.len() - 1]);
    }
}

proof fn lemma_bodies_energy_same(a: Seq<RigidBody<Exact>>, b: Seq<RigidBody<Exact>>)
    requires
        a.len() == b.len(),
        forall|i: int|
            0 <= i < a.len() ==> (#[trigger] a[i]).vel.squared_length()
                == b[i].vel.squared_length() && a[i].mass == b[i].mass,
    ensures
        bodies_energy(a) == bodies_energy(b),
    decreases a.len(),
{
    if a.len() > 0 {
        lemma_bodies_energy_same(a.drop_last(), b.drop_last());
        assert(a.last() == a[a.len() - 1]);
    }
}

/// The energy after one velocity has changed.
proof fn lemma_energy_update(mass: Exact, vs: Seq<Vec3<Exact>>, i: int, v: Vec3<Exact>)
    requires
        0 <= i < vs.len(),
    ensures
        energy_of(mass, vs.update(i, v)).value == energy_of(mass, vs).value + (1real / 2real)
            * mass.value * v.squared_length().value - (1real / 2real) * mass.value
            * vs[i].squared_length().value,
    decreases vs.len(),
{
    half_value();
    if i == vs.len() - 1 {
        assert(vs.update(i, v).drop_last() =~= vs.drop_last());
    } else {
        lemma_energy_update(mass, vs.drop_last(), i, v);
        assert(vs.update(i, v).drop_last() =~= vs.drop_last().update(i, v));
    }
}

/// The sum after one vector has changed.
proof fn lemma_total_update(vs: Seq<Vec3<Exact>>, i: int, v: Vec3<Exact>)
    requires
        0 <= i < vs.len(),
    ensures
        total(vs.update(i, v)) == total(vs).sum(v).difference(vs[i]),
    decreases vs.len(),
{
    if i == vs.len() - 1 {
        assert(vs.update(i, v).drop_last() =~= vs.drop_last());
    } else {
        lemma_total_update(vs.drop_last(), i, v);
        assert(vs.update(i, v).drop_last() =~= vs.drop_last().update(i, v));
    }
}

proof fn lemma_bodies_energy_update(bs: Seq<RigidBody<Exact>>, i: int, b: RigidBody<Exact>)
    requires
        0 <= i < bs.len(),
        b.mass == bs[i].mass,
    ensures
        bodies_energy(bs.update(i, b)) == bodies_energy(bs) + (1real / 2real) * (b.mass.value
            * b.vel.squared_length().value) - (1real / 2real) * (b.mass.value
            * bs[i].vel.squared_length().value),
    decreases bs.len(),
{
    if i == bs.len() - 1 {
        assert(bs.update(i, b).drop_last() =~= bs.drop_last());
    } else {
        lemma_bodies_energy_update(bs.drop_last(), i, b);
        assert(bs.update(i, b).drop_last() =~= bs.drop_last().update(i, b));
    }
}

proof fn lemma_bodies_momentum_update(bs: Seq<RigidBody<Exact>>, i: int, b: RigidBody<Exact>)
    requires
        0 <= i < bs.len(),
        b.mass == bs[i].mass,
    ensures
        bodies_momentum(bs.update(i, b)) == bodies_momentum(bs).sum(b.vel.scaled(b.mass)).difference(
            bs[i].vel.scaled(b.mass),
        ),
    decreases bs.len(),
{
    if i == bs.len() - 1 {
        assert(bs.update(i, b).drop_last() =~= bs.drop_last());
    } else {
        lemma_bodies_momentum_update(bs.drop_last(), i, b);
        assert(bs.update(i, b).drop_last() =~= bs.drop_last().update(i, b));
    }
}

proof fn lemma_bodies_momentum_same(a: Seq<RigidBody<Exact>>, b: Seq<RigidBody<Exact>>)
    requires
        a.len() == b.len(),
        forall|i: int|
            0 <= i < a.len() ==> (#[trigger] a[i]).vel == b[i].vel && a[i].mass == b[i].mass,
    ensures
        bodies_momentum(a) == bodies_momentum(b),
    decreases a.len(),
{
    if a.len() > 0 {
        lemma_bodies_momentum_same(a.drop_last(), b.drop_last());
        assert(a.last() == a[a.len() - 1]);
    }
}

/// The factor of a sum of two that stays the same.
proof fn lemma_same_sum(h: real, a: real, b: real, c: real, d: real)
    by (nonlinear_arith)
    requires
        a + b == c + d,
    ensures
        h * a + h * b == h * c + h * d,
{
    assert(h * a + h * b == h * (a + b));
    assert(h * c + h * d == h * (c + d));
}

/// One collision in a simulation keeps energy and momentum.
proof fn lemma_pair_keeps(state: State<Exact>, i: int, j: int)
    requires
        roots_exist(),
        state.positions.len() == state.velocities.len(),
        0 <= i < state.positions.len(),
        0 <= j < state.positions.len(),
        i != j,
    ensures
        total_energy(state.pair_resolved(i, j)) == total_energy(state),
        total_momentum(state.pair_resolved(i, j)) == total_momentum(state),
        total(state.pair_resolved(i, j).positions) == total(state.positions),
{
    let vs = state.velocities;
    let m = state.params.mass;
    let pair = Pair {
        pos_i: state.positions[i],
        vel_i: vs[i],
        pos_j: state.positions[j],
        vel_j: vs[j],
    };
    let d = state.contact_distance();
    let after = pair.collided(d);
    collision_keeps_energy(pair, d);
    collision_keeps_momentum(pair, d);
    collision_keeps_center(pair, d);
    let ps = state.positions;
    lemma_total_update(ps, i, after.pos_i);
    lemma_total_update(ps.update(i, after.pos_i), j, after.pos_j);
    assert(total(state.pair_resolved(i, j).positions) == total(ps)) by {
        assert(after.pos_i.sum(after.pos_j) == pair.pos_i.sum(pair.pos_j));
    }
    lemma_energy_update(m, vs, i, after.vel_i);
    lemma_energy_update(m, vs.update(i, after.vel_i), j, after.vel_j);
    lemma_total_update(vs, i, after.vel_i);
    lemma_total_update(vs.update(i, after.vel_i), j, after.vel_j);
    lemma_same_sum(
        (1real / 2real) * m.value,
        after.vel_i.squared_length().value,
        after.vel_j.squared_length().value,
        pair.vel_i.squared_length().value,
        pair.vel_j.squared_length().value,
    );
    assert(total(state.pair_resolved(i, j).velocities) == total(vs)) by {
        let t = total(vs);
        let kept = after.vel_i.sum(after.vel_j);
        assert(kept == pair.vel_i.sum(pair.vel_j));
    }
}

/// Collisions keep energy and momentum, in whatever order they come.
proof fn lemma_pairs_keep(state: State<Exact>, pairs: Seq<(usize, usize)>)
    requires
        roots_exist(),
        state.positions.len() == state.velocities.len(),
        pairs_among(pairs, state.positions.len()),
    ensures
        total_energy(state.pair_list_resolved(pairs)) == total_energy(state),
        total_momentum(state.pair_list_resolved(pairs)) == total_momentum(state),
        total(state.pair_list_resolved(pairs).positions) == total(state.positions),
    decreases pairs.len(),
{
    if pairs.len() > 0 {
        assert(pairs.last() == pairs[pairs.len() - 1]);
        let rest = pairs.drop_last();
        assert forall|m: int| 0 <= m < rest.len() implies (#[trigger] rest[m]).0
            < state.positions.len() && rest[m].1 < state.positions.len() && rest[m].0
            != rest[m].1 by {
            assert(rest[m] == pairs[m]);
        }
        lemma_pairs_keep(state, rest);
        lemma_pairs_frame(state, rest);
        lemma_pair_keeps(
            state.pair_list_resolved(rest),
            pairs.last().0 as int,
            pairs.last().1 as int,
        );
    }
}

/// The collisions of particles with each other keep energy and momentum, and the center of mass
/// where it is.
pub proof fn pairs_keep_energy_and_momentum(state: State<Exact>)
    requires
        roots_exist(),
        countable(state),
    ensures
        total_energy(state.pairs_resolved()) == total_energy(state),
        total_momentum(state.pairs_resolved()) == total_momentum(state),
        total(state.pairs_resolved().positions) == total(state.positions),
{
    contacts_among(state);
    lemma_pairs_keep(state, state.contacts());
}

/// A halved sum that stays the same.
proof fn lemma_half_sum(m: real, a: real, b: real, n: real, c: real, d: real)
    by (nonlinear_arith)
    requires
        m * a + n * c == m * b + n * d,
    ensures
        (1real / 2real) * m * a - (1real / 2real) * m * b + (1real / 2real) * (n * c) - (1real
            / 2real) * (n * d) == 0real,
{
    assert((1real / 2real) * m * a == (1real / 2real) * (m * a));
    assert((1real / 2real) * m * b == (1real / 2real) * (m * b));
}

/// One collision with a body in a simulation keeps energy and momentum.
proof fn lemma_strike_keeps(state: State<Exact>, b: int, j: int)
    requires
        roots_exist(),
        massive(state),
        state.positions.len() == state.velocities.len(),
        0 <= b < state.bodies.len(),
        0 <= j < state.positions.len(),
    ensures
        total_energy(state.strike_resolved(b, j)) == total_energy(state),
        total_momentum(state.strike_resolved(b, j)) == total_momentum(state),
        massive(state.strike_resolved(b, j)),
{
    let vs = state.velocities;
    let m = state.params.mass;
    let body = state.bodies[b];
    let strike = Strike { pos: state.positions[j], vel: vs[j], body };
    let d = state.body_distance(b);
    let inv = state.inv_mass();
    let after = strike.collided(d, inv);
    assert(inverse_of(m, inv));
    strike_keeps_energy(strike, d, m, inv);
    strike_keeps_momentum(strike, d, m, inv);
    lemma_energy_update(m, vs, j, after.vel);
    lemma_total_update(vs, j, after.vel);
    lemma_bodies_energy_update(state.bodies, b, after.body);
    lemma_bodies_momentum_update(state.bodies, b, after.body);
    lemma_half_sum(
        m.value,
        after.vel.squared_length().value,
        vs[j].squared_length().value,
        body.mass.value,
        after.body.vel.squared_length().value,
        body.vel.squared_length().value,
    );
    let t = total(vs);
    lemma_add_scaled(t.x.value + after.vel.x.value, vs[j].x.value, m.value);
    lemma_add_scaled(t.y.value + after.vel.y.value, vs[j].y.value, m.value);
    lemma_add_scaled(t.z.value + after.vel.z.value, vs[j].z.value, m.value);
    lemma_add_scaled(t.x.value, after.vel.x.value, m.value);
    lemma_add_scaled(t.y.value, after.vel.y.value, m.value);
    lemma_add_scaled(t.z.value, after.vel.z.value, m.value);
}

proof fn lemma_body_keeps(state: State<Exact>, b: int, candidates: Seq<usize>)
    requires
        roots_exist(),
        massive(state),
        state.positions.len() == state.velocities.len(),
        0 <= b < state.bodies.len(),
        all_below(candidates, state.positions.len()),
    ensures
        total_energy(state.body_resolved(b, candidates)) == total_energy(state),
        total_momentum(state.body_resolved(b, candidates)) == total_momentum(state),
        massive(state.body_resolved(b, candidates)),
    decreases candidates.len(),
{
    if candidates.len() > 0 {
        assert(candidates.last() == candidates[candidates.len() - 1]);
        let rest = candidates.drop_last();
        assert forall|m: int| 0 <= m < rest.len() implies #[trigger] rest[m]
            < state.positions.len() by {
            assert(rest[m] == candidates[m]);
        }
        lemma_body_keeps(state, b, rest);
        lemma_body_frame(state, b, rest);
        lemma_strike_keeps(state.body_resolved(b, rest), b, candidates.last() as int);
    }
}

proof fn lemma_bodies_keep(state: State<Exact>, ids: Seq<u64>, k: int)
    requires
        roots_exist(),
        massive(state),
        state.positions.len() == state.velocities.len(),
        ids.len() == state.positions.len() <= usize::MAX,
        k <= state.bodies.len(),
    ensures
        total_energy(state.bodies_resolved(ids, k)) == total_energy(state),
        total_momentum(state.bodies_resolved(ids, k)) == total_momentum(state),
        massive(state.bodies_resolved(ids, k)),
    decreases k,
{
    if k > 0 {
        lemma_bodies_keep(state, ids, k - 1);
        lemma_bodies_frame(state, ids, k - 1);
        let before = state.bodies_resolved(ids, k - 1);
        lemma_candidates_below(before, ids, k - 1);
        lemma_body_keeps(before, k - 1, before.body_candidates(ids, k - 1));
    }
}

/// The collisions of particles with bodies keep energy and momentum.
pub proof fn bodies_keep_energy_and_momentum(state: State<Exact>)
    requires
        roots_exist(),
        countable(state),
        massive(state),
    ensures
        total_energy(state.body_particles_resolved()) == total_energy(state),
        total_momentum(state.body_particles_resolved()) == total_momentum(state),
{
    lemma_bodies_keep(
        state,
        cell_ids_of(state.positions, state.inv_cell_size),
        state.bodies.len() as int,
    );
}

/// Without bodies nothing collides with them.
pub proof fn no_bodies_no_collisions<S: Number>(state: State<S>)
    requires
        state.bodies.len() == 0,
    ensures
        state.body_particles_resolved() == state,
{
}

/// The walls keep the energy of particles and bodies.
pub proof fn walls_keep_energy(state: State<Exact>)
    requires
        roots_exist(),
        state.positions.len() == state.velocities.len(),
    ensures
        total_energy(state.walls_resolved().body_walls_resolved()) == total_energy(state),
{
    let after = state.walls_resolved().body_walls_resolved();
    let domain = state.params.domain;
    assert forall|i: int| 0 <= i < after.velocities.len() implies (
    #[trigger] after.velocities[i]).squared_length() == state.velocities[i].squared_length() by {
        walls_keep_speed(domain, state.params.radius, state.positions[i], state.velocities[i]);
    }
    lemma_energy_same(state.params.mass, after.velocities, state.velocities);
    assert forall|i: int| 0 <= i < after.bodies.len() implies (
    #[trigger] after.bodies[i]).vel.squared_length() == state.bodies[i].vel.squared_length()
        && after.bodies[i].mass == state.bodies[i].mass by {
        let body = state.bodies[i];
        walls_keep_speed(domain, body.radius, body.pos, body.vel);
    }
    lemma_bodies_energy_same(after.bodies, state.bodies);
}

/// The walls bring every particle back inside that overshot them by no more than the space
/// inside them is wide.
pub proof fn walls_bring_particles_inside(state: State<Exact>)
    requires
        roots_exist(),
        forall|i: int|
            0 <= i < state.positions.len() ==> recoverable(
                state.params.domain,
                state.params.radius,
                #[trigger] state.positions[i],
            ),
    ensures
        forall|i: int|
            0 <= i < state.positions.len() ==> state.params.domain.holds_center(
                #[trigger] state.walls_resolved().positions[i],
                state.params.radius,
            ),
{
    assert forall|i: int| 0 <= i < state.positions.len() implies state.params.domain.holds_center(
        #[trigger] state.walls_resolved().positions[i],
        state.params.radius,
    ) by {
        walls_keep_inside(
            state.params.domain,
            state.params.radius,
            state.positions[i],
            state.velocities[i],
        );
    }
}

/// Whether every cannon has an axis of length one and a piston that rests after `dt` more.
pub open spec fn pistons_rest(state: State<Exact>, dt: Exact) -> bool {
    forall|c: int|
        0 <= c < state.cannons.len() ==> straight(#[trigger] state.cannons[c])
            && state.cannons[c].rests_after(dt)
}

/// Cannons whose pistons do not move keep the energy.
proof fn lemma_cannons_keep_energy(state: State<Exact>, k: int)
    requires
        roots_exist(),
        k <= state.cannons.len(),
        forall|c: int|
            0 <= c < state.cannons.len() ==> straight(#[trigger] state.cannons[c])
                && state.cannons[c].piston_vel.value == 0real,
    ensures
        total_energy(state.cannons_resolved(k)) == total_energy(state),
    decreases k,
{
    if k > 0 {
        lemma_cannons_keep_energy(state, k - 1);
        lemma_cannons_frame(state, k - 1);
        let before = state.cannons_resolved(k - 1);
        let after = state.cannons_resolved(k);
        let cannon = state.cannons[k - 1];
        assert(straight(state.cannons[k - 1]));
        assert forall|i: int| 0 <= i < after.velocities.len() implies (
        #[trigger] after.velocities[i]).squared_length()
            == before.velocities[i].squared_length() by {
            resting_cannon_keeps_speed(
                cannon,
                state.params.radius,
                before.positions[i],
                before.velocities[i],
            );
        }
        lemma_energy_same(state.params.mass, after.velocities, before.velocities);
    }
}

/// Particles that the walls have brought inside are left alone by them.
pub proof fn walls_settle(state: State<Exact>)
    requires
        roots_exist(),
        state.positions.len() == state.velocities.len(),
        forall|i: int|
            0 <= i < state.positions.len() ==> recoverable(
                state.params.domain,
                state.params.radius,
                #[trigger] state.positions[i],
            ),
    ensures
        state.walls_resolved().walls_resolved() == state.walls_resolved(),
{
    walls_bring_particles_inside(state);
    let once = state.walls_resolved();
    assert forall|i: int| 0 <= i < once.positions.len() implies #[trigger] walled(
        state.params.domain,
        state.params.radius,
        once.positions[i],
        once.velocities[i],
    ) == (once.positions[i], once.velocities[i]) by {
        numbers_are_ordered();
        walls_leave_inside_alone(
            state.params.domain,
            state.params.radius,
            once.positions[i],
            once.velocities[i],
        );
    }
    assert(once.walls_resolved().positions =~= once.positions);
    assert(once.walls_resolved().velocities =~= once.velocities);
}

/// As long as no piston moves, a step keeps the kinetic energy of particles and bodies.
pub proof fn step_keeps_energy(state: State<Exact>, dt: Exact, swings: Seq<Swing<Exact>>)
    requires
        roots_exist(),
        countable(state),
        massive(state),
        pistons_rest(state, dt),
    ensures
        total_energy(state.stepped(dt, swings)) == total_energy(state),
{
    let moved = state.integrated(dt).bodies_integrated(dt).cannons_advanced(dt, swings);
    lemma_bodies_energy_same(moved.bodies, state.bodies);
    walls_keep_energy(moved);
    let inside = moved.walls_resolved().body_walls_resolved();
    assert forall|c: int| 0 <= c < inside.cannons.len() implies straight(
        #[trigger] inside.cannons[c],
    ) && inside.cannons[c].piston_vel.value == 0real by {
        assert(straight(state.cannons[c]));
    }
    lemma_cannons_keep_energy(inside, inside.cannons.len() as int);
    lemma_cannons_frame(inside, inside.cannons.len() as int);
    let clear = inside.cannons_resolved(inside.cannons.len() as int);
    pairs_keep_energy_and_momentum(clear);
    contacts_among(clear);
    lemma_pairs_frame(clear, clear.contacts());
    let parted = clear.pairs_resolved();
    assert forall|b: int| 0 <= b < parted.bodies.len() implies movable(
        #[trigger] parted.bodies[b],
    ) by {
        assert(movable(state.bodies[b]));
    }
    bodies_keep_energy_and_momentum(parted);
}

/// A state after `k` steps of `dt`, without cannons.
pub open spec fn after_steps(state: State<Exact>, dt: Exact, k: nat) -> State<Exact>
    decreases k,
{
    if k == 0 {
        state
    } else {
        after_steps(state, dt, (k - 1) as nat).stepped(dt, Seq::empty())
    }
}

/// However many steps are made, without cannons the kinetic energy of particles and bodies stays
/// what it was.
pub proof fn steps_keep_energy(state: State<Exact>, dt: Exact, k: nat)
    requires
        roots_exist(),
        countable(state),
        massive(state),
        state.cannons.len() == 0,
    ensures
        total_energy(after_steps(state, dt, k)) == total_energy(state),
        countable(after_steps(state, dt, k)),
        massive(after_steps(state, dt, k)),
        after_steps(state, dt, k).cannons.len() == 0,
    decreases k,
{
    if k > 0 {
        let before = after_steps(state, dt, (k - 1) as nat);
        steps_keep_energy(state, dt, (k - 1) as nat);
        step_keeps_energy(before, dt, Seq::empty());
        step_keeps_frame(before, dt, Seq::empty());
        let after = after_steps(state, dt, k);
        assert forall|b: int| 0 <= b < after.bodies.len() implies movable(
            #[trigger] after.bodies[b],
        ) by {
            assert(movable(before.bodies[b]));
        }
    }
}

/// Whether all particles and bodies are inside the walls.
pub open spec fn all_inside(state: State<Exact>) -> bool {
    &&& forall|i: int|
        0 <= i < state.positions.len() ==> state.params.domain.holds_center(
            #[trigger] state.positions[i],
            state.params.radius,
        )
    &&& forall|b: int|
        0 <= b < state.bodies.len() ==> state.params.domain.holds_center(
            (#[trigger] state.bodies[b]).pos,
            state.bodies[b].radius,
        )
}

/// Without cannons a step keeps the momentum of particles and bodies, as long as none of them
/// is carried out of the walls.
pub proof fn step_keeps_momentum(state: State<Exact>, dt: Exact)
    requires
        roots_exist(),
        countable(state),
        massive(state),
        state.cannons.len() == 0,
        all_inside(state.integrated(dt).bodies_integrated(dt)),
    ensures
        total_momentum(state.stepped(dt, Seq::empty())) == total_momentum(state),
{
    let moved = state.integrated(dt).bodies_integrated(dt).cannons_advanced(dt, Seq::empty());
    lemma_bodies_momentum_same(moved.bodies, state.bodies);
    let domain = state.params.domain;
    let inside = moved.walls_resolved().body_walls_resolved();
    assert forall|i: int| 0 <= i < moved.positions.len() implies #[trigger] walled(
        domain,
        state.params.radius,
        moved.positions[i],
        moved.velocities[i],
    ) == (moved.positions[i], moved.velocities[i]) by {
        numbers_are_ordered();
        walls_leave_inside_alone(
            domain,
            state.params.radius,
            moved.positions[i],
            moved.velocities[i],
        );
    }
    assert forall|b: int| 0 <= b < moved.bodies.len() implies #[trigger] body_walled(
        domain,
        moved.bodies[b],
    ) == moved.bodies[b] by {
        let body = moved.bodies[b];
        numbers_are_ordered();
        walls_leave_inside_alone(domain, body.radius, body.pos, body.vel);
    }
    assert(inside.velocities =~= moved.velocities);
    assert(inside.bodies =~= moved.bodies);
    assert(inside.cannons_resolved(0) == inside);
    pairs_keep_energy_and_momentum(inside);
    contacts_among(inside);
    lemma_pairs_frame(inside, inside.contacts());
    let parted = inside.pairs_resolved();
    assert forall|b: int| 0 <= b < parted.bodies.len() implies movable(
        #[trigger] parted.bodies[b],
    ) by {
        assert(movable(state.bodies[b]));
    }
    bodies_keep_energy_and_momentum(parted);
}

/// However many steps are made, without cannons the momentum of particles and bodies stays what
/// it was, as long as none of them is ever carried out of the walls.
pub proof fn steps_keep_momentum(state: State<Exact>, dt: Exact, k: nat)
    requires
        roots_exist(),
        countable(state),
        massive(state),
        state.cannons.len() == 0,
        forall|j: nat|
            j < k ==> all_inside(
                (#[trigger] after_steps(state, dt, j)).integrated(dt).bodies_integrated(dt),
            ),
    ensures
        total_momentum(after_steps(state, dt, k)) == total_momentum(state),
    decreases k,
{
    if k > 0 {
        let before = after_steps(state, dt, (k - 1) as nat);
        steps_keep_momentum(state, dt, (k - 1) as nat);
        steps_keep_energy(state, dt, (k - 1) as nat);
        step_keeps_momentum(before, dt);
    }
}

} // verus!
