//! Which spheres of a simulation meet and what comes of it: laws of the pair phase and the body
//! phase of [`crate::simulation`], stated of real numbers.

use vstd::prelude::*;

use crate::body::RigidBody;
use crate::collision::{Pair, Strike};
use crate::conservation::{all_below, lemma_body_frame, lemma_candidates_below, pairs_among};
use crate::contacts::{contact_pairs_are_contacts, pair_less};
use crate::coverage::{contacts_are_all_touching_pairs, touching_particles_are_candidates};
use crate::elastic::{strike_leaves_immovable_body, strike_separates};
use crate::exact::{root, Exact};
use crate::geometry::{along, gap_squared, is_times, root_squared, roots_exist, way};
use crate::grid::cell_ids_of;
use crate::response::{
    distant_bodies_pass,
    distant_particles_pass,
    tiny_is_a_millionth_squared,
    touching_body_and_particle_bounce,
    touching_particles_bounce,
};
use crate::scalar::Number;
use crate::simulation::State;
use crate::vector::Vec3;

verus! {

/// Whether two particles of radius `r` at `p` and `q` overlap without sitting at the same place.
pub open spec fn overlap(p: Vec3<Exact>, q: Vec3<Exact>, r: Exact) -> bool {
    0real < gap_squared(p, q) < (2real * r.value) * (2real * r.value)
}

/// In a simulation whose cells are no smaller than two radii, the contacts are exactly the pairs
/// of particles that are less than two radii apart and not at the same place, in ascending order.
pub proof fn contacts_are_the_overlapping_pairs(state: State<Exact>)
    requires
        state.positions.len() <= usize::MAX,
        0real < state.params.radius.value,
        0real < state.inv_cell_size.value,
        (2real * state.params.radius.value) * state.inv_cell_size.value <= 1real,
    ensures
        forall|a: usize, b: usize|
            #[trigger] state.contacts().contains((a, b)) <==> a < b && b < state.positions.len()
                && overlap(
                state.positions[a as int],
                state.positions[b as int],
                state.params.radius,
            ),
        forall|j: int, k: int|
            0 <= j < k < state.contacts().len() ==> (#[trigger] state.contacts()[j]).0 < (
            #[trigger] state.contacts()[k]).0 || (state.contacts()[j].0 == state.contacts()[k].0
                && state.contacts()[j].1 < state.contacts()[k].1),
{
    let d = state.contact_distance();
    assert(d.value == 2real * state.params.radius.value);
    contacts_are_all_touching_pairs(state.positions, d, state.inv_cell_size);
    contact_pairs_are_contacts(state.positions, state.inv_cell_size, d.product(d));
    assert forall|a: usize, b: usize|
        #[trigger] state.contacts().contains((a, b)) <==> a < b && b < state.positions.len()
            && overlap(
            state.positions[a as int],
            state.positions[b as int],
            state.params.radius,
        ) by {
        let (p, q) = (state.positions[a as int], state.positions[b as int]);
        assert(q.difference(p).squared_length().value == gap_squared(p, q));
    }
    let pairs = state.contacts();
    assert forall|j: int, k: int| 0 <= j < k < pairs.len() implies (#[trigger] pairs[j]).0 < (
    #[trigger] pairs[k]).0 || (pairs[j].0 == pairs[k].0 && pairs[j].1 < pairs[k].1) by {
        assert(pair_less(pairs[j], pairs[k]));
    }
}

/// Every contact is a pair of particles that overlap, however small the cells are.
proof fn lemma_contacts_overlap(state: State<Exact>)
    requires
        state.positions.len() <= usize::MAX,
    ensures
        pairs_among(state.contacts(), state.positions.len()),
        forall|m: int|
            0 <= m < state.contacts().len() ==> overlap(
                state.positions[(#[trigger] state.contacts()[m]).0 as int],
                state.positions[state.contacts()[m].1 as int],
                state.params.radius,
            ),
        forall|j: int, k: int|
            0 <= j < k < state.contacts().len() ==> #[trigger] state.contacts()[j]
                != #[trigger] state.contacts()[k],
{
    let d = state.contact_distance();
    let pairs = state.contacts();
    contact_pairs_are_contacts(state.positions, state.inv_cell_size, d.product(d));
    assert forall|m: int| 0 <= m < pairs.len() implies (#[trigger] pairs[m]).0
        < state.positions.len() && pairs[m].1 < state.positions.len() && pairs[m].0 != pairs[m].1
        && overlap(
        state.positions[pairs[m].0 as int],
        state.positions[pairs[m].1 as int],
        state.params.radius,
    ) by {
        let (a, b) = pairs[m];
        assert(pairs.contains((a, b)));
        let (p, q) = (state.positions[a as int], state.positions[b as int]);
        assert(q.difference(p).squared_length().value == gap_squared(p, q));
    }
    assert forall|j: int, k: int| 0 <= j < k < pairs.len() implies #[trigger] pairs[j]
        != #[trigger] pairs[k] by {
        assert(pair_less(pairs[j], pairs[k]));
    }
}

/// Whether a pair has nothing to do with particle `c`.
spec fn without(pair: (usize, usize), c: int) -> bool {
    pair.0 != c && pair.1 != c
}

proof fn lemma_uninvolved<S: Number>(state: State<S>, pairs: Seq<(usize, usize)>, c: int)
    requires
        state.positions.len() == state.velocities.len(),
        pairs_among(pairs, state.positions.len()),
        0 <= c < state.positions.len(),
        forall|m: int| 0 <= m < pairs.len() ==> without(#[trigger] pairs[m], c),
    ensures
        ({
            let after = state.pair_list_resolved(pairs);
            &&& after.positions.len() == state.positions.len()
            &&& after.velocities.len() == state.velocities.len()
            &&& after.params == state.params
            &&& after.positions[c] == state.positions[c]
            &&& after.velocities[c] == state.velocities[c]
        }),
    decreases pairs.len(),
{
    if pairs.len() > 0 {
        let rest = pairs.drop_last();
        assert(pairs.last() == pairs[pairs.len() - 1]);
        assert(without(pairs[pairs.len() - 1], c));
        assert forall|m: int| 0 <= m < rest.len() implies (#[trigger] rest[m]).0
            < state.positions.len() && rest[m].1 < state.positions.len() && rest[m].0 != rest[m].1
            && without(rest[m], c) by {
            assert(rest[m] == pairs[m]);
        }
        lemma_uninvolved(state, rest, c);
    }
}

/// A particle that overlaps no other is left alone by the pair phase.
pub proof fn particles_without_contact_go_on(state: State<Exact>, c: int)
    requires
        state.positions.len() == state.velocities.len(),
        state.positions.len() <= usize::MAX,
        0 <= c < state.positions.len(),
        forall|j: int|
            0 <= j < state.positions.len() && j != c ==> !overlap(
                state.positions[c],
                #[trigger] state.positions[j],
                state.params.radius,
            ),
    ensures
        state.pairs_resolved().positions[c] == state.positions[c],
        state.pairs_resolved().velocities[c] == state.velocities[c],
{
    lemma_contacts_overlap(state);
    let pairs = state.contacts();
    assert forall|m: int| 0 <= m < pairs.len() implies without(#[trigger] pairs[m], c) by {
        let (a, b) = (pairs[m].0 as int, pairs[m].1 as int);
        let (p, q) = (state.positions[a], state.positions[b]);
        lemma_gap_symmetric(p, q);
        assert(overlap(p, q, state.params.radius));
        if a == c {
            assert(!overlap(state.positions[c], state.positions[b], state.params.radius));
        }
        if b == c {
            assert(!overlap(state.positions[c], state.positions[a], state.params.radius));
        }
    }
    lemma_uninvolved(state, pairs, c);
}

proof fn lemma_gap_symmetric(p: Vec3<Exact>, q: Vec3<Exact>)
    ensures
        gap_squared(p, q) == gap_squared(q, p),
{
    lemma_square_turned(p.x.value, q.x.value);
    lemma_square_turned(p.y.value, q.y.value);
    lemma_square_turned(p.z.value, q.z.value);
}

proof fn lemma_square_turned(x: real, y: real)
    by (nonlinear_arith)
    ensures
        (y - x) * (y - x) == (x - y) * (x - y),
{
}

/// The two particles of a pair.
spec fn pair_of(state: State<Exact>, a: int, b: int) -> Pair<Exact> {
    Pair {
        pos_i: state.positions[a],
        vel_i: state.velocities[a],
        pos_j: state.positions[b],
        vel_j: state.velocities[b],
    }
}

/// A pair that shares no particle with another is resolved from the state at the start.
proof fn lemma_lone_pair(state: State<Exact>, pairs: Seq<(usize, usize)>, a: int, b: int)
    requires
        state.positions.len() == state.velocities.len(),
        state.positions.len() <= usize::MAX,
        pairs_among(pairs, state.positions.len()),
        0 <= a < state.positions.len(),
        0 <= b < state.positions.len(),
        a != b,
        forall|m: int|
            0 <= m < pairs.len() ==> (#[trigger] pairs[m]).0 == a && pairs[m].1 == b || (without(
                pairs[m],
                a,
            ) && without(pairs[m], b)),
        forall|j: int, k: int|
            0 <= j < k < pairs.len() ==> #[trigger] pairs[j] != #[trigger] pairs[k],
    ensures
        ({
            let after = state.pair_list_resolved(pairs);
            let struck = if pairs.contains((a as usize, b as usize)) {
                pair_of(state, a, b).collided(state.contact_distance())
            } else {
                pair_of(state, a, b)
            };
            &&& after.positions.len() == state.positions.len()
            &&& after.velocities.len() == state.velocities.len()
            &&& after.params == state.params
            &&& pair_of(after, a, b) == struck
        }),
    decreases pairs.len(),
{
    if pairs.len() > 0 {
        let rest = pairs.drop_last();
        let last = pairs[pairs.len() - 1];
        assert(pairs.last() == last);
        assert forall|m: int| 0 <= m < rest.len() implies (#[trigger] rest[m]).0
            < state.positions.len() && rest[m].1 < state.positions.len() && rest[m].0 != rest[m].1
            && (rest[m].0 == a && rest[m].1 == b || (without(rest[m], a) && without(
            rest[m],
            b,
        ))) by {
            assert(rest[m] == pairs[m]);
        }
        assert forall|j: int, k: int| 0 <= j < k < rest.len() implies #[trigger] rest[j]
            != #[trigger] rest[k] by {
            assert(pairs[j] != pairs[k]);
        }
        lemma_lone_pair(state, rest, a, b);
        let ab = (a as usize, b as usize);
        if last.0 == a && last.1 == b {
            assert(last == ab);
            if rest.contains(ab) {
                let k = rest.index_of(ab);
                assert(pairs[k] == pairs[pairs.len() - 1]);
            }
            assert(pairs.contains(ab)) by {
                assert(pairs[pairs.len() - 1] == ab);
            }
        } else {
            assert(without(pairs[pairs.len() - 1], a));
            if pairs.contains(ab) {
                let k = pairs.index_of(ab);
                assert(k < rest.len());
                assert(rest[k] == ab);
            }
            if rest.contains(ab) {
                let k = rest.index_of(ab);
                assert(pairs[k] == ab);
            }
        }
    }
}

/// Two particles that overlap each other and no other, `d` apart: after the pair phase they are
/// two radii apart on the same line and about the same center; if they approached, their relative
/// velocity along that line is reversed, by equal and opposite changes along it, else they keep
/// their velocities.
pub proof fn lone_contacts_bounce(state: State<Exact>, a: int, b: int, d: real)
    requires
        roots_exist(),
        state.positions.len() == state.velocities.len(),
        state.positions.len() <= usize::MAX,
        0real < state.inv_cell_size.value,
        (2real * state.params.radius.value) * state.inv_cell_size.value <= 1real,
        0 <= a < b < state.positions.len(),
        0real < d < 2real * state.params.radius.value,
        d * d == gap_squared(state.positions[a], state.positions[b]),
        forall|j: int|
            0 <= j < state.positions.len() && j != a && j != b ==> !overlap(
                state.positions[a],
                #[trigger] state.positions[j],
                state.params.radius,
            ) && !overlap(state.positions[b], state.positions[j], state.params.radius),
    ensures
        ({
            let after = state.pairs_resolved();
            let (p, q) = (state.positions[a], state.positions[b]);
            let (v, w) = (state.velocities[a], state.velocities[b]);
            let (p2, q2) = (after.positions[a], after.positions[b]);
            let (v2, w2) = (after.velocities[a], after.velocities[b]);
            let contact = 2real * state.params.radius.value;
            let line = way(p, q);
            let closing = along(way(w, v), line);
            &&& gap_squared(p2, q2) == contact * contact
            &&& is_times(way(p2, p), (contact - d) / (2real * d), line)
            &&& is_times(way(q, q2), (contact - d) / (2real * d), line)
            &&& 0real < closing ==> {
                &&& along(way(w2, v2), line) == -closing
                &&& is_times(way(v2, v), closing / (d * d), line)
                &&& is_times(way(w, w2), closing / (d * d), line)
            }
            &&& closing <= 0real ==> v2 == v && w2 == w
        }),
{
    contacts_are_the_overlapping_pairs(state);
    lemma_contacts_overlap(state);
    let pairs = state.contacts();
    let contact = 2real * state.params.radius.value;
    assert(0real < d * d < contact * contact) by (nonlinear_arith)
        requires
            0real < d < contact,
    ;
    assert(state.contacts().contains((a as usize, b as usize)));
    assert forall|m: int| 0 <= m < pairs.len() implies (#[trigger] pairs[m]).0 == a && pairs[m].1
        == b || (without(pairs[m], a) && without(pairs[m], b)) by {
        let (i, j) = (pairs[m].0 as int, pairs[m].1 as int);
        let (p, q) = (state.positions[i], state.positions[j]);
        lemma_gap_symmetric(p, q);
        assert(overlap(p, q, state.params.radius));
        assert(state.contacts().contains((pairs[m].0, pairs[m].1)));
        assert(i < j);
        if i == a || i == b {
            if j != a && j != b {
                assert(!overlap(state.positions[i], state.positions[j], state.params.radius));
            }
        }
        if j == a || j == b {
            if i != a && i != b {
                assert(!overlap(state.positions[j], state.positions[i], state.params.radius));
            }
        }
    }
    lemma_lone_pair(state, pairs, a, b);
    let pair = pair_of(state, a, b);
    let m = state.contact_distance();
    assert(m.value == contact);
    touching_particles_bounce(pair, m, d);
    let after = pair.collided(m);
    lemma_pushed_gap(pair.pos_i, pair.pos_j, after.pos_i, after.pos_j, d, contact);
}

/// Two points `d` apart that are pushed apart by half of what is missing to `m` each are `m`
/// apart.
proof fn lemma_pushed_gap(
    p: Vec3<Exact>,
    q: Vec3<Exact>,
    p2: Vec3<Exact>,
    q2: Vec3<Exact>,
    d: real,
    m: real,
)
    requires
        0real < d,
        d * d == gap_squared(p, q),
        is_times(way(p2, p), (m - d) / (2real * d), way(p, q)),
        is_times(way(q, q2), (m - d) / (2real * d), way(p, q)),
    ensures
        gap_squared(p2, q2) == m * m,
{
    let line = way(p, q);
    let (x, y, z) = (line.x.value, line.y.value, line.z.value);
    let k = (m - d) / (2real * d);
    let f = m / d;
    assert(1real + 2real * k == f) by (nonlinear_arith)
        requires
            0real < d,
            k == (m - d) / (2real * d),
            f == m / d,
    {
        assert(k * (2real * d) == m - d);
        assert(f * d == m);
        assert((1real + 2real * k) * d == f * d);
    }
    lemma_stretched_square(x, k, f);
    lemma_stretched_square(y, k, f);
    lemma_stretched_square(z, k, f);
    let e = d * d;
    assert((f * f) * (x * x + y * y + z * z) == (f * f) * (x * x) + (f * f) * (y * y) + (f * f) * (z
        * z)) by (nonlinear_arith);
    assert((f * f) * (d * d) == m * m) by (nonlinear_arith)
        requires
            0real < d,
            f == m / d,
    {
        assert(f * d == m);
        assert((f * f) * (d * d) == (f * d) * (f * d));
    }
}

proof fn lemma_stretched_square(x: real, k: real, f: real)
    by (nonlinear_arith)
    requires
        1real + 2real * k == f,
    ensures
        (x + k * x + k * x) * (x + k * x + k * x) == (f * f) * (x * x),
{
    assert(x + k * x + k * x == f * x);
}

/// The last of the contacts in ascending order leaves its particles clear of each other, unless
/// an earlier one has put them at the same place.
pub proof fn last_contact_is_resolved_last(state: State<Exact>)
    requires
        roots_exist(),
        state.positions.len() == state.velocities.len(),
        state.positions.len() <= usize::MAX,
        0real < state.params.radius.value,
        state.contacts().len() > 0,
    ensures
        ({
            let (a, b) = state.contacts().last();
            let after = state.pairs_resolved();
            !overlap(after.positions[a as int], after.positions[b as int], state.params.radius)
        }),
{
    lemma_contacts_overlap(state);
    let pairs = state.contacts();
    let rest = pairs.drop_last();
    let (a, b) = pairs[pairs.len() - 1];
    assert(pairs.last() == (a, b));
    assert(pairs_among(rest, state.positions.len())) by {
        assert forall|m: int| 0 <= m < rest.len() implies (#[trigger] rest[m]).0
            < state.positions.len() && rest[m].1 < state.positions.len() && rest[m].0
            != rest[m].1 by {
            assert(rest[m] == pairs[m]);
        }
    }
    lemma_list_frame(state, rest);
    let before = state.pair_list_resolved(rest);
    let pair = pair_of(before, a as int, b as int);
    let m = state.contact_distance();
    let contact = 2real * state.params.radius.value;
    assert(m.value == contact);
    let e = gap_squared(pair.pos_i, pair.pos_j);
    lemma_gap_sign(pair.pos_i, pair.pos_j);
    if 0real < e < contact * contact {
        root_squared(e);
        let d = root(e);
        assert(0real < d < contact) by (nonlinear_arith)
            requires
                0real <= d,
                0real < d * d < contact * contact,
                0real < contact,
        ;
        touching_particles_bounce(pair, m, d);
        let after = pair.collided(m);
        lemma_pushed_gap(pair.pos_i, pair.pos_j, after.pos_i, after.pos_j, d, contact);
    } else {
        distant_particles_pass(pair, m);
    }
    let after = state.pairs_resolved();
    assert(after == before.pair_resolved(a as int, b as int));
}

proof fn lemma_gap_sign(p: Vec3<Exact>, q: Vec3<Exact>)
    ensures
        0real <= gap_squared(p, q),
{
    let (x, y, z) = (q.x.value - p.x.value, q.y.value - p.y.value, q.z.value - p.z.value);
    assert(0real <= x * x && 0real <= y * y && 0real <= z * z) by (nonlinear_arith);
}

proof fn lemma_list_frame(state: State<Exact>, pairs: Seq<(usize, usize)>)
    requires
        state.positions.len() == state.velocities.len(),
        pairs_among(pairs, state.positions.len()),
    ensures
        state.pair_list_resolved(pairs).positions.len() == state.positions.len(),
        state.pair_list_resolved(pairs).velocities.len() == state.velocities.len(),
        state.pair_list_resolved(pairs).params == state.params,
    decreases pairs.len(),
{
    if pairs.len() > 0 {
        let rest = pairs.drop_last();
        assert forall|m: int| 0 <= m < rest.len() implies (#[trigger] rest[m]).0
            < state.positions.len() && rest[m].1 < state.positions.len() && rest[m].0
            != rest[m].1 by {
            assert(rest[m] == pairs[m]);
        }
        lemma_list_frame(state, rest);
    }
}

/// Whether a particle of radius `r` at `p` does not touch a body: it is as far away as their radii
/// together or further, or sits in the center of the body.
pub open spec fn clear_of_body(body: RigidBody<Exact>, p: Vec3<Exact>, r: Exact) -> bool {
    let contact = body.radius.value + r.value;
    ||| contact * contact <= gap_squared(body.pos, p)
    ||| gap_squared(body.pos, p) < 1real / 1_000_000_000_000real
}

/// A particle and a body of a simulation.
spec fn strike_of(state: State<Exact>, b: int, j: int) -> Strike<Exact> {
    Strike { pos: state.positions[j], vel: state.velocities[j], body: state.bodies[b] }
}

/// What becomes of a particle and a body when the body is resolved against the particle.
spec fn struck(state: State<Exact>, b: int, j: int) -> Strike<Exact> {
    strike_of(state, b, j).collided(state.body_distance(b), state.inv_mass())
}

proof fn lemma_strike_missed(state: State<Exact>, b: int, j: int)
    requires
        0 <= b < state.bodies.len(),
        0 <= j < state.positions.len(),
        state.positions.len() == state.velocities.len(),
        clear_of_body(state.bodies[b], state.positions[j], state.params.radius),
    ensures
        state.strike_resolved(b, j) == state,
        struck(state, b, j) == strike_of(state, b, j),
{
    distant_bodies_pass(strike_of(state, b, j), state.body_distance(b), state.inv_mass());
    assert(state.strike_resolved(b, j) =~= state);
}

pub(crate) proof fn lemma_body_missed(state: State<Exact>, b: int, candidates: Seq<usize>)
    requires
        0 <= b < state.bodies.len(),
        state.positions.len() == state.velocities.len(),
        all_below(candidates, state.positions.len()),
        forall|j: int|
            0 <= j < state.positions.len() ==> clear_of_body(
                state.bodies[b],
                #[trigger] state.positions[j],
                state.params.radius,
            ),
    ensures
        state.body_resolved(b, candidates) == state,
    decreases candidates.len(),
{
    if candidates.len() > 0 {
        let rest = candidates.drop_last();
        assert(candidates.last() == candidates[candidates.len() - 1]);
        assert forall|m: int| 0 <= m < rest.len() implies #[trigger] rest[m]
            < state.positions.len() by {
            assert(rest[m] == candidates[m]);
        }
        lemma_body_missed(state, b, rest);
        lemma_strike_missed(state, b, candidates.last() as int);
    }
}

/// Where no particle touches a body, the body phase changes nothing.
pub proof fn bodies_without_contact_go_on(state: State<Exact>)
    requires
        state.positions.len() == state.velocities.len(),
        state.positions.len() <= usize::MAX,
        forall|b: int, j: int|
            0 <= b < state.bodies.len() && 0 <= j < state.positions.len() ==> clear_of_body(
                #[trigger] state.bodies[b],
                #[trigger] state.positions[j],
                state.params.radius,
            ),
    ensures
        state.body_particles_resolved() == state,
{
    lemma_bodies_missed(
        state,
        cell_ids_of(state.positions, state.inv_cell_size),
        state.bodies.len() as int,
    );
}

proof fn lemma_bodies_missed(state: State<Exact>, ids: Seq<u64>, k: int)
    requires
        state.positions.len() == state.velocities.len(),
        ids.len() == state.positions.len() <= usize::MAX,
        k <= state.bodies.len(),
        forall|b: int, j: int|
            0 <= b < state.bodies.len() && 0 <= j < state.positions.len() ==> clear_of_body(
                #[trigger] state.bodies[b],
                #[trigger] state.positions[j],
                state.params.radius,
            ),
    ensures
        state.bodies_resolved(ids, k) == state,
    decreases k,
{
    if k > 0 {
        lemma_bodies_missed(state, ids, k - 1);
        lemma_candidates_below(state, ids, k - 1);
        assert forall|j: int| 0 <= j < state.positions.len() implies clear_of_body(
            state.bodies[k - 1],
            #[trigger] state.positions[j],
            state.params.radius,
        ) by {
            assert(clear_of_body(state.bodies[k - 1], state.positions[j], state.params.radius));
        }
        lemma_body_missed(state, k - 1, state.body_candidates(ids, k - 1));
    }
}

/// A particle and a body that have met are left alone when they meet again.
proof fn lemma_met_once(strike: Strike<Exact>, min_dist: Exact, inv_m_p: Exact)
    requires
        roots_exist(),
        0real <= min_dist.value,
    ensures
        strike.collided(min_dist, inv_m_p).collided(min_dist, inv_m_p) == strike.collided(
            min_dist,
            inv_m_p,
        ),
{
    if !strike.missed(min_dist, inv_m_p) {
        strike_separates(strike, min_dist, inv_m_p);
    }
}

/// An immovable body resolved against a list of particles stays as it is, and does to each of
/// them what it does to it alone.
proof fn lemma_immovable_pass(state: State<Exact>, b: int, candidates: Seq<usize>, j: int)
    requires
        roots_exist(),
        0 <= b < state.bodies.len(),
        state.positions.len() == state.velocities.len(),
        all_below(candidates, state.positions.len()),
        state.bodies[b].inv_mass.value == 0real,
        0real <= state.bodies[b].radius.value + state.params.radius.value,
        0 <= j < state.positions.len(),
    ensures
        ({
            let after = state.body_resolved(b, candidates);
            let (p, v) = if exists|m: int| 0 <= m < candidates.len() && #[trigger] candidates[m]
                == j {
                (struck(state, b, j).pos, struck(state, b, j).vel)
            } else {
                (state.positions[j], state.velocities[j])
            };
            &&& after.bodies == state.bodies
            &&& after.params == state.params
            &&& after.inv_cell_size == state.inv_cell_size
            &&& after.positions.len() == state.positions.len()
            &&& after.velocities.len() == state.velocities.len()
            &&& after.positions[j] == p
            &&& after.velocities[j] == v
        }),
    decreases candidates.len(),
{
    if candidates.len() > 0 {
        let rest = candidates.drop_last();
        let i = candidates[candidates.len() - 1];
        assert(candidates.last() == i);
        assert forall|m: int| 0 <= m < rest.len() implies #[trigger] rest[m]
            < state.positions.len() by {
            assert(rest[m] == candidates[m]);
        }
        lemma_immovable_pass(state, b, rest, j);
        lemma_immovable_pass(state, b, rest, i as int);
        let before = state.body_resolved(b, rest);
        let s = strike_of(before, b, i as int);
        strike_leaves_immovable_body(s, before.body_distance(b), before.inv_mass());
        assert(before.strike_resolved(b, i as int).bodies =~= before.bodies);
        if exists|m: int| 0 <= m < rest.len() && #[trigger] rest[m] == j {
            let m = choose|m: int| 0 <= m < rest.len() && #[trigger] rest[m] == j;
            assert(candidates[m] == j);
        }
        if i == j {
            let first = strike_of(state, b, j);
            strike_leaves_immovable_body(first, state.body_distance(b), state.inv_mass());
            lemma_met_once(first, state.body_distance(b), state.inv_mass());
            assert(candidates[candidates.len() - 1] == j);
        } else if exists|m: int| 0 <= m < candidates.len() && #[trigger] candidates[m] == j {
            let m = choose|m: int| 0 <= m < candidates.len() && #[trigger] candidates[m] == j;
            assert(rest[m] == j);
        }
    }
}

/// Whether no body can be moved.
pub open spec fn all_immovable(state: State<Exact>) -> bool {
    forall|b: int|
        0 <= b < state.bodies.len() ==> (#[trigger] state.bodies[b]).inv_mass.value == 0real
            && 0real <= state.bodies[b].radius.value + state.params.radius.value
}

proof fn lemma_immovable_bodies(state: State<Exact>, ids: Seq<u64>, k: int, b: int, j: int)
    requires
        roots_exist(),
        state.positions.len() == state.velocities.len(),
        ids.len() == state.positions.len() <= usize::MAX,
        all_immovable(state),
        0 <= k <= state.bodies.len(),
        0 <= b < state.bodies.len(),
        0 <= j < state.positions.len(),
        state.body_candidates(ids, b).contains(j as usize),
        forall|c: int|
            0 <= c < state.bodies.len() && c != b ==> clear_of_body(
                #[trigger] state.bodies[c],
                state.positions[j],
                state.params.radius,
            ) && clear_of_body(state.bodies[c], struck(state, b, j).pos, state.params.radius),
    ensures
        ({
            let after = state.bodies_resolved(ids, k);
            let (p, v) = if k <= b {
                (state.positions[j], state.velocities[j])
            } else {
                (struck(state, b, j).pos, struck(state, b, j).vel)
            };
            &&& after.bodies == state.bodies
            &&& after.params == state.params
            &&& after.inv_cell_size == state.inv_cell_size
            &&& after.positions.len() == state.positions.len()
            &&& after.velocities.len() == state.velocities.len()
            &&& after.positions[j] == p
            &&& after.velocities[j] == v
        }),
    decreases k,
{
    if k > 0 {
        let c = k - 1;
        lemma_immovable_bodies(state, ids, c, b, j);
        let before = state.bodies_resolved(ids, c);
        let candidates = before.body_candidates(ids, c);
        assert(candidates == state.body_candidates(ids, c));
        lemma_candidates_below(before, ids, c);
        assert(state.bodies[c].inv_mass.value == 0real);
        lemma_immovable_pass(before, c, candidates, j);
        if c == b {
            let m = candidates.index_of(j as usize);
            assert(candidates[m] == j);
            assert(struck(before, c, j) == struck(state, b, j));
        } else {
            assert(clear_of_body(state.bodies[c], state.positions[j], state.params.radius));
            lemma_strike_missed(before, c, j);
        }
    }
}

/// Among bodies that cannot be moved, a particle that touches one of them, `d` from its center,
/// is pushed out along the line of centers to `place`, at contact, and if it was closing on the
/// body, its velocity relative to the body is reversed along that line. It is taken that neither
/// before nor at that place it touches another body. The bodies stay as they are.
pub proof fn immovable_bodies_turn_particles_back(
    state: State<Exact>,
    b: int,
    j: int,
    d: real,
    place: Vec3<Exact>,
)
    requires
        roots_exist(),
        state.positions.len() == state.velocities.len(),
        state.positions.len() <= usize::MAX,
        0real < state.inv_cell_size.value,
        0real < state.params.mass.value,
        all_immovable(state),
        0 <= b < state.bodies.len(),
        0 <= j < state.positions.len(),
        0real < d < state.bodies[b].radius.value + state.params.radius.value,
        1real / 1_000_000_000_000real <= d * d,
        d * d == gap_squared(state.bodies[b].pos, state.positions[j]),
        is_times(
            way(state.positions[j], place),
            (state.bodies[b].radius.value + state.params.radius.value - d) / d,
            way(state.bodies[b].pos, state.positions[j]),
        ),
        forall|c: int|
            0 <= c < state.bodies.len() && c != b ==> clear_of_body(
                #[trigger] state.bodies[c],
                state.positions[j],
                state.params.radius,
            ) && clear_of_body(state.bodies[c], place, state.params.radius),
    ensures
        ({
            let after = state.body_particles_resolved();
            let body = state.bodies[b];
            let line = way(body.pos, state.positions[j]);
            let parting = along(way(body.vel, state.velocities[j]), line);
            &&& after.bodies == state.bodies
            &&& after.positions[j] == place
            &&& parting < 0real ==> {
                &&& along(way(body.vel, after.velocities[j]), line) == -parting
                &&& is_times(
                    way(state.velocities[j], after.velocities[j]),
                    ((-2real) * parting) / (d * d),
                    line,
                )
            }
            &&& 0real <= parting ==> after.velocities[j] == state.velocities[j]
        }),
{
    let ids = cell_ids_of(state.positions, state.inv_cell_size);
    let body = state.bodies[b];
    let strike = strike_of(state, b, j);
    let contact = state.body_distance(b);
    let inv = state.inv_mass();
    let m = body.radius.value + state.params.radius.value;
    assert(contact.value == m);
    assert(body.inv_mass.value == 0real);
    let i = inv.value;
    let mass = state.params.mass.value;
    assert(0real < i) by (nonlinear_arith)
        requires
            0real < mass,
            i == 1real / mass,
    ;
    touching_body_and_particle_bounce(strike, contact, inv, d);
    strike_leaves_immovable_body(strike, contact, inv);
    let line = way(body.pos, state.positions[j]);
    let missing = m - d;
    let parting = along(way(body.vel, state.velocities[j]), line);
    lemma_whole_share(missing, i, d);
    lemma_whole_share((-2real) * parting, i, d * d);
    assert(i + 0real == i);
    assert(d * d < m * m && 0real < d * d) by (nonlinear_arith)
        requires
            0real < d < m,
    ;
    assert(struck(state, b, j).pos == place);
    let o = state.positions[j].difference(body.pos);
    assert(o.squared_length().value == d * d);
    touching_particles_are_candidates(state, b, j as usize);
    lemma_immovable_bodies(state, ids, state.bodies.len() as int, b, j);
}

proof fn lemma_whole_share(x: real, i: real, d: real)
    requires
        0real < i,
        0real < d,
    ensures
        (x / i / d) * i == x / d,
{
    let y = x / i;
    assert((y / d) * i == (y * i) / d) by (nonlinear_arith)
        requires
            0real < d,
    ;
    assert(y * i == x) by (nonlinear_arith)
        requires
            0real < i,
            y == x / i,
    ;
}

/// A single body resolved against particles of which only `j` touches it.
proof fn lemma_single_toucher(state: State<Exact>, candidates: Seq<usize>, j: int)
    requires
        roots_exist(),
        state.bodies.len() == 1,
        state.positions.len() == state.velocities.len(),
        all_below(candidates, state.positions.len()),
        0real <= state.bodies[0].radius.value + state.params.radius.value,
        0 <= j < state.positions.len(),
        forall|i: int|
            0 <= i < state.positions.len() && i != j ==> clear_of_body(
                state.bodies[0],
                #[trigger] state.positions[i],
                state.params.radius,
            ) && clear_of_body(
                struck(state, 0, j).body,
                state.positions[i],
                state.params.radius,
            ),
    ensures
        state.body_resolved(0, candidates) == (if exists|m: int|
            0 <= m < candidates.len() && #[trigger] candidates[m] == j {
            state.strike_resolved(0, j)
        } else {
            state
        }),
    decreases candidates.len(),
{
    if candidates.len() > 0 {
        let rest = candidates.drop_last();
        let i = candidates[candidates.len() - 1] as int;
        assert(candidates.last() == i);
        assert forall|m: int| 0 <= m < rest.len() implies #[trigger] rest[m]
            < state.positions.len() by {
            assert(rest[m] == candidates[m]);
        }
        lemma_single_toucher(state, rest, j);
        let before = state.body_resolved(0, rest);
        let once = state.strike_resolved(0, j);
        if exists|m: int| 0 <= m < rest.len() && #[trigger] rest[m] == j {
            let m = choose|m: int| 0 <= m < rest.len() && #[trigger] rest[m] == j;
            assert(candidates[m] == j);
            if i == j {
                lemma_met_once(strike_of(state, 0, j), state.body_distance(0), state.inv_mass());
                assert(once.body_distance(0) == state.body_distance(0));
                assert(strike_of(once, 0, j) == struck(state, 0, j));
                assert(once.strike_resolved(0, j) =~= once);
            } else {
                assert(once.positions[i] == state.positions[i]);
                lemma_strike_missed(once, 0, i);
            }
        } else {
            assert(before == state);
            if i == j {
                assert(candidates[candidates.len() - 1] == j);
            } else {
                assert(clear_of_body(state.bodies[0], state.positions[i], state.params.radius));
                lemma_strike_missed(state, 0, i);
                if exists|m: int| 0 <= m < candidates.len() && #[trigger] candidates[m] == j {
                    let m = choose|m: int|
                        0 <= m < candidates.len() && #[trigger] candidates[m] == j;
                    assert(rest[m] == j);
                }
            }
        }
    }
}

/// A body that one particle touches, `d` from its center, while all others are clear of it both
/// where it is and at `place`, where it is pushed to: body and particle are pushed apart along the
/// line of centers to contact, in the ratio of their inverse masses; if they closed on each other,
/// their relative velocity along that line is reversed by changes in the same ratio, else they
/// keep their velocities. Nothing else changes.
pub proof fn body_and_particle_bounce(
    state: State<Exact>,
    j: int,
    d: real,
    place: Vec3<Exact>,
)
    requires
        roots_exist(),
        state.bodies.len() == 1,
        state.positions.len() == state.velocities.len(),
        state.positions.len() <= usize::MAX,
        0real < state.inv_cell_size.value,
        0real < state.params.mass.value,
        0real <= state.bodies[0].inv_mass.value,
        0 <= j < state.positions.len(),
        0real < d < state.bodies[0].radius.value + state.params.radius.value,
        1real / 1_000_000_000_000real <= d * d,
        d * d == gap_squared(state.bodies[0].pos, state.positions[j]),
        ({
            let body = state.bodies[0];
            let mobility = 1real / state.params.mass.value + body.inv_mass.value;
            let push = (body.radius.value + state.params.radius.value - d) / mobility / d;
            is_times(
                way(place, body.pos),
                push * body.inv_mass.value,
                way(body.pos, state.positions[j]),
            )
        }),
        forall|i: int|
            0 <= i < state.positions.len() && i != j ==> clear_of_body(
                state.bodies[0],
                #[trigger] state.positions[i],
                state.params.radius,
            ) && clear_of_body(
                (RigidBody { pos: place, ..state.bodies[0] }),
                state.positions[i],
                state.params.radius,
            ),
    ensures
        ({
            let after = state.body_particles_resolved();
            let (body, body2) = (state.bodies[0], after.bodies[0]);
            let (v, v2) = (state.velocities[j], after.velocities[j]);
            let line = way(body.pos, state.positions[j]);
            let parting = along(way(body.vel, v), line);
            let inv = 1real / state.params.mass.value;
            let mobility = inv + body.inv_mass.value;
            let kick = ((-2real) * parting) / mobility / (d * d);
            let push = (body.radius.value + state.params.radius.value - d) / mobility / d;
            &&& body2.pos == place
            &&& is_times(way(state.positions[j], after.positions[j]), push * inv, line)
            &&& parting < 0real ==> {
                &&& along(way(body2.vel, v2), line) == -parting
                &&& is_times(way(v, v2), kick * inv, line)
                &&& is_times(way(body2.vel, body.vel), kick * body.inv_mass.value, line)
            }
            &&& 0real <= parting ==> v2 == v && body2.vel == body.vel
            &&& forall|i: int|
                0 <= i < state.positions.len() && i != j ==> (#[trigger] after.positions[i])
                    == state.positions[i] && after.velocities[i] == state.velocities[i]
        }),
{
    let ids = cell_ids_of(state.positions, state.inv_cell_size);
    let body = state.bodies[0];
    let strike = strike_of(state, 0, j);
    let contact = state.body_distance(0);
    let inv = state.inv_mass();
    let m = body.radius.value + state.params.radius.value;
    assert(contact.value == m);
    let i = inv.value;
    let mass = state.params.mass.value;
    assert(0real < i) by (nonlinear_arith)
        requires
            0real < mass,
            i == 1real / mass,
    ;
    touching_body_and_particle_bounce(strike, contact, inv, d);
    let hit = struck(state, 0, j);
    assert(hit.body.pos == place);
    assert forall|k: int| 0 <= k < state.positions.len() && k != j implies clear_of_body(
        body,
        #[trigger] state.positions[k],
        state.params.radius,
    ) && clear_of_body(hit.body, state.positions[k], state.params.radius) by {
        assert(clear_of_body(body, state.positions[k], state.params.radius));
    }
    assert(d * d < m * m && 0real < d * d) by (nonlinear_arith)
        requires
            0real < d < m,
    ;
    let o = state.positions[j].difference(body.pos);
    assert(o.squared_length().value == d * d);
    touching_particles_are_candidates(state, 0, j as usize);
    let candidates = state.body_candidates(ids, 0);
    lemma_candidates_below(state, ids, 0);
    let at = candidates.index_of(j as usize);
    assert(candidates[at] == j);
    lemma_single_toucher(state, candidates, j);
    assert(state.bodies_resolved(ids, 0) == state);
    assert(state.bodies_resolved(ids, 1) == state.body_resolved(0, candidates));
    assert(state.body_particles_resolved() == state.strike_resolved(0, j));
}

/// A single particle and a single body do not overlap after the body phase.
pub proof fn body_phase_parts_body_and_particle(state: State<Exact>)
    requires
        roots_exist(),
        state.bodies.len() == 1,
        state.positions.len() == 1,
        state.velocities.len() == 1,
        0real < state.inv_cell_size.value,
        0real < state.params.mass.value,
        0real <= state.bodies[0].inv_mass.value,
        0real < state.bodies[0].radius.value + state.params.radius.value,
    ensures
        ({
            let after = state.body_particles_resolved();
            clear_of_body(after.bodies[0], after.positions[0], state.params.radius)
        }),
{
    let ids = cell_ids_of(state.positions, state.inv_cell_size);
    let body = state.bodies[0];
    let m = body.radius.value + state.params.radius.value;
    let e = gap_squared(body.pos, state.positions[0]);
    if clear_of_body(body, state.positions[0], state.params.radius) {
        bodies_without_contact_go_on(state);
    } else {
        let o = state.positions[0].difference(body.pos);
        assert(o.squared_length().value == e);
        touching_particles_are_candidates(state, 0, 0);
        let candidates = state.body_candidates(ids, 0);
        lemma_candidates_below(state, ids, 0);
        let at = candidates.index_of(0);
        assert(candidates[at] == 0);
        lemma_single_toucher(state, candidates, 0);
        assert(state.bodies_resolved(ids, 0) == state);
        assert(state.bodies_resolved(ids, 1) == state.body_resolved(0, candidates));
        let strike = strike_of(state, 0, 0);
        let contact = state.body_distance(0);
        let inv = state.inv_mass();
        let (mass, i) = (state.params.mass.value, inv.value);
        assert(0real < i) by (nonlinear_arith)
            requires
                0real < mass,
                i == 1real / mass,
        ;
        tiny_is_a_millionth_squared();
        strike_separates(strike, contact, inv);
        let after = strike.collided(contact, inv);
        assert(after.offset().squared_length().value == gap_squared(after.body.pos, after.pos));
    }
}

/// No particle overlaps an immovable body after the body phase, if it is the only body.
pub proof fn body_phase_clears_an_immovable_body(state: State<Exact>, j: int)
    requires
        roots_exist(),
        state.bodies.len() == 1,
        state.positions.len() == state.velocities.len(),
        state.positions.len() <= usize::MAX,
        0real < state.inv_cell_size.value,
        0real < state.params.mass.value,
        state.bodies[0].inv_mass.value == 0real,
        0real < state.bodies[0].radius.value + state.params.radius.value,
        0 <= j < state.positions.len(),
    ensures
        state.body_particles_resolved().bodies == state.bodies,
        clear_of_body(
            state.bodies[0],
            state.body_particles_resolved().positions[j],
            state.params.radius,
        ),
{
    let ids = cell_ids_of(state.positions, state.inv_cell_size);
    let body = state.bodies[0];
    let candidates = state.body_candidates(ids, 0);
    lemma_candidates_below(state, ids, 0);
    lemma_immovable_pass(state, 0, candidates, j);
    assert(state.bodies_resolved(ids, 0) == state);
    assert(state.bodies_resolved(ids, 1) == state.body_resolved(0, candidates));
    let strike = strike_of(state, 0, j);
    let contact = state.body_distance(0);
    let inv = state.inv_mass();
    if clear_of_body(body, state.positions[j], state.params.radius) {
        lemma_strike_missed(state, 0, j);
    } else {
        let o = state.positions[j].difference(body.pos);
        assert(o.squared_length().value == gap_squared(body.pos, state.positions[j]));
        touching_particles_are_candidates(state, 0, j as usize);
        let at = candidates.index_of(j as usize);
        assert(candidates[at] == j);
        let (mass, i) = (state.params.mass.value, inv.value);
        assert(0real < i) by (nonlinear_arith)
            requires
                0real < mass,
                i == 1real / mass,
        ;
        tiny_is_a_millionth_squared();
        strike_separates(strike, contact, inv);
        strike_leaves_immovable_body(strike, contact, inv);
        let after = strike.collided(contact, inv);
        assert(after.offset().squared_length().value == gap_squared(body.pos, after.pos));
    }
}

/// Two particles do not overlap after the pair phase, if there are no others.
pub proof fn pair_phase_parts_two_particles(state: State<Exact>)
    requires
        roots_exist(),
        state.positions.len() == 2,
        state.velocities.len() == 2,
        0real < state.params.radius.value,
        0real < state.inv_cell_size.value,
        (2real * state.params.radius.value) * state.inv_cell_size.value <= 1real,
    ensures
        ({
            let after = state.pairs_resolved();
            !overlap(after.positions[0], after.positions[1], state.params.radius)
        }),
{
    let (p, q) = (state.positions[0], state.positions[1]);
    let contact = 2real * state.params.radius.value;
    let e = gap_squared(p, q);
    lemma_gap_symmetric(p, q);
    if overlap(p, q, state.params.radius) {
        root_squared(e);
        let d = root(e);
        assert(0real < d < contact) by (nonlinear_arith)
            requires
                0real <= d,
                0real < d * d < contact * contact,
                0real < contact,
        ;
        lone_contacts_bounce(state, 0, 1, d);
    } else {
        particles_without_contact_go_on(state, 0);
        particles_without_contact_go_on(state, 1);
    }
}

/// A particle of positive mass has the reciprocal of its mass as inverse mass; any other particle
/// cannot be moved by bodies.
pub proof fn particles_have_their_inverse_mass(state: State<Exact>)
    ensures
        0real < state.params.mass.value ==> state.inv_mass().value * state.params.mass.value
            == 1real,
        state.params.mass.value <= 0real ==> state.inv_mass().value == 0real,
{
    let m = state.params.mass.value;
    assert(0real < m ==> (1real / m) * m == 1real) by (nonlinear_arith);
}

/// A single body is clear of the last particle that it is resolved against, even if others have
/// moved it before.
pub proof fn last_candidate_is_resolved_last(state: State<Exact>)
    requires
        roots_exist(),
        state.bodies.len() == 1,
        state.positions.len() == state.velocities.len(),
        state.positions.len() <= usize::MAX,
        0real < state.params.mass.value,
        0real <= state.bodies[0].inv_mass.value,
        0real < state.bodies[0].radius.value + state.params.radius.value,
        state.body_candidates(cell_ids_of(state.positions, state.inv_cell_size), 0).len() > 0,
    ensures
        ({
            let ids = cell_ids_of(state.positions, state.inv_cell_size);
            let j = state.body_candidates(ids, 0).last() as int;
            let after = state.body_particles_resolved();
            clear_of_body(after.bodies[0], after.positions[j], state.params.radius)
        }),
{
    let ids = cell_ids_of(state.positions, state.inv_cell_size);
    let candidates = state.body_candidates(ids, 0);
    let rest = candidates.drop_last();
    let j = candidates[candidates.len() - 1] as int;
    lemma_candidates_below(state, ids, 0);
    assert(candidates.last() == j);
    assert forall|m: int| 0 <= m < rest.len() implies #[trigger] rest[m]
        < state.positions.len() by {
        assert(rest[m] == candidates[m]);
    }
    lemma_body_frame(state, 0, rest);
    let before = state.body_resolved(0, rest);
    assert(state.bodies[0].radius == before.bodies[0].radius);
    assert(state.bodies_resolved(ids, 0) == state);
    assert(state.bodies_resolved(ids, 1) == state.body_resolved(0, candidates));
    let (p, r) = (before.positions[j], state.params.radius);
    if clear_of_body(before.bodies[0], p, r) {
        lemma_strike_missed(before, 0, j);
    } else {
        let strike = strike_of(before, 0, j);
        let contact = before.body_distance(0);
        let inv = before.inv_mass();
        let (mass, i) = (state.params.mass.value, inv.value);
        assert(0real < i) by (nonlinear_arith)
            requires
                0real < mass,
                i == 1real / mass,
        ;
        assert(strike.offset().squared_length().value == gap_squared(before.bodies[0].pos, p));
        tiny_is_a_millionth_squared();
        strike_separates(strike, contact, inv);
        let after = strike.collided(contact, inv);
        assert(after.offset().squared_length().value == gap_squared(after.body.pos, after.pos));
    }
}

} // verus!
