//! What a filling depends on, and what not: laws of [`crate::setup`].

use rand_xoshiro::Xoshiro256PlusPlus;
use vstd::prelude::*;

use crate::domain::SimulationParams;
use crate::fixed::Fixed;
use crate::random::{generator, Sampler};
use crate::scalar::Number;
use crate::setup::{drawable, drawn_out, filled, sited, Filling, Phase, Request};

verus! {

/// Whether two fillings place the same particles in the same space and have come equally far;
/// their masses and velocities may differ.
pub open spec fn alike<S: Number>(a: Filling<S>, b: Filling<S>) -> bool {
    &&& a.n == b.n
    &&& a.params.radius == b.params.radius
    &&& a.params.domain == b.params.domain
    &&& match (a.phase, b.phase) {
        (
            Phase::Aiming { positions, velocities, drawn },
            Phase::Aiming { positions: p, velocities: v, drawn: d },
        ) => positions == p && drawn == d && velocities.len() == v.len(),
        (
            Phase::Ready { positions, velocities },
            Phase::Ready { positions: p, velocities: v },
        ) => positions == p && velocities.len() == v.len(),
        _ => a.phase == b.phase,
    }
}

/// Whether two fillings differ in the mass of the particles at most.
pub open spec fn same_motion<S: Number>(a: Filling<S>, b: Filling<S>) -> bool {
    alike(a, b) && a.speed == b.speed && a.phase == b.phase
}

proof fn lemma_laid_alike<S: Number>(a: Filling<S>, b: Filling<S>)
    requires
        alike(a, b),
    ensures
        alike(a.laid(), b.laid()),
        same_motion(a, b) ==> same_motion(a.laid(), b.laid()),
{
}

proof fn lemma_answered_alike<S: Number>(a: Filling<S>, b: Filling<S>, value: S)
    requires
        alike(a, b),
    ensures
        alike(a.answered(value), b.answered(value)),
        same_motion(a, b) ==> same_motion(a.answered(value), b.answered(value)),
{
}

proof fn lemma_searched_alike<S: Number>(a: Filling<S>, b: Filling<S>, tries: nat)
    requires
        alike(a, b),
    ensures
        alike(a.searched(tries), b.searched(tries)),
        same_motion(a, b) ==> same_motion(a.searched(tries), b.searched(tries)),
    decreases tries,
{
    if tries > 0 && a.phase is Laying {
        lemma_laid_alike(a, b);
        lemma_searched_alike(a.laid(), b.laid(), (tries - 1) as nat);
    }
}

proof fn lemma_drawn_alike<S: Sampler>(
    a: Filling<S>,
    b: Filling<S>,
    rng: Xoshiro256PlusPlus,
    tries: nat,
)
    requires
        alike(a, b),
    ensures
        alike(drawn_out(a, rng, tries), drawn_out(b, rng, tries)),
        same_motion(a, b) ==> same_motion(drawn_out(a, rng, tries), drawn_out(b, rng, tries)),
    decreases tries,
{
    assert(a.request() == b.request());
    if let Request::Uniform { low, high } = a.request() {
        if tries > 0 && drawable(low, high) {
            let (value, after) = S::draw(rng, low, high);
            lemma_answered_alike(a, b, value);
            lemma_drawn_alike(a.answered(value), b.answered(value), after, (tries - 1) as nat);
        }
    }
}

/// Where the particles are placed depends neither on their mass nor on their speed, and with
/// equal speeds the velocities do not depend on the mass either.
pub proof fn filling_does_not_depend_on_mass<S: Sampler>(
    n: nat,
    a: SimulationParams<S>,
    b: SimulationParams<S>,
    speed_a: S,
    speed_b: S,
    seed: u64,
)
    requires
        a.radius == b.radius,
        a.domain == b.domain,
    ensures
        alike(filled(n, a, speed_a, seed), filled(n, b, speed_b, seed)),
        filled(n, a, speed_a, seed).phase is Ready <==> filled(n, b, speed_b, seed).phase is Ready,
        filled(n, a, speed_a, seed).phase is Ready ==> filled(
            n,
            a,
            speed_a,
            seed,
        ).phase->Ready_positions == filled(n, b, speed_b, seed).phase->Ready_positions,
        speed_a == speed_b ==> filled(n, a, speed_a, seed).phase == filled(
            n,
            b,
            speed_b,
            seed,
        ).phase,
{
    let f = Filling::begun(n, a, speed_a);
    let g = Filling::begun(n, b, speed_b);
    let tries = u64::MAX as nat;
    assert(alike(f, g));
    if let Phase::Rooting { cube } = f.phase {
        let root = cube.cube_root();
        lemma_answered_alike(f, g, root);
        lemma_searched_alike(f.answered(root), g.answered(root), tries);
    }
    lemma_drawn_alike(sited(n, a, speed_a), sited(n, b, speed_b), generator(seed), tries);
}

/// Whether a filling has come as far as particles on sites.
pub open spec fn has_space<S: Number>(filling: Filling<S>) -> bool {
    filling.phase is Jitter || filling.phase is Aiming || filling.phase is Ready
}

proof fn lemma_draws_keep_space<S: Sampler>(
    filling: Filling<S>,
    rng: Xoshiro256PlusPlus,
    tries: nat,
)
    ensures
        has_space(drawn_out(filling, rng, tries)) == has_space(filling),
    decreases tries,
{
    if let Request::Uniform { low, high } = filling.request() {
        if tries > 0 && drawable(low, high) {
            let (value, after) = S::draw(rng, low, high);
            lemma_draws_keep_space(filling.answered(value), after, (tries - 1) as nat);
        }
    }
}

/// Whether the space is enough for the particles is decided by their number and radius and by
/// the domain; neither the seed nor mass and speed have a part in it.
pub proof fn space_does_not_depend_on_chance<S: Sampler>(
    n: nat,
    a: SimulationParams<S>,
    b: SimulationParams<S>,
    speed_a: S,
    speed_b: S,
    seed_a: u64,
    seed_b: u64,
)
    requires
        a.radius == b.radius,
        a.domain == b.domain,
    ensures
        has_space(filled(n, a, speed_a, seed_a)) == has_space(filled(n, b, speed_b, seed_b)),
{
    filling_does_not_depend_on_mass(n, a, b, speed_a, speed_b, seed_b);
    let tries = u64::MAX as nat;
    lemma_draws_keep_space(sited(n, a, speed_a), generator(seed_a), tries);
    lemma_draws_keep_space(sited(n, a, speed_a), generator(seed_b), tries);
}

/// How many numbers [`drawn_out`] hands to a filling.
pub open spec fn draws_made<S: Sampler>(
    filling: Filling<S>,
    rng: Xoshiro256PlusPlus,
    tries: nat,
) -> nat
    decreases tries,
{
    match filling.request() {
        Request::Uniform { low, high } => {
            if tries == 0 || !drawable(low, high) {
                0
            } else {
                let (value, after) = S::draw(rng, low, high);
                1 + draws_made(filling.answered(value), after, (tries - 1) as nat)
            }
        },
        _ => 0,
    }
}

/// Whether a filling with particles on sites asks for numbers from ranges that can be drawn from.
pub open spec fn asks_drawable<S: Number>(filling: Filling<S>) -> bool {
    &&& drawable(S::whole(1).negation(), S::whole(1))
    &&& filling.phase matches Phase::Jitter { reach, .. } ==> drawable(reach.negation(), reach)
}

proof fn lemma_draws_finish<S: Sampler>(filling: Filling<S>, rng: Xoshiro256PlusPlus, tries: nat)
    requires
        has_space(filling),
        asks_drawable(filling),
    ensures
        drawn_out(filling, rng, tries).phase is Ready || draws_made(filling, rng, tries) == tries,
    decreases tries,
{
    if let Request::Uniform { low, high } = filling.request() {
        if tries > 0 {
            let (value, after) = S::draw(rng, low, high);
            lemma_draws_finish(filling.answered(value), after, (tries - 1) as nat);
        }
    }
}

/// A filling that has come as far as particles on sites is finished, whatever the seed, unless
/// it has used up all the numbers that it may draw.
pub proof fn fillings_with_space_finish<S: Sampler>(
    n: nat,
    params: SimulationParams<S>,
    speed: S,
    seed: u64,
)
    requires
        has_space(sited(n, params, speed)),
        asks_drawable(sited(n, params, speed)),
    ensures
        filled(n, params, speed, seed).phase is Ready || draws_made(
            sited(n, params, speed),
            generator(seed),
            u64::MAX as nat,
        ) == u64::MAX,
{
    lemma_draws_finish(sited(n, params, speed), generator(seed), u64::MAX as nat);
}

proof fn lemma_search_reaches<S: Number>(filling: Filling<S>, tries: nat)
    requires
        filling.phase is Laying,
    ensures
        filling.searched(tries).phase matches Phase::Jitter { reach, .. } ==> S::whole(0).less(
            reach,
        ),
    decreases tries,
{
    if tries > 0 {
        if filling.laid().phase is Laying {
            lemma_search_reaches(filling.laid(), (tries - 1) as nat);
        } else {
            assert(filling.laid().searched((tries - 1) as nat) == filling.laid());
        }
    }
}

/// In fixed-point numbers, the space alone decides whether a filling is finished, unless it has
/// used up all the numbers that it may draw.
pub proof fn rounded_fillings_with_space_finish(
    n: nat,
    params: SimulationParams<Fixed>,
    speed: Fixed,
    seed: u64,
)
    ensures
        filled(n, params, speed, seed).phase is Ready ==> has_space(sited(n, params, speed)),
        has_space(sited(n, params, speed)) ==> filled(n, params, speed, seed).phase is Ready
            || draws_made(sited(n, params, speed), generator(seed), u64::MAX as nat) == u64::MAX,
{
    let tries = u64::MAX as nat;
    let start = sited(n, params, speed);
    lemma_draws_keep_space(start, generator(seed), tries);
    let begun = Filling::begun(n, params, speed);
    if let Phase::Rooting { cube } = begun.phase {
        lemma_search_reaches(begun.answered(cube.cube_root()), tries);
    }
    if has_space(start) {
        assert(asks_drawable(start));
        fillings_with_space_finish(n, params, speed, seed);
    }
}

} // verus!
