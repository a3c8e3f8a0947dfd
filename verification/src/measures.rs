//! What is measured of a simulation and how it is set up: laws of [`crate::vector`],
//! [`crate::report`], [`crate::start`] and of the random numbers of [`crate::setup`].

use rand_xoshiro::Xoshiro256PlusPlus;
use vstd::prelude::*;

use crate::domain::{Domain, SimulationParams};
use crate::elastic::half_value;
use crate::exact::Exact;
use crate::fixed::Fixed;
use crate::geometry::{along, is_times, root_squared, roots_exist, squared_length_sign, way};
use crate::random::{generator, Sampler};
use crate::report::reading_of;
use crate::scalar::Number;
use crate::setup::{drawable, drawn_out, filled, sited, without_drift, Filling, Phase, Request};
use crate::simulation::{energy_of, State};
use crate::start::{chosen, BoxConfig, ConfigError, SphereConfig};
use crate::vector::{total, Vec3};

verus! {

/// The sum of one vector is that vector, and sums of lists add up.
pub proof fn totals_add_up(a: Seq<Vec3<Exact>>, b: Seq<Vec3<Exact>>, v: Vec3<Exact>)
    ensures
        total(seq![v]) == v,
        way(total(a), total(a + b)) == total(b),
    decreases b.len(),
{
    reveal_with_fuel(total, 2);
    assert(seq![v].drop_last() =~= Seq::<Vec3<Exact>>::empty());
    if b.len() == 0 {
        assert(a + b =~= a);
    } else {
        totals_add_up(a, b.drop_last(), v);
        assert((a + b).drop_last() =~= a + b.drop_last());
        assert((a + b).last() == b.last());
    }
}

/// The kinetic energy of one particle is half its mass times its speed squared, and energies of
/// lists add up.
pub proof fn energies_add_up(
    mass: Exact,
    a: Seq<Vec3<Exact>>,
    b: Seq<Vec3<Exact>>,
    v: Vec3<Exact>,
)
    ensures
        2real * energy_of(mass, seq![v]).value == mass.value * along(v, v),
        energy_of(mass, a + b).value == energy_of(mass, a).value + energy_of(mass, b).value,
        energy_of(mass, Seq::<Vec3<Exact>>::empty()).value == 0real,
    decreases b.len(),
{
    half_value();
    reveal_with_fuel(energy_of, 2);
    assert(seq![v].drop_last() =~= Seq::<Vec3<Exact>>::empty());
    let (m, e) = (mass.value, along(v, v));
    assert(2real * (((1real / 2real) * m) * e) == m * e) by (nonlinear_arith);
    assert(v.squared_length().value == e);
    if b.len() == 0 {
        assert(a + b =~= a);
    } else {
        energies_add_up(mass, a, b.drop_last(), v);
        assert((a + b).drop_last() =~= a + b.drop_last());
        assert((a + b).last() == b.last());
    }
}

/// A report gives the energy of the particles, by which part of the energy at the start it has
/// changed, and the length of the momentum, which is the mass times the sum of the velocities.
pub proof fn reports_measure_the_state(
    state: State<Exact>,
    step: u64,
    start: Exact,
    momentum: Vec3<Exact>,
)
    requires
        roots_exist(),
        is_times(momentum, state.params.mass.value, total(state.velocities)),
    ensures
        ({
            let reading = reading_of(state, step, start);
            &&& reading.step == step
            &&& reading.energy == energy_of(state.params.mass, state.velocities)
            &&& 0real < start.value ==> reading.drift.value * start.value == reading.energy.value
                - start.value
            &&& start.value <= 0real ==> reading.drift.value == 0real
            &&& 0real <= reading.momentum.value
            &&& reading.momentum.value * reading.momentum.value == along(momentum, momentum)
        }),
{
    let reading = reading_of(state, step, start);
    let (e, s) = (reading.energy.value - start.value, start.value);
    assert(0real < s ==> (e / s) * s == e) by (nonlinear_arith);
    let t = total(state.velocities);
    let m = state.params.mass.value;
    lemma_commuted(t.x.value, m);
    lemma_commuted(t.y.value, m);
    lemma_commuted(t.z.value, m);
    let p = t.scaled(state.params.mass);
    assert(p == momentum);
    squared_length_sign(p);
    root_squared(p.squared_length().value);
}

proof fn lemma_commuted(x: real, y: real)
    by (nonlinear_arith)
    ensures
        x * y == y * x,
{
}

/// Taking the drift out changes no relative velocity.
pub proof fn drift_is_common(velocities: Seq<Vec3<Exact>>, i: int, j: int)
    requires
        0 <= i < velocities.len(),
        0 <= j < velocities.len(),
    ensures
        without_drift(velocities).len() == velocities.len(),
        way(without_drift(velocities)[i], without_drift(velocities)[j]) == way(
            velocities[i],
            velocities[j],
        ),
{
}

/// A configuration with a box alone has that box as its domain, and one with a sphere alone that
/// sphere; with both or neither there is none.
pub proof fn one_domain_is_chosen<S: Number>(b: BoxConfig<S>, s: SphereConfig<S>)
    ensures
        chosen(Some(b), None) matches Ok(domain) && domain == (Domain::Box {
            min: b.min,
            max: b.max,
        }),
        chosen(None, Some(s)) matches Ok(domain) && domain == (Domain::Sphere {
            center: s.center,
            radius: s.radius,
        }),
        chosen(Some(b), Some(s)) == Err::<Domain<S>, ConfigError>(ConfigError::Both),
        chosen::<S>(None, None) == Err::<Domain<S>, ConfigError>(ConfigError::Neither),
{
}

/// Numbers can be drawn from a range exactly if it is not empty.
pub proof fn ranges_with_numbers_are_drawable(low: Fixed, high: Fixed, a: Exact, b: Exact)
    ensures
        drawable(low, high) <==> low.raw < high.raw,
        drawable(a, b) <==> a.value < b.value,
{
}

/// A filling is answered with the first number that a generator draws from the range that it
/// asks for, and goes on with the generator as that left it. One that asks for no number, or may
/// draw none, is left as it is.
pub proof fn draws_come_in_turn<S: Sampler>(
    filling: Filling<S>,
    rng: Xoshiro256PlusPlus,
    tries: nat,
)
    ensures
        drawn_out(filling, rng, 0) == filling,
        !(filling.request() is Uniform) ==> drawn_out(filling, rng, tries) == filling,
        filling.request() matches Request::Uniform { low, high } ==> {
            let (value, after) = S::draw(rng, low, high);
            &&& drawable(low, high) ==> drawn_out(filling, rng, tries + 1) == drawn_out(
                filling.answered(value),
                after,
                tries,
            )
            &&& !drawable(low, high) ==> drawn_out(filling, rng, tries) == filling
        },
{
}

/// The first number that is drawn for a simulation comes from the generator of its seed.
pub proof fn seeds_give_the_first_draw<S: Sampler>(
    n: nat,
    params: SimulationParams<S>,
    speed: S,
    seed: u64,
    low: S,
    high: S,
)
    requires
        sited(n, params, speed).request() == (Request::Uniform { low, high }),
        drawable(low, high),
    ensures
        ({
            let (value, after) = S::draw(generator(seed), low, high);
            filled(n, params, speed, seed) == drawn_out(
                sited(n, params, speed).answered(value),
                after,
                (u64::MAX - 1) as nat,
            )
        }),
{
}

/// The first spacing that is tried is the cube root that a filling asks for.
pub proof fn searches_begin_at_the_cube_root<S: Sampler>(
    n: nat,
    params: SimulationParams<S>,
    speed: S,
    cube: S,
)
    requires
        Filling::begun(n, params, speed).phase == (Phase::Rooting { cube }),
    ensures
        sited(n, params, speed) == (Filling {
            phase: Phase::Laying { spacing: cube.cube_root() },
            n,
            params,
            speed,
        }).searched(u64::MAX as nat),
{
}

} // verus!
