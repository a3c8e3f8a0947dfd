//! What a run reports of a simulation.

use vstd::prelude::*;

use crate::scalar::{Number, Scalar};
use crate::simulation::{energy_of, Simulation, State};
use crate::vector::total;

verus! {

/// One line of a report.
#[derive(Clone, Copy, Debug)]
pub struct Reading<S> {
    /// The number of steps made.
    pub step: u64,
    /// The kinetic energy of the particles.
    pub energy: S,
    /// By how much the energy differs from that at the start, as a fraction of it.
    pub drift: S,
    /// The length of the total momentum.
    pub momentum: S,
}

/// The relative change from `start` to `now`; zero where there is nothing to compare with.
pub open spec fn relative_change<S: Number>(now: S, start: S) -> S {
    if S::whole(0).less(start) {
        now.difference(start).quotient(start)
    } else {
        S::whole(0)
    }
}

/// What is reported of a state after `step` steps.
pub open spec fn reading_of<S: Number>(state: State<S>, step: u64, start: S) -> Reading<S> {
    let energy = energy_of(state.params.mass, state.velocities);
    Reading {
        step,
        energy,
        drift: relative_change(energy, start),
        momentum: total(state.velocities).scaled(state.params.mass).norm(),
    }
}

/// Whether a report is due after step number `step`, counted from zero: after every
/// `report_every` steps, or never where that is zero.
pub fn report_due(step: u64, report_every: u64) -> (r: bool)
    requires
        step < u64::MAX,
    ensures
        r == (report_every > 0 && (step + 1) % report_every as int == 0),
{
    report_every > 0 && (step + 1) % report_every == 0
}

/// Reads off a simulation after `step` steps; `start` is the energy at the start.
pub fn read<S: Scalar>(sim: &Simulation<S>, step: u64, start: S) -> (r: Reading<S>)
    ensures
        r == reading_of(sim.state(), step, start),
{
    let energy = sim.kinetic_energy();
    let drift = if S::from_u64(0).lt(start) {
        energy.sub(start).div(start)
    } else {
        S::from_u64(0)
    };
    Reading { step, energy, drift, momentum: sim.momentum().length() }
}

} // verus!
