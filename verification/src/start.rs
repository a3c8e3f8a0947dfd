//! How a configured simulation is started.

use vstd::prelude::*;

use crate::domain::{Domain, SimulationParams};
use crate::random::Sampler;
use crate::scalar::{Number, Scalar};
use crate::setup::{filled, init_random_uniform_speed, Phase};
use crate::simulation::{Simulation, State};
use crate::vector::Vec3;

verus! {

/// The walls of a box, as configured.
#[derive(Clone, Copy, Debug)]
pub struct BoxConfig<S> {
    pub min: Vec3<S>,
    pub max: Vec3<S>,
}

/// The wall of a sphere, as configured.
#[derive(Clone, Copy, Debug)]
pub struct SphereConfig<S> {
    pub center: Vec3<S>,
    pub radius: S,
}

/// Why a configuration has no domain.
#[derive(Clone, Copy, Debug, PartialEq, Eq, Structural)]
pub enum ConfigError {
    /// Both a box and a sphere are given.
    Both,
    /// Neither a box nor a sphere is given.
    Neither,
}

impl ConfigError {
    /// The error in words.
    pub open spec fn words(self) -> Seq<char> {
        match self {
            ConfigError::Both => "config must specify either [box] or [sphere], not both"@,
            ConfigError::Neither => "config must specify [box] or [sphere]"@,
        }
    }

    /// The error in words.
    pub fn message(&self) -> (r: &'static str)
        ensures
            r@ == self.words(),
    {
        match self {
            ConfigError::Both => "config must specify either [box] or [sphere], not both",
            ConfigError::Neither => "config must specify [box] or [sphere]",
        }
    }
}

/// The domain of a configuration, which gives either a box or a sphere.
pub open spec fn chosen<S: Number>(
    box_: Option<BoxConfig<S>>,
    sphere: Option<SphereConfig<S>>,
) -> Result<Domain<S>, ConfigError> {
    match (box_, sphere) {
        (Some(b), None) => Ok(Domain::Box { min: b.min, max: b.max }),
        (None, Some(s)) => Ok(Domain::Sphere { center: s.center, radius: s.radius }),
        (Some(_), Some(_)) => Err(ConfigError::Both),
        (None, None) => Err(ConfigError::Neither),
    }
}

/// The domain of a configuration, which gives either a box or a sphere.
pub fn choose_domain<S: Scalar>(
    box_: Option<BoxConfig<S>>,
    sphere: Option<SphereConfig<S>>,
) -> (r: Result<Domain<S>, ConfigError>)
    ensures
        r == chosen(box_, sphere),
{
    match (box_, sphere) {
        (Some(b), None) => Ok(Domain::Box { min: b.min, max: b.max }),
        (None, Some(s)) => Ok(Domain::Sphere { center: s.center, radius: s.radius }),
        (Some(_), Some(_)) => Err(ConfigError::Both),
        (None, None) => Err(ConfigError::Neither),
    }
}

/// Why a simulation cannot be started.
#[derive(Clone, Copy, Debug, PartialEq, Eq, Structural)]
pub enum StartError {
    /// The configuration has no domain.
    Config(ConfigError),
    /// The particles cannot be placed without overlap.
    NoSpace,
}

/// A simulation of `count` particles placed at random in the configured domain and sent off at
/// `speed`, with no bodies and no cannons.
pub fn start<S: Sampler>(
    box_: Option<BoxConfig<S>>,
    sphere: Option<SphereConfig<S>>,
    count: usize,
    radius: S,
    mass: S,
    speed: S,
    seed: u64,
) -> (r: Result<Simulation<S>, StartError>)
    ensures
        match chosen(box_, sphere) {
            Err(e) => r matches Err(f) && f == StartError::Config(e),
            Ok(domain) => {
                let params = SimulationParams { radius, mass, domain };
                match filled(count as nat, params, speed, seed).phase {
                    Phase::Ready { positions, velocities } => {
                        &&& r matches Ok(sim)
                        &&& sim.state() == (State {
                            params,
                            positions,
                            velocities,
                            bodies: Seq::empty(),
                            cannons: Seq::empty(),
                            inv_cell_size: S::whole(1).quotient(S::whole(2).product(radius)),
                        })
                        &&& sim.state() == State::fresh(params, positions, velocities)
                        &&& positions.len() == count
                        &&& velocities.len() == count
                    },
                    _ => r matches Err(f) && f == StartError::NoSpace,
                }
            },
        },
{
    let domain = match choose_domain(box_, sphere) {
        Ok(domain) => domain,
        Err(e) => {
            return Err(StartError::Config(e));
        },
    };
    let params = SimulationParams { radius, mass, domain };
    match init_random_uniform_speed(count, params, speed, seed) {
        Some((positions, velocities)) => Ok(Simulation::new(params, positions, velocities)),
        None => Err(StartError::NoSpace),
    }
}

} // verus!
