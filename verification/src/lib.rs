//! Elastic collisions of many small spheres in a box or a sphere, with larger bodies and cannons
//! among them.
//!
//! A [`Simulation`] moves its particles, lets them bounce off the walls of their [`Domain`], off
//! [`RigidBody`] spheres, off the surfaces of [`Cannon`]s and off each other. Pairs that touch
//! are found with a spatial hash grid, [`grid::HashGrid`], and resolved in ascending order.
//!
//! Everything is written over a number type, [`Scalar`], whose operations may round. Contracts
//! say what is computed, operation by operation; laws that rounding would spoil, such as the
//! conservation of energy, are stated of the real numbers, [`Exact`].
//!
//! - [`scalar`], [`angle`], [`fixed`], [`exact`], [`vector`]: numbers and vectors.
//! - [`domain`], [`walls`], [`body`], [`cannon`], [`collision`]: what particles meet.
//! - [`grid`], [`contacts`]: which particles meet each other.
//! - [`simulation`], [`report`]: the time step and what is measured.
//! - [`lattice`], [`random`], [`setup`], [`start`]: how a simulation is filled and started.
//! - [`camera`], [`viewer`]: how it is looked at.
//! - [`geometry`], [`neighborhood`], [`coverage`], [`fidelity`], [`rounding`]: laws of numbers,
//!   vectors and cells.
//! - [`response`], [`elastic`], [`confinement`], [`surfaces`], [`ballistics`]: laws of what
//!   particles meet.
//! - [`encounters`], [`passage`], [`conservation`], [`measures`]: laws of the time step and of
//!   what is measured.
//! - [`packing`], [`arrangement`], [`reproducibility`]: laws of the start.
//! - [`display`]: laws of the view.

pub mod angle;
pub mod arrangement;
pub mod ballistics;
pub mod body;
pub mod camera;
pub mod cannon;
pub mod collision;
pub mod confinement;
pub mod conservation;
pub mod contacts;
pub mod coverage;
pub mod display;
pub mod domain;
pub mod encounters;
pub mod elastic;
pub mod exact;
pub mod fidelity;
pub mod fixed;
pub mod geometry;
pub mod grid;
pub mod lattice;
pub mod measures;
pub mod neighborhood;
pub mod packing;
pub mod passage;
pub mod random;
pub mod report;
pub mod response;
pub mod reproducibility;
pub mod rounding;
pub mod scalar;
pub mod setup;
pub mod simulation;
pub mod start;
pub mod surfaces;
pub mod vector;
pub mod viewer;
pub mod walls;

pub use angle::{Angle, Swing};
pub use body::RigidBody;
pub use camera::OrbitCamera;
pub use cannon::Cannon;
pub use domain::{Domain, SimulationParams};
pub use exact::Exact;
pub use fixed::Fixed;
pub use grid::HashGrid;
pub use random::Sampler;
pub use scalar::{Number, Scalar};
pub use setup::init_random_uniform_speed;
pub use simulation::{Simulation, State};
pub use vector::Vec3;
