//! Free-moving spheres that are larger than the particles.

use vstd::prelude::*;

use crate::scalar::{Number, Scalar};
use crate::vector::Vec3;

verus! {

/// A free-moving rigid sphere that interacts with the small particles. Its motion is linear
/// only: no orientation, angular velocity, or friction.
#[derive(Clone, Copy, Debug)]
pub struct RigidBody<S> {
    pub pos: Vec3<S>,
    pub vel: Vec3<S>,
    pub radius: S,
    pub mass: S,
    /// `1 / mass`, cached. Zero means immovable (infinite mass).
    pub inv_mass: S,
}

impl<S: Number> RigidBody<S> {
    /// A body of the given mass; one whose mass is not a positive finite number is immovable.
    pub open spec fn made(pos: Vec3<S>, vel: Vec3<S>, radius: S, mass: S) -> Self {
        let inv_mass = if mass.finite() && S::whole(0).less(mass) {
            S::whole(1).quotient(mass)
        } else {
            S::whole(0)
        };
        RigidBody { pos, vel, radius, mass, inv_mass }
    }
}

impl<S: Scalar> RigidBody<S> {
    /// A body of the given mass; one whose mass is not a positive finite number is immovable.
    pub fn new(pos: Vec3<S>, vel: Vec3<S>, radius: S, mass: S) -> (r: Self)
        ensures
            r == Self::made(pos, vel, radius, mass),
    {
        let inv_mass = if mass.is_finite() && S::from_u64(0).lt(mass) {
            S::from_u64(1).div(mass)
        } else {
            S::from_u64(0)
        };
        RigidBody { pos, vel, radius, mass, inv_mass }
    }
}

} // verus!
