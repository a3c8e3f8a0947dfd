//! The region that a simulation is confined to.

use vstd::prelude::*;

use crate::scalar::{pi, pi_value, Number, Scalar};
use crate::vector::Vec3;

verus! {

/// Shape of the simulation domain. Walls are inside-facing: particles bounce off them.
#[derive(Clone, Copy, Debug)]
pub enum Domain<S> {
    Box { min: Vec3<S>, max: Vec3<S> },
    Sphere { center: Vec3<S>, radius: S },
}

/// What every particle has in common, and where the particles live.
#[derive(Clone, Copy, Debug)]
pub struct SimulationParams<S> {
    pub radius: S,
    pub mass: S,
    pub domain: Domain<S>,
}

impl<S: Number> Domain<S> {
    /// The corners of the smallest box around the domain.
    pub open spec fn corners(self) -> (Vec3<S>, Vec3<S>) {
        match self {
            Domain::Box { min, max } => (min, max),
            Domain::Sphere { center, radius } => (
                center.difference(Vec3::splatted(radius)),
                center.sum(Vec3::splatted(radius)),
            ),
        }
    }

    /// The corners of the smallest box around the places where the center of a particle of
    /// radius `r` can sit.
    pub open spec fn center_corners(self, r: S) -> (Vec3<S>, Vec3<S>) {
        match self {
            Domain::Box { min, max } => (
                min.sum(Vec3::splatted(r)),
                max.difference(Vec3::splatted(r)),
            ),
            Domain::Sphere { center, radius } => {
                let inner = Vec3::splatted(radius.difference(r));
                (center.difference(inner), center.sum(inner))
            },
        }
    }

    /// The volume of the places where the center of a particle of radius `r` can sit; zero
    /// where none can.
    pub open spec fn center_volume(self, r: S) -> S {
        match self {
            Domain::Box { min, max } => {
                let usable = max.difference(min).difference(
                    Vec3::splatted(S::whole(2).product(r)),
                );
                let none = S::whole(0);
                usable.x.maximum(none).product(usable.y.maximum(none)).product(
                    usable.z.maximum(none),
                )
            },
            Domain::Sphere { radius, .. } => {
                let inner = radius.difference(r).maximum(S::whole(0));
                S::whole(4).quotient(S::whole(3)).product(pi_value()).product(inner).product(
                    inner,
                ).product(inner)
            },
        }
    }

    /// Whether a particle of radius `r` centered at `p` lies inside the walls. No place does
    /// where the particle is larger than the domain.
    pub open spec fn holds_center(self, p: Vec3<S>, r: S) -> bool {
        match self {
            Domain::Box { .. } => {
                let (lo, hi) = self.center_corners(r);
                &&& lo.x.at_most(p.x) && p.x.at_most(hi.x)
                &&& lo.y.at_most(p.y) && p.y.at_most(hi.y)
                &&& lo.z.at_most(p.z) && p.z.at_most(hi.z)
            },
            Domain::Sphere { center, radius } => {
                let inner = radius.difference(r);
                &&& S::whole(0).at_most(inner)
                &&& p.difference(center).squared_length().at_most(inner.product(inner))
            },
        }
    }
}

impl<S: Scalar> Domain<S> {
    /// Bounding box of the domain (used to frame the camera).
    pub fn aabb(&self) -> (r: (Vec3<S>, Vec3<S>))
        ensures
            r == self.corners(),
    {
        match *self {
            Domain::Box { min, max } => (min, max),
            Domain::Sphere { center, radius } => (
                center.sub(Vec3::splat(radius)),
                center.add(Vec3::splat(radius)),
            ),
        }
    }

    /// Region in which particle centers can legally sit (accounting for particle radius).
    pub fn particle_aabb(&self, r: S) -> (res: (Vec3<S>, Vec3<S>))
        ensures
            res == self.center_corners(r),
    {
        match *self {
            Domain::Box { min, max } => (min.add(Vec3::splat(r)), max.sub(Vec3::splat(r))),
            Domain::Sphere { center, radius } => {
                let inner = Vec3::splat(radius.sub(r));
                (center.sub(inner), center.add(inner))
            },
        }
    }

    /// Volume of the region in which particle centers can legally sit.
    pub fn particle_volume(&self, r: S) -> (res: S)
        ensures
            res == self.center_volume(r),
    {
        match *self {
            Domain::Box { min, max } => {
                let usable = max.sub(min).sub(Vec3::splat(S::from_u64(2).mul(r)));
                let none = S::from_u64(0);
                usable.x.max(none).mul(usable.y.max(none)).mul(usable.z.max(none))
            },
            Domain::Sphere { center: _, radius } => {
                let inner = radius.sub(r).max(S::from_u64(0));
                S::from_u64(4).div(S::from_u64(3)).mul(pi()).mul(inner).mul(inner).mul(inner)
            },
        }
    }

    /// Whether a particle center at `p` lies inside the wall-respecting interior.
    pub fn contains_center(&self, p: Vec3<S>, r: S) -> (res: bool)
        ensures
            res == self.holds_center(p, r),
    {
        match *self {
            Domain::Box { min, max } => {
                let lo = min.add(Vec3::splat(r));
                let hi = max.sub(Vec3::splat(r));
                lo.x.le(p.x) && p.x.le(hi.x) && lo.y.le(p.y) && p.y.le(hi.y) && lo.z.le(p.z)
                    && p.z.le(hi.z)
            },
            Domain::Sphere { center, radius } => {
                let inner = radius.sub(r);
                S::from_u64(0).le(inner) && p.sub(center).length_squared().le(inner.mul(inner))
            },
        }
    }
}

} // verus!
