//! The response of two spheres that meet.

use vstd::prelude::*;

use crate::body::RigidBody;
use crate::scalar::{Number, Scalar};
use crate::vector::Vec3;
use crate::walls::tiny;

verus! {

/// Two particles: where each is and how it moves.
#[derive(Clone, Copy, Debug)]
pub struct Pair<S> {
    pub pos_i: Vec3<S>,
    pub vel_i: Vec3<S>,
    pub pos_j: Vec3<S>,
    pub vel_j: Vec3<S>,
}

impl<S: Number> Pair<S> {
    /// The offset from the first particle to the second.
    pub open spec fn offset(self) -> Vec3<S> {
        self.pos_j.difference(self.pos_i)
    }

    /// The distance of the two particles.
    pub open spec fn distance(self) -> S {
        self.offset().squared_length().square_root()
    }

    /// The direction from the first particle to the second.
    pub open spec fn normal(self) -> Vec3<S> {
        self.offset().divided(self.distance())
    }

    /// The speed at which the particles approach each other.
    pub open spec fn approach(self) -> S {
        self.vel_i.difference(self.vel_j).dot_product(self.normal())
    }

    /// Whether the particles are `min_dist` or more apart, or coincide.
    pub open spec fn apart(self, min_dist: S) -> bool {
        let dist_sq = self.offset().squared_length();
        min_dist.product(min_dist).at_most(dist_sq) || dist_sq.equal(S::whole(0))
    }

    /// The particles after an elastic collision of equal masses: approaching particles exchange
    /// their velocities along the normal, and overlapping ones are pushed apart by half the
    /// overlap each.
    pub open spec fn collided(self, min_dist: S) -> Self {
        if self.apart(min_dist) {
            self
        } else {
            let n_hat = self.normal();
            let impulse = n_hat.scaled(self.approach());
            let overlap = min_dist.difference(self.distance());
            let push = n_hat.scaled(S::decimal(5, 1).product(overlap));
            let hit = S::whole(0).less(self.approach());
            let overlapping = S::whole(0).less(overlap);
            Pair {
                pos_i: if overlapping { self.pos_i.difference(push) } else { self.pos_i },
                vel_i: if hit { self.vel_i.difference(impulse) } else { self.vel_i },
                pos_j: if overlapping { self.pos_j.sum(push) } else { self.pos_j },
                vel_j: if hit { self.vel_j.sum(impulse) } else { self.vel_j },
            }
        }
    }
}

impl<S: Scalar> Pair<S> {
    /// Lets the particles collide; `min_dist` is the distance at which they touch.
    pub fn collide(self, min_dist: S) -> (r: Self)
        ensures
            r == self.collided(min_dist),
    {
        let delta = self.pos_j.sub(self.pos_i);
        let dist_sq = delta.length_squared();
        if min_dist.mul(min_dist).le(dist_sq) || dist_sq.eq(S::from_u64(0)) {
            // An earlier pair already separated these; nothing to do.
            return self;
        }
        let dist = dist_sq.sqrt();
        let n_hat = delta.div(dist);
        let mut r = self;
        let approach = self.vel_i.sub(self.vel_j).dot(n_hat);
        if S::from_u64(0).lt(approach) {
            let impulse = n_hat.scale(approach);
            r.vel_i = self.vel_i.sub(impulse);
            r.vel_j = self.vel_j.add(impulse);
        }
        let overlap = min_dist.sub(dist);
        if S::from_u64(0).lt(overlap) {
            let push = n_hat.scale(S::from_decimal(5, 1).mul(overlap));
            r.pos_i = self.pos_i.sub(push);
            r.pos_j = self.pos_j.add(push);
        }
        r
    }
}

/// A particle and a body.
#[derive(Clone, Copy, Debug)]
pub struct Strike<S> {
    pub pos: Vec3<S>,
    pub vel: Vec3<S>,
    pub body: RigidBody<S>,
}

impl<S: Number> Strike<S> {
    /// The offset from the body to the particle.
    pub open spec fn offset(self) -> Vec3<S> {
        self.pos.difference(self.body.pos)
    }

    /// The distance of the particle from the center of the body.
    pub open spec fn distance(self) -> S {
        self.offset().squared_length().square_root()
    }

    /// The direction from the body to the particle.
    pub open spec fn normal(self) -> Vec3<S> {
        self.offset().divided(self.distance())
    }

    /// The speed at which the particle recedes from the body.
    pub open spec fn recession(self) -> S {
        self.vel.difference(self.body.vel).dot_product(self.normal())
    }

    /// The sum of the inverse masses; `inv_m_p` is that of the particle.
    pub open spec fn mobility(self, inv_m_p: S) -> S {
        inv_m_p.sum(self.body.inv_mass)
    }

    /// Whether nothing happens: the particle is `min_dist` or more away or sits in the center of
    /// the body, or neither of the two can move.
    pub open spec fn missed(self, min_dist: S, inv_m_p: S) -> bool {
        let d_sq = self.offset().squared_length();
        ||| min_dist.product(min_dist).at_most(d_sq)
        ||| d_sq.less(tiny())
        ||| self.mobility(inv_m_p).at_most(S::whole(0))
    }

    /// The elastic impulse along the normal.
    pub open spec fn impulse(self, inv_m_p: S) -> S {
        S::whole(2).negation().product(self.recession()).quotient(self.mobility(inv_m_p))
    }

    /// The particle and the body after an elastic collision: an impulse along the normal, and a
    /// push out of the overlap, each shared by inverse mass.
    pub open spec fn collided(self, min_dist: S, inv_m_p: S) -> Self {
        if self.missed(min_dist, inv_m_p) {
            self
        } else {
            let n_hat = self.normal();
            let inv_m_b = self.body.inv_mass;
            let imp = self.impulse(inv_m_p);
            let overlap = min_dist.difference(self.distance());
            let part_share = inv_m_p.quotient(self.mobility(inv_m_p));
            let body_share = inv_m_b.quotient(self.mobility(inv_m_p));
            let hit = self.recession().less(S::whole(0));
            let overlapping = S::whole(0).less(overlap);
            Strike {
                pos: if overlapping {
                    self.pos.sum(n_hat.scaled(overlap.product(part_share)))
                } else {
                    self.pos
                },
                vel: if hit {
                    self.vel.sum(n_hat.scaled(imp.product(inv_m_p)))
                } else {
                    self.vel
                },
                body: RigidBody {
                    pos: if overlapping {
                        self.body.pos.difference(n_hat.scaled(overlap.product(body_share)))
                    } else {
                        self.body.pos
                    },
                    vel: if hit {
                        self.body.vel.difference(n_hat.scaled(imp.product(inv_m_b)))
                    } else {
                        self.body.vel
                    },
                    ..self.body
                },
            }
        }
    }
}

impl<S: Scalar> Strike<S> {
    /// Lets the particle and the body collide; `min_dist` is the distance at which they touch
    /// and `inv_m_p` the inverse mass of the particle.
    pub fn collide(self, min_dist: S, inv_m_p: S) -> (r: Self)
        ensures
            r == self.collided(min_dist, inv_m_p),
    {
        let delta = self.pos.sub(self.body.pos);
        let d_sq = delta.length_squared();
        if min_dist.mul(min_dist).le(d_sq) || d_sq.lt(S::from_decimal(1, 12)) {
            return self;
        }
        let d = d_sq.sqrt();
        let n_hat = delta.div(d);
        let v_rel_n = self.vel.sub(self.body.vel).dot(n_hat);
        let inv_m_b = self.body.inv_mass;
        let denom = inv_m_p.add(inv_m_b);
        if denom.le(S::from_u64(0)) {
            return self;  // both static; nothing to do

        }
        let mut pos = self.pos;
        let mut vel = self.vel;
        let mut body_pos = self.body.pos;
        let mut body_vel = self.body.vel;
        if v_rel_n.lt(S::from_u64(0)) {
            // Elastic impulse along n_hat. Pushes particle outward, body inward (each scaled by
            // its inverse mass).
            let imp = S::from_u64(2).neg().mul(v_rel_n).div(denom);
            vel = vel.add(n_hat.scale(imp.mul(inv_m_p)));
            body_vel = body_vel.sub(n_hat.scale(imp.mul(inv_m_b)));
        }
        // Inverse-mass-weighted positional de-overlap.
        let overlap = min_dist.sub(d);
        if S::from_u64(0).lt(overlap) {
            let part_share = inv_m_p.div(denom);
            let body_share = inv_m_b.div(denom);
            pos = pos.add(n_hat.scale(overlap.mul(part_share)));
            body_pos = body_pos.sub(n_hat.scale(overlap.mul(body_share)));
        }
        let body = RigidBody {
            pos: body_pos,
            vel: body_vel,
            radius: self.body.radius,
            mass: self.body.mass,
            inv_mass: self.body.inv_mass,
        };
        Strike { pos, vel, body }
    }
}

} // verus!
