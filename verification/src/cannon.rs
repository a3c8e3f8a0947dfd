//! The cannon: a thick-walled tube with a moving piston.

use vstd::prelude::*;

use crate::angle::{swing_of, Angle, Swing};
use crate::scalar::{pi, pi_value, tau, tau_value, Number, Scalar};
use crate::vector::Vec3;
use crate::walls::{reflect, reflected};

verus! {

/// Hollow cylindrical cannon with an annular muzzle lip and a kinematic piston.
///
/// Geometry is anchored at `origin` (center of the back face) and oriented along
/// the unit vector `axis`. Local axial coordinate `s` is the projection of
/// `(p - origin)` onto `axis`; local radial distance `rho` is the length of the
/// component perpendicular to `axis`. The body is a thick-walled tube:
///
/// - inner bore at `rho = bore_radius`, axial extent `s` in `[0, length]`
/// - outer surface at `rho = lip_outer_radius`, same axial extent
/// - annular back face at `s = 0`, `rho` in `[bore_radius, lip_outer_radius]`
/// - annular front lip at `s = length`, `rho` in `[bore_radius, lip_outer_radius]`
/// - piston disk inside the bore at `s = piston_offset`
///
/// The piston follows `stroke * (1 - cos(2 pi t / period)) / 2` for one cycle, then rests at
/// zero. Its peak axial velocity is `stroke * pi / period`.
#[derive(Clone, Copy, Debug)]
pub struct Cannon<S> {
    pub origin: Vec3<S>,
    pub axis: Vec3<S>,
    pub length: S,
    pub bore_radius: S,
    pub lip_outer_radius: S,
    pub piston_stroke: S,
    pub piston_period: S,
    pub elapsed: S,
    pub piston_offset: S,
    pub piston_vel: S,
}

/// Whether a velocity component `v` points towards a two-sided surface from which the particle
/// is `d` away.
pub open spec fn closing<S: Number>(d: S, v: S) -> bool {
    ||| S::whole(0).at_most(d) && v.less(S::whole(0))
    ||| d.less(S::whole(0)) && S::whole(0).less(v)
}

/// The place at distance `r_p` from a surface at `at`, on the side that `d` is on.
pub open spec fn clear_of<S: Number>(at: S, d: S, r_p: S) -> S {
    if S::whole(0).at_most(d) {
        at.sum(r_p)
    } else {
        at.difference(r_p)
    }
}

impl<S: Number> Cannon<S> {
    /// The time on the piston's clock after `dt` more.
    pub open spec fn clock_after(self, dt: S) -> S {
        self.elapsed.sum(dt)
    }

    /// Whether the piston rests after `dt` more: it has no period or has completed its cycle.
    pub open spec fn rests_after(self, dt: S) -> bool {
        ||| self.piston_period.at_most(S::whole(0))
        ||| self.piston_period.at_most(self.clock_after(dt))
    }

    /// The phase of the piston after `dt` more.
    pub open spec fn phase_after(self, dt: S) -> S {
        tau_value::<S>().product(self.clock_after(dt)).quotient(self.piston_period)
    }

    /// The cannon after `dt` more, where `swing` is the cosine and sine of the phase.
    pub open spec fn advanced(self, dt: S, swing: Swing<S>) -> Self {
        Cannon {
            elapsed: self.clock_after(dt),
            piston_offset: if self.rests_after(dt) {
                S::whole(0)
            } else {
                self.piston_stroke.product(S::whole(1).difference(swing.cos)).product(
                    S::decimal(5, 1),
                )
            },
            piston_vel: if self.rests_after(dt) {
                S::whole(0)
            } else {
                self.piston_stroke.product(pi_value()).quotient(self.piston_period).product(
                    swing.sin,
                )
            },
            ..self
        }
    }

    /// The axial coordinate of `p`.
    pub open spec fn axial(self, p: Vec3<S>) -> S {
        p.difference(self.origin).dot_product(self.axis)
    }

    /// The part of `p` perpendicular to the axis.
    pub open spec fn radial(self, p: Vec3<S>) -> Vec3<S> {
        p.difference(self.origin).difference(self.axis.scaled(self.axial(p)))
    }

    /// A particle after meeting the cylinder of radius `at` around the axis, from either side.
    pub open spec fn cylinder_met(self, at: S, r_p: S, pos: Vec3<S>, vel: Vec3<S>) -> (
        Vec3<S>,
        Vec3<S>,
    ) {
        let s = self.axial(pos);
        let rho = self.radial(pos).norm();
        let rho_hat = self.radial(pos).divided(rho);
        let d = rho.difference(at);
        let v_radial = vel.dot_product(rho_hat);
        if r_p.negation().less(s) && s.less(self.length.sum(r_p)) && S::decimal(1, 6).less(rho)
            && d.magnitude().less(r_p) {
            (
                pos.sum(rho_hat.scaled(clear_of(at, d, r_p).difference(rho))),
                if closing(d, v_radial) {
                    reflected(vel, rho_hat, v_radial)
                } else {
                    vel
                },
            )
        } else {
            (pos, vel)
        }
    }

    /// Whether `p` lies between the bore and the outer surface.
    pub open spec fn in_annulus(self, p: Vec3<S>) -> bool {
        let rho = self.radial(p).norm();
        self.bore_radius.at_most(rho) && rho.at_most(self.lip_outer_radius)
    }

    /// A particle after meeting an annular face from either side: `d` is how far in front of
    /// the face it is, and `target` the axial coordinate that clears the face.
    pub open spec fn face_met(self, d: S, target: S, r_p: S, pos: Vec3<S>, vel: Vec3<S>) -> (
        Vec3<S>,
        Vec3<S>,
    ) {
        let v_axial = vel.dot_product(self.axis);
        if self.in_annulus(pos) && d.magnitude().less(r_p) {
            (
                pos.sum(self.axis.scaled(target.difference(self.axial(pos)))),
                if closing(d, v_axial) {
                    reflected(vel, self.axis, v_axial)
                } else {
                    vel
                },
            )
        } else {
            (pos, vel)
        }
    }

    /// A particle after meeting the front lip.
    pub open spec fn lip_met(self, r_p: S, pos: Vec3<S>, vel: Vec3<S>) -> (Vec3<S>, Vec3<S>) {
        let d = self.axial(pos).difference(self.length);
        self.face_met(d, clear_of(self.length, d, r_p), r_p, pos, vel)
    }

    /// A particle after meeting the back face.
    pub open spec fn back_met(self, r_p: S, pos: Vec3<S>, vel: Vec3<S>) -> (Vec3<S>, Vec3<S>) {
        let s = self.axial(pos);
        let target = if S::whole(0).at_most(s) {
            r_p
        } else {
            r_p.negation()
        };
        self.face_met(s, target, r_p, pos, vel)
    }

    /// Whether a particle at `p` is in the bore and not clear of the piston: neither in front of
    /// it nor behind the back of the cannon.
    pub open spec fn in_piston(self, r_p: S, p: Vec3<S>) -> bool {
        let s = self.axial(p);
        &&& self.radial(p).norm().less(self.bore_radius)
        &&& r_p.negation().less(s)
        &&& s.less(self.piston_offset.sum(r_p))
    }

    /// A particle after meeting the piston, a wall that moves at the piston's velocity. Only a
    /// particle that closes on the piston changes velocity.
    pub open spec fn piston_met(self, r_p: S, pos: Vec3<S>, vel: Vec3<S>) -> (Vec3<S>, Vec3<S>) {
        let s = self.axial(pos);
        let target = self.piston_offset.sum(r_p);
        let v_axial = vel.dot_product(self.axis);
        if self.in_piston(r_p, pos) {
            (
                pos.sum(self.axis.scaled(target.difference(s))),
                if v_axial.less(self.piston_vel) {
                    let v_new = S::whole(2).product(self.piston_vel).difference(v_axial);
                    vel.sum(self.axis.scaled(v_new.difference(v_axial)))
                } else {
                    vel
                },
            )
        } else {
            (pos, vel)
        }
    }

    /// A particle of radius `r_p` after meeting, one after the other, the bore, the outer
    /// surface, the front lip, the back face and the piston.
    pub open spec fn met(self, r_p: S, pos: Vec3<S>, vel: Vec3<S>) -> (Vec3<S>, Vec3<S>) {
        let (pos, vel) = self.cylinder_met(self.bore_radius, r_p, pos, vel);
        let (pos, vel) = self.cylinder_met(self.lip_outer_radius, r_p, pos, vel);
        let (pos, vel) = self.lip_met(r_p, pos, vel);
        let (pos, vel) = self.back_met(r_p, pos, vel);
        self.piston_met(r_p, pos, vel)
    }
}

impl<S: Angle> Cannon<S> {
    /// Moves the piston on by `dt`.
    pub fn advance(&mut self, dt: S)
        ensures
            *final(self) == old(self).advanced(dt, swing_of(old(self).phase_after(dt))),
    {
        self.elapsed = self.elapsed.add(dt);
        if self.piston_period.le(S::from_u64(0)) || self.piston_period.le(self.elapsed) {
            self.piston_offset = S::from_u64(0);
            self.piston_vel = S::from_u64(0);
            return ;
        }
        let phase = tau::<S>().mul(self.elapsed).div(self.piston_period);
        self.piston_offset =
        self.piston_stroke.mul(S::from_u64(1).sub(phase.cos())).mul(S::from_decimal(5, 1));
        self.piston_vel = self.piston_stroke.mul(pi()).div(self.piston_period).mul(phase.sin());
    }
}

impl<S: Scalar> Cannon<S> {
    pub fn new(
        origin: Vec3<S>,
        axis: Vec3<S>,
        length: S,
        bore_radius: S,
        lip_outer_radius: S,
        piston_stroke: S,
        piston_period: S,
    ) -> (r: Self)
        ensures
            r == (Cannon {
                origin,
                axis: axis.unit(),
                length,
                bore_radius,
                lip_outer_radius,
                piston_stroke,
                piston_period,
                elapsed: S::whole(0),
                piston_offset: S::whole(0),
                piston_vel: S::whole(0),
            }),
    {
        Cannon {
            origin,
            axis: axis.normalize_or_zero(),
            length,
            bore_radius,
            lip_outer_radius,
            piston_stroke,
            piston_period,
            elapsed: S::from_u64(0),
            piston_offset: S::from_u64(0),
            piston_vel: S::from_u64(0),
        }
    }

    /// The axial coordinate of `p`, the part perpendicular to the axis and its length.
    fn axial_radial(&self, p: Vec3<S>) -> (r: (S, Vec3<S>, S))
        ensures
            r == (self.axial(p), self.radial(p), self.radial(p).norm()),
    {
        let to_p = p.sub(self.origin);
        let s = to_p.dot(self.axis);
        let radial_vec = to_p.sub(self.axis.scale(s));
        (s, radial_vec, radial_vec.length())
    }

    fn meet_cylinder(&self, at: S, r_p: S, pos: Vec3<S>, vel: Vec3<S>) -> (r: (Vec3<S>, Vec3<S>))
        ensures
            r == self.cylinder_met(at, r_p, pos, vel),
    {
        let (s, radial_vec, rho) = self.axial_radial(pos);
        if r_p.neg().lt(s) && s.lt(self.length.add(r_p)) && S::from_decimal(1, 6).lt(rho) {
            let rho_hat = radial_vec.div(rho);
            let d = rho.sub(at);
            if d.abs().lt(r_p) {
                let moved = pos.add(rho_hat.scale(clear(at, d, r_p).sub(rho)));
                let v_radial = vel.dot(rho_hat);
                // Reflect only if moving into the wall.
                if is_closing(d, v_radial) {
                    return (moved, reflect(vel, rho_hat, v_radial));
                }
                return (moved, vel);
            }
        }
        (pos, vel)
    }

    fn meet_face(&self, d: S, target: S, r_p: S, pos: Vec3<S>, vel: Vec3<S>) -> (r: (
        Vec3<S>,
        Vec3<S>,
    ))
        ensures
            r == self.face_met(d, target, r_p, pos, vel),
    {
        let (s, _, rho) = self.axial_radial(pos);
        if self.bore_radius.le(rho) && rho.le(self.lip_outer_radius) && d.abs().lt(r_p) {
            let moved = pos.add(self.axis.scale(target.sub(s)));
            let v_axial = vel.dot(self.axis);
            if is_closing(d, v_axial) {
                (moved, reflect(vel, self.axis, v_axial))
            } else {
                (moved, vel)
            }
        } else {
            (pos, vel)
        }
    }

    fn meet_lip(&self, r_p: S, pos: Vec3<S>, vel: Vec3<S>) -> (r: (Vec3<S>, Vec3<S>))
        ensures
            r == self.lip_met(r_p, pos, vel),
    {
        let (s, _, _) = self.axial_radial(pos);
        let d = s.sub(self.length);
        self.meet_face(d, clear(self.length, d, r_p), r_p, pos, vel)
    }

    fn meet_back(&self, r_p: S, pos: Vec3<S>, vel: Vec3<S>) -> (r: (Vec3<S>, Vec3<S>))
        ensures
            r == self.back_met(r_p, pos, vel),
    {
        let (s, _, _) = self.axial_radial(pos);
        let target = if S::from_u64(0).le(s) {
            r_p
        } else {
            r_p.neg()
        };
        self.meet_face(s, target, r_p, pos, vel)
    }

    fn meet_piston(&self, r_p: S, pos: Vec3<S>, vel: Vec3<S>) -> (r: (Vec3<S>, Vec3<S>))
        ensures
            r == self.piston_met(r_p, pos, vel),
    {
        let (s, _, rho) = self.axial_radial(pos);
        let target = self.piston_offset.add(r_p);
        if rho.lt(self.bore_radius) && r_p.neg().lt(s) && s.lt(target) {
            let moved = pos.add(self.axis.scale(target.sub(s)));
            let v_axial = vel.dot(self.axis);
            if v_axial.lt(self.piston_vel) {
                let v_new = S::from_u64(2).mul(self.piston_vel).sub(v_axial);
                (moved, vel.add(self.axis.scale(v_new.sub(v_axial))))
            } else {
                (moved, vel)
            }
        } else {
            (pos, vel)
        }
    }
}

fn is_closing<S: Scalar>(d: S, v: S) -> (r: bool)
    ensures
        r == closing(d, v),
{
    (S::from_u64(0).le(d) && v.lt(S::from_u64(0))) || (d.lt(S::from_u64(0)) && S::from_u64(0).lt(v))
}

fn clear<S: Scalar>(at: S, d: S, r_p: S) -> (r: S)
    ensures
        r == clear_of(at, d, r_p),
{
    if S::from_u64(0).le(d) {
        at.add(r_p)
    } else {
        at.sub(r_p)
    }
}

/// Resolve a single particle against the surfaces of `cannon`. Pushes the particle out of any
/// overlap and reflects the relevant velocity component (radial for the cylindrical walls,
/// axial for the annuli and piston). The piston is treated as a moving wall.
pub fn resolve_particle_against_cannon<S: Scalar>(
    pos: &mut Vec3<S>,
    vel: &mut Vec3<S>,
    r_p: S,
    c: &Cannon<S>,
)
    ensures
        (*final(pos), *final(vel)) == c.met(r_p, *old(pos), *old(vel)),
{
    let (p, v) = c.meet_cylinder(c.bore_radius, r_p, *pos, *vel);
    let (p, v) = c.meet_cylinder(c.lip_outer_radius, r_p, p, v);
    let (p, v) = c.meet_lip(r_p, p, v);
    let (p, v) = c.meet_back(r_p, p, v);
    let (p, v) = c.meet_piston(r_p, p, v);
    *pos = p;
    *vel = v;
}

} // verus!
