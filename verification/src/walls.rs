//! Reflection off the walls of the domain.

use vstd::prelude::*;

use crate::body::RigidBody;
use crate::domain::Domain;
use crate::scalar::{Number, Scalar};
use crate::vector::Vec3;

verus! {

/// The squared distances below which a direction is not taken from an offset.
pub open spec fn tiny<S: Number>() -> S {
    S::decimal(1, 12)
}

/// One coordinate `p` and its velocity `v` after reflection off the walls at `lo` and `hi`:
/// the coordinate is mirrored by as much as it overshot, and the velocity changes sign.
pub open spec fn mirrored<S: Number>(p: S, v: S, lo: S, hi: S) -> (S, S) {
    if p.less(lo) {
        (lo.sum(lo.difference(p)), v.negation())
    } else if hi.less(p) {
        (hi.difference(p.difference(hi)), v.negation())
    } else {
        (p, v)
    }
}

/// A position and velocity after reflection off the walls of the box from `lo` to `hi`.
pub open spec fn box_mirrored<S: Number>(
    p: Vec3<S>,
    v: Vec3<S>,
    lo: Vec3<S>,
    hi: Vec3<S>,
) -> (Vec3<S>, Vec3<S>) {
    let x = mirrored(p.x, v.x, lo.x, hi.x);
    let y = mirrored(p.y, v.y, lo.y, hi.y);
    let z = mirrored(p.z, v.z, lo.z, hi.z);
    (Vec3 { x: x.0, y: y.0, z: z.0 }, Vec3 { x: x.1, y: y.1, z: z.1 })
}

/// `v` with its component along `n` reversed.
pub open spec fn reflected<S: Number>(v: Vec3<S>, n: Vec3<S>, along: S) -> Vec3<S> {
    v.difference(n.scaled(S::whole(2).product(along)))
}

/// A position and velocity after reflection off the inside of the sphere of radius `inner`
/// about `center`: the position is mirrored across the wall along the radius, and an outward
/// velocity is turned inward.
pub open spec fn sphere_mirrored<S: Number>(
    p: Vec3<S>,
    v: Vec3<S>,
    center: Vec3<S>,
    inner: S,
) -> (Vec3<S>, Vec3<S>) {
    let offset = p.difference(center);
    let d_sq = offset.squared_length();
    if inner.product(inner).less(d_sq) && tiny::<S>().less(d_sq) {
        let d = d_sq.square_root();
        let n_hat = offset.divided(d);
        let v_rad = v.dot_product(n_hat);
        (
            p.difference(n_hat.scaled(S::whole(2).product(d.difference(inner)))),
            if S::whole(0).less(v_rad) {
                reflected(v, n_hat, v_rad)
            } else {
                v
            },
        )
    } else {
        (p, v)
    }
}

/// A particle of radius `r` after meeting the walls of `domain`.
pub open spec fn walled<S: Number>(domain: Domain<S>, r: S, p: Vec3<S>, v: Vec3<S>) -> (
    Vec3<S>,
    Vec3<S>,
) {
    match domain {
        Domain::Box { min, max } => box_mirrored(
            p,
            v,
            min.sum(Vec3::splatted(r)),
            max.difference(Vec3::splatted(r)),
        ),
        Domain::Sphere { center, radius } => sphere_mirrored(p, v, center, radius.difference(r)),
    }
}

/// A body after meeting the walls of `domain`. A sphere too small for the body has no walls
/// for it.
pub open spec fn body_walled<S: Number>(domain: Domain<S>, body: RigidBody<S>) -> RigidBody<S> {
    if domain is Sphere && domain->Sphere_radius.difference(body.radius).at_most(S::whole(0)) {
        body
    } else {
        let (pos, vel) = walled(domain, body.radius, body.pos, body.vel);
        RigidBody { pos, vel, ..body }
    }
}

fn mirror<S: Scalar>(p: S, v: S, lo: S, hi: S) -> (r: (S, S))
    ensures
        r == mirrored(p, v, lo, hi),
{
    if p.lt(lo) {
        (lo.add(lo.sub(p)), v.neg())
    } else if hi.lt(p) {
        (hi.sub(p.sub(hi)), v.neg())
    } else {
        (p, v)
    }
}

fn mirror_in_box<S: Scalar>(p: Vec3<S>, v: Vec3<S>, lo: Vec3<S>, hi: Vec3<S>) -> (r: (
    Vec3<S>,
    Vec3<S>,
))
    ensures
        r == box_mirrored(p, v, lo, hi),
{
    let x = mirror(p.x, v.x, lo.x, hi.x);
    let y = mirror(p.y, v.y, lo.y, hi.y);
    let z = mirror(p.z, v.z, lo.z, hi.z);
    (Vec3::new(x.0, y.0, z.0), Vec3::new(x.1, y.1, z.1))
}

/// Reverses the component `along` of `v` in the direction `n`.
pub fn reflect<S: Scalar>(v: Vec3<S>, n: Vec3<S>, along: S) -> (r: Vec3<S>)
    ensures
        r == reflected(v, n, along),
{
    v.sub(n.scale(S::from_u64(2).mul(along)))
}

fn mirror_in_sphere<S: Scalar>(p: Vec3<S>, v: Vec3<S>, center: Vec3<S>, inner: S) -> (r: (
    Vec3<S>,
    Vec3<S>,
))
    ensures
        r == sphere_mirrored(p, v, center, inner),
{
    let offset = p.sub(center);
    let d_sq = offset.length_squared();
    if inner.mul(inner).lt(d_sq) && S::from_decimal(1, 12).lt(d_sq) {
        let d = d_sq.sqrt();
        let n_hat = offset.div(d);
        // Mirror position across the wall so the particle re-enters by the amount it overshot.
        let pos = p.sub(n_hat.scale(S::from_u64(2).mul(d.sub(inner))));
        // Reflect the outward-going component of velocity.
        let v_rad = v.dot(n_hat);
        if S::from_u64(0).lt(v_rad) {
            (pos, reflect(v, n_hat, v_rad))
        } else {
            (pos, v)
        }
    } else {
        (p, v)
    }
}

/// Reflects a particle of radius `r` off the walls of `domain`.
pub fn resolve_wall<S: Scalar>(domain: &Domain<S>, r: S, p: Vec3<S>, v: Vec3<S>) -> (res: (
    Vec3<S>,
    Vec3<S>,
))
    ensures
        res == walled(*domain, r, p, v),
{
    match *domain {
        Domain::Box { min, max } => mirror_in_box(
            p,
            v,
            min.add(Vec3::splat(r)),
            max.sub(Vec3::splat(r)),
        ),
        Domain::Sphere { center, radius } => mirror_in_sphere(p, v, center, radius.sub(r)),
    }
}

/// Reflects a body off the walls of `domain`.
pub fn resolve_body_wall<S: Scalar>(domain: &Domain<S>, body: RigidBody<S>) -> (res: RigidBody<S>)
    ensures
        res == body_walled(*domain, body),
{
    if let Domain::Sphere { center: _, radius } = *domain {
        if radius.sub(body.radius).le(S::from_u64(0)) {
            return body;
        }
    }
    let (pos, vel) = resolve_wall(domain, body.radius, body.pos, body.vel);
    RigidBody { pos, vel, radius: body.radius, mass: body.mass, inv_mass: body.inv_mass }
}

} // verus!
