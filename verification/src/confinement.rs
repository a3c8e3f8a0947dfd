//! What the walls keep: laws of [`crate::walls`], stated of real numbers.

use vstd::prelude::*;

use crate::body::RigidBody;
use crate::domain::Domain;
use crate::exact::{ten_to, Exact};
use crate::fixed::Fixed;
use crate::geometry::{
    along,
    divided_along,
    divided_scaled,
    gap_squared,
    is_times,
    kicked,
    moved_along,
    normalized,
    reflection_keeps_length,
    root_is_unique,
    roots_exist,
    ten_to_positive,
    way,
};
use crate::scalar::{pi_value, sqrt_2_value, tau_value, Number};
use crate::vector::Vec3;
use crate::walls::{body_walled, tiny, walled};

verus! {

/// The least squared distance that has a direction is positive.
pub proof fn tiny_is_positive()
    ensures
        0real < tiny::<Exact>().value,
{
    ten_to_positive(12);
    let d = ten_to(12);
    assert(0real < 1real / d) by (nonlinear_arith)
        requires
            0real < d,
    ;
}

/// Reflection off the walls keeps the speed.
pub proof fn walls_keep_speed(domain: Domain<Exact>, r: Exact, p: Vec3<Exact>, v: Vec3<Exact>)
    requires
        roots_exist(),
    ensures
        walled(domain, r, p, v).1.squared_length() == v.squared_length(),
{
    match domain {
        Domain::Box { .. } => {
            let (x, y, z) = (v.x.value, v.y.value, v.z.value);
            assert((-x) * (-x) == x * x) by (nonlinear_arith);
            assert((-y) * (-y) == y * y) by (nonlinear_arith);
            assert((-z) * (-z) == z * z) by (nonlinear_arith);
        },
        Domain::Sphere { center, radius } => {
            let offset = p.difference(center);
            if tiny::<Exact>().value < offset.squared_length().value {
                tiny_is_positive();
                normalized(offset);
                reflection_keeps_length(v, offset.divided(offset.norm()));
            }
        },
    }
}

/// Whether `x` is no further outside the interval from `lo` to `hi` than the interval is long.
pub open spec fn within_one_span(x: Exact, lo: Exact, hi: Exact) -> bool {
    &&& lo.value <= hi.value
    &&& lo.value - (hi.value - lo.value) <= x.value <= hi.value + (hi.value - lo.value)
}

/// Whether a particle of radius `r` at `p` is no further outside the walls than the space inside
/// them is wide, so that one reflection brings it back. In a sphere, the space inside is no
/// smaller than the distances that have a direction.
pub open spec fn recoverable(domain: Domain<Exact>, r: Exact, p: Vec3<Exact>) -> bool {
    match domain {
        Domain::Box { .. } => {
            let (lo, hi) = domain.center_corners(r);
            &&& within_one_span(p.x, lo.x, hi.x)
            &&& within_one_span(p.y, lo.y, hi.y)
            &&& within_one_span(p.z, lo.z, hi.z)
        },
        Domain::Sphere { center, radius } => {
            let inner = radius.value - r.value;
            &&& 0real < inner
            &&& tiny::<Exact>().value <= inner * inner
            &&& p.difference(center).squared_length().value <= (3real * inner) * (3real * inner)
        },
    }
}

/// A particle that overshot the walls by no more than the space inside them is wide is inside
/// after the reflection.
pub proof fn walls_keep_inside(domain: Domain<Exact>, r: Exact, p: Vec3<Exact>, v: Vec3<Exact>)
    requires
        roots_exist(),
        recoverable(domain, r, p),
    ensures
        domain.holds_center(walled(domain, r, p, v).0, r),
{
    match domain {
        Domain::Box { .. } => {},
        Domain::Sphere { center, radius } => {
            let offset = p.difference(center);
            let inner = radius.value - r.value;
            if tiny::<Exact>().value < offset.squared_length().value && inner * inner
                < offset.squared_length().value {
                tiny_is_positive();
                normalized(offset);
                let n = offset.divided(offset.norm());
                let d = offset.norm().value;
                let a = Exact::whole(2).product(offset.norm().difference(radius.difference(r)));
                kicked(offset, n, a);
                let after = walled(domain, r, p, v).0.difference(center);
                assert(after == offset.difference(n.scaled(a)));
                lemma_mirrored_radius(d, inner, offset.squared_length().value);
            }
        },
    }
}

/// A radius `d` mirrored across `inner`.
proof fn lemma_mirrored_radius(d: real, inner: real, e: real)
    requires
        0real < d,
        0real < inner,
        d * d == e,
        inner * inner < e,
        e <= (3real * inner) * (3real * inner),
    ensures
        ({
            let a = 2real * (d - inner);
            e - 2real * (a * d) + a * a * 1real <= inner * inner
        }),
{
    let a = 2real * (d - inner);
    let m = 2real * inner - d;
    assert(inner < d) by (nonlinear_arith)
        requires
            0real < d,
            0real < inner,
            inner * inner < d * d,
    ;
    assert(d <= 3real * inner) by (nonlinear_arith)
        requires
            0real < d,
            0real < inner,
            d * d <= (3real * inner) * (3real * inner),
    ;
    assert(d * d - 2real * (a * d) + a * a * 1real == m * m) by (nonlinear_arith)
        requires
            a == 2real * (d - inner),
            m == 2real * inner - d,
    ;
    assert(m * m <= inner * inner) by (nonlinear_arith)
        requires
            -inner <= m <= inner,
    ;
}

/// Whether of two numbers none is less than the other and at least as large at once.
pub open spec fn ordered<S: Number>() -> bool {
    forall|a: S, b: S| #[trigger] a.less(b) ==> !b.at_most(a)
}

/// Real numbers and fixed-point numbers are ordered.
pub proof fn numbers_are_ordered()
    ensures
        ordered::<Exact>(),
        ordered::<Fixed>(),
{
}

/// A particle inside the walls is left alone by them, whatever the numbers round.
pub proof fn walls_leave_inside_alone<S: Number>(
    domain: Domain<S>,
    r: S,
    p: Vec3<S>,
    v: Vec3<S>,
)
    requires
        ordered::<S>(),
        domain.holds_center(p, r),
    ensures
        walled(domain, r, p, v) == (p, v),
{
}

/// The walls of a box keep or reverse each component of a velocity, whatever the numbers round.
pub proof fn box_walls_keep_or_reverse<S: Number>(
    min: Vec3<S>,
    max: Vec3<S>,
    r: S,
    p: Vec3<S>,
    v: Vec3<S>,
)
    ensures
        ({
            let after = walled(Domain::Box { min, max }, r, p, v).1;
            &&& after.x == v.x || after.x == v.x.negation()
            &&& after.y == v.y || after.y == v.y.negation()
            &&& after.z == v.z || after.z == v.z.negation()
        }),
{
}

/// A domain that is too small for a particle holds it nowhere, and leaves it no volume.
pub proof fn small_domains_hold_nothing(domain: Domain<Exact>, r: Exact, p: Vec3<Exact>)
    requires
        match domain {
            Domain::Box { min, max } => {
                ||| max.x.value - min.x.value < 2real * r.value
                ||| max.y.value - min.y.value < 2real * r.value
                ||| max.z.value - min.z.value < 2real * r.value
            },
            Domain::Sphere { radius, .. } => radius.value < r.value,
        },
    ensures
        !domain.holds_center(p, r),
        domain.center_volume(r).value == 0real,
{
    match domain {
        Domain::Box { min, max } => {
            let usable = max.difference(min).difference(
                Vec3::splatted(Exact::whole(2).product(r)),
            );
            let none = Exact::whole(0);
            let (x, y, z) = (
                usable.x.maximum(none).value,
                usable.y.maximum(none).value,
                usable.z.maximum(none).value,
            );
            assert(x * 0real == 0real && 0real * y == 0real) by (nonlinear_arith);
            assert((x * y) * 0real == 0real && 0real * z == 0real) by (nonlinear_arith);
        },
        Domain::Sphere { .. } => {
            let c = Exact::whole(4).quotient(Exact::whole(3)).product(pi_value()).value;
            assert(c * 0real == 0real && 0real * 0real == 0real) by (nonlinear_arith);
        },
    }
}

/// Whether a coordinate and its velocity have bounced between walls at `lo` and `hi`: from `x` and
/// `v` to `y` and `w`. Inside nothing happens; past a wall the coordinate goes back by as much as
/// it overshot, and the velocity is reversed.
pub open spec fn bounced(lo: real, hi: real, x: real, v: real, y: real, w: real) -> bool {
    &&& lo <= x <= hi ==> y == x && w == v
    &&& x < lo ==> y - lo == lo - x && w == -v
    &&& lo <= x && hi < x ==> hi - y == x - hi && w == -v
}

/// The walls of a box act on each coordinate by itself, `r` before the faces of the box.
pub proof fn box_walls_mirror(
    min: Vec3<Exact>,
    max: Vec3<Exact>,
    r: Exact,
    p: Vec3<Exact>,
    v: Vec3<Exact>,
)
    ensures
        ({
            let (q, w) = walled(Domain::Box { min, max }, r, p, v);
            let s = r.value;
            &&& bounced(
                min.x.value + s,
                max.x.value - s,
                p.x.value,
                v.x.value,
                q.x.value,
                w.x.value,
            )
            &&& bounced(
                min.y.value + s,
                max.y.value - s,
                p.y.value,
                v.y.value,
                q.y.value,
                w.y.value,
            )
            &&& bounced(
                min.z.value + s,
                max.z.value - s,
                p.z.value,
                v.z.value,
                q.z.value,
                w.z.value,
            )
        }),
{
}

/// A particle that is `d` from the center of a sphere and past its wall is mirrored across the
/// wall along the radius; if it moved outward, its velocity along the radius is reversed.
pub proof fn sphere_walls_mirror(
    center: Vec3<Exact>,
    radius: Exact,
    r: Exact,
    p: Vec3<Exact>,
    v: Vec3<Exact>,
    d: real,
)
    requires
        roots_exist(),
        0real < d,
        d * d == gap_squared(center, p),
        (radius.value - r.value) * (radius.value - r.value) < d * d,
        1real / 1_000_000_000_000real < d * d,
    ensures
        ({
            let (q, w) = walled(Domain::Sphere { center, radius }, r, p, v);
            let line = way(center, p);
            let inner = radius.value - r.value;
            let outward = along(v, line);
            &&& is_times(way(center, q), (2real * inner - d) / d, line)
            &&& 0real < outward ==> {
                &&& along(w, line) == -outward
                &&& is_times(way(w, v), (2real * outward) / (d * d), line)
            }
            &&& outward <= 0real ==> w == v
        }),
{
    let (q, w) = walled(Domain::Sphere { center, radius }, r, p, v);
    let line = way(center, p);
    let inner = radius.value - r.value;
    let o = p.difference(center);
    assert(o == line);
    assert(o.squared_length().value == d * d);
    root_is_unique(d * d, d);
    reveal_with_fuel(ten_to, 13);
    assert(ten_to(12) == 1_000_000_000_000real);
    let n = o.divided(Exact { value: d });
    let a = 2real * (d - inner);
    divided_scaled(o, d, a);
    let k = a / d;
    assert(is_times(way(q, p), k, line));
    assert(1real - k == (2real * inner - d) / d) by (nonlinear_arith)
        requires
            0real < d,
            k == (2real * (d - inner)) / d,
    {
        assert(k * d == 2real * (d - inner));
        assert(((2real * inner - d) / d) * d == 2real * inner - d);
        assert((1real - k) * d == 2real * inner - d);
    }
    lemma_rest(line.x.value, k);
    lemma_rest(line.y.value, k);
    lemma_rest(line.z.value, k);
    divided_along(v, o, d);
    let outward = along(v, line);
    assert((0real < outward / d) == (0real < outward)) by (nonlinear_arith)
        requires
            0real < d,
    ;
    if 0real < outward {
        let t = 2real * (outward / d);
        divided_scaled(o, d, t);
        assert(t / d == (2real * outward) / (d * d)) by (nonlinear_arith)
            requires
                0real < d,
                t == 2real * (outward / d),
        ;
        let c = (2real * outward) / (d * d);
        assert(is_times(way(w, v), c, line));
        moved_along(w, v, c, line);
        assert(c * (d * d) == 2real * outward) by (nonlinear_arith)
            requires
                0real < d,
                c == (2real * outward) / (d * d),
        {
            assert(0real < d * d);
        }
    }
}

proof fn lemma_rest(x: real, k: real)
    by (nonlinear_arith)
    ensures
        x - k * x == (1real - k) * x,
{
}

/// A particle that is not past the wall of a sphere, or so close to the center that it has no
/// direction from there, is left alone.
pub proof fn sphere_walls_leave_inside_alone(
    center: Vec3<Exact>,
    radius: Exact,
    r: Exact,
    p: Vec3<Exact>,
    v: Vec3<Exact>,
)
    requires
        gap_squared(center, p) <= (radius.value - r.value) * (radius.value - r.value)
            || gap_squared(center, p) <= 1real / 1_000_000_000_000real,
    ensures
        walled(Domain::Sphere { center, radius }, r, p, v) == (p, v),
{
    reveal_with_fuel(ten_to, 13);
    assert(ten_to(12) == 1_000_000_000_000real);
    assert(p.difference(center).squared_length().value == gap_squared(center, p));
}

/// A body meets the walls as a particle of its size would; only a sphere that is not larger than
/// the body does nothing to it. Size and mass stay.
pub proof fn bodies_meet_walls_like_particles(domain: Domain<Exact>, body: RigidBody<Exact>)
    ensures
        ({
            let after = body_walled(domain, body);
            let (pos, vel) = walled(domain, body.radius, body.pos, body.vel);
            &&& after.radius == body.radius
            &&& after.mass == body.mass
            &&& after.inv_mass == body.inv_mass
            &&& match domain {
                Domain::Box { .. } => after.pos == pos && after.vel == vel,
                Domain::Sphere { radius, .. } => {
                    &&& body.radius.value < radius.value ==> after.pos == pos && after.vel == vel
                    &&& radius.value <= body.radius.value ==> after == body
                },
            }
        }),
{
}

/// A particle lies inside a box exactly if it reaches beyond none of its faces, and inside a
/// sphere exactly if the sphere is no smaller than it and the centers are no further apart than
/// their radii differ.
pub proof fn inside_is_clear_of_walls(domain: Domain<Exact>, r: Exact, p: Vec3<Exact>)
    ensures
        domain.holds_center(p, r) <==> match domain {
            Domain::Box { min, max } => {
                &&& min.x.value <= p.x.value - r.value && p.x.value + r.value <= max.x.value
                &&& min.y.value <= p.y.value - r.value && p.y.value + r.value <= max.y.value
                &&& min.z.value <= p.z.value - r.value && p.z.value + r.value <= max.z.value
            },
            Domain::Sphere { center, radius } => {
                &&& r.value <= radius.value
                &&& gap_squared(center, p) <= (radius.value - r.value) * (radius.value - r.value)
            },
        },
{
    if let Domain::Sphere { center, .. } = domain {
        assert(p.difference(center).squared_length().value == gap_squared(center, p));
    }
}

/// The corners of a domain are those of the box, or one radius from the center of the sphere
/// along every axis; the corners for centers are `r` further inside.
pub proof fn corners_frame_the_domain(domain: Domain<Exact>, r: Exact)
    ensures
        ({
            let (lo, hi) = domain.corners();
            let (a, b) = domain.center_corners(r);
            let s = r.value;
            &&& match domain {
                Domain::Box { min, max } => lo == min && hi == max,
                Domain::Sphere { center, radius } => {
                    let e = radius.value;
                    &&& center.x.value - lo.x.value == e && hi.x.value - center.x.value == e
                    &&& center.y.value - lo.y.value == e && hi.y.value - center.y.value == e
                    &&& center.z.value - lo.z.value == e && hi.z.value - center.z.value == e
                },
            }
            &&& a.x.value - lo.x.value == s && hi.x.value - b.x.value == s
            &&& a.y.value - lo.y.value == s && hi.y.value - b.y.value == s
            &&& a.z.value - lo.z.value == s && hi.z.value - b.z.value == s
        }),
{
}

/// The space for the centers of particles of radius `r` is a box that is two radii smaller along
/// each axis, or a ball whose radius is smaller by `r`.
pub proof fn center_volume_is_that_of_a_smaller_domain(domain: Domain<Exact>, r: Exact)
    ensures
        match domain {
            Domain::Box { min, max } => {
                let x = max.x.value - min.x.value - 2real * r.value;
                let y = max.y.value - min.y.value - 2real * r.value;
                let z = max.z.value - min.z.value - 2real * r.value;
                0real <= x && 0real <= y && 0real <= z ==> domain.center_volume(r).value == (x * y)
                    * z
            },
            Domain::Sphere { radius, .. } => {
                let inner = radius.value - r.value;
                0real <= inner ==> 3real * domain.center_volume(r).value == 4real
                    * (pi_value::<Exact>().value * ((inner * inner) * inner))
            },
        },
{
    if let Domain::Sphere { radius, .. } = domain {
        let inner = radius.value - r.value;
        let k = 4real / 3real;
        let pi = pi_value::<Exact>().value;
        let b = (k * pi) * inner;
        assert((k * pi) * inner == k * (pi * inner)) by (nonlinear_arith);
        lemma_cubed(pi, inner);
        let c = k * (pi * inner);
        assert((c * inner) * inner == k * (((pi * inner) * inner) * inner)) by (nonlinear_arith)
            requires
                c == k * (pi * inner),
        ;
        let v = ((pi * inner) * inner) * inner;
        assert(3real * (k * v) == 4real * v) by (nonlinear_arith)
            requires
                k == 4real / 3real,
        ;
    }
}

proof fn lemma_cubed(p: real, x: real)
    by (nonlinear_arith)
    ensures
        ((p * x) * x) * x == p * ((x * x) * x),
{
}

/// The constants are what they are called: half a turn to nine digits, a full turn twice that,
/// and the square root of two, whose square is two to fifteen digits.
pub proof fn constants_are_close()
    ensures
        3_141_592_653real / 1_000_000_000real < pi_value::<Exact>().value < 3_141_592_654real
            / 1_000_000_000real,
        tau_value::<Exact>().value == 2real * pi_value::<Exact>().value,
        0real < sqrt_2_value::<Exact>().value,
        ({
            let s = sqrt_2_value::<Exact>().value;
            2real <= s * s <= 2real + 1real / 1_000_000_000_000_000real
        }),
{
    reveal_with_fuel(ten_to, 17);
    assert(ten_to(16) == 10_000_000_000_000_000real);
    let s = sqrt_2_value::<Exact>().value;
    assert(s == 14_142_135_623_730_951real / 10_000_000_000_000_000real);
}

} // verus!
