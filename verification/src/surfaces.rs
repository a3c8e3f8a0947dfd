//! Which surfaces of a cannon a particle meets and what each does to it: laws of
//! [`crate::cannon`] in cylindrical coordinates, stated of real numbers.

use vstd::prelude::*;

use crate::cannon::Cannon;
use crate::exact::{ten_to, Exact};
use crate::geometry::{
    along,
    divided_along,
    divided_scaled,
    is_times,
    moved_along,
    root_is_unique,
    roots_exist,
    way,
};
use crate::scalar::Number;
use crate::vector::Vec3;
use crate::walls::reflected;

verus! {

/// `w` stretched by `k`.
pub open spec fn stretched(w: Vec3<Exact>, k: real) -> Vec3<Exact> {
    Vec3 {
        x: Exact { value: k * w.x.value },
        y: Exact { value: k * w.y.value },
        z: Exact { value: k * w.z.value },
    }
}

/// Whether the axis of a cannon has length one and `p` lies `s` along it and `w` off it.
pub open spec fn located(cannon: Cannon<Exact>, p: Vec3<Exact>, s: real, w: Vec3<Exact>) -> bool {
    &&& along(cannon.axis, cannon.axis) == 1real
    &&& along(w, cannon.axis) == 0real
    &&& p.x.value - cannon.origin.x.value == s * cannon.axis.x.value + w.x.value
    &&& p.y.value - cannon.origin.y.value == s * cannon.axis.y.value + w.y.value
    &&& p.z.value - cannon.origin.z.value == s * cannon.axis.z.value + w.z.value
}

/// Whether `rho` is the length of `w`.
pub open spec fn is_length(rho: real, w: Vec3<Exact>) -> bool {
    0real <= rho && rho * rho == along(w, w)
}

proof fn lemma_commuted(x: real, y: real)
    by (nonlinear_arith)
    ensures
        x * y == y * x,
{
}

/// Where a point is located is what the cannon computes.
pub proof fn coordinates_are_those_of_the_cannon(
    cannon: Cannon<Exact>,
    p: Vec3<Exact>,
    s: real,
    w: Vec3<Exact>,
    rho: real,
)
    requires
        roots_exist(),
        located(cannon, p, s, w),
        is_length(rho, w),
    ensures
        cannon.axial(p).value == s,
        cannon.radial(p) == w,
        cannon.radial(p).norm().value == rho,
{
    let u = cannon.axis;
    let o = p.difference(cannon.origin);
    assert(is_times(way(w, o), s, u));
    moved_along(w, o, s, u);
    assert(s * 1real == s) by (nonlinear_arith);
    lemma_commuted(s, u.x.value);
    lemma_commuted(s, u.y.value);
    lemma_commuted(s, u.z.value);
    assert(cannon.radial(p) == w);
    root_is_unique(along(w, w), rho);
}

/// Moving along the axis.
proof fn lemma_moved_along_axis(
    cannon: Cannon<Exact>,
    p: Vec3<Exact>,
    s: real,
    w: Vec3<Exact>,
    t: real,
)
    requires
        located(cannon, p, s, w),
    ensures
        located(cannon, p.sum(cannon.axis.scaled(Exact { value: t })), s + t, w),
{
    let u = cannon.axis;
    lemma_shift(u.x.value, s, t);
    lemma_shift(u.y.value, s, t);
    lemma_shift(u.z.value, s, t);
}

proof fn lemma_shift(u: real, s: real, t: real)
    by (nonlinear_arith)
    ensures
        s * u + u * t == (s + t) * u,
{
}

/// Moving away from the axis, or towards it.
proof fn lemma_moved_off_axis(
    cannon: Cannon<Exact>,
    p: Vec3<Exact>,
    s: real,
    w: Vec3<Exact>,
    rho: real,
    target: real,
)
    requires
        located(cannon, p, s, w),
        is_length(rho, w),
        0real < rho,
        0real <= target,
    ensures
        ({
            let q = p.sum(
                w.divided(Exact { value: rho }).scaled(Exact { value: target - rho }),
            );
            &&& located(cannon, q, s, stretched(w, target / rho))
            &&& is_length(target, stretched(w, target / rho))
        }),
{
    divided_scaled(w, rho, target - rho);
    let k = target / rho;
    assert((target - rho) / rho == k - 1real) by (nonlinear_arith)
        requires
            0real < rho,
            k == target / rho,
    {
        assert(k * rho == target);
        assert(((target - rho) / rho) * rho == target - rho);
        assert((k - 1real) * rho == target - rho);
    }
    lemma_grown(w.x.value, k);
    lemma_grown(w.y.value, k);
    lemma_grown(w.z.value, k);
    let u = cannon.axis;
    lemma_factor(k, w.x.value, u.x.value);
    lemma_factor(k, w.y.value, u.y.value);
    lemma_factor(k, w.z.value, u.z.value);
    let (a, b, c) = (
        w.x.value * u.x.value,
        w.y.value * u.y.value,
        w.z.value * u.z.value,
    );
    assert(k * a + k * b + k * c == k * (a + b + c)) by (nonlinear_arith);
    assert(k * 0real == 0real) by (nonlinear_arith);
    lemma_square(k, w.x.value);
    lemma_square(k, w.y.value);
    lemma_square(k, w.z.value);
    let (d, e, f) = (
        w.x.value * w.x.value,
        w.y.value * w.y.value,
        w.z.value * w.z.value,
    );
    let g = k * k;
    assert(g * d + g * e + g * f == g * (d + e + f)) by (nonlinear_arith);
    assert(g * (rho * rho) == target * target) by (nonlinear_arith)
        requires
            0real < rho,
            k == target / rho,
            g == k * k,
    {
        assert(k * rho == target);
        assert((k * k) * (rho * rho) == (k * rho) * (k * rho));
    }
}

proof fn lemma_grown(x: real, k: real)
    by (nonlinear_arith)
    ensures
        x + (k - 1real) * x == k * x,
{
}

proof fn lemma_factor(k: real, x: real, y: real)
    by (nonlinear_arith)
    ensures
        (k * x) * y == k * (x * y),
{
}

proof fn lemma_square(k: real, x: real)
    by (nonlinear_arith)
    ensures
        (k * x) * (k * x) == (k * k) * (x * x),
{
}

/// Whether `w` is `v` with its component along `n` reversed.
pub open spec fn turned(v: Vec3<Exact>, w: Vec3<Exact>, n: Vec3<Exact>) -> bool {
    &&& along(w, n) == -along(v, n)
    &&& is_times(way(w, v), (2real * along(v, n)) / along(n, n), n)
}

proof fn lemma_turned_off_axis(v: Vec3<Exact>, w: Vec3<Exact>, rho: real)
    requires
        is_length(rho, w),
        0real < rho,
    ensures
        ({
            let n = w.divided(Exact { value: rho });
            &&& turned(v, reflected(v, n, v.dot_product(n)), w)
            &&& v.dot_product(n).value < 0real <==> along(v, w) < 0real
            &&& 0real < v.dot_product(n).value <==> 0real < along(v, w)
        }),
{
    divided_along(v, w, rho);
    let a = along(v, w);
    assert((0real < a / rho) == (0real < a) && (a / rho < 0real) == (a < 0real))
        by (nonlinear_arith)
        requires
            0real < rho,
    ;
    let t = 2real * (a / rho);
    divided_scaled(w, rho, t);
    let e = rho * rho;
    assert(t / rho == (2real * a) / e) by (nonlinear_arith)
        requires
            0real < rho,
            t == 2real * (a / rho),
            e == rho * rho,
    ;
    let n = w.divided(Exact { value: rho });
    let r = reflected(v, n, v.dot_product(n));
    let c = (2real * a) / e;
    assert(is_times(way(r, v), c, w));
    moved_along(r, v, c, w);
    assert(c * e == 2real * a) by (nonlinear_arith)
        requires
            0real < rho,
            e == rho * rho,
            c == (2real * a) / e,
    {
        assert(0real < rho * rho);
    }
}

proof fn lemma_turned_along_axis(v: Vec3<Exact>, u: Vec3<Exact>)
    requires
        along(u, u) == 1real,
    ensures
        turned(v, reflected(v, u, v.dot_product(u)), u),
        v.dot_product(u).value == along(v, u),
{
    let a = along(v, u);
    let r = reflected(v, u, v.dot_product(u));
    let c = 2real * a;
    assert((2real * a) / 1real == 2real * a) by (nonlinear_arith);
    lemma_commuted(u.x.value, c);
    lemma_commuted(u.y.value, c);
    lemma_commuted(u.z.value, c);
    moved_along(r, v, c, u);
    assert(c * 1real == c) by (nonlinear_arith);
}

proof fn lemma_thin()
    ensures
        Exact::decimal(1, 6).value == 1real / 1_000_000real,
{
    reveal_with_fuel(ten_to, 7);
    assert(ten_to(6) == 1_000_000real);
}

/// A cylinder of radius `at` around the axis, as long as the cannon: a particle that touches it
/// from outside or inside is put at its own radius from it on the same side, and turned if it
/// moved towards it. A particle that does not touch it is left alone.
pub proof fn cylinders_push_out(
    cannon: Cannon<Exact>,
    at: Exact,
    r: Exact,
    p: Vec3<Exact>,
    v: Vec3<Exact>,
    s: real,
    w: Vec3<Exact>,
    rho: real,
)
    requires
        roots_exist(),
        located(cannon, p, s, w),
        is_length(rho, w),
        r.value <= at.value,
    ensures
        ({
            let (q, u) = cannon.cylinder_met(at, r, p, v);
            let beside = -r.value < s < cannon.length.value + r.value && 1real / 1_000_000real
                < rho;
            let outer = at.value + r.value;
            let inner = at.value - r.value;
            &&& beside && at.value <= rho < outer ==> {
                &&& located(cannon, q, s, stretched(w, outer / rho))
                &&& is_length(outer, stretched(w, outer / rho))
                &&& along(v, w) < 0real ==> turned(v, u, w)
                &&& 0real <= along(v, w) ==> u == v
            }
            &&& beside && inner < rho < at.value ==> {
                &&& located(cannon, q, s, stretched(w, inner / rho))
                &&& is_length(inner, stretched(w, inner / rho))
                &&& 0real < along(v, w) ==> turned(v, u, w)
                &&& along(v, w) <= 0real ==> u == v
            }
            &&& !beside || outer <= rho || rho <= inner ==> (q, u) == (p, v)
        }),
{
    coordinates_are_those_of_the_cannon(cannon, p, s, w, rho);
    lemma_thin();
    if 1real / 1_000_000real < rho {
        lemma_turned_off_axis(v, w, rho);
        if at.value - r.value < rho < at.value {
            lemma_moved_off_axis(cannon, p, s, w, rho, at.value - r.value);
        }
        if at.value <= rho < at.value + r.value {
            lemma_moved_off_axis(cannon, p, s, w, rho, at.value + r.value);
        }
    }
}

/// A face across the axis acts only on particles whose distance from the axis is from the bore to
/// the outer radius, and that are closer to it than their radius. It puts them at `target` along
/// the axis, and turns those that move towards it.
pub proof fn faces_act_between_bore_and_rim(
    cannon: Cannon<Exact>,
    d: Exact,
    target: Exact,
    r: Exact,
    p: Vec3<Exact>,
    v: Vec3<Exact>,
    s: real,
    w: Vec3<Exact>,
    rho: real,
)
    requires
        roots_exist(),
        located(cannon, p, s, w),
        is_length(rho, w),
    ensures
        ({
            let (q, u) = cannon.face_met(d, target, r, p, v);
            let onto = along(v, cannon.axis);
            let touched = cannon.bore_radius.value <= rho <= cannon.lip_outer_radius.value
                && -r.value < d.value < r.value;
            &&& touched ==> {
                &&& located(cannon, q, target.value, w)
                &&& (0real <= d.value && onto < 0real) || (d.value < 0real && 0real < onto)
                    ==> turned(v, u, cannon.axis)
                &&& (0real <= d.value && 0real <= onto) || (d.value < 0real && onto <= 0real)
                    ==> u == v
            }
            &&& !touched ==> (q, u) == (p, v)
        }),
{
    coordinates_are_those_of_the_cannon(cannon, p, s, w, rho);
    lemma_moved_along_axis(cannon, p, s, w, target.value - s);
    lemma_turned_along_axis(v, cannon.axis);
}

/// A particle further from the axis than the outer radius and its own together touches nothing of
/// the cannon, wherever it is along the axis.
pub proof fn particles_beside_the_cannon_pass(
    cannon: Cannon<Exact>,
    r: Exact,
    p: Vec3<Exact>,
    v: Vec3<Exact>,
    s: real,
    w: Vec3<Exact>,
    rho: real,
)
    requires
        roots_exist(),
        located(cannon, p, s, w),
        is_length(rho, w),
        0real <= r.value,
        cannon.bore_radius.value <= cannon.lip_outer_radius.value,
        cannon.lip_outer_radius.value + r.value <= rho,
    ensures
        cannon.met(r, p, v) == (p, v),
{
    coordinates_are_those_of_the_cannon(cannon, p, s, w, rho);
}

/// A particle behind the cannon or in front of it by its own radius touches nothing of it.
pub proof fn particles_beyond_the_ends_pass(
    cannon: Cannon<Exact>,
    r: Exact,
    p: Vec3<Exact>,
    v: Vec3<Exact>,
    s: real,
    w: Vec3<Exact>,
    rho: real,
)
    requires
        roots_exist(),
        located(cannon, p, s, w),
        is_length(rho, w),
        0real <= r.value,
        0real <= cannon.length.value,
        cannon.piston_offset.value <= cannon.length.value,
        s <= -r.value || cannon.length.value + r.value <= s,
    ensures
        cannon.met(r, p, v) == (p, v),
{
    coordinates_are_those_of_the_cannon(cannon, p, s, w, rho);
}

/// A particle in the bore that is clear of its wall and of the piston flies on.
pub proof fn particles_in_the_bore_pass(
    cannon: Cannon<Exact>,
    r: Exact,
    p: Vec3<Exact>,
    v: Vec3<Exact>,
    s: real,
    w: Vec3<Exact>,
    rho: real,
)
    requires
        roots_exist(),
        located(cannon, p, s, w),
        is_length(rho, w),
        0real <= r.value,
        cannon.bore_radius.value <= cannon.lip_outer_radius.value,
        rho <= cannon.bore_radius.value - r.value,
        cannon.piston_offset.value + r.value <= s,
    ensures
        cannon.met(r, p, v) == (p, v),
{
    coordinates_are_those_of_the_cannon(cannon, p, s, w, rho);
}

/// A particle in the bore, clear of the piston, that touches the wall of the bore is put back to
/// its own radius from the wall, and turned if it moved towards the wall.
pub proof fn bore_turns_particles_back(
    cannon: Cannon<Exact>,
    r: Exact,
    p: Vec3<Exact>,
    v: Vec3<Exact>,
    s: real,
    w: Vec3<Exact>,
    rho: real,
)
    requires
        roots_exist(),
        located(cannon, p, s, w),
        is_length(rho, w),
        0real < r.value <= cannon.bore_radius.value,
        cannon.bore_radius.value <= cannon.lip_outer_radius.value,
        cannon.bore_radius.value - r.value < rho < cannon.bore_radius.value,
        1real / 1_000_000real < rho,
        -r.value < s < cannon.length.value + r.value,
        cannon.piston_offset.value + r.value <= s,
    ensures
        ({
            let (q, u) = cannon.met(r, p, v);
            let inner = cannon.bore_radius.value - r.value;
            &&& located(cannon, q, s, stretched(w, inner / rho))
            &&& is_length(inner, stretched(w, inner / rho))
            &&& 0real < along(v, w) ==> turned(v, u, w)
            &&& along(v, w) <= 0real ==> u == v
        }),
{
    cylinders_push_out(cannon, cannon.bore_radius, r, p, v, s, w, rho);
    let (q, u) = cannon.cylinder_met(cannon.bore_radius, r, p, v);
    let inner = cannon.bore_radius.value - r.value;
    coordinates_are_those_of_the_cannon(cannon, q, s, stretched(w, inner / rho), inner);
}

/// A particle that touches the outer surface from outside is put at its own radius from it, and
/// turned if it moved towards it.
pub proof fn outer_surface_turns_particles_back(
    cannon: Cannon<Exact>,
    r: Exact,
    p: Vec3<Exact>,
    v: Vec3<Exact>,
    s: real,
    w: Vec3<Exact>,
    rho: real,
)
    requires
        roots_exist(),
        located(cannon, p, s, w),
        is_length(rho, w),
        0real < r.value <= cannon.lip_outer_radius.value,
        cannon.bore_radius.value + r.value <= cannon.lip_outer_radius.value,
        cannon.lip_outer_radius.value <= rho < cannon.lip_outer_radius.value + r.value,
        1real / 1_000_000real < rho,
        -r.value < s < cannon.length.value + r.value,
    ensures
        ({
            let (q, u) = cannon.met(r, p, v);
            let outer = cannon.lip_outer_radius.value + r.value;
            &&& located(cannon, q, s, stretched(w, outer / rho))
            &&& is_length(outer, stretched(w, outer / rho))
            &&& along(v, w) < 0real ==> turned(v, u, w)
            &&& 0real <= along(v, w) ==> u == v
        }),
{
    coordinates_are_those_of_the_cannon(cannon, p, s, w, rho);
    cylinders_push_out(cannon, cannon.lip_outer_radius, r, p, v, s, w, rho);
    assert(cannon.cylinder_met(cannon.bore_radius, r, p, v) == (p, v));
    let (q, u) = cannon.cylinder_met(cannon.lip_outer_radius, r, p, v);
    let outer = cannon.lip_outer_radius.value + r.value;
    coordinates_are_those_of_the_cannon(cannon, q, s, stretched(w, outer / rho), outer);
}

/// A particle that touches the front lip, and neither the bore nor the outer surface, is put at
/// its own radius from the lip on the side where it is, and turned if it moved towards the lip.
pub proof fn lip_turns_particles_back(
    cannon: Cannon<Exact>,
    r: Exact,
    p: Vec3<Exact>,
    v: Vec3<Exact>,
    s: real,
    w: Vec3<Exact>,
    rho: real,
)
    requires
        roots_exist(),
        located(cannon, p, s, w),
        is_length(rho, w),
        0real < r.value,
        2real * r.value <= cannon.length.value,
        cannon.bore_radius.value + r.value <= rho <= cannon.lip_outer_radius.value - r.value,
        cannon.length.value - r.value < s < cannon.length.value + r.value,
    ensures
        ({
            let (q, u) = cannon.met(r, p, v);
            let front = cannon.length.value <= s;
            let onto = along(v, cannon.axis);
            &&& located(
                cannon,
                q,
                if front {
                    cannon.length.value + r.value
                } else {
                    cannon.length.value - r.value
                },
                w,
            )
            &&& (front && onto < 0real) || (!front && 0real < onto) ==> turned(v, u, cannon.axis)
            &&& (front && 0real <= onto) || (!front && onto <= 0real) ==> u == v
        }),
{
    coordinates_are_those_of_the_cannon(cannon, p, s, w, rho);
    let d = Exact { value: s - cannon.length.value };
    let front = cannon.length.value <= s;
    let target = if front {
        cannon.length.value + r.value
    } else {
        cannon.length.value - r.value
    };
    faces_act_between_bore_and_rim(cannon, d, Exact { value: target }, r, p, v, s, w, rho);
    assert(cannon.cylinder_met(cannon.bore_radius, r, p, v) == (p, v));
    assert(cannon.cylinder_met(cannon.lip_outer_radius, r, p, v) == (p, v));
    let (q, u) = cannon.lip_met(r, p, v);
    assert((q, u) == cannon.face_met(d, Exact { value: target }, r, p, v));
    coordinates_are_those_of_the_cannon(cannon, q, target, w, rho);
}

/// A particle that touches the back face, and neither the bore nor the outer surface, is put at
/// its own radius from the face on the side where it is, and turned if it moved towards the face.
pub proof fn back_turns_particles_back(
    cannon: Cannon<Exact>,
    r: Exact,
    p: Vec3<Exact>,
    v: Vec3<Exact>,
    s: real,
    w: Vec3<Exact>,
    rho: real,
)
    requires
        roots_exist(),
        located(cannon, p, s, w),
        is_length(rho, w),
        0real < r.value,
        2real * r.value <= cannon.length.value,
        cannon.bore_radius.value + r.value <= rho <= cannon.lip_outer_radius.value - r.value,
        -r.value < s < r.value,
    ensures
        ({
            let (q, u) = cannon.met(r, p, v);
            let onto = along(v, cannon.axis);
            &&& located(
                cannon,
                q,
                if 0real <= s {
                    r.value
                } else {
                    -r.value
                },
                w,
            )
            &&& (0real <= s && onto < 0real) || (s < 0real && 0real < onto) ==> turned(
                v,
                u,
                cannon.axis,
            )
            &&& (0real <= s && 0real <= onto) || (s < 0real && onto <= 0real) ==> u == v
        }),
{
    coordinates_are_those_of_the_cannon(cannon, p, s, w, rho);
    let target = if 0real <= s {
        r.value
    } else {
        -r.value
    };
    let d = Exact { value: s };
    faces_act_between_bore_and_rim(cannon, d, Exact { value: target }, r, p, v, s, w, rho);
    assert(cannon.cylinder_met(cannon.bore_radius, r, p, v) == (p, v));
    assert(cannon.cylinder_met(cannon.lip_outer_radius, r, p, v) == (p, v));
    assert(cannon.lip_met(r, p, v) == (p, v));
    let (q, u) = cannon.back_met(r, p, v);
    assert((q, u) == cannon.face_met(d, Exact { value: target }, r, p, v));
    coordinates_are_those_of_the_cannon(cannon, q, target, w, rho);
}

/// A particle in the bore, clear of its wall, that touches the piston is put in front of it, and
/// if it is slower along the axis than the piston, it leaves the piston as fast as it came, seen
/// from the piston.
pub proof fn piston_drives_particles(
    cannon: Cannon<Exact>,
    r: Exact,
    p: Vec3<Exact>,
    v: Vec3<Exact>,
    s: real,
    w: Vec3<Exact>,
    rho: real,
)
    requires
        roots_exist(),
        located(cannon, p, s, w),
        is_length(rho, w),
        0real < r.value,
        cannon.bore_radius.value <= cannon.lip_outer_radius.value,
        rho <= cannon.bore_radius.value - r.value,
        -r.value < s < cannon.piston_offset.value + r.value,
    ensures
        ({
            let (q, u) = cannon.met(r, p, v);
            let (onto, speed) = (along(v, cannon.axis), cannon.piston_vel.value);
            &&& located(cannon, q, cannon.piston_offset.value + r.value, w)
            &&& onto < speed ==> {
                &&& along(u, cannon.axis) - speed == speed - onto
                &&& is_times(way(v, u), 2real * (speed - onto), cannon.axis)
            }
            &&& speed <= onto ==> u == v
        }),
{
    coordinates_are_those_of_the_cannon(cannon, p, s, w, rho);
    assert(cannon.cylinder_met(cannon.bore_radius, r, p, v) == (p, v));
    assert(cannon.cylinder_met(cannon.lip_outer_radius, r, p, v) == (p, v));
    assert(cannon.lip_met(r, p, v) == (p, v));
    assert(cannon.back_met(r, p, v) == (p, v));
    lemma_moved_along_axis(cannon, p, s, w, cannon.piston_offset.value + r.value - s);
    let a = cannon.axis;
    let (onto, speed) = (along(v, a), cannon.piston_vel.value);
    let k = 2real * (speed - onto);
    let (q, u) = cannon.met(r, p, v);
    if onto < speed {
        lemma_commuted(a.x.value, k);
        lemma_commuted(a.y.value, k);
        lemma_commuted(a.z.value, k);
        assert(2real * speed - onto - onto == k);
        assert(is_times(way(v, u), k, a));
        moved_along(v, u, k, a);
        assert(k * 1real == k) by (nonlinear_arith);
    }
}

/// The axis that a cannon is made with is the given direction at length one.
pub proof fn axes_keep_their_direction(v: Vec3<Exact>, d: real)
    requires
        roots_exist(),
        0real < d,
        d * d == along(v, v),
    ensures
        is_times(v, d, v.unit()),
        along(v.unit(), v.unit()) == 1real,
{
    root_is_unique(along(v, v), d);
    let k = 1real / d;
    assert(0real < k && k * d == 1real) by (nonlinear_arith)
        requires
            0real < d,
            k == 1real / d,
    ;
    lemma_undone(v.x.value, k, d);
    lemma_undone(v.y.value, k, d);
    lemma_undone(v.z.value, k, d);
    lemma_scaled_square(v.x.value, k);
    lemma_scaled_square(v.y.value, k);
    lemma_scaled_square(v.z.value, k);
    let (x, y, z) = (
        v.x.value * v.x.value,
        v.y.value * v.y.value,
        v.z.value * v.z.value,
    );
    let g = k * k;
    assert(g * x + g * y + g * z == g * (x + y + z)) by (nonlinear_arith);
    assert(g * (d * d) == 1real) by (nonlinear_arith)
        requires
            k * d == 1real,
            g == k * k,
    {
        assert((k * k) * (d * d) == (k * d) * (k * d));
    }
}

proof fn lemma_undone(x: real, k: real, d: real)
    by (nonlinear_arith)
    requires
        k * d == 1real,
    ensures
        d * (x * k) == x,
{
    assert(d * (x * k) == x * (k * d));
}

proof fn lemma_scaled_square(x: real, k: real)
    by (nonlinear_arith)
    ensures
        (x * k) * (x * k) == (k * k) * (x * x),
{
}

/// A particle at the edge of the lip, with its center in the wall of the cannon closer to the
/// outer surface than its radius, is first put at its radius from that surface and then at its
/// radius from the lip, on the side where it is.
pub proof fn outer_surface_comes_before_the_lip(
    cannon: Cannon<Exact>,
    r: Exact,
    p: Vec3<Exact>,
    v: Vec3<Exact>,
    s: real,
    w: Vec3<Exact>,
    rho: real,
)
    requires
        roots_exist(),
        located(cannon, p, s, w),
        is_length(rho, w),
        0real < r.value <= cannon.bore_radius.value,
        2real * r.value <= cannon.length.value,
        cannon.bore_radius.value + 2real * r.value <= cannon.lip_outer_radius.value,
        cannon.lip_outer_radius.value - r.value < rho < cannon.lip_outer_radius.value,
        1real / 1_000_000real < rho,
        cannon.length.value - r.value < s < cannon.length.value + r.value,
    ensures
        ({
            let (q, u) = cannon.met(r, p, v);
            let inner = cannon.lip_outer_radius.value - r.value;
            located(
                cannon,
                q,
                if cannon.length.value <= s {
                    cannon.length.value + r.value
                } else {
                    cannon.length.value - r.value
                },
                stretched(w, inner / rho),
            )
        }),
{
    coordinates_are_those_of_the_cannon(cannon, p, s, w, rho);
    assert(cannon.cylinder_met(cannon.bore_radius, r, p, v) == (p, v));
    cylinders_push_out(cannon, cannon.lip_outer_radius, r, p, v, s, w, rho);
    let (p2, v2) = cannon.cylinder_met(cannon.lip_outer_radius, r, p, v);
    lemma_lip_and_on(cannon, r, p2, v2, s, w, rho, cannon.lip_outer_radius.value - r.value);
}

/// A particle at the edge of the bore, with its center in the wall of the cannon closer to the
/// bore than its radius, is first put at its radius from the bore and then at its radius from the
/// lip, on the side where it is.
pub proof fn bore_comes_before_the_lip(
    cannon: Cannon<Exact>,
    r: Exact,
    p: Vec3<Exact>,
    v: Vec3<Exact>,
    s: real,
    w: Vec3<Exact>,
    rho: real,
)
    requires
        roots_exist(),
        located(cannon, p, s, w),
        is_length(rho, w),
        0real < r.value <= cannon.bore_radius.value,
        2real * r.value <= cannon.length.value,
        cannon.bore_radius.value + 2real * r.value <= cannon.lip_outer_radius.value,
        cannon.bore_radius.value <= rho < cannon.bore_radius.value + r.value,
        1real / 1_000_000real < rho,
        cannon.length.value - r.value < s < cannon.length.value + r.value,
    ensures
        ({
            let (q, u) = cannon.met(r, p, v);
            let outer = cannon.bore_radius.value + r.value;
            located(
                cannon,
                q,
                if cannon.length.value <= s {
                    cannon.length.value + r.value
                } else {
                    cannon.length.value - r.value
                },
                stretched(w, outer / rho),
            )
        }),
{
    cylinders_push_out(cannon, cannon.bore_radius, r, p, v, s, w, rho);
    let (p2, v2) = cannon.cylinder_met(cannon.bore_radius, r, p, v);
    let outer = cannon.bore_radius.value + r.value;
    coordinates_are_those_of_the_cannon(cannon, p2, s, stretched(w, outer / rho), outer);
    assert(cannon.cylinder_met(cannon.lip_outer_radius, r, p2, v2) == (p2, v2));
    lemma_lip_and_on(cannon, r, p2, v2, s, w, rho, outer);
}

/// The lip, the back and the piston, for a particle in the wall of the cannon near the lip.
proof fn lemma_lip_and_on(
    cannon: Cannon<Exact>,
    r: Exact,
    p: Vec3<Exact>,
    v: Vec3<Exact>,
    s: real,
    w: Vec3<Exact>,
    rho: real,
    now: real,
)
    requires
        roots_exist(),
        located(cannon, p, s, stretched(w, now / rho)),
        is_length(now, stretched(w, now / rho)),
        0real < r.value,
        2real * r.value <= cannon.length.value,
        cannon.bore_radius.value <= now <= cannon.lip_outer_radius.value,
        cannon.length.value - r.value < s < cannon.length.value + r.value,
    ensures
        ({
            let (p2, v2) = cannon.lip_met(r, p, v);
            let (p3, v3) = cannon.back_met(r, p2, v2);
            located(
                cannon,
                cannon.piston_met(r, p3, v3).0,
                if cannon.length.value <= s {
                    cannon.length.value + r.value
                } else {
                    cannon.length.value - r.value
                },
                stretched(w, now / rho),
            )
        }),
{
    let off = stretched(w, now / rho);
    coordinates_are_those_of_the_cannon(cannon, p, s, off, now);
    let d = Exact { value: s - cannon.length.value };
    let target = if cannon.length.value <= s {
        cannon.length.value + r.value
    } else {
        cannon.length.value - r.value
    };
    faces_act_between_bore_and_rim(cannon, d, Exact { value: target }, r, p, v, s, off, now);
    let (q, u) = cannon.lip_met(r, p, v);
    assert((q, u) == cannon.face_met(d, Exact { value: target }, r, p, v));
    coordinates_are_those_of_the_cannon(cannon, q, target, off, now);
}

/// A particle in a wall that is no thicker than its radius, closer to the bore than its radius,
/// ends up outside: the bore pushes it outward, and then the outer surface does.
pub proof fn thin_walls_push_particles_outside(
    cannon: Cannon<Exact>,
    r: Exact,
    p: Vec3<Exact>,
    v: Vec3<Exact>,
    s: real,
    w: Vec3<Exact>,
    rho: real,
)
    requires
        roots_exist(),
        located(cannon, p, s, w),
        is_length(rho, w),
        0real < r.value <= cannon.bore_radius.value,
        cannon.bore_radius.value < cannon.lip_outer_radius.value <= cannon.bore_radius.value
            + r.value,
        cannon.bore_radius.value <= rho < cannon.bore_radius.value + r.value,
        1real / 1_000_000real < rho,
        1real / 1_000_000real < cannon.bore_radius.value,
        -r.value < s < cannon.length.value + r.value,
    ensures
        ({
            let (q, u) = cannon.met(r, p, v);
            let between = cannon.bore_radius.value + r.value;
            let outer = cannon.lip_outer_radius.value + r.value;
            let off = stretched(stretched(w, between / rho), outer / between);
            located(cannon, q, s, off) && is_length(outer, off)
        }),
{
    cylinders_push_out(cannon, cannon.bore_radius, r, p, v, s, w, rho);
    let (p2, v2) = cannon.cylinder_met(cannon.bore_radius, r, p, v);
    let between = cannon.bore_radius.value + r.value;
    let off = stretched(w, between / rho);
    cylinders_push_out(cannon, cannon.lip_outer_radius, r, p2, v2, s, off, between);
    let (p3, v3) = cannon.cylinder_met(cannon.lip_outer_radius, r, p2, v2);
    let outer = cannon.lip_outer_radius.value + r.value;
    coordinates_are_those_of_the_cannon(cannon, p3, s, stretched(off, outer / between), outer);
}

} // verus!
