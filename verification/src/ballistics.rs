//! What a cannon does to particles: laws of [`crate::cannon`], stated of real numbers.

use vstd::prelude::*;

use crate::angle::Swing;
use crate::cannon::{clear_of, Cannon};
use crate::elastic::half_value;
use crate::exact::{root, ten_to, Exact};
use crate::geometry::{
    kicked,
    normalized,
    quotient_times,
    reflection_keeps_length,
    root_squared,
    roots_exist,
    scaled_length,
    squared_length_sign,
    ten_to_positive,
    times_reciprocal,
};
use crate::scalar::{pi_value, Number};
use crate::vector::Vec3;

verus! {

/// Whether the axis has length one.
pub open spec fn straight(cannon: Cannon<Exact>) -> bool {
    cannon.axis.squared_length().value == 1real
}

/// A vector other than zero that is normalized has length one.
pub proof fn unit_has_length_one(v: Vec3<Exact>)
    requires
        roots_exist(),
        v.squared_length().value != 0real,
    ensures
        v.unit().squared_length().value == 1real,
{
    normalized(v);
    let d = v.norm().value;
    let s = 1real / d;
    quotient_times(1real, d);
    assert(0real < s) by (nonlinear_arith)
        requires
            s * d == 1real,
            0real < d,
    ;
    times_reciprocal(v.x.value, d);
    times_reciprocal(v.y.value, d);
    times_reciprocal(v.z.value, d);
    assert(v.unit() == v.divided(v.norm()));
}

/// Once the piston rests, it is at zero and stays there.
pub proof fn resting_piston_stays_at_rest(
    cannon: Cannon<Exact>,
    dt: Exact,
    swing: Swing<Exact>,
    later: Exact,
)
    requires
        cannon.rests_after(dt),
        0real <= later.value,
    ensures
        cannon.advanced(dt, swing).piston_offset.value == 0real,
        cannon.advanced(dt, swing).piston_vel.value == 0real,
        cannon.advanced(dt, swing).rests_after(later),
{
}

/// The piston never leaves its stroke.
pub proof fn piston_stays_in_stroke(cannon: Cannon<Exact>, dt: Exact, swing: Swing<Exact>)
    requires
        0real <= cannon.piston_stroke.value,
        -1real <= swing.cos.value <= 1real,
    ensures
        0real <= cannon.advanced(dt, swing).piston_offset.value <= cannon.piston_stroke.value,
{
    half_value();
    let (s, c) = (cannon.piston_stroke.value, swing.cos.value);
    assert(0real <= (s * (1real - c)) * (1real / 2real) <= s) by (nonlinear_arith)
        requires
            0real <= s,
            -1real <= c <= 1real,
    {
        assert(0real <= s * (1real - c));
        assert(s * (1real - c) <= s * 2real);
    }
}

/// The piston is never faster than `stroke * pi / period`, and as fast as that where the sine of
/// its phase is one.
pub proof fn piston_peak_velocity(cannon: Cannon<Exact>, dt: Exact, swing: Swing<Exact>)
    requires
        0real <= cannon.piston_stroke.value,
        !cannon.rests_after(dt),
        -1real <= swing.sin.value <= 1real,
    ensures
        ({
            let peak = cannon.piston_stroke.product(pi_value()).quotient(cannon.piston_period);
            &&& -peak.value <= cannon.advanced(dt, swing).piston_vel.value <= peak.value
            &&& swing.sin.value == 1real ==> cannon.advanced(dt, swing).piston_vel == peak
        }),
{
    ten_to_positive(16);
    let pi = pi_value::<Exact>().value;
    let t = ten_to(16);
    assert(0real < pi) by (nonlinear_arith)
        requires
            0real < t,
            pi == 31_415_926_535_897_932real / t,
    ;
    let (s, p, q) = (cannon.piston_stroke.value, cannon.piston_period.value, swing.sin.value);
    let peak = (s * pi) / p;
    assert(0real <= peak) by (nonlinear_arith)
        requires
            0real <= s,
            0real < pi,
            0real < p,
            peak == (s * pi) / p,
    {
        assert(0real <= s * pi);
    }
    assert(-peak <= peak * q <= peak) by (nonlinear_arith)
        requires
            0real <= peak,
            -1real <= q <= 1real,
    ;
    assert(peak * 1real == peak) by (nonlinear_arith);
}

/// Moving a point along the axis changes its axial coordinate by as much and leaves the rest.
proof fn lemma_axial_shift(cannon: Cannon<Exact>, p: Vec3<Exact>, t: Exact)
    requires
        straight(cannon),
    ensures
        cannon.axial(p.sum(cannon.axis.scaled(t))).value == cannon.axial(p).value + t.value,
        cannon.radial(p.sum(cannon.axis.scaled(t))) == cannon.radial(p),
{
    let u = cannon.axis;
    let o = p.difference(cannon.origin);
    kicked(o, u, t);
    let q = p.sum(u.scaled(t));
    assert(q.difference(cannon.origin) == o.sum(u.scaled(t)));
    assert(t.value * 1real == t.value) by (nonlinear_arith);
    let s = cannon.axial(p).value;
    lemma_shifted(u.x.value, t.value, s);
    lemma_shifted(u.y.value, t.value, s);
    lemma_shifted(u.z.value, t.value, s);
}

proof fn lemma_shifted(u: real, t: real, s: real)
    by (nonlinear_arith)
    ensures
        u * t - u * (s + t) == -(u * s),
{
}

/// Meeting a cylinder around the axis keeps the axial coordinate of a particle.
proof fn lemma_cylinder_keeps_axial(
    cannon: Cannon<Exact>,
    at: Exact,
    r_p: Exact,
    pos: Vec3<Exact>,
    vel: Vec3<Exact>,
)
    requires
        roots_exist(),
        straight(cannon),
    ensures
        cannon.axial(cannon.cylinder_met(at, r_p, pos, vel).0) == cannon.axial(pos),
{
    if touches_cylinder(cannon, at, r_p, pos) {
        let u = cannon.axis;
        let o = pos.difference(cannon.origin);
        let s = cannon.axial(pos);
        let w = cannon.radial(pos);
        kicked(o, u, s);
        assert(s.value * 1real == s.value) by (nonlinear_arith);
        assert(w.dot_product(u).value == 0real);
        lemma_off_axis(w);
        normalized(w);
        let rho = w.norm();
        let n = w.divided(rho);
        let t = clear_of(at, rho.difference(at), r_p).difference(rho);
        lemma_dot_divided(w, u, rho);
        let after = cannon.cylinder_met(at, r_p, pos, vel).0;
        assert(after == pos.sum(n.scaled(t)));
        assert(after.difference(cannon.origin) == o.sum(n.scaled(t)));
        lemma_dot_sum(o, n, t, u);
        assert(t.value * 0real == 0real) by (nonlinear_arith);
    }
}

/// Meeting an annular face keeps the distance of a particle from the axis, and moves only a
/// particle that is not in the bore.
proof fn lemma_face_keeps_radial(
    cannon: Cannon<Exact>,
    d: Exact,
    target: Exact,
    r_p: Exact,
    pos: Vec3<Exact>,
    vel: Vec3<Exact>,
)
    requires
        straight(cannon),
    ensures
        ({
            let after = cannon.face_met(d, target, r_p, pos, vel).0;
            &&& cannon.radial(after) == cannon.radial(pos)
            &&& cannon.radial(pos).norm().value < cannon.bore_radius.value ==> after == pos
        }),
{
    lemma_axial_shift(cannon, pos, target.difference(cannon.axial(pos)));
}

/// A particle that is not behind the back of the cannon, as any whose center is between the back
/// and the muzzle, is in front of the piston after the cannon has met it, if it is in the bore
/// then.
pub proof fn piston_keeps_particles_in_front(
    cannon: Cannon<Exact>,
    r_p: Exact,
    pos: Vec3<Exact>,
    vel: Vec3<Exact>,
)
    requires
        roots_exist(),
        straight(cannon),
        -r_p.value < cannon.axial(pos).value,
    ensures
        ({
            let after = cannon.met(r_p, pos, vel).0;
            cannon.radial(after).norm().value < cannon.bore_radius.value
                ==> cannon.piston_offset.value + r_p.value <= cannon.axial(after).value
        }),
{
    let (p1, v1) = cannon.cylinder_met(cannon.bore_radius, r_p, pos, vel);
    lemma_cylinder_keeps_axial(cannon, cannon.bore_radius, r_p, pos, vel);
    let (p2, v2) = cannon.cylinder_met(cannon.lip_outer_radius, r_p, p1, v1);
    lemma_cylinder_keeps_axial(cannon, cannon.lip_outer_radius, r_p, p1, v1);
    let (p3, v3) = cannon.lip_met(r_p, p2, v2);
    let d = cannon.axial(p2).difference(cannon.length);
    lemma_face_keeps_radial(cannon, d, clear_of(cannon.length, d, r_p), r_p, p2, v2);
    let (p4, v4) = cannon.back_met(r_p, p3, v3);
    let s = cannon.axial(p3);
    lemma_face_keeps_radial(cannon, s, r_p, r_p, p3, v3);
    lemma_face_keeps_radial(cannon, s, r_p.negation(), r_p, p3, v3);
    let target = cannon.piston_offset.sum(r_p);
    lemma_axial_shift(cannon, p4, target.difference(cannon.axial(p4)));
}

/// The piston leaves a particle behind the back of the cannon alone, whatever the numbers round.
pub proof fn piston_leaves_particles_behind_alone<S: Number>(
    cannon: Cannon<S>,
    r_p: S,
    pos: Vec3<S>,
    vel: Vec3<S>,
)
    requires
        !r_p.negation().less(cannon.axial(pos)),
    ensures
        cannon.piston_met(r_p, pos, vel) == (pos, vel),
{
}

/// A particle behind the back of the cannon, or in front of its muzzle, by its own radius or more
/// touches no surface of the cannon and is left alone.
pub proof fn cannon_leaves_distant_particles_alone(
    cannon: Cannon<Exact>,
    r_p: Exact,
    pos: Vec3<Exact>,
    vel: Vec3<Exact>,
)
    requires
        0real <= r_p.value,
        0real <= cannon.length.value,
        cannon.axial(pos).value <= -r_p.value || (cannon.length.value + r_p.value <= cannon.axial(
            pos,
        ).value && cannon.piston_offset.value <= cannon.length.value),
    ensures
        cannon.met(r_p, pos, vel) == (pos, vel),
{
}

/// A particle that the piston hits leaves it as fast, seen from the piston, as it came.
pub proof fn piston_reflects(
    cannon: Cannon<Exact>,
    r_p: Exact,
    pos: Vec3<Exact>,
    vel: Vec3<Exact>,
)
    requires
        straight(cannon),
        cannon.in_piston(r_p, pos),
        vel.dot_product(cannon.axis).value < cannon.piston_vel.value,
    ensures
        ({
            let after = cannon.piston_met(r_p, pos, vel).1;
            after.dot_product(cannon.axis).value - cannon.piston_vel.value
                == cannon.piston_vel.value - vel.dot_product(cannon.axis).value
        }),
{
    let u = cannon.axis;
    let v_axial = vel.dot_product(u);
    let v_new = Exact::whole(2).product(cannon.piston_vel).difference(v_axial);
    let t = v_new.difference(v_axial);
    assert(cannon.piston_met(r_p, pos, vel).1 == vel.sum(u.scaled(t)));
    kicked(vel, u, t);
    assert(t.value * 1real == t.value) by (nonlinear_arith);
    assert(t.value * u.squared_length().value == t.value);
    assert(vel.sum(u.scaled(t)).dot_product(u).value == v_axial.value + t.value);
    assert(t.value == 2real * cannon.piston_vel.value - v_axial.value - v_axial.value);
}

/// Meeting a cylinder keeps the speed of a particle.
proof fn lemma_cylinder_keeps_speed(
    cannon: Cannon<Exact>,
    at: Exact,
    r_p: Exact,
    pos: Vec3<Exact>,
    vel: Vec3<Exact>,
)
    requires
        roots_exist(),
    ensures
        cannon.cylinder_met(at, r_p, pos, vel).1.squared_length() == vel.squared_length(),
{
    let w = cannon.radial(pos);
    lemma_off_axis(w);
    if Exact::decimal(1, 6).value < w.norm().value {
        normalized(w);
        reflection_keeps_length(vel, w.divided(w.norm()));
    }
}

/// A vector with a length above the threshold is not zero.
proof fn lemma_off_axis(w: Vec3<Exact>)
    requires
        roots_exist(),
    ensures
        Exact::decimal(1, 6).value < w.norm().value ==> w.squared_length().value != 0real,
{
    ten_to_positive(6);
    let t = ten_to(6);
    assert(0real < 1real / t) by (nonlinear_arith)
        requires
            0real < t,
    ;
    squared_length_sign(w);
    root_squared(w.squared_length().value);
    let d = w.norm().value;
    assert(d != 0real ==> d * d != 0real) by (nonlinear_arith);
}

/// Meeting an annular face keeps the speed of a particle.
proof fn lemma_face_keeps_speed(
    cannon: Cannon<Exact>,
    d: Exact,
    target: Exact,
    r_p: Exact,
    pos: Vec3<Exact>,
    vel: Vec3<Exact>,
)
    requires
        straight(cannon),
    ensures
        cannon.face_met(d, target, r_p, pos, vel).1.squared_length() == vel.squared_length(),
{
    reflection_keeps_length(vel, cannon.axis);
}

/// A cannon whose piston does not move keeps the speed of every particle.
pub proof fn resting_cannon_keeps_speed(
    cannon: Cannon<Exact>,
    r_p: Exact,
    pos: Vec3<Exact>,
    vel: Vec3<Exact>,
)
    requires
        roots_exist(),
        straight(cannon),
        cannon.piston_vel.value == 0real,
    ensures
        cannon.met(r_p, pos, vel).1.squared_length() == vel.squared_length(),
{
    let (p1, v1) = cannon.cylinder_met(cannon.bore_radius, r_p, pos, vel);
    lemma_cylinder_keeps_speed(cannon, cannon.bore_radius, r_p, pos, vel);
    let (p2, v2) = cannon.cylinder_met(cannon.lip_outer_radius, r_p, p1, v1);
    lemma_cylinder_keeps_speed(cannon, cannon.lip_outer_radius, r_p, p1, v1);
    let (p3, v3) = cannon.lip_met(r_p, p2, v2);
    let d = cannon.axial(p2).difference(cannon.length);
    lemma_face_keeps_speed(cannon, d, clear_of(cannon.length, d, r_p), r_p, p2, v2);
    let (p4, v4) = cannon.back_met(r_p, p3, v3);
    let s = cannon.axial(p3);
    lemma_face_keeps_speed(cannon, s, r_p, r_p, p3, v3);
    lemma_face_keeps_speed(cannon, s, r_p.negation(), r_p, p3, v3);
    let u = cannon.axis;
    let v_axial = v4.dot_product(u);
    let v_new = Exact::whole(2).product(cannon.piston_vel).difference(v_axial);
    let t = v_new.difference(v_axial);
    let a = v_axial.value;
    kicked(v4, u, t);
    assert(2real * 0real == 0real) by (nonlinear_arith);
    assert(t.value == -2real * a);
    assert(2real * ((-2real * a) * a) + (-2real * a) * (-2real * a) * 1real == 0real)
        by (nonlinear_arith);
}

/// Whether a particle touches the cylinder of radius `at` around the axis.
pub open spec fn touches_cylinder(
    cannon: Cannon<Exact>,
    at: Exact,
    r_p: Exact,
    pos: Vec3<Exact>,
) -> bool {
    let s = cannon.axial(pos);
    let rho = cannon.radial(pos).norm();
    &&& r_p.negation().less(s) && s.less(cannon.length.sum(r_p))
    &&& Exact::decimal(1, 6).less(rho)
    &&& rho.difference(at).magnitude().less(r_p)
}

/// A particle that touches a cylinder wall is at its own radius from the wall afterwards, on the
/// side that it came from, and its axial coordinate is the same. The place that clears the wall
/// is assumed not to lie beyond the axis.
pub proof fn cylinder_clears(
    cannon: Cannon<Exact>,
    at: Exact,
    r_p: Exact,
    pos: Vec3<Exact>,
    vel: Vec3<Exact>,
)
    requires
        roots_exist(),
        straight(cannon),
        touches_cylinder(cannon, at, r_p, pos),
        r_p.value <= at.value,
    ensures
        ({
            let after = cannon.cylinder_met(at, r_p, pos, vel).0;
            let d = cannon.radial(pos).norm().difference(at);
            &&& cannon.radial(after).norm() == clear_of(at, d, r_p)
            &&& cannon.axial(after) == cannon.axial(pos)
        }),
{
    let o = pos.difference(cannon.origin);
    let s = cannon.axial(pos);
    let w = cannon.radial(pos);
    lemma_off_axis(w);
    normalized(w);
    let rho = w.norm();
    let n = w.divided(rho);
    let target = clear_of(at, rho.difference(at), r_p);
    let t = target.difference(rho);
    let after = cannon.cylinder_met(at, r_p, pos, vel).0;
    assert(after == pos.sum(n.scaled(t)));
    assert(after.difference(cannon.origin) == o.sum(n.scaled(t)));
    lemma_cylinder_keeps_axial(cannon, at, r_p, pos, vel);
    assert(cannon.axial(after).value == s.value);
    lemma_stretched(n.x.value, rho.value, t.value);
    lemma_stretched(n.y.value, rho.value, t.value);
    lemma_stretched(n.z.value, rho.value, t.value);
    assert(cannon.radial(after) == n.scaled(target));
    let g = target.value;
    scaled_length(n, target);
    assert(g * g * 1real == g * g) by (nonlinear_arith);
    assert(cannon.radial(after).squared_length().value == g * g);
    assert(0real <= g * g) by (nonlinear_arith);
    root_squared(g * g);
    let r = root(g * g);
    assert(r == g) by (nonlinear_arith)
        requires
            r * r == g * g,
            0real <= r,
            0real <= g,
    ;
}

proof fn lemma_stretched(n: real, rho: real, t: real)
    by (nonlinear_arith)
    ensures
        n * rho + n * t == n * (rho + t),
{
}

proof fn lemma_dot_divided(w: Vec3<Exact>, u: Vec3<Exact>, d: Exact)
    requires
        w.dot_product(u).value == 0real,
        d.value != 0real,
    ensures
        w.divided(d).dot_product(u).value == 0real,
{
    let n = w.divided(d);
    quotient_times(w.x.value, d.value);
    quotient_times(w.y.value, d.value);
    quotient_times(w.z.value, d.value);
    lemma_swap(n.x.value, d.value, u.x.value);
    lemma_swap(n.y.value, d.value, u.y.value);
    lemma_swap(n.z.value, d.value, u.z.value);
    let k = n.dot_product(u).value;
    let (a, b, c) = (n.x.value * u.x.value, n.y.value * u.y.value, n.z.value * u.z.value);
    let e = d.value;
    assert(k * e == a * e + b * e + c * e) by (nonlinear_arith)
        requires
            k == a + b + c,
    ;
    assert(k == 0real) by (nonlinear_arith)
        requires
            k * e == 0real,
            e != 0real,
    ;
}

proof fn lemma_swap(n: real, d: real, u: real)
    by (nonlinear_arith)
    ensures
        (n * d) * u == (n * u) * d,
{
}

/// The product of `o + n * t` with `u`.
proof fn lemma_dot_sum(o: Vec3<Exact>, n: Vec3<Exact>, t: Exact, u: Vec3<Exact>)
    ensures
        o.sum(n.scaled(t)).dot_product(u).value == o.dot_product(u).value + t.value * n.dot_product(
            u,
        ).value,
{
    lemma_one_dot(o.x.value, n.x.value, t.value, u.x.value);
    lemma_one_dot(o.y.value, n.y.value, t.value, u.y.value);
    lemma_one_dot(o.z.value, n.z.value, t.value, u.z.value);
    let (a, b, c) = (n.x.value * u.x.value, n.y.value * u.y.value, n.z.value * u.z.value);
    let s = t.value;
    assert(s * (a + b + c) == s * a + s * b + s * c) by (nonlinear_arith);
}

proof fn lemma_one_dot(o: real, n: real, t: real, u: real)
    by (nonlinear_arith)
    ensures
        (o + n * t) * u == o * u + t * (n * u),
{
}

} // verus!
