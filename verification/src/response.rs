//! What two spheres that meet do to each other: laws of [`crate::collision`] in terms of places
//! and velocities before and after, stated of real numbers.

use vstd::prelude::*;

use crate::body::RigidBody;
use crate::collision::{Pair, Strike};
use crate::elastic::half_value;
use crate::exact::{ten_to, Exact};
use crate::geometry::{
    along,
    divided_along,
    divided_scaled,
    gap_squared,
    is_times,
    moved_along,
    root_is_unique,
    roots_exist,
    way,
};
use crate::scalar::Number;
use crate::vector::Vec3;
use crate::walls::tiny;

verus! {

/// Directions are taken from offsets longer than a millionth.
pub proof fn tiny_is_a_millionth_squared()
    ensures
        tiny::<Exact>().value * 1_000_000_000_000real == 1real,
        tiny::<Exact>().value == 1real / 1_000_000_000_000real,
{
    reveal_with_fuel(ten_to, 13);
    assert(ten_to(12) == 1_000_000_000_000real);
}

/// `(s / d) / d == s / (d * d)`.
proof fn lemma_over_twice(s: real, d: real)
    by (nonlinear_arith)
    requires
        d != 0real,
    ensures
        (s / d) / d == s / (d * d),
{
}

proof fn lemma_halved(g: real, d: real)
    by (nonlinear_arith)
    requires
        d != 0real,
    ensures
        ((1real / 2real) * g) / d == g / (2real * d),
{
}

proof fn lemma_twice_removed(a: real, e: real)
    by (nonlinear_arith)
    requires
        e != 0real,
    ensures
        (a / e) * e == a,
{
}

/// Particles that touch, `d` apart where contact is at `min_dist`: if they approach, their
/// relative velocity along the line of centers is reversed by equal and opposite changes along
/// that line, else both keep their velocities; and each is pushed along that line by half of what
/// is missing to contact.
pub proof fn touching_particles_bounce(pair: Pair<Exact>, min_dist: Exact, d: real)
    requires
        roots_exist(),
        0real < d < min_dist.value,
        d * d == gap_squared(pair.pos_i, pair.pos_j),
    ensures
        ({
            let after = pair.collided(min_dist);
            let line = way(pair.pos_i, pair.pos_j);
            let closing = along(way(pair.vel_j, pair.vel_i), line);
            let missing = min_dist.value - d;
            &&& 0real < closing ==> {
                &&& along(way(after.vel_j, after.vel_i), line) == -closing
                &&& is_times(way(after.vel_i, pair.vel_i), closing / (d * d), line)
                &&& is_times(way(pair.vel_j, after.vel_j), closing / (d * d), line)
            }
            &&& closing <= 0real ==> after.vel_i == pair.vel_i && after.vel_j == pair.vel_j
            &&& is_times(way(after.pos_i, pair.pos_i), missing / (2real * d), line)
            &&& is_times(way(pair.pos_j, after.pos_j), missing / (2real * d), line)
        }),
{
    let m = min_dist.value;
    let line = way(pair.pos_i, pair.pos_j);
    let o = pair.offset();
    assert(o == line);
    assert(o.squared_length().value == d * d);
    root_is_unique(d * d, d);
    assert(pair.distance() == (Exact { value: d }));
    assert(0real < d * d < m * m) by (nonlinear_arith)
        requires
            0real < d < m,
    ;
    assert(!pair.apart(min_dist));
    let rel = pair.vel_i.difference(pair.vel_j);
    assert(rel == way(pair.vel_j, pair.vel_i));
    divided_along(rel, o, d);
    let closing = along(rel, o);
    assert(pair.approach().value == closing / d);
    assert((0real < closing / d) == (0real < closing)) by (nonlinear_arith)
        requires
            0real < d,
    ;
    divided_scaled(o, d, closing / d);
    lemma_over_twice(closing, d);
    half_value();
    let missing = m - d;
    let pushed = Exact::decimal(5, 1).product(min_dist.difference(pair.distance()));
    assert(pushed.value == (1real / 2real) * missing);
    divided_scaled(o, d, pushed.value);
    lemma_halved(missing, d);
    let after = pair.collided(min_dist);
    if 0real < closing {
        let k = closing / (d * d);
        let turned = way(after.vel_j, after.vel_i);
        assert(is_times(way(turned, rel), 2real * k, line)) by {
            lemma_doubled(k, line.x.value);
            lemma_doubled(k, line.y.value);
            lemma_doubled(k, line.z.value);
        }
        moved_along(turned, rel, 2real * k, line);
        lemma_twice_removed(closing, d * d);
        lemma_doubled(k, d * d);
    }
}

proof fn lemma_doubled(k: real, x: real)
    by (nonlinear_arith)
    ensures
        (2real * k) * x == k * x + k * x,
{
}

/// Particles at contact distance or further apart, and particles at the same place, are left
/// alone.
pub proof fn distant_particles_pass(pair: Pair<Exact>, min_dist: Exact)
    requires
        min_dist.value * min_dist.value <= gap_squared(pair.pos_i, pair.pos_j) || gap_squared(
            pair.pos_i,
            pair.pos_j,
        ) == 0real,
    ensures
        pair.collided(min_dist) == pair,
{
    assert(pair.offset().squared_length().value == gap_squared(pair.pos_i, pair.pos_j));
}

/// A particle and a body that touch, `d` apart where contact is at `min_dist`, of which at least
/// one can move: if they close on each other, their relative velocity along the line of centers is
/// reversed by changes along that line in the ratio of the inverse masses, else both keep their
/// velocities; and both are pushed along that line to contact, in the same ratio. The body keeps
/// its size and mass.
pub proof fn touching_body_and_particle_bounce(
    strike: Strike<Exact>,
    min_dist: Exact,
    inv_m_p: Exact,
    d: real,
)
    requires
        roots_exist(),
        0real < d < min_dist.value,
        d * d == gap_squared(strike.body.pos, strike.pos),
        1real / 1_000_000_000_000real <= d * d,
        0real < inv_m_p.value + strike.body.inv_mass.value,
    ensures
        ({
            let after = strike.collided(min_dist, inv_m_p);
            let body = strike.body;
            let line = way(body.pos, strike.pos);
            let parting = along(way(body.vel, strike.vel), line);
            let mobility = inv_m_p.value + body.inv_mass.value;
            let missing = min_dist.value - d;
            let kick = ((-2real) * parting) / mobility / (d * d);
            let push = missing / mobility / d;
            &&& parting < 0real ==> {
                &&& along(way(after.body.vel, after.vel), line) == -parting
                &&& is_times(way(strike.vel, after.vel), kick * inv_m_p.value, line)
                &&& is_times(way(after.body.vel, body.vel), kick * body.inv_mass.value, line)
            }
            &&& 0real <= parting ==> after.vel == strike.vel && after.body.vel == body.vel
            &&& is_times(way(strike.pos, after.pos), push * inv_m_p.value, line)
            &&& is_times(way(after.body.pos, body.pos), push * body.inv_mass.value, line)
            &&& after.body.radius == body.radius
            &&& after.body.mass == body.mass
            &&& after.body.inv_mass == body.inv_mass
        }),
{
    let m = min_dist.value;
    let body = strike.body;
    let line = way(body.pos, strike.pos);
    let o = strike.offset();
    assert(o == line);
    assert(o.squared_length().value == d * d);
    root_is_unique(d * d, d);
    assert(strike.distance() == (Exact { value: d }));
    assert(0real < d * d < m * m) by (nonlinear_arith)
        requires
            0real < d < m,
    ;
    tiny_is_a_millionth_squared();
    assert(!strike.missed(min_dist, inv_m_p));
    let rel = strike.vel.difference(body.vel);
    assert(rel == way(body.vel, strike.vel));
    divided_along(rel, o, d);
    let parting = along(rel, o);
    assert(strike.recession().value == parting / d);
    assert((parting / d < 0real) == (parting < 0real)) by (nonlinear_arith)
        requires
            0real < d,
    ;
    let (i, bi) = (inv_m_p.value, body.inv_mass.value);
    let mob = i + bi;
    assert(strike.mobility(inv_m_p).value == mob);
    let imp = strike.impulse(inv_m_p).value;
    let kick = ((-2real) * parting) / mob / (d * d);
    lemma_impulse(parting, mob, d, i);
    lemma_impulse(parting, mob, d, bi);
    divided_scaled(o, d, imp * i);
    divided_scaled(o, d, imp * bi);
    let missing = m - d;
    let push = missing / mob / d;
    lemma_push(missing, mob, d, i);
    lemma_push(missing, mob, d, bi);
    divided_scaled(o, d, missing * (i / mob));
    divided_scaled(o, d, missing * (bi / mob));
    let after = strike.collided(min_dist, inv_m_p);
    if parting < 0real {
        let turned = way(after.body.vel, after.vel);
        let k = kick * i + kick * bi;
        assert(is_times(way(rel, turned), k, line)) by {
            lemma_both(kick * i, kick * bi, line.x.value);
            lemma_both(kick * i, kick * bi, line.y.value);
            lemma_both(kick * i, kick * bi, line.z.value);
        }
        moved_along(rel, turned, k, line);
        lemma_reversed(parting, mob, d * d, i, bi);
    }
}

proof fn lemma_both(a: real, b: real, x: real)
    by (nonlinear_arith)
    ensures
        (a + b) * x == a * x + b * x,
{
}

proof fn lemma_impulse(parting: real, mob: real, d: real, i: real)
    requires
        0real < mob,
        0real < d,
    ensures
        ((((-2real) * (parting / d)) / mob) * i) / d == (((-2real) * parting) / mob / (d * d)) * i,
{
    let a = (-2real) * parting;
    assert((-2real) * (parting / d) == a / d) by (nonlinear_arith)
        requires
            0real < d,
            a == (-2real) * parting,
    ;
    assert((a / d) / mob == (a / mob) / d) by (nonlinear_arith)
        requires
            0real < mob,
            0real < d,
    ;
    let b = a / mob;
    assert(((b / d) * i) / d == (b / (d * d)) * i) by (nonlinear_arith)
        requires
            0real < d,
    ;
}

proof fn lemma_push(missing: real, mob: real, d: real, i: real)
    requires
        0real < mob,
        0real < d,
    ensures
        (missing * (i / mob)) / d == (missing / mob / d) * i,
{
    assert(missing * (i / mob) == (missing / mob) * i) by (nonlinear_arith)
        requires
            0real < mob,
    ;
    let b = missing / mob;
    assert((b * i) / d == (b / d) * i) by (nonlinear_arith)
        requires
            0real < d,
    ;
}

proof fn lemma_reversed(parting: real, mob: real, e: real, i: real, bi: real)
    requires
        0real < mob,
        0real < e,
        mob == i + bi,
    ensures
        ({
            let kick = ((-2real) * parting) / mob / e;
            parting + (kick * i + kick * bi) * e == -parting
        }),
{
    let a = ((-2real) * parting) / mob;
    let kick = a / e;
    lemma_both_factor(kick, i, bi);
    assert((kick * mob) * e == a * mob) by (nonlinear_arith)
        requires
            0real < e,
            kick == a / e,
    {
        assert(kick * e == a);
        assert((kick * mob) * e == (kick * e) * mob);
    }
    assert(a * mob == (-2real) * parting) by (nonlinear_arith)
        requires
            0real < mob,
            a == ((-2real) * parting) / mob,
    ;
}

proof fn lemma_both_factor(k: real, i: real, j: real)
    by (nonlinear_arith)
    ensures
        k * i + k * j == k * (i + j),
{
}

/// Where a particle is at contact distance from a body or further away, or at its center, or
/// where neither can move, both are left alone.
pub proof fn distant_bodies_pass(strike: Strike<Exact>, min_dist: Exact, inv_m_p: Exact)
    requires
        ({
            let gap = gap_squared(strike.body.pos, strike.pos);
            ||| min_dist.value * min_dist.value <= gap
            ||| gap < 1real / 1_000_000_000_000real
            ||| inv_m_p.value + strike.body.inv_mass.value <= 0real
        }),
    ensures
        strike.collided(min_dist, inv_m_p) == strike,
{
    tiny_is_a_millionth_squared();
    assert(strike.offset().squared_length().value == gap_squared(strike.body.pos, strike.pos));
}

/// A particle and a body do not close on each other after they have met, whatever they did
/// before.
pub proof fn met_bodies_do_not_close(
    strike: Strike<Exact>,
    min_dist: Exact,
    inv_m_p: Exact,
    d: real,
)
    requires
        roots_exist(),
        0real < d < min_dist.value,
        d * d == gap_squared(strike.body.pos, strike.pos),
        1real / 1_000_000_000_000real <= d * d,
        0real < inv_m_p.value + strike.body.inv_mass.value,
    ensures
        ({
            let after = strike.collided(min_dist, inv_m_p);
            0real <= along(way(after.body.vel, after.vel), way(strike.body.pos, strike.pos))
        }),
{
    touching_body_and_particle_bounce(strike, min_dist, inv_m_p, d);
}

/// A body of positive mass has the reciprocal of its mass as inverse mass; any other body cannot
/// be moved. Everything else of a body is what it was made with.
pub proof fn bodies_are_made_as_told(
    pos: Vec3<Exact>,
    vel: Vec3<Exact>,
    radius: Exact,
    mass: Exact,
)
    ensures
        ({
            let body = RigidBody::made(pos, vel, radius, mass);
            &&& body.pos == pos && body.vel == vel && body.radius == radius && body.mass == mass
            &&& 0real < mass.value ==> body.inv_mass.value * mass.value == 1real
            &&& mass.value <= 0real ==> body.inv_mass.value == 0real
        }),
{
    let m = mass.value;
    assert(0real < m ==> (1real / m) * m == 1real) by (nonlinear_arith);
}

} // verus!
