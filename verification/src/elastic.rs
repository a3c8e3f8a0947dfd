//! What a collision keeps: laws of [`crate::collision`], stated of real numbers.

use vstd::prelude::*;

use crate::body::RigidBody;
use crate::collision::{Pair, Strike};
use crate::confinement::tiny_is_positive;
use crate::exact::{ten_to, Exact};
use crate::geometry::{kicked, normalized, quotient_times, roots_exist};
use crate::scalar::Number;
use crate::vector::Vec3;

verus! {

/// `decimal(5, 1)` is a half.
pub proof fn half_value()
    ensures
        Exact::decimal(5, 1).value == 1real / 2real,
{
    reveal_with_fuel(ten_to, 2);
    assert(ten_to(1) == 10real);
    assert(5real / 10real == 1real / 2real) by (nonlinear_arith);
}

proof fn lemma_two_halves(c: real, o: real)
    by (nonlinear_arith)
    ensures
        c * ((1real / 2real) * o) + c * ((1real / 2real) * o) == c * o,
{
}

/// A pair that touches has a distance and a unit normal.
proof fn lemma_pair_normal(pair: Pair<Exact>, min_dist: Exact)
    requires
        roots_exist(),
        !pair.apart(min_dist),
    ensures
        0real < pair.distance().value,
        pair.normal().squared_length().value == 1real,
        pair.normal().scaled(pair.distance()) == pair.offset(),
        pair.offset().dot_product(pair.normal()).value == pair.distance().value,
        pair.distance().value * pair.distance().value == pair.offset().squared_length().value,
{
    normalized(pair.offset());
}

/// A collision of two particles keeps their momentum.
pub proof fn collision_keeps_momentum(pair: Pair<Exact>, min_dist: Exact)
    ensures
        pair.collided(min_dist).vel_i.sum(pair.collided(min_dist).vel_j) == pair.vel_i.sum(
            pair.vel_j,
        ),
{
}

/// A collision of two particles keeps their center of mass where it is.
pub proof fn collision_keeps_center(pair: Pair<Exact>, min_dist: Exact)
    ensures
        pair.collided(min_dist).pos_i.sum(pair.collided(min_dist).pos_j) == pair.pos_i.sum(
            pair.pos_j,
        ),
{
}

/// The product with a difference.
proof fn lemma_dot_difference(v: Vec3<Exact>, w: Vec3<Exact>, n: Vec3<Exact>)
    ensures
        v.difference(w).dot_product(n).value == v.dot_product(n).value - w.dot_product(n).value,
{
    let (a, b, c) = (v.x.value, v.y.value, v.z.value);
    let (d, e, f) = (w.x.value, w.y.value, w.z.value);
    let (p, q, r) = (n.x.value, n.y.value, n.z.value);
    assert((a - d) * p == a * p - d * p) by (nonlinear_arith);
    assert((b - e) * q == b * q - e * q) by (nonlinear_arith);
    assert((c - f) * r == c * r - f * r) by (nonlinear_arith);
}

/// A collision of two particles keeps their kinetic energy.
pub proof fn collision_keeps_energy(pair: Pair<Exact>, min_dist: Exact)
    requires
        roots_exist(),
    ensures
        pair.collided(min_dist).vel_i.squared_length().sum(
            pair.collided(min_dist).vel_j.squared_length(),
        ) == pair.vel_i.squared_length().sum(pair.vel_j.squared_length()),
{
    if !pair.apart(min_dist) {
        lemma_pair_normal(pair, min_dist);
        let n = pair.normal();
        let a = pair.approach();
        kicked(pair.vel_i, n, a);
        kicked(pair.vel_j, n, a);
        lemma_dot_difference(pair.vel_i, pair.vel_j, n);
        let (u, w, s) = (pair.vel_i.dot_product(n).value, pair.vel_j.dot_product(n).value, a.value);
        assert(s * (u - w) == s * u - s * w) by (nonlinear_arith);
        assert(s * s * 1real == s * s) by (nonlinear_arith);
    }
}

/// Approaching particles exchange their velocities along the normal.
pub proof fn collision_exchanges_normal_velocities(pair: Pair<Exact>, min_dist: Exact)
    requires
        roots_exist(),
        !pair.apart(min_dist),
        0real < pair.approach().value,
    ensures
        pair.collided(min_dist).vel_i.dot_product(pair.normal()) == pair.vel_j.dot_product(
            pair.normal(),
        ),
        pair.collided(min_dist).vel_j.dot_product(pair.normal()) == pair.vel_i.dot_product(
            pair.normal(),
        ),
{
    lemma_pair_normal(pair, min_dist);
    let n = pair.normal();
    let s = pair.approach().value;
    kicked(pair.vel_i, n, pair.approach());
    kicked(pair.vel_j, n, pair.approach());
    lemma_dot_difference(pair.vel_i, pair.vel_j, n);
    assert(s * 1real == s) by (nonlinear_arith);
}

/// Particles that meet head on, so that their relative velocity lies along the normal, swap
/// their velocities.
pub proof fn head_on_collision_swaps_velocities(pair: Pair<Exact>, min_dist: Exact, speed: Exact)
    requires
        roots_exist(),
        !pair.apart(min_dist),
        0real < speed.value,
        pair.vel_i.difference(pair.vel_j) == pair.normal().scaled(speed),
    ensures
        pair.collided(min_dist).vel_i == pair.vel_j,
        pair.collided(min_dist).vel_j == pair.vel_i,
{
    lemma_pair_normal(pair, min_dist);
    let n = pair.normal();
    let zero = Vec3::<Exact>::origin();
    kicked(zero, n, speed);
    assert(zero.dot_product(n).value == 0real) by {
        let (p, q, r) = (n.x.value, n.y.value, n.z.value);
        assert(0real * p == 0real && 0real * q == 0real && 0real * r == 0real) by (nonlinear_arith);
    }
    assert(zero.sum(n.scaled(speed)) == n.scaled(speed));
    assert(speed.value * 1real == speed.value) by (nonlinear_arith);
    assert(pair.approach().value == speed.value);
}

/// Particles that touched are at contact distance after the collision.
pub proof fn collision_separates(pair: Pair<Exact>, min_dist: Exact)
    requires
        roots_exist(),
        !pair.apart(min_dist),
        0real <= min_dist.value,
    ensures
        pair.collided(min_dist).offset().squared_length() == min_dist.product(min_dist),
{
    lemma_pair_normal(pair, min_dist);
    half_value();
    let n = pair.normal();
    let d = pair.distance().value;
    let m = min_dist.value;
    assert(d < m) by (nonlinear_arith)
        requires
            d * d < m * m,
            0real <= m,
            0real < d,
    ;
    let overlap = min_dist.difference(pair.distance());
    kicked(pair.offset(), n, overlap);
    let push = n.scaled(Exact::decimal(5, 1).product(overlap));
    let o = overlap.value;
    lemma_two_halves(n.x.value, o);
    lemma_two_halves(n.y.value, o);
    lemma_two_halves(n.z.value, o);
    assert(pair.collided(min_dist).offset() == pair.offset().sum(n.scaled(overlap)));
    assert(d * d + 2real * ((m - d) * d) + (m - d) * (m - d) * 1real == m * m) by (nonlinear_arith);
}

/// Whether a mass and its cached inverse belong together.
pub open spec fn inverse_of(mass: Exact, inv_mass: Exact) -> bool {
    0real < mass.value && inv_mass.value == 1real / mass.value
}

/// Whether a body can be moved: it has a mass, and the cached inverse is that of its mass.
pub open spec fn movable(body: RigidBody<Exact>) -> bool {
    inverse_of(body.mass, body.inv_mass)
}

/// A body that is made with a positive mass can be moved.
pub proof fn made_body_is_movable(
    pos: Vec3<Exact>,
    vel: Vec3<Exact>,
    radius: Exact,
    mass: Exact,
)
    requires
        0real < mass.value,
    ensures
        movable(RigidBody::made(pos, vel, radius, mass)),
{
}

/// Mass times inverse mass.
proof fn lemma_inverse(mass: Exact, inv_mass: Exact)
    requires
        inverse_of(mass, inv_mass),
    ensures
        mass.value * inv_mass.value == 1real,
        0real < inv_mass.value,
{
    let m = mass.value;
    let i = inv_mass.value;
    assert(m * i == 1real && 0real < i) by (nonlinear_arith)
        requires
            0real < m,
            i == 1real / m,
    ;
}

/// A collision that is not missed has a distance, a unit normal and a mobility.
proof fn lemma_strike_normal(strike: Strike<Exact>, min_dist: Exact, inv_m_p: Exact)
    requires
        roots_exist(),
        !strike.missed(min_dist, inv_m_p),
    ensures
        0real < strike.distance().value,
        strike.normal().squared_length().value == 1real,
        strike.normal().scaled(strike.distance()) == strike.offset(),
        strike.offset().dot_product(strike.normal()).value == strike.distance().value,
        strike.distance().value * strike.distance().value
            == strike.offset().squared_length().value,
        0real < strike.mobility(inv_m_p).value,
{
    tiny_is_positive();
    normalized(strike.offset());
}

/// `m (c (s i)) = c s` where `m i = 1`.
proof fn lemma_share(m: real, i: real, c: real, s: real)
    by (nonlinear_arith)
    requires
        m * i == 1real,
    ensures
        (c * (s * i)) * m == c * s,
{
    assert((c * (s * i)) * m == (c * s) * (m * i));
}

pub(crate) proof fn lemma_add_scaled(a: real, b: real, m: real)
    by (nonlinear_arith)
    ensures
        (a + b) * m == a * m + b * m,
        (a - b) * m == a * m - b * m,
{
}

/// The collision of a particle of mass `mass` with a movable body keeps their momentum.
pub proof fn strike_keeps_momentum(
    strike: Strike<Exact>,
    min_dist: Exact,
    mass: Exact,
    inv_m_p: Exact,
)
    requires
        inverse_of(mass, inv_m_p),
        movable(strike.body),
    ensures
        ({
            let after = strike.collided(min_dist, inv_m_p);
            after.vel.scaled(mass).sum(after.body.vel.scaled(strike.body.mass)) == strike.vel.scaled(
                mass,
            ).sum(strike.body.vel.scaled(strike.body.mass))
        }),
{
    lemma_inverse(mass, inv_m_p);
    lemma_inverse(strike.body.mass, strike.body.inv_mass);
    let n = strike.normal();
    let imp = strike.impulse(inv_m_p).value;
    let (m, i) = (mass.value, inv_m_p.value);
    let (bm, bi) = (strike.body.mass.value, strike.body.inv_mass.value);
    lemma_share(m, i, n.x.value, imp);
    lemma_share(m, i, n.y.value, imp);
    lemma_share(m, i, n.z.value, imp);
    lemma_share(bm, bi, n.x.value, imp);
    lemma_share(bm, bi, n.y.value, imp);
    lemma_share(bm, bi, n.z.value, imp);
    lemma_add_scaled(strike.vel.x.value, n.x.value * (imp * i), m);
    lemma_add_scaled(strike.vel.y.value, n.y.value * (imp * i), m);
    lemma_add_scaled(strike.vel.z.value, n.z.value * (imp * i), m);
    lemma_add_scaled(strike.body.vel.x.value, n.x.value * (imp * bi), bm);
    lemma_add_scaled(strike.body.vel.y.value, n.y.value * (imp * bi), bm);
    lemma_add_scaled(strike.body.vel.z.value, n.z.value * (imp * bi), bm);
}

/// `m |v + k n|^2` for `k = s i` with `m i = 1`, where `u` is `v n`.
proof fn lemma_kick_energy(m: real, i: real, s: real, u: real, e: real)
    by (nonlinear_arith)
    requires
        m * i == 1real,
    ensures
        m * (e + 2real * ((s * i) * u) + (s * i) * (s * i) * 1real) == m * e + 2real * (s * u) + (s
            * s) * i,
        m * (e - 2real * ((s * i) * u) + (s * i) * (s * i) * 1real) == m * e - 2real * (s * u) + (s
            * s) * i,
{
    assert(m * ((s * i) * u) == (m * i) * (s * u));
    assert(m * ((s * i) * (s * i)) == (m * i) * (s * s) * i);
}

/// The collision of a particle of mass `mass` with a movable body keeps their kinetic energy.
pub proof fn strike_keeps_energy(
    strike: Strike<Exact>,
    min_dist: Exact,
    mass: Exact,
    inv_m_p: Exact,
)
    requires
        roots_exist(),
        inverse_of(mass, inv_m_p),
        movable(strike.body),
    ensures
        ({
            let after = strike.collided(min_dist, inv_m_p);
            mass.product(after.vel.squared_length()).sum(
                strike.body.mass.product(after.body.vel.squared_length()),
            ) == mass.product(strike.vel.squared_length()).sum(
                strike.body.mass.product(strike.body.vel.squared_length()),
            )
        }),
{
    if !strike.missed(min_dist, inv_m_p) {
        lemma_strike_normal(strike, min_dist, inv_m_p);
        lemma_inverse(mass, inv_m_p);
        lemma_inverse(strike.body.mass, strike.body.inv_mass);
        let n = strike.normal();
        let imp = strike.impulse(inv_m_p);
        let s = imp.value;
        let (m, i) = (mass.value, inv_m_p.value);
        let (bm, bi) = (strike.body.mass.value, strike.body.inv_mass.value);
        kicked(strike.vel, n, imp.product(inv_m_p));
        kicked(strike.body.vel, n, imp.product(strike.body.inv_mass));
        lemma_dot_difference(strike.vel, strike.body.vel, n);
        let u = strike.vel.dot_product(n).value;
        let w = strike.body.vel.dot_product(n).value;
        lemma_kick_energy(m, i, s, u, strike.vel.squared_length().value);
        lemma_kick_energy(bm, bi, s, w, strike.body.vel.squared_length().value);
        let rec = strike.recession().value;
        let mob = strike.mobility(inv_m_p).value;
        quotient_times((-2real) * rec, mob);
        lemma_balance(s, u, w, i, bi, rec, mob);
    }
}

proof fn lemma_balance(s: real, u: real, w: real, i: real, bi: real, rec: real, mob: real)
    by (nonlinear_arith)
    requires
        rec == u - w,
        mob == i + bi,
        s * mob == (-2real) * rec,
    ensures
        2real * (s * u) + (s * s) * i - 2real * (s * w) + (s * s) * bi == 0real,
{
    assert(2real * (s * u) + (s * s) * i - 2real * (s * w) + (s * s) * bi == 2real * (s * (u - w))
        + s * (s * (i + bi)));
}

/// A body of infinite mass is not moved by a collision.
pub proof fn strike_leaves_immovable_body(strike: Strike<Exact>, min_dist: Exact, inv_m_p: Exact)
    requires
        strike.body.inv_mass.value == 0real,
    ensures
        strike.collided(min_dist, inv_m_p).body == strike.body,
{
    let n = strike.normal();
    let imp = strike.impulse(inv_m_p).value;
    let mob = strike.mobility(inv_m_p).value;
    let o = min_dist.difference(strike.distance()).value;
    if !strike.missed(min_dist, inv_m_p) {
        assert(imp * 0real == 0real) by (nonlinear_arith);
        assert(o * (0real / mob) == 0real) by (nonlinear_arith)
            requires
                0real < mob,
        ;
        let (p, q, r) = (n.x.value, n.y.value, n.z.value);
        assert(p * 0real == 0real && q * 0real == 0real && r * 0real == 0real) by (nonlinear_arith);
    }
}

/// A particle keeps its speed relative to a body of infinite mass that it hits.
pub proof fn strike_keeps_speed_relative_to_immovable_body(
    strike: Strike<Exact>,
    min_dist: Exact,
    inv_m_p: Exact,
)
    requires
        roots_exist(),
        strike.body.inv_mass.value == 0real,
    ensures
        ({
            let after = strike.collided(min_dist, inv_m_p);
            after.vel.difference(after.body.vel).squared_length() == strike.vel.difference(
                strike.body.vel,
            ).squared_length()
        }),
{
    strike_leaves_immovable_body(strike, min_dist, inv_m_p);
    if !strike.missed(min_dist, inv_m_p) {
        lemma_strike_normal(strike, min_dist, inv_m_p);
        let n = strike.normal();
        let relative = strike.vel.difference(strike.body.vel);
        let a = strike.impulse(inv_m_p).product(inv_m_p);
        let rec = strike.recession().value;
        quotient_times((-2real) * rec, inv_m_p.value);
        assert(strike.mobility(inv_m_p).value == inv_m_p.value);
        assert(a.value == (-2real) * rec);
        kicked(relative, n, a);
        assert(2real * (((-2real) * rec) * rec) + ((-2real) * rec) * ((-2real) * rec) * 1real
            == 0real) by (nonlinear_arith);
        assert(strike.vel.sum(n.scaled(a)).difference(strike.body.vel) == relative.sum(
            n.scaled(a),
        ));
    }
}

/// A particle and a body that touched are at contact distance after the collision.
pub proof fn strike_separates(strike: Strike<Exact>, min_dist: Exact, inv_m_p: Exact)
    requires
        roots_exist(),
        !strike.missed(min_dist, inv_m_p),
        0real <= min_dist.value,
    ensures
        strike.collided(min_dist, inv_m_p).offset().squared_length() == min_dist.product(min_dist),
{
    lemma_strike_normal(strike, min_dist, inv_m_p);
    let n = strike.normal();
    let d = strike.distance().value;
    let m = min_dist.value;
    assert(d < m) by (nonlinear_arith)
        requires
            d * d < m * m,
            0real <= m,
            0real < d,
    ;
    let overlap = min_dist.difference(strike.distance());
    let o = overlap.value;
    let mob = strike.mobility(inv_m_p).value;
    let i = inv_m_p.value;
    let bi = strike.body.inv_mass.value;
    lemma_shares(n.x.value, o, i, bi, mob);
    lemma_shares(n.y.value, o, i, bi, mob);
    lemma_shares(n.z.value, o, i, bi, mob);
    kicked(strike.offset(), n, overlap);
    assert(strike.collided(min_dist, inv_m_p).offset() == strike.offset().sum(n.scaled(overlap)));
    assert(d * d + 2real * ((m - d) * d) + (m - d) * (m - d) * 1real == m * m) by (nonlinear_arith);
}

proof fn lemma_shares(c: real, o: real, i: real, bi: real, mob: real)
    by (nonlinear_arith)
    requires
        mob == i + bi,
        mob != 0real,
    ensures
        c * (o * (i / mob)) + c * (o * (bi / mob)) == c * o,
{
    assert((i / mob) + (bi / mob) == 1real);
    assert(c * (o * (i / mob)) + c * (o * (bi / mob)) == (c * o) * ((i / mob) + (bi / mob)));
}

} // verus!
