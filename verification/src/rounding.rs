//! Laws that rounding does not spoil, stated of fixed-point numbers.

use vstd::prelude::*;

use crate::angle::{swing_of, Angle};
use crate::camera::clamped;
use crate::cannon::Cannon;
use crate::conservation::{contacts_among, countable, pairs_among, same_frame};
use crate::contacts::{contact_pairs, contact_pairs_are_contacts, touching};
use crate::display::{between, color_between, cool};
use crate::domain::Domain;
use crate::fixed::{power_of_ten, size, truncated, unit, Fixed};
use crate::grid::{cell_axis, cell_ids_of, neighbors};
use crate::neighborhood::{adjacent, adjacent_is_one_apart, in_reach, neighbors_are_in_reach};
use crate::scalar::{pi_value, Number};
use crate::simulation::State;
use crate::vector::Vec3;
use crate::viewer::{blended, ramp, Color};
use crate::walls::walled;

verus! {

/// Products of numbers that are rounded toward zero keep their distance, up to a whole cell.
proof fn lemma_quotients_close(a: int, b: int)
    requires
        a <= b <= a + unit() * unit(),
    ensures
        0 <= truncated(b, unit()) - truncated(a, unit()) <= unit(),
{
    let u = 0x1_0000_0000int;
    assert(unit() * unit() == 0x1_0000_0000_0000_0000int) by (nonlinear_arith)
        requires
            unit() == 0x1_0000_0000int,
    ;
    assert(size(unit()) == u);
    assert(truncated(a, unit()) == if a < 0 { -((-a) / u) } else { a / u });
    assert(truncated(b, unit()) == if b < 0 { -((-b) / u) } else { b / u });
}

/// Coordinates that are less than a cell apart lie in the same cell or in adjacent ones.
proof fn lemma_cells_close(x: Fixed, y: Fixed, distance: int, inv_cell_size: Fixed)
    requires
        x.raw <= y.raw <= x.raw + distance,
        0 <= inv_cell_size.raw,
        distance * inv_cell_size.raw <= unit() * unit(),
    ensures
        0 <= cell_axis(y, inv_cell_size) - cell_axis(x, inv_cell_size) <= 1,
{
    let i = inv_cell_size.raw as int;
    let (p, q) = (x.raw as int, y.raw as int);
    assert(q * i - p * i == (q - p) * i) by (nonlinear_arith);
    assert(0 <= (q - p) * i <= distance * i) by (nonlinear_arith)
        requires
            0 <= q - p <= distance,
            0 <= i,
    ;
    lemma_quotients_close(p * i, q * i);
}

/// The square of a difference, as it is rounded, is below that of a distance only if the
/// difference itself is below the distance.
proof fn lemma_square_below(d: int, distance: int)
    requires
        0 <= distance,
        truncated(d * d, unit()) < truncated(distance * distance, unit()),
    ensures
        -distance < d < distance,
{
    assert(0 <= d * d && 0 <= distance * distance) by (nonlinear_arith);
    let (x, y) = (d * d, distance * distance);
    assert(x / 0x1_0000_0000int < y / 0x1_0000_0000int);
    assert(x < y);
    assert(-distance < d < distance) by (nonlinear_arith)
        requires
            0 <= distance,
            d * d < distance * distance,
    ;
}

/// The rounded square of a number.
spec fn square(d: Fixed) -> Fixed {
    d.product(d)
}

proof fn lemma_square_positive(d: Fixed)
    ensures
        0 <= square(d).raw,
        square(d).raw < i64::MAX ==> square(d).raw == truncated(d.raw * d.raw, unit()),
{
    let r = d.raw as int;
    assert(0 <= r * r) by (nonlinear_arith);
    assert(0 <= (r * r) / 0x1_0000_0000int);
}

/// A coordinate whose rounded square is below the rounded square of the distance was less than
/// the distance away, and was not saturated.
proof fn lemma_coordinate_close(x: Fixed, y: Fixed, distance: Fixed)
    requires
        0 < distance.raw,
        square(y.difference(x)).raw < square(distance).raw,
    ensures
        -distance.raw < y.raw - x.raw < distance.raw,
{
    let d = y.difference(x);
    lemma_square_positive(d);
    lemma_square_positive(distance);
    let full = truncated(distance.raw * distance.raw, unit());
    assert(square(distance).raw <= full);
    lemma_square_below(d.raw as int, distance.raw as int);
}

/// Points that are found to be closer than `distance` lie in the same cell or in immediate
/// neighbors, if cells are no smaller than that.
pub proof fn close_rounded_points_are_in_reach(
    p: Vec3<Fixed>,
    q: Vec3<Fixed>,
    distance: Fixed,
    inv_cell_size: Fixed,
)
    requires
        0 < distance.raw,
        0 <= inv_cell_size.raw,
        distance.raw * inv_cell_size.raw <= unit() * unit(),
        q.difference(p).squared_length().less(distance.product(distance)),
    ensures
        in_reach(p, q, inv_cell_size),
{
    let o = q.difference(p);
    lemma_square_positive(o.x);
    lemma_square_positive(o.y);
    lemma_square_positive(o.z);
    lemma_coordinate_close(p.x, q.x, distance);
    lemma_coordinate_close(p.y, q.y, distance);
    lemma_coordinate_close(p.z, q.z, distance);
    lemma_axis_in_reach(p.x, q.x, distance, inv_cell_size);
    lemma_axis_in_reach(p.y, q.y, distance, inv_cell_size);
    lemma_axis_in_reach(p.z, q.z, distance, inv_cell_size);
}

proof fn lemma_axis_in_reach(x: Fixed, y: Fixed, distance: Fixed, inv_cell_size: Fixed)
    requires
        -distance.raw < y.raw - x.raw < distance.raw,
        0 <= inv_cell_size.raw,
        distance.raw * inv_cell_size.raw <= unit() * unit(),
    ensures
        adjacent(cell_axis(x, inv_cell_size), cell_axis(y, inv_cell_size)),
{
    if x.raw <= y.raw {
        lemma_cells_close(x, y, distance.raw as int, inv_cell_size);
    } else {
        lemma_cells_close(y, x, distance.raw as int, inv_cell_size);
    }
    adjacent_is_one_apart(cell_axis(x, inv_cell_size), cell_axis(y, inv_cell_size));
}

/// The reciprocal of a cell size, rounded as it is, makes no cell smaller than a distance that
/// the cell size is not below.
pub proof fn rounded_cells_fit_distance(distance: Fixed, cell_size: Fixed)
    requires
        0 < distance.raw <= cell_size.raw,
    ensures
        ({
            let inv_cell_size = Fixed::whole(1).quotient(cell_size);
            &&& 0 <= inv_cell_size.raw
            &&& distance.raw * inv_cell_size.raw <= unit() * unit()
        }),
{
    let c = cell_size.raw as int;
    assert(Fixed::whole(1).raw == unit());
    let n = unit() * unit();
    assert(n == 0x1_0000_0000_0000_0000int) by (nonlinear_arith)
        requires
            n == unit() * unit(),
            unit() == 0x1_0000_0000int,
    ;
    let i = n / c;
    assert(0 <= i && c * i <= n) by (nonlinear_arith)
        requires
            0 < c,
            0 <= n,
            i == n / c,
    ;
    assert(truncated(n, c) == i);
    let d = distance.raw as int;
    let inv = Fixed::whole(1).quotient(cell_size).raw as int;
    assert(0 <= inv <= i);
    assert(d * inv <= c * i) by (nonlinear_arith)
        requires
            0 < d <= c,
            0 <= inv <= i,
    ;
}

/// The contact distance of particles is positive where their radius is.
proof fn lemma_distance_positive(radius: Fixed)
    requires
        0 < radius.raw,
    ensures
        0 < Fixed::whole(2).product(radius).raw,
{
    let r = radius.raw as int;
    let two = Fixed::whole(2).raw as int;
    assert(two == 0x2_0000_0000int);
    assert(two * r == 0x2_0000_0000int * r) by (nonlinear_arith)
        requires
            two == 0x2_0000_0000int,
    ;
    let twice = 0x2_0000_0000int * r;
    assert(twice / 0x1_0000_0000int == 2 * r);
    assert(size(unit()) == 0x1_0000_0000int);
    assert(truncated(twice, unit()) == 2 * r);
}

/// In fixed point, a query of the grid yields every particle that is found to be closer than a
/// distance, if cells are no smaller than that, whatever is rounded.
pub proof fn rounded_queries_yield_all_close_particles(
    points: Seq<Vec3<Fixed>>,
    p: Vec3<Fixed>,
    j: usize,
    distance: Fixed,
    cell_size: Fixed,
)
    requires
        points.len() <= usize::MAX,
        0 < distance.raw <= cell_size.raw,
        j < points.len(),
        points[j as int].difference(p).squared_length().less(distance.product(distance)),
    ensures
        ({
            let inv_cell_size = Fixed::whole(1).quotient(cell_size);
            neighbors(cell_ids_of(points, inv_cell_size), p, inv_cell_size).contains(j)
        }),
{
    let inv_cell_size = Fixed::whole(1).quotient(cell_size);
    rounded_cells_fit_distance(distance, cell_size);
    close_rounded_points_are_in_reach(p, points[j as int], distance, inv_cell_size);
    neighbors_are_in_reach(points, p, inv_cell_size);
}

/// In fixed point, the contacts that a simulation finds are exactly the pairs that touch: the
/// broad phase misses none, whatever is rounded.
pub proof fn rounded_contacts_are_all_touching_pairs(points: Seq<Vec3<Fixed>>, radius: Fixed)
    requires
        points.len() <= usize::MAX,
        0 < radius.raw,
    ensures
        ({
            let distance = Fixed::whole(2).product(radius);
            let inv_cell_size = Fixed::whole(1).quotient(distance);
            let reach = distance.product(distance);
            forall|a: usize, b: usize|
                #[trigger] contact_pairs(points, inv_cell_size, reach).contains((a, b)) <==> a < b
                    && b < points.len() && touching(points[a as int], points[b as int], reach)
        }),
{
    let distance = Fixed::whole(2).product(radius);
    let inv_cell_size = Fixed::whole(1).quotient(distance);
    let reach = distance.product(distance);
    lemma_distance_positive(radius);
    rounded_cells_fit_distance(distance, distance);
    contact_pairs_are_contacts(points, inv_cell_size, reach);
    assert forall|a: usize, b: usize|
        #[trigger] contact_pairs(points, inv_cell_size, reach).contains((a, b)) <==> a < b && b
            < points.len() && touching(points[a as int], points[b as int], reach) by {
        if a < b && b < points.len() && touching(points[a as int], points[b as int], reach) {
            close_rounded_points_are_in_reach(
                points[a as int],
                points[b as int],
                distance,
                inv_cell_size,
            );
        }
    }
}

/// Whether no component is at an end of the range of the numbers.
pub open spec fn in_range(v: Vec3<Fixed>) -> bool {
    &&& i64::MIN < v.x.raw < i64::MAX
    &&& i64::MIN < v.y.raw < i64::MAX
    &&& i64::MIN < v.z.raw < i64::MAX
}

/// The sum of vectors, component by component and without saturation.
pub open spec fn raw_total(vectors: Seq<Vec3<Fixed>>) -> (int, int, int)
    decreases vectors.len(),
{
    if vectors.len() == 0 {
        (0, 0, 0)
    } else {
        let rest = raw_total(vectors.drop_last());
        let last = vectors.last();
        (rest.0 + last.x.raw, rest.1 + last.y.raw, rest.2 + last.z.raw)
    }
}

proof fn lemma_raw_total_update(vectors: Seq<Vec3<Fixed>>, i: int, v: Vec3<Fixed>)
    requires
        0 <= i < vectors.len(),
    ensures
        ({
            let before = raw_total(vectors);
            raw_total(vectors.update(i, v)) == (
                before.0 + v.x.raw - vectors[i].x.raw,
                before.1 + v.y.raw - vectors[i].y.raw,
                before.2 + v.z.raw - vectors[i].z.raw,
            )
        }),
    decreases vectors.len(),
{
    if i == vectors.len() - 1 {
        assert(vectors.update(i, v).drop_last() =~= vectors.drop_last());
    } else {
        lemma_raw_total_update(vectors.drop_last(), i, v);
        assert(vectors.update(i, v).drop_last() =~= vectors.drop_last().update(i, v));
    }
}

/// Whether no particle comes to an end of the range of the numbers while the listed pairs are
/// resolved.
pub open spec fn stays_in_range(state: State<Fixed>, pairs: Seq<(usize, usize)>) -> bool
    decreases pairs.len(),
{
    pairs.len() == 0 || {
        let after = state.pair_list_resolved(pairs);
        let (i, j) = (pairs.last().0 as int, pairs.last().1 as int);
        &&& stays_in_range(state, pairs.drop_last())
        &&& in_range(after.positions[i]) && in_range(after.positions[j])
        &&& in_range(after.velocities[i]) && in_range(after.velocities[j])
    }
}

proof fn lemma_pair_totals(state: State<Fixed>, i: int, j: int)
    requires
        state.positions.len() == state.velocities.len(),
        0 <= i < state.positions.len(),
        0 <= j < state.positions.len(),
        i != j,
        in_range(state.pair_resolved(i, j).positions[i]),
        in_range(state.pair_resolved(i, j).positions[j]),
        in_range(state.pair_resolved(i, j).velocities[i]),
        in_range(state.pair_resolved(i, j).velocities[j]),
    ensures
        raw_total(state.pair_resolved(i, j).velocities) == raw_total(state.velocities),
        raw_total(state.pair_resolved(i, j).positions) == raw_total(state.positions),
{
    let (ps, vs) = (state.positions, state.velocities);
    let after = state.pair_resolved(i, j);
    lemma_raw_total_update(ps, i, after.positions[i]);
    lemma_raw_total_update(ps.update(i, after.positions[i]), j, after.positions[j]);
    lemma_raw_total_update(vs, i, after.velocities[i]);
    lemma_raw_total_update(vs.update(i, after.velocities[i]), j, after.velocities[j]);
    assert(after.positions =~= ps.update(i, after.positions[i]).update(j, after.positions[j]));
    assert(after.velocities =~= vs.update(i, after.velocities[i]).update(j, after.velocities[j]));
}

proof fn lemma_list_totals(state: State<Fixed>, pairs: Seq<(usize, usize)>)
    requires
        state.positions.len() == state.velocities.len(),
        pairs_among(pairs, state.positions.len()),
        stays_in_range(state, pairs),
    ensures
        raw_total(state.pair_list_resolved(pairs).velocities) == raw_total(state.velocities),
        raw_total(state.pair_list_resolved(pairs).positions) == raw_total(state.positions),
        same_frame(state, state.pair_list_resolved(pairs)),
    decreases pairs.len(),
{
    if pairs.len() > 0 {
        let rest = pairs.drop_last();
        assert(pairs.last() == pairs[pairs.len() - 1]);
        assert forall|m: int| 0 <= m < rest.len() implies (#[trigger] rest[m]).0
            < state.positions.len() && rest[m].1 < state.positions.len() && rest[m].0
            != rest[m].1 by {
            assert(rest[m] == pairs[m]);
        }
        lemma_list_totals(state, rest);
        lemma_pair_totals(
            state.pair_list_resolved(rest),
            pairs.last().0 as int,
            pairs.last().1 as int,
        );
    }
}

/// In fixed point, the collisions of particles with each other keep momentum and center of mass
/// to the bit, as long as nothing saturates.
pub proof fn rounded_pairs_keep_momentum(state: State<Fixed>)
    requires
        countable(state),
        stays_in_range(state, state.contacts()),
    ensures
        raw_total(state.pairs_resolved().velocities) == raw_total(state.velocities),
        raw_total(state.pairs_resolved().positions) == raw_total(state.positions),
{
    contacts_among(state);
    lemma_list_totals(state, state.contacts());
}

/// Whether a coordinate is no further outside the interval from `lo` to `hi` than the interval is
/// long, and that length is in the range of the numbers.
pub open spec fn within_one_rounded_span(x: Fixed, lo: Fixed, hi: Fixed) -> bool {
    &&& lo.raw <= hi.raw
    &&& hi.raw - lo.raw <= i64::MAX
    &&& lo.raw - (hi.raw - lo.raw) <= x.raw <= hi.raw + (hi.raw - lo.raw)
}

/// In fixed point, the walls of a box bring a particle inside that overshot them by no more than
/// the space inside them is wide, and keep the magnitude of each component of its velocity.
pub proof fn rounded_box_walls_keep_inside(
    min: Vec3<Fixed>,
    max: Vec3<Fixed>,
    r: Fixed,
    p: Vec3<Fixed>,
    v: Vec3<Fixed>,
)
    requires
        ({
            let (lo, hi) = (Domain::Box { min, max }).center_corners(r);
            &&& within_one_rounded_span(p.x, lo.x, hi.x)
            &&& within_one_rounded_span(p.y, lo.y, hi.y)
            &&& within_one_rounded_span(p.z, lo.z, hi.z)
        }),
    ensures
        ({
            let domain = Domain::Box { min, max };
            let (pos, vel) = walled(domain, r, p, v);
            &&& domain.holds_center(pos, r)
            &&& walled(domain, r, pos, vel) == (pos, vel)
            &&& vel.x.magnitude() == v.x.magnitude()
            &&& vel.y.magnitude() == v.y.magnitude()
            &&& vel.z.magnitude() == v.z.magnitude()
        }),
{
}

/// A product that is rounded toward zero is no larger than its first factor, if the second is a
/// fraction of one, and grows with the second.
proof fn lemma_part(d: int, f: int, g: int)
    requires
        0 <= d,
        0 <= f <= g <= unit(),
    ensures
        0 <= truncated(d * f, unit()) <= truncated(d * g, unit()) <= d,
        0 <= truncated((-d) * f, unit()) + d,
        truncated((-d) * f, unit()) == -truncated(d * f, unit()),
        truncated((-d) * g, unit()) == -truncated(d * g, unit()),
        truncated(d * unit(), unit()) == d,
{
    let u = 0x1_0000_0000int;
    assert(0 <= d * f <= d * g <= d * unit()) by (nonlinear_arith)
        requires
            0 <= d,
            0 <= f <= g <= unit(),
    ;
    assert((-d) * f == -(d * f)) by (nonlinear_arith);
    assert((-d) * g == -(d * g)) by (nonlinear_arith);
    let (x, y, z) = (d * f, d * g, d * unit());
    assert(z == d * u) by (nonlinear_arith)
        requires
            z == d * unit(),
            unit() == u,
    ;
    assert(0 <= x / u <= y / u <= z / u && z / u == d);
    assert(size(unit()) == u);
    assert(truncated(x, unit()) == x / u);
    assert(truncated(y, unit()) == y / u);
    assert(truncated(z, unit()) == z / u);
    assert(truncated(-x, unit()) == -(x / u));
    assert(truncated(-y, unit()) == -(y / u));
}

proof fn lemma_tenths(n: i64)
    requires
        0 <= n <= 100,
    ensures
        Fixed::decimal(n, 1).raw == (n * 0x1_0000_0000int) / 10,
{
    reveal_with_fuel(power_of_ten, 2);
    assert(power_of_ten(1) == 10);
    let m = n * unit();
    assert(m == n * 0x1_0000_0000int) by (nonlinear_arith)
        requires
            m == n * unit(),
            unit() == 0x1_0000_0000int,
    ;
    assert(truncated(m, 10) == m / 10);
}

/// Once the piston rests, it is at zero and stays there, whatever is rounded.
pub proof fn rounded_resting_piston_stays_at_rest(cannon: Cannon<Fixed>, dt: Fixed, later: Fixed)
    requires
        cannon.rests_after(dt),
        0 <= later.raw,
    ensures
        ({
            let after = cannon.advanced(dt, swing_of(cannon.phase_after(dt)));
            &&& after.piston_offset.raw == 0
            &&& after.piston_vel.raw == 0
            &&& after.rests_after(later)
        }),
{
}

/// In fixed point, the piston never leaves its stroke.
pub proof fn rounded_piston_stays_in_stroke(cannon: Cannon<Fixed>, dt: Fixed)
    requires
        0 <= cannon.piston_stroke.raw,
    ensures
        0 <= cannon.advanced(dt, swing_of(cannon.phase_after(dt))).piston_offset.raw
            <= cannon.piston_stroke.raw,
{
    let cos = cannon.phase_after(dt).cosine();
    let one = Fixed::whole(1);
    assert(one.raw == unit());
    assert(-unit() <= cos.raw <= unit());
    let f = one.difference(cos).raw as int;
    assert(0 <= f <= 2 * unit());
    let s = cannon.piston_stroke.raw as int;
    assert(0 <= s * f <= s * (2 * unit())) by (nonlinear_arith)
        requires
            0 <= s,
            0 <= f <= 2 * unit(),
    ;
    let u = 0x1_0000_0000int;
    let (x, y) = (s * f, s * (2 * unit()));
    assert(y == 2 * s * u) by (nonlinear_arith)
        requires
            y == s * (2 * unit()),
            unit() == u,
    ;
    assert(0 <= x / u <= 2 * s);
    assert(size(unit()) == u);
    assert(truncated(x, unit()) == x / u);
    let swept = cannon.piston_stroke.product(one.difference(cos));
    let p = swept.raw as int;
    assert(0 <= p <= 2 * s);
    lemma_tenths(5);
    let half = Fixed::decimal(5, 1).raw as int;
    assert(half == 0x8000_0000int);
    assert(p * half == p * 0x8000_0000int) by (nonlinear_arith)
        requires
            half == 0x8000_0000int,
    ;
    let h = p * 0x8000_0000int;
    assert(0 <= h / u <= s);
    assert(truncated(h, unit()) == h / u);
}

/// In fixed point, the piston is never faster than `stroke * pi / period`.
pub proof fn rounded_piston_peak_velocity(cannon: Cannon<Fixed>, dt: Fixed)
    requires
        0 <= cannon.piston_stroke.raw,
        !cannon.rests_after(dt),
    ensures
        ({
            let peak = cannon.piston_stroke.product(pi_value()).quotient(cannon.piston_period);
            -peak.raw <= cannon.advanced(dt, swing_of(cannon.phase_after(dt))).piston_vel.raw
                <= peak.raw
        }),
{
    let sin = cannon.phase_after(dt).sine();
    assert(Fixed::whole(1).raw == unit());
    assert(-unit() <= sin.raw <= unit());
    reveal_with_fuel(power_of_ten, 17);
    let pi = pi_value::<Fixed>();
    assert(0 <= pi.raw);
    let (s, k) = (cannon.piston_stroke.raw as int, pi.raw as int);
    assert(0 <= s * k) by (nonlinear_arith)
        requires
            0 <= s,
            0 <= k,
    ;
    assert(0 <= (s * k) / 0x1_0000_0000int);
    let far = cannon.piston_stroke.product(pi);
    assert(0 <= far.raw);
    let (m, d) = (far.raw * unit(), cannon.piston_period.raw as int);
    assert(0 <= m / d) by (nonlinear_arith)
        requires
            0 <= m,
            0 < d,
    ;
    let peak = far.quotient(cannon.piston_period);
    assert(0 <= peak.raw);
    let q = sin.raw as int;
    let (p, g) = (peak.raw as int, size(q));
    lemma_part(p, g, g);
    assert(q < 0 ==> p * q == (-p) * g) by (nonlinear_arith)
        requires
            q < 0 ==> g == -q,
    ;
    assert(0 <= q ==> p * q == p * g);
}

/// Whether every channel is from zero to one.
pub open spec fn displayable(color: Color<Fixed>) -> bool {
    &&& 0 <= color.red.raw <= unit()
    &&& 0 <= color.green.raw <= unit()
    &&& 0 <= color.blue.raw <= unit()
}

proof fn lemma_blended_rounded(a: Fixed, b: Fixed, f: Fixed, g: Fixed)
    requires
        0 <= a.raw <= unit(),
        0 <= b.raw <= unit(),
        0 <= f.raw <= g.raw <= unit(),
    ensures
        between(a, blended(a, b, f), blended(a, b, g)),
        between(blended(a, b, f), blended(a, b, g), b),
        between(a, blended(a, b, f), b),
        f.raw == 0 ==> blended(a, b, f) == a,
        g.raw == unit() ==> blended(a, b, g) == b,
{
    let d = b.raw - a.raw;
    let n = size(d);
    lemma_part(n, f.raw as int, g.raw as int);
    assert(f.raw == 0 ==> n * f.raw == 0) by (nonlinear_arith);
    assert(truncated(0, unit()) == 0);
    assert(b.difference(a).raw == d);
}

/// The fraction of the way from blue to warm.
proof fn lemma_fraction_rounded(slow: Fixed, fast: Fixed)
    requires
        slow.raw <= fast.raw,
    ensures
        ({
            let top = Fixed::decimal(15, 1);
            let f = clamped(slow, Fixed::whole(0), top).quotient(top);
            let g = clamped(fast, Fixed::whole(0), top).quotient(top);
            &&& top.raw == 0x1_8000_0000
            &&& 0 <= f.raw <= g.raw <= unit()
            &&& slow.raw <= 0 ==> f.raw == 0
            &&& 0x1_8000_0000 <= fast.raw ==> g.raw == unit()
        }),
{
    lemma_tenths(15);
    let top = Fixed::decimal(15, 1);
    assert(top.raw == 0x1_8000_0000int);
    let x = clamped(slow, Fixed::whole(0), top).raw as int;
    let y = clamped(fast, Fixed::whole(0), top).raw as int;
    assert(0 <= x <= y <= 0x1_8000_0000int);
    let (m, n) = (x * unit(), y * unit());
    assert(m == x * 0x1_0000_0000int && n == y * 0x1_0000_0000int);
    assert(0 <= m / 0x1_8000_0000int <= n / 0x1_8000_0000int <= 0x1_0000_0000int);
    assert(truncated(m, 0x1_8000_0000int) == m / 0x1_8000_0000int);
    assert(truncated(n, 0x1_8000_0000int) == n / 0x1_8000_0000int);
}

/// In fixed point, the faster a particle, the further its color is from blue to warm: each
/// channel lies between its two ends and moves one way. It is blue at rest, and has the warm color
/// from one and a half times the reference speed on.
pub proof fn rounded_colors_move_one_way(slow: Fixed, fast: Fixed, warm: Color<Fixed>)
    requires
        slow.raw <= fast.raw,
        displayable(warm),
    ensures
        color_between(cool(), ramp(slow, warm), ramp(fast, warm)),
        color_between(ramp(slow, warm), ramp(fast, warm), warm),
        color_between(cool(), ramp(slow, warm), warm),
        slow.raw <= 0 ==> ramp(slow, warm) == cool::<Fixed>(),
        Fixed::decimal(15, 1).raw <= fast.raw ==> ramp(fast, warm) == warm,
{
    lemma_fraction_rounded(slow, fast);
    lemma_tenths(1);
    lemma_tenths(3);
    let top = Fixed::decimal(15, 1);
    let f = clamped(slow, Fixed::whole(0), top).quotient(top);
    let g = clamped(fast, Fixed::whole(0), top).quotient(top);
    let cool = cool::<Fixed>();
    assert(cool.red.raw == 429_496_729);
    assert(cool.green.raw == 1_288_490_188);
    assert(cool.blue.raw == unit());
    lemma_blended_rounded(cool.red, warm.red, f, g);
    lemma_blended_rounded(cool.green, warm.green, f, g);
    lemma_blended_rounded(cool.blue, warm.blue, f, g);
}

} // verus!
