//! Why testing neighboring cells is enough: laws of the broad phase, stated of real numbers.

use vstd::prelude::*;

use crate::contacts::{contact_pairs, contact_pairs_are_contacts, touching};
use crate::exact::Exact;
use crate::geometry::quotient_times;
use crate::grid::{
    cell_axis,
    cell_ids_of,
    neighbors,
    overlapping,
    power_from,
    span_of,
    table_size_for,
};
use crate::neighborhood::{
    adjacent_is_one_apart,
    block_members,
    covers,
    in_reach,
    neighbors_are_in_reach,
    packed_ids_agree,
};
use crate::scalar::Number;
use crate::simulation::State;
use crate::vector::Vec3;

verus! {

/// Coordinates less than a cell apart lie in the same cell or in adjacent ones.
proof fn lemma_cells_adjacent(x: Exact, y: Exact, distance: real, inv_cell_size: Exact)
    requires
        -distance < y.value - x.value < distance,
        0real < inv_cell_size.value,
        distance * inv_cell_size.value <= 1real,
    ensures
        -1 <= cell_axis(x, inv_cell_size) - cell_axis(y, inv_cell_size) <= 1,
{
    let (a, b, d, s) = (x.value, y.value, distance, inv_cell_size.value);
    assert(-1real < b * s - a * s < 1real) by (nonlinear_arith)
        requires
            -d < b - a < d,
            0real < s,
            d * s <= 1real,
    {
        assert(b * s - a * s == (b - a) * s);
        assert((b - a) * s < d * s);
        assert((-d) * s < (b - a) * s);
        assert((-d) * s == -(d * s));
    }
}

/// A coordinate of a vector is no longer than the vector.
proof fn lemma_coordinate_below(c: real, rest: real, d: real)
    requires
        0real <= rest,
        c * c + rest < d * d,
        0real < d,
    ensures
        -d < c < d,
{
    assert(-d < c < d) by (nonlinear_arith)
        requires
            c * c < d * d,
            0real < d,
    ;
}

/// If cells are no smaller than `distance`, points closer than that lie in the same cell or in
/// immediate neighbors.
pub proof fn close_points_are_in_reach(
    p: Vec3<Exact>,
    q: Vec3<Exact>,
    distance: Exact,
    inv_cell_size: Exact,
)
    requires
        0real < distance.value,
        0real < inv_cell_size.value,
        distance.value * inv_cell_size.value <= 1real,
        q.difference(p).squared_length().value < distance.value * distance.value,
    ensures
        in_reach(p, q, inv_cell_size),
{
    let o = q.difference(p);
    let (x, y, z) = (o.x.value, o.y.value, o.z.value);
    let d = distance.value;
    assert(0real <= x * x && 0real <= y * y && 0real <= z * z) by (nonlinear_arith);
    lemma_coordinate_below(x, y * y + z * z, d);
    lemma_coordinate_below(y, x * x + z * z, d);
    lemma_coordinate_below(z, x * x + y * y, d);
    lemma_cells_adjacent(p.x, q.x, d, inv_cell_size);
    lemma_cells_adjacent(p.y, q.y, d, inv_cell_size);
    lemma_cells_adjacent(p.z, q.z, d, inv_cell_size);
    adjacent_is_one_apart(cell_axis(p.x, inv_cell_size), cell_axis(q.x, inv_cell_size));
    adjacent_is_one_apart(cell_axis(p.y, inv_cell_size), cell_axis(q.y, inv_cell_size));
    adjacent_is_one_apart(cell_axis(p.z, inv_cell_size), cell_axis(q.z, inv_cell_size));
}

/// If cells are no smaller than the contact distance, the contacts are exactly the pairs that
/// touch: the broad phase misses none.
pub proof fn contacts_are_all_touching_pairs(
    points: Seq<Vec3<Exact>>,
    distance: Exact,
    inv_cell_size: Exact,
)
    requires
        points.len() <= usize::MAX,
        0real < distance.value,
        0real < inv_cell_size.value,
        distance.value * inv_cell_size.value <= 1real,
    ensures
        forall|a: usize, b: usize|
            #[trigger] contact_pairs(
                points,
                inv_cell_size,
                distance.product(distance),
            ).contains((a, b)) <==> a < b && b < points.len() && touching(
                points[a as int],
                points[b as int],
                distance.product(distance),
            ),
{
    let reach = distance.product(distance);
    contact_pairs_are_contacts(points, inv_cell_size, reach);
    assert forall|a: usize, b: usize|
        #[trigger] contact_pairs(points, inv_cell_size, reach).contains((a, b)) <==> a < b && b
            < points.len() && touching(points[a as int], points[b as int], reach) by {
        if a < b && b < points.len() && touching(points[a as int], points[b as int], reach) {
            close_points_are_in_reach(
                points[a as int],
                points[b as int],
                distance,
                inv_cell_size,
            );
        }
    }
}

/// The cells that a simulation is made with are no smaller than the contact distance of its
/// particles.
pub proof fn cells_fit_particles(radius: Exact)
    requires
        0real < radius.value,
    ensures
        ({
            let distance = Exact::whole(2).product(radius);
            let inv_cell_size = Exact::whole(1).quotient(distance);
            &&& 0real < distance.value
            &&& 0real < inv_cell_size.value
            &&& distance.value * inv_cell_size.value <= 1real
        }),
{
    let d = 2real * radius.value;
    quotient_times(1real, d);
    let s = 1real / d;
    assert(0real < s) by (nonlinear_arith)
        requires
            0real < d,
            s * d == 1real,
    ;
    assert(d * s == s * d) by (nonlinear_arith);
}

/// A larger coordinate does not lie in a lower cell.
proof fn lemma_cells_ordered(x: Exact, y: Exact, inv_cell_size: Exact)
    requires
        x.value <= y.value,
        0real < inv_cell_size.value,
    ensures
        cell_axis(x, inv_cell_size) <= cell_axis(y, inv_cell_size),
{
    let (a, b, s) = (x.value, y.value, inv_cell_size.value);
    assert(a * s <= b * s) by (nonlinear_arith)
        requires
            a <= b,
            0real < s,
    ;
}

proof fn lemma_covered(x: int, n: nat, c: int)
    requires
        x <= c < x + n,
    ensures
        covers(x, n, c),
    decreases n,
{
    if c < x + n - 1 {
        lemma_covered(x, (n - 1) as nat, c);
    }
}

/// Every particle that touches a body is among the candidates for a collision with it.
pub proof fn touching_particles_are_candidates(state: State<Exact>, b: int, j: usize)
    requires
        state.positions.len() <= usize::MAX,
        0real < state.inv_cell_size.value,
        0real < state.body_distance(b).value,
        j < state.positions.len(),
        state.positions[j as int].difference(state.bodies[b].pos).squared_length().value
            < state.body_distance(b).value * state.body_distance(b).value,
    ensures
        state.body_candidates(
            cell_ids_of(state.positions, state.inv_cell_size),
            b,
        ).contains(j),
{
    let s = state.inv_cell_size;
    let ids = cell_ids_of(state.positions, s);
    let p = state.positions[j as int];
    let center = state.bodies[b].pos;
    let o = p.difference(center);
    let (x, y, z) = (o.x.value, o.y.value, o.z.value);
    let d = state.body_distance(b).value;
    assert(0real <= x * x && 0real <= y * y && 0real <= z * z) by (nonlinear_arith);
    lemma_coordinate_below(x, y * y + z * z, d);
    lemma_coordinate_below(y, x * x + z * z, d);
    lemma_coordinate_below(z, x * x + y * y, d);
    let pad = Vec3::splatted(state.body_distance(b));
    let lo = center.difference(pad);
    let hi = center.sum(pad);
    lemma_cells_ordered(lo.x, p.x, s);
    lemma_cells_ordered(lo.y, p.y, s);
    lemma_cells_ordered(lo.z, p.z, s);
    lemma_cells_ordered(p.x, hi.x, s);
    lemma_cells_ordered(p.y, hi.y, s);
    lemma_cells_ordered(p.z, hi.z, s);
    let (cx, cy, cz) = (cell_axis(p.x, s), cell_axis(p.y, s), cell_axis(p.z, s));
    let (lx, ly, lz) = (cell_axis(lo.x, s), cell_axis(lo.y, s), cell_axis(lo.z, s));
    let nx = span_of(lx, cell_axis(hi.x, s));
    let ny = span_of(ly, cell_axis(hi.y, s));
    let nz = span_of(lz, cell_axis(hi.z, s));
    lemma_covered(lx, nx, cx);
    lemma_covered(ly, ny, cy);
    lemma_covered(lz, nz, cz);
    packed_ids_agree((cx, cy, cz), (cx, cy, cz));
    block_members(ids, lx, ly, lz, nx, ny, nz, j, (cx, cy, cz));
}

/// Whether `n` is a power of two.
pub open spec fn is_power_of_two(n: nat) -> bool
    decreases n,
{
    n == 1 || (n > 1 && n % 2 == 0 && is_power_of_two(n / 2))
}

proof fn lemma_power_from(least: nat, p: nat)
    requires
        is_power_of_two(p),
        p < 2 * least,
    ensures
        is_power_of_two(power_from(least, p)),
        least <= power_from(least, p) < 2 * least,
    decreases 2 * least - p,
{
    if p < least {
        assert((2 * p) / 2 == p);
        lemma_power_from(least, 2 * p);
    }
}

/// The table has a power of two of slots, at least two for each particle and, beyond the
/// smallest table, fewer than four.
pub proof fn table_size_bounds(n: nat)
    ensures
        is_power_of_two(table_size_for(n)),
        2 * n <= table_size_for(n),
        16 <= table_size_for(n),
        8 <= n ==> table_size_for(n) < 4 * n,
        n <= 8 ==> table_size_for(n) == 16,
{
    let least = 2 * if n > 8 {
        n
    } else {
        8nat
    };
    lemma_power_from(least, 1);
    if n <= 8 {
        reveal_with_fuel(power_from, 6);
    }
}

/// Whether a coordinate lies in a cell that the grid tells apart from all others: `2^20` cells to
/// either side of zero.
pub open spec fn told_apart(x: Exact, inv_cell_size: Exact) -> bool {
    -1_048_575real <= x.value * inv_cell_size.value < 1_048_575real
}

/// Whether a point lies in a cell that the grid tells apart from all others.
pub open spec fn point_told_apart(p: Vec3<Exact>, inv_cell_size: Exact) -> bool {
    &&& told_apart(p.x, inv_cell_size)
    &&& told_apart(p.y, inv_cell_size)
    &&& told_apart(p.z, inv_cell_size)
}

/// The number of the cell that a coordinate lies in.
pub open spec fn cell_of(x: Exact, inv_cell_size: Exact) -> int {
    (x.value * inv_cell_size.value).floor()
}

proof fn lemma_cell_of(x: Exact, inv_cell_size: Exact)
    requires
        told_apart(x, inv_cell_size),
    ensures
        cell_axis(x, inv_cell_size) == cell_of(x, inv_cell_size),
        -0x10_0000 < cell_of(x, inv_cell_size) < 0x10_0000,
{
}

/// A query of the grid yields exactly the particles whose cells are at most one apart along every
/// axis from that of the point, each once.
pub proof fn queries_yield_the_cells_around(
    points: Seq<Vec3<Exact>>,
    p: Vec3<Exact>,
    s: Exact,
    j: usize,
)
    requires
        points.len() <= usize::MAX,
        point_told_apart(p, s),
        j < points.len() ==> point_told_apart(points[j as int], s),
    ensures
        ({
            let found = neighbors(cell_ids_of(points, s), p, s);
            let q = points[j as int];
            &&& found.contains(j) <==> j < points.len() && -1 <= cell_of(q.x, s) - cell_of(p.x, s)
                <= 1 && -1 <= cell_of(q.y, s) - cell_of(p.y, s) <= 1 && -1 <= cell_of(q.z, s)
                - cell_of(p.z, s) <= 1
            &&& found.no_duplicates()
        }),
{
    neighbors_are_in_reach(points, p, s);
    let found = neighbors(cell_ids_of(points, s), p, s);
    assert(found.contains(j) || !found.contains(j));
    if j < points.len() {
        let q = points[j as int];
        lemma_cell_of(p.x, s);
        lemma_cell_of(p.y, s);
        lemma_cell_of(p.z, s);
        lemma_cell_of(q.x, s);
        lemma_cell_of(q.y, s);
        lemma_cell_of(q.z, s);
        adjacent_is_one_apart(cell_axis(p.x, s), cell_axis(q.x, s));
        adjacent_is_one_apart(cell_axis(p.y, s), cell_axis(q.y, s));
        adjacent_is_one_apart(cell_axis(p.z, s), cell_axis(q.z, s));
    }
}

proof fn lemma_covers_only(x: int, n: nat, c: int)
    requires
        -0x10_0000 <= x,
        x + n <= 0x10_0000,
        -0x10_0000 <= c < 0x10_0000,
    ensures
        covers(x, n, c) <==> x <= c < x + n,
    decreases n,
{
    if n > 0 {
        lemma_covers_only(x, (n - 1) as nat, c);
    }
}

/// A query for a box yields exactly the particles whose cells lie between those of its corners
/// along every axis.
pub proof fn box_queries_yield_the_cells_between(
    points: Seq<Vec3<Exact>>,
    lo: Vec3<Exact>,
    hi: Vec3<Exact>,
    s: Exact,
    j: usize,
)
    requires
        points.len() <= usize::MAX,
        j < points.len(),
        point_told_apart(lo, s),
        point_told_apart(hi, s),
        point_told_apart(points[j as int], s),
    ensures
        ({
            let q = points[j as int];
            overlapping(cell_ids_of(points, s), lo, hi, s).contains(j) <==> cell_of(lo.x, s)
                <= cell_of(q.x, s) <= cell_of(hi.x, s) && cell_of(lo.y, s) <= cell_of(q.y, s)
                <= cell_of(hi.y, s) && cell_of(lo.z, s) <= cell_of(q.z, s) <= cell_of(hi.z, s)
        }),
{
    let q = points[j as int];
    lemma_cell_of(lo.x, s);
    lemma_cell_of(lo.y, s);
    lemma_cell_of(lo.z, s);
    lemma_cell_of(hi.x, s);
    lemma_cell_of(hi.y, s);
    lemma_cell_of(hi.z, s);
    lemma_cell_of(q.x, s);
    lemma_cell_of(q.y, s);
    lemma_cell_of(q.z, s);
    let (x, y, z) = (cell_of(lo.x, s), cell_of(lo.y, s), cell_of(lo.z, s));
    let nx = span_of(x, cell_of(hi.x, s));
    let ny = span_of(y, cell_of(hi.y, s));
    let nz = span_of(z, cell_of(hi.z, s));
    let c = (cell_of(q.x, s), cell_of(q.y, s), cell_of(q.z, s));
    let ids = cell_ids_of(points, s);
    packed_ids_agree(c, c);
    block_members(ids, x, y, z, nx, ny, nz, j, c);
    lemma_covers_only(x, nx, c.0);
    lemma_covers_only(y, ny, c.1);
    lemma_covers_only(z, nz, c.2);
}

} // verus!
