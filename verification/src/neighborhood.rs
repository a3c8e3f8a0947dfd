//! What the queries of the grid contain: laws of [`crate::grid`].

use vstd::prelude::*;

use crate::grid::{axis_code, cell_axis, cell_ids_of, in_block, in_cell, in_row, in_slab, neighbors, packed};
use crate::scalar::Number;
use crate::vector::Vec3;

verus! {

/// Whether the cell coordinate `c` has the code of one of the `n` coordinates from `x` on.
pub open spec fn covers(x: int, n: nat, c: int) -> bool
    decreases n,
{
    n > 0 && (covers(x, (n - 1) as nat, c) || axis_code(x + n - 1) == axis_code(c))
}

/// Whether the cell coordinates `a` and `b` are at most one apart, up to a multiple of `2^21`.
pub open spec fn adjacent(a: int, b: int) -> bool {
    covers(a - 1, 3, b)
}

/// Whether the cells of two points are the same or immediate neighbors.
pub open spec fn in_reach<S: Number>(p: Vec3<S>, q: Vec3<S>, inv_cell_size: S) -> bool {
    &&& adjacent(cell_axis(p.x, inv_cell_size), cell_axis(q.x, inv_cell_size))
    &&& adjacent(cell_axis(p.y, inv_cell_size), cell_axis(q.y, inv_cell_size))
    &&& adjacent(cell_axis(p.z, inv_cell_size), cell_axis(q.z, inv_cell_size))
}

/// Two cells have the same packed id exactly if their codes agree on every axis.
pub proof fn packed_ids_agree(a: (int, int, int), b: (int, int, int))
    ensures
        packed(a.0, a.1, a.2) == packed(b.0, b.1, b.2) <==> axis_code(a.0) == axis_code(b.0)
            && axis_code(a.1) == axis_code(b.1) && axis_code(a.2) == axis_code(b.2),
        0 <= packed(a.0, a.1, a.2) <= u64::MAX,
{
}

/// Cells with coordinates in `[-2^20, 2^20)` have different packed ids.
pub proof fn packed_ids_differ(a: (int, int, int), b: (int, int, int))
    requires
        -0x10_0000 <= a.0 < 0x10_0000,
        -0x10_0000 <= a.1 < 0x10_0000,
        -0x10_0000 <= a.2 < 0x10_0000,
        -0x10_0000 <= b.0 < 0x10_0000,
        -0x10_0000 <= b.1 < 0x10_0000,
        -0x10_0000 <= b.2 < 0x10_0000,
        packed(a.0, a.1, a.2) == packed(b.0, b.1, b.2),
    ensures
        a == b,
{
    packed_ids_agree(a, b);
}

/// Cell coordinates less than `2^21 - 1` apart are adjacent exactly if they differ by at most
/// one.
pub proof fn adjacent_is_one_apart(a: int, b: int)
    requires
        -0x1F_FFFF < a - b < 0x1F_FFFF,
    ensures
        adjacent(a, b) <==> -1 <= a - b <= 1,
{
    reveal_with_fuel(covers, 4);
}

/// Adjacency of cell coordinates does not depend on their order.
pub proof fn adjacent_is_symmetric(a: int, b: int)
    ensures
        adjacent(a, b) == adjacent(b, a),
{
    reveal_with_fuel(covers, 4);
}

/// The particles of a cell are those with its id, in strictly ascending order.
pub proof fn cell_members(ids: Seq<u64>, id: u64)
    requires
        ids.len() <= usize::MAX,
    ensures
        forall|i: usize|
            #[trigger] in_cell(ids, id).contains(i) <==> i < ids.len() && ids[i as int] == id,
        forall|j: int, k: int|
            0 <= j < k < in_cell(ids, id).len() ==> in_cell(ids, id)[j] < in_cell(ids, id)[k],
    decreases ids.len(),
{
    let all = in_cell(ids, id);
    if ids.len() > 0 {
        let rest = in_cell(ids.drop_last(), id);
        let last = (ids.len() - 1) as usize;
        cell_members(ids.drop_last(), id);
        assert forall|j: int, k: int| 0 <= j < k < all.len() implies all[j] < all[k] by {
            if k == rest.len() {
                assert(rest.contains(rest[j]));
            }
        }
        assert forall|i: usize| #[trigger] all.contains(i) <==> i < ids.len() && ids[i as int]
            == id by {
            if all.contains(i) {
                let k = all.index_of(i);
                if k < rest.len() {
                    assert(rest[k] == i);
                    assert(rest.contains(i));
                }
            }
            if i < ids.len() && ids[i as int] == id {
                if i == last {
                    assert(all[all.len() - 1] == i);
                } else {
                    assert(rest.contains(i));
                    let k = rest.index_of(i);
                    assert(all[k] == i);
                }
            }
        }
    }
}

proof fn lemma_contains_concat(s: Seq<usize>, t: Seq<usize>, i: usize)
    ensures
        (s + t).contains(i) <==> s.contains(i) || t.contains(i),
{
    if s.contains(i) {
        let k = s.index_of(i);
        assert((s + t)[k] == i);
    }
    if t.contains(i) {
        let k = t.index_of(i);
        assert((s + t)[s.len() + k] == i);
    }
}

proof fn lemma_distinct_concat(s: Seq<usize>, t: Seq<usize>)
    requires
        s.no_duplicates(),
        t.no_duplicates(),
        forall|i: usize| !(s.contains(i) && #[trigger] t.contains(i)),
    ensures
        (s + t).no_duplicates(),
{
    let u = s + t;
    assert forall|j: int, k: int| 0 <= j < u.len() && 0 <= k < u.len() && j != k implies u[j]
        != u[k] by {
        if j < s.len() && k >= s.len() {
            assert(s.contains(s[j]) && t[k - s.len()] == u[k]);
            assert(t.contains(u[k]));
        } else if k < s.len() && j >= s.len() {
            assert(s.contains(s[k]) && t[j - s.len()] == u[j]);
            assert(t.contains(u[j]));
        }
    }
}

proof fn lemma_row_members(ids: Seq<u64>, x: int, y: int, z: int, n: nat, i: usize, c: (int, int, int))
    requires
        ids.len() <= usize::MAX,
        i < ids.len() ==> ids[i as int] == packed(c.0, c.1, c.2),
    ensures
        in_row(ids, x, y, z, n).contains(i) <==> i < ids.len() && covers(x, n, c.0) && axis_code(y)
            == axis_code(c.1) && axis_code(z) == axis_code(c.2),
    decreases n,
{
    if n > 0 {
        let here = (x + n - 1, y, z);
        lemma_row_members(ids, x, y, z, (n - 1) as nat, i, c);
        cell_members(ids, packed(here.0, y, z) as u64);
        packed_ids_agree(here, c);
        lemma_contains_concat(
            in_row(ids, x, y, z, (n - 1) as nat),
            in_cell(ids, packed(here.0, y, z) as u64),
            i,
        );
    }
}

proof fn lemma_slab_members(
    ids: Seq<u64>,
    x: int,
    y: int,
    z: int,
    nx: nat,
    ny: nat,
    i: usize,
    c: (int, int, int),
)
    requires
        ids.len() <= usize::MAX,
        i < ids.len() ==> ids[i as int] == packed(c.0, c.1, c.2),
    ensures
        in_slab(ids, x, y, z, nx, ny).contains(i) <==> i < ids.len() && covers(x, nx, c.0)
            && covers(y, ny, c.1) && axis_code(z) == axis_code(c.2),
    decreases ny,
{
    if ny > 0 {
        lemma_slab_members(ids, x, y, z, nx, (ny - 1) as nat, i, c);
        lemma_row_members(ids, x, y + ny - 1, z, nx, i, c);
        lemma_contains_concat(
            in_slab(ids, x, y, z, nx, (ny - 1) as nat),
            in_row(ids, x, y + ny - 1, z, nx),
            i,
        );
    }
}

/// A block of cells holds particle `i`, whose cell is `c`, exactly if the block covers `c` on
/// every axis.
pub proof fn block_members(
    ids: Seq<u64>,
    x: int,
    y: int,
    z: int,
    nx: nat,
    ny: nat,
    nz: nat,
    i: usize,
    c: (int, int, int),
)
    requires
        ids.len() <= usize::MAX,
        i < ids.len() ==> ids[i as int] == packed(c.0, c.1, c.2),
    ensures
        in_block(ids, x, y, z, nx, ny, nz).contains(i) <==> i < ids.len() && covers(x, nx, c.0)
            && covers(y, ny, c.1) && covers(z, nz, c.2),
    decreases nz,
{
    if nz > 0 {
        block_members(ids, x, y, z, nx, ny, (nz - 1) as nat, i, c);
        lemma_slab_members(ids, x, y, z + nz - 1, nx, ny, i, c);
        lemma_contains_concat(
            in_block(ids, x, y, z, nx, ny, (nz - 1) as nat),
            in_slab(ids, x, y, z + nz - 1, nx, ny),
            i,
        );
    }
}

/// A coordinate behind fewer than `2^21` others is not covered by them.
proof fn lemma_not_covered(x: int, n: nat, m: nat)
    requires
        n <= m < 0x20_0000,
    ensures
        !covers(x, n, x + m),
    decreases n,
{
    if n > 0 {
        lemma_not_covered(x, (n - 1) as nat, m);
    }
}

proof fn lemma_covers_code(x: int, n: nat, a: int, b: int)
    requires
        axis_code(a) == axis_code(b),
    ensures
        covers(x, n, a) == covers(x, n, b),
    decreases n,
{
    if n > 0 {
        lemma_covers_code(x, (n - 1) as nat, a, b);
    }
}

/// The coordinates of a cell with the given id.
spec fn unpacked(id: u64) -> (int, int, int) {
    (
        id as int % 0x20_0000 - 0x10_0000,
        id as int / 0x20_0000 % 0x20_0000 - 0x10_0000,
        id as int / 0x400_0000_0000 - 0x10_0000,
    )
}

/// Whether every id is that of some cell.
pub open spec fn cell_numbers(ids: Seq<u64>) -> bool {
    forall|i: int| 0 <= i < ids.len() ==> #[trigger] ids[i] < 0x8000_0000_0000_0000
}

proof fn lemma_unpacked(id: u64)
    requires
        id < 0x8000_0000_0000_0000,
    ensures
        id == packed(unpacked(id).0, unpacked(id).1, unpacked(id).2),
{
    let n = id as int;
    let (x, y, z) = unpacked(id);
    assert(0 <= n / 0x400_0000_0000 < 0x20_0000);
    assert(n / 0x20_0000 / 0x20_0000 == n / 0x400_0000_0000);
    assert(axis_code(x) == n % 0x20_0000);
    assert(axis_code(y) == n / 0x20_0000 % 0x20_0000);
    assert(axis_code(z) == n / 0x400_0000_0000);
}

proof fn lemma_row_distinct(ids: Seq<u64>, x: int, y: int, z: int, n: nat)
    requires
        ids.len() <= usize::MAX,
        cell_numbers(ids),
        n <= 0x20_0000,
    ensures
        in_row(ids, x, y, z, n).no_duplicates(),
    decreases n,
{
    if n > 0 {
        let rest = in_row(ids, x, y, z, (n - 1) as nat);
        let id = packed(x + n - 1, y, z) as u64;
        lemma_row_distinct(ids, x, y, z, (n - 1) as nat);
        cell_members(ids, id);
        assert forall|i: usize| !(rest.contains(i) && #[trigger] in_cell(ids, id).contains(i)) by {
            if i < ids.len() && ids[i as int] == id {
                packed_ids_agree((x + n - 1, y, z), (x + n - 1, y, z));
                lemma_row_members(ids, x, y, z, (n - 1) as nat, i, (x + n - 1, y, z));
                lemma_not_covered(x, (n - 1) as nat, (n - 1) as nat);
            }
        }
        lemma_distinct_concat(rest, in_cell(ids, id));
    }
}

proof fn lemma_slab_distinct(ids: Seq<u64>, x: int, y: int, z: int, nx: nat, ny: nat)
    requires
        ids.len() <= usize::MAX,
        cell_numbers(ids),
        nx <= 0x20_0000,
        ny <= 0x20_0000,
    ensures
        in_slab(ids, x, y, z, nx, ny).no_duplicates(),
    decreases ny,
{
    if ny > 0 {
        let rest = in_slab(ids, x, y, z, nx, (ny - 1) as nat);
        let row = in_row(ids, x, y + ny - 1, z, nx);
        lemma_slab_distinct(ids, x, y, z, nx, (ny - 1) as nat);
        lemma_row_distinct(ids, x, y + ny - 1, z, nx);
        assert forall|i: usize| !(rest.contains(i) && #[trigger] row.contains(i)) by {
            if i < ids.len() {
                let c = unpacked(ids[i as int]);
                lemma_unpacked(ids[i as int]);
                lemma_row_members(ids, x, y + ny - 1, z, nx, i, c);
                lemma_slab_members(ids, x, y, z, nx, (ny - 1) as nat, i, c);
                lemma_not_covered(y, (ny - 1) as nat, (ny - 1) as nat);
                if axis_code(y + ny - 1) == axis_code(c.1) {
                    lemma_covers_code(y, (ny - 1) as nat, y + ny - 1, c.1);
                }
            } else {
                lemma_row_members(ids, x, y + ny - 1, z, nx, i, (0, 0, 0));
            }
        }
        lemma_distinct_concat(rest, row);
    }
}

/// A block of at most `2^21` cells per axis yields each particle at most once.
pub proof fn block_is_distinct(
    ids: Seq<u64>,
    x: int,
    y: int,
    z: int,
    nx: nat,
    ny: nat,
    nz: nat,
)
    requires
        ids.len() <= usize::MAX,
        cell_numbers(ids),
        nx <= 0x20_0000,
        ny <= 0x20_0000,
        nz <= 0x20_0000,
    ensures
        in_block(ids, x, y, z, nx, ny, nz).no_duplicates(),
    decreases nz,
{
    if nz > 0 {
        let rest = in_block(ids, x, y, z, nx, ny, (nz - 1) as nat);
        let slab = in_slab(ids, x, y, z + nz - 1, nx, ny);
        block_is_distinct(ids, x, y, z, nx, ny, (nz - 1) as nat);
        lemma_slab_distinct(ids, x, y, z + nz - 1, nx, ny);
        assert forall|i: usize| !(rest.contains(i) && #[trigger] slab.contains(i)) by {
            if i < ids.len() {
                let c = unpacked(ids[i as int]);
                lemma_unpacked(ids[i as int]);
                lemma_slab_members(ids, x, y, z + nz - 1, nx, ny, i, c);
                block_members(ids, x, y, z, nx, ny, (nz - 1) as nat, i, c);
                lemma_not_covered(z, (nz - 1) as nat, (nz - 1) as nat);
                if axis_code(z + nz - 1) == axis_code(c.2) {
                    lemma_covers_code(z, (nz - 1) as nat, z + nz - 1, c.2);
                }
            } else {
                lemma_slab_members(ids, x, y, z + nz - 1, nx, ny, i, (0, 0, 0));
            }
        }
        lemma_distinct_concat(rest, slab);
    }
}

/// A grid without particles yields none.
pub proof fn empty_grid_has_no_neighbors<S: Number>(p: Vec3<S>, inv_cell_size: S)
    ensures
        neighbors(Seq::empty(), p, inv_cell_size) == Seq::<usize>::empty(),
{
    let points = Seq::<Vec3<S>>::empty();
    let found = neighbors(Seq::<u64>::empty(), p, inv_cell_size);
    assert(cell_ids_of(points, inv_cell_size) =~= Seq::<u64>::empty());
    neighbors_are_in_reach(points, p, inv_cell_size);
    if found.len() > 0 {
        assert(found.contains(found[0]));
    }
}

/// The neighborhood of `p` yields exactly the particles in reach of `p`, each once.
pub proof fn neighbors_are_in_reach<S: Number>(points: Seq<Vec3<S>>, p: Vec3<S>, inv_cell_size: S)
    requires
        points.len() <= usize::MAX,
    ensures
        forall|i: usize|
            #[trigger] neighbors(cell_ids_of(points, inv_cell_size), p, inv_cell_size).contains(i)
                <==> i < points.len() && in_reach(p, points[i as int], inv_cell_size),
        neighbors(cell_ids_of(points, inv_cell_size), p, inv_cell_size).no_duplicates(),
{
    let ids = cell_ids_of(points, inv_cell_size);
    let (x, y, z) = (
        cell_axis(p.x, inv_cell_size) - 1,
        cell_axis(p.y, inv_cell_size) - 1,
        cell_axis(p.z, inv_cell_size) - 1,
    );
    assert forall|i: int| 0 <= i < ids.len() implies #[trigger] ids[i] < 0x8000_0000_0000_0000 by {
        let q = points[i];
        let c = (
            cell_axis(q.x, inv_cell_size),
            cell_axis(q.y, inv_cell_size),
            cell_axis(q.z, inv_cell_size),
        );
        assert(0 <= packed(c.0, c.1, c.2) < 0x8000_0000_0000_0000);
    }
    block_is_distinct(ids, x, y, z, 3, 3, 3);
    assert forall|i: usize|
        #[trigger] neighbors(ids, p, inv_cell_size).contains(i) <==> i < points.len() && in_reach(
            p,
            points[i as int],
            inv_cell_size,
        ) by {
        let q = points[i as int];
        let c = (
            cell_axis(q.x, inv_cell_size),
            cell_axis(q.y, inv_cell_size),
            cell_axis(q.z, inv_cell_size),
        );
        packed_ids_agree(c, c);
        block_members(ids, x, y, z, 3, 3, 3, i, c);
    }
}

} // verus!
