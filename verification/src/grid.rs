//! Spatial hash grid for broad-phase pair queries.

use vstd::prelude::*;

use crate::scalar::{Number, Scalar};
use crate::vector::Vec3;

verus! {

/// The code of one cell coordinate: 21 bits, biased into the unsigned range. Coordinates
/// that differ by a multiple of `2^21` share a code.
pub open spec fn axis_code(c: int) -> int {
    (c + 0x10_0000) % 0x20_0000
}

/// The packed id of the cell at `(x, y, z)`: one 21-bit code per axis.
pub open spec fn packed(x: int, y: int, z: int) -> int {
    axis_code(x) + axis_code(y) * 0x20_0000 + axis_code(z) * 0x400_0000_0000
}

/// The hash of a packed cell id: a multiplication modulo `2^64` whose upper half is folded
/// into the lower.
pub open spec fn hashed(x: u64) -> u64 {
    let h = ((x * 0x9E37_79B9_7F4A_7C15) % 0x1_0000_0000_0000_0000) as u64;
    h ^ (h >> 32)
}

/// Packs a cell coordinate into one word, 21 bits per axis.
///
/// Coordinates in `[-2^20, 2^20)` are told apart; others alias one of those.
pub fn pack_cell(c: [i32; 3]) -> (r: u64)
    ensures
        r == packed(c[0] as int, c[1] as int, c[2] as int),
{
    let x: u64 = pack_axis(c[0]);
    let y: u64 = pack_axis(c[1]);
    let z: u64 = pack_axis(c[2]);
    proof {
        assert((x | (y << 21) | (z << 42)) == x + y * 0x20_0000 + z * 0x400_0000_0000)
            by (bit_vector)
            requires
                x < 0x20_0000,
                y < 0x20_0000,
                z < 0x20_0000,
        ;
    }
    x | (y << 21) | (z << 42)
}

/// The 21-bit code of one coordinate.
fn pack_axis(c: i32) -> (r: u64)
    ensures
        r == axis_code(c as int),
{
    let biased: i32 = c.wrapping_add(0x10_0000);
    let r: u64 = (biased as u64) & 0x1F_FFFF;
    proof {
        let shifted: i64 = (biased + 0x8000_0000) as i64;
        assert((biased as u64) & 0x1F_FFFF == (shifted as u64) % 0x20_0000) by (bit_vector)
            requires
                shifted == biased as i64 + 0x8000_0000i64,
        ;
        assert(r == (biased + 0x8000_0000) % 0x20_0000);
    }
    r
}

/// Mixes a packed cell id into a table hash.
pub fn hash64(x: u64) -> (r: u64)
    ensures
        r == hashed(x),
{
    let h: u64 = x.wrapping_mul(0x9E37_79B9_7F4A_7C15);
    h ^ (h >> 32)
}

/// The slot of the table that `id` falls into.
pub open spec fn bucket(id: u64, mask: u64) -> int {
    (hashed(id) & mask) as int
}

/// The particles whose cell has the id `id`, in ascending order; `ids` holds the packed
/// cell id of each particle.
pub open spec fn in_cell(ids: Seq<u64>, id: u64) -> Seq<usize>
    decreases ids.len(),
{
    if ids.len() == 0 {
        Seq::empty()
    } else {
        let rest = in_cell(ids.drop_last(), id);
        if ids.last() == id {
            rest.push((ids.len() - 1) as usize)
        } else {
            rest
        }
    }
}

/// The particles whose cell falls into slot `b` of the table, in ascending order.
pub open spec fn in_bucket(ids: Seq<u64>, mask: u64, b: int) -> Seq<usize>
    decreases ids.len(),
{
    if ids.len() == 0 {
        Seq::empty()
    } else {
        let rest = in_bucket(ids.drop_last(), mask, b);
        if bucket(ids.last(), mask) == b {
            rest.push((ids.len() - 1) as usize)
        } else {
            rest
        }
    }
}

/// How many particles fall into the slots before slot `b`.
pub open spec fn before_bucket(ids: Seq<u64>, mask: u64, b: int) -> int
    decreases b,
{
    if b <= 0 {
        0
    } else {
        before_bucket(ids, mask, b - 1) + in_bucket(ids, mask, b - 1).len()
    }
}

/// The particles of `n` adjacent cells along `x`, starting at `(x, y, z)`.
pub open spec fn in_row(ids: Seq<u64>, x: int, y: int, z: int, n: nat) -> Seq<usize>
    decreases n,
{
    if n == 0 {
        Seq::empty()
    } else {
        in_row(ids, x, y, z, (n - 1) as nat) + in_cell(ids, packed(x + n - 1, y, z) as u64)
    }
}

/// The particles of `ny` adjacent rows along `y`.
pub open spec fn in_slab(ids: Seq<u64>, x: int, y: int, z: int, nx: nat, ny: nat) -> Seq<usize>
    decreases ny,
{
    if ny == 0 {
        Seq::empty()
    } else {
        in_slab(ids, x, y, z, nx, (ny - 1) as nat) + in_row(ids, x, y + ny - 1, z, nx)
    }
}

/// The particles of the block of `nx * ny * nz` cells whose lowest corner is `(x, y, z)`.
pub open spec fn in_block(
    ids: Seq<u64>,
    x: int,
    y: int,
    z: int,
    nx: nat,
    ny: nat,
    nz: nat,
) -> Seq<usize>
    decreases nz,
{
    if nz == 0 {
        Seq::empty()
    } else {
        in_block(ids, x, y, z, nx, ny, (nz - 1) as nat) + in_slab(ids, x, y, z + nz - 1, nx, ny)
    }
}

/// The particles in the 3x3x3 cells around the cell of `p`.
pub open spec fn neighbors<S: Number>(ids: Seq<u64>, p: Vec3<S>, inv_cell_size: S) -> Seq<usize> {
    in_block(
        ids,
        cell_axis(p.x, inv_cell_size) - 1,
        cell_axis(p.y, inv_cell_size) - 1,
        cell_axis(p.z, inv_cell_size) - 1,
        3,
        3,
        3,
    )
}

/// How many integers lie from `lo` to `hi`, both included.
pub open spec fn span_of(lo: int, hi: int) -> nat {
    if hi < lo {
        0
    } else {
        (hi - lo + 1) as nat
    }
}

/// The particles in the cells that the box from `lo` to `hi` meets.
pub open spec fn overlapping<S: Number>(
    ids: Seq<u64>,
    lo: Vec3<S>,
    hi: Vec3<S>,
    inv_cell_size: S,
) -> Seq<usize> {
    let x = cell_axis(lo.x, inv_cell_size);
    let y = cell_axis(lo.y, inv_cell_size);
    let z = cell_axis(lo.z, inv_cell_size);
    in_block(
        ids,
        x,
        y,
        z,
        span_of(x, cell_axis(hi.x, inv_cell_size)),
        span_of(y, cell_axis(hi.y, inv_cell_size)),
        span_of(z, cell_axis(hi.z, inv_cell_size)),
    )
}

/// The smallest power of two that is at least `least`, counting from the power of two `p`.
pub open spec fn power_from(least: nat, p: nat) -> nat
    decreases 2 * least - p,
{
    if p == 0 || p >= least {
        p
    } else {
        power_from(least, 2 * p)
    }
}

/// The size of the table for `n` particles: the smallest power of two that leaves the table
/// at most half full, and never below 16.
pub open spec fn table_size_for(n: nat) -> nat {
    power_from(2 * if n > 8 { n } else { 8 }, 1)
}

/// Whether the table offsets for `n` particles can be held: particles are numbered by `u32`
/// and the table is indexed by `usize`.
pub open spec fn fits_grid(n: nat) -> bool {
    n <= u32::MAX && table_size_for(n) < usize::MAX
}

/// The cell coordinate of the coordinate `x`.
pub open spec fn cell_axis<S: Number>(x: S, inv_cell_size: S) -> int {
    x.product(inv_cell_size).floored() as int
}

/// The id of the cell that holds the point `p`.
pub open spec fn cell_id<S: Number>(p: Vec3<S>, inv_cell_size: S) -> u64 {
    packed(
        cell_axis(p.x, inv_cell_size),
        cell_axis(p.y, inv_cell_size),
        cell_axis(p.z, inv_cell_size),
    ) as u64
}

/// The cell ids of `points`, in order.
pub open spec fn cell_ids_of<S: Number>(points: Seq<Vec3<S>>, inv_cell_size: S) -> Seq<u64> {
    Seq::new(points.len(), |i: int| cell_id(points[i], inv_cell_size))
}

/// The cell coordinate of a point. Rounding is downward, so negative coordinates round the
/// same way as positive ones.
pub fn cell_coord_of<S: Scalar>(p: Vec3<S>, inv_cell_size: S) -> (r: [i32; 3])
    ensures
        r[0] == cell_axis(p.x, inv_cell_size),
        r[1] == cell_axis(p.y, inv_cell_size),
        r[2] == cell_axis(p.z, inv_cell_size),
{
    [
        p.x.mul(inv_cell_size).floor(),
        p.y.mul(inv_cell_size).floor(),
        p.z.mul(inv_cell_size).floor(),
    ]
}

proof fn lemma_bucket_bound(id: u64, mask: u64)
    ensures
        0 <= bucket(id, mask) <= mask,
{
    let h = hashed(id);
    assert(h & mask <= mask) by (bit_vector);
}

proof fn lemma_in_bucket(ids: Seq<u64>, mask: u64, b: int, k: int)
    requires
        ids.len() <= usize::MAX,
        0 <= k < in_bucket(ids, mask, b).len(),
    ensures
        in_bucket(ids, mask, b)[k] < ids.len(),
        bucket(ids[in_bucket(ids, mask, b)[k] as int], mask) == b,
    decreases ids.len(),
{
    let rest = in_bucket(ids.drop_last(), mask, b);
    if k < rest.len() {
        lemma_in_bucket(ids.drop_last(), mask, b, k);
    }
}

proof fn lemma_in_bucket_len(ids: Seq<u64>, mask: u64, b: int)
    ensures
        in_bucket(ids, mask, b).len() <= ids.len(),
    decreases ids.len(),
{
    if ids.len() > 0 {
        lemma_in_bucket_len(ids.drop_last(), mask, b);
    }
}

/// The slots of a prefix of the particles are prefixes of the slots.
proof fn lemma_in_bucket_prefix(ids: Seq<u64>, mask: u64, b: int, i: int)
    requires
        0 <= i <= ids.len(),
    ensures
        in_bucket(ids.take(i), mask, b).len() <= in_bucket(ids, mask, b).len(),
        i < ids.len() && bucket(ids[i], mask) == b ==> in_bucket(ids.take(i), mask, b).len()
            < in_bucket(ids, mask, b).len(),
    decreases ids.len(),
{
    if i < ids.len() {
        lemma_in_bucket_prefix(ids.drop_last(), mask, b, i);
        assert(ids.drop_last().take(i) =~= ids.take(i));
    } else {
        assert(ids.take(i) =~= ids);
    }
}

proof fn lemma_before_bucket_last(ids: Seq<u64>, mask: u64, b: int)
    requires
        ids.len() > 0,
    ensures
        before_bucket(ids, mask, b) == before_bucket(ids.drop_last(), mask, b) + if bucket(
            ids.last(),
            mask,
        ) < b {
            1int
        } else {
            0
        },
    decreases b,
{
    lemma_bucket_bound(ids.last(), mask);
    if b > 0 {
        lemma_before_bucket_last(ids, mask, b - 1);
    }
}

proof fn lemma_before_bucket_empty(ids: Seq<u64>, mask: u64, b: int)
    requires
        ids.len() == 0,
    ensures
        before_bucket(ids, mask, b) == 0,
    decreases b,
{
    if b > 0 {
        lemma_before_bucket_empty(ids, mask, b - 1);
    }
}

/// All particles fall before the end of the table.
proof fn lemma_before_bucket_all(ids: Seq<u64>, mask: u64)
    ensures
        before_bucket(ids, mask, mask + 1) == ids.len(),
    decreases ids.len(),
{
    if ids.len() == 0 {
        lemma_before_bucket_empty(ids, mask, mask + 1);
    } else {
        lemma_bucket_bound(ids.last(), mask);
        lemma_before_bucket_last(ids, mask, mask + 1);
        lemma_before_bucket_all(ids.drop_last(), mask);
    }
}

proof fn lemma_before_bucket_grows(ids: Seq<u64>, mask: u64, b: int, c: int)
    requires
        b <= c,
    ensures
        0 <= before_bucket(ids, mask, b) <= before_bucket(ids, mask, c),
    decreases c,
{
    if c > 0 {
        if b < c {
            lemma_before_bucket_grows(ids, mask, b, c - 1);
        } else {
            lemma_before_bucket_grows(ids, mask, b - 1, c - 1);
        }
    }
}

proof fn lemma_power_from(least: nat, p: nat)
    requires
        p > 0,
    ensures
        power_from(least, p) >= least,
        power_from(least, p) >= p,
    decreases 2 * least - p,
{
    if p < least {
        lemma_power_from(least, 2 * p);
    }
}

/// The size of the table for `n` particles.
fn table_size(n: usize) -> (r: usize)
    requires
        fits_grid(n as nat),
    ensures
        r == table_size_for(n as nat),
        r >= 16,
{
    proof {
        lemma_power_from(2 * if n > 8 { n as nat } else { 8 }, 1);
    }
    let least: usize = 2 * if n > 8 { n } else { 8 };
    let mut size: usize = 1;
    while size < least
        invariant
            size >= 1,
            least >= 16,
            power_from(least as nat, size as nat) == table_size_for(n as nat),
            table_size_for(n as nat) < usize::MAX,
        decreases 2 * least - size,
    {
        proof {
            lemma_power_from(least as nat, 2 * size as nat);
        }
        size = 2 * size;
    }
    size
}

/// Those of `candidates` whose cell has the id `id`.
spec fn picked(ids: Seq<u64>, candidates: Seq<usize>, id: u64) -> Seq<usize>
    decreases candidates.len(),
{
    if candidates.len() == 0 {
        Seq::empty()
    } else {
        let rest = picked(ids, candidates.drop_last(), id);
        if ids[candidates.last() as int] == id {
            rest.push(candidates.last())
        } else {
            rest
        }
    }
}

proof fn lemma_picked_prefix(ids: Seq<u64>, candidates: Seq<usize>, id: u64)
    requires
        ids.len() > 0,
        forall|k: int| 0 <= k < candidates.len() ==> #[trigger] candidates[k] < ids.len() - 1,
    ensures
        picked(ids, candidates, id) == picked(ids.drop_last(), candidates, id),
    decreases candidates.len(),
{
    if candidates.len() > 0 {
        let last = candidates[candidates.len() - 1];
        lemma_picked_prefix(ids, candidates.drop_last(), id);
        assert(ids[last as int] == ids.drop_last()[last as int]);
    }
}

/// Filtering the slot of a cell for its id leaves the particles of the cell.
proof fn lemma_picked_bucket(ids: Seq<u64>, mask: u64, id: u64)
    requires
        ids.len() <= usize::MAX,
    ensures
        picked(ids, in_bucket(ids, mask, bucket(id, mask)), id) == in_cell(ids, id),
    decreases ids.len(),
{
    let b = bucket(id, mask);
    if ids.len() > 0 {
        let rest = in_bucket(ids.drop_last(), mask, b);
        lemma_picked_bucket(ids.drop_last(), mask, id);
        assert forall|k: int| 0 <= k < rest.len() implies #[trigger] rest[k] < ids.len() - 1 by {
            lemma_in_bucket(ids.drop_last(), mask, b, k);
        }
        lemma_picked_prefix(ids, rest, id);
        if bucket(ids.last(), mask) == b {
            assert(in_bucket(ids, mask, b).drop_last() =~= rest);
        }
    }
}

/// Moving two coordinates by the same amount keeps their codes equal.
proof fn lemma_axis_shift(a: int, b: int, k: int)
    requires
        axis_code(a) == axis_code(b),
    ensures
        axis_code(a + k) == axis_code(b + k),
{
}

/// Wrapping around keeps the code of a coordinate.
proof fn lemma_axis_wrap(c: i32, o: u32)
    ensures
        axis_code(c.wrapping_add_unsigned(o) as int) == axis_code(c + o),
{
}

proof fn lemma_axis_wrap_back(c: i32)
    ensures
        axis_code(c.wrapping_sub(1) as int) == axis_code(c - 1),
{
}

/// Blocks whose corners have the same codes hold the same particles.
proof fn lemma_in_block_codes(
    ids: Seq<u64>,
    a: (int, int, int),
    b: (int, int, int),
    nx: nat,
    ny: nat,
    nz: nat,
)
    requires
        axis_code(a.0) == axis_code(b.0),
        axis_code(a.1) == axis_code(b.1),
        axis_code(a.2) == axis_code(b.2),
    ensures
        in_block(ids, a.0, a.1, a.2, nx, ny, nz) == in_block(ids, b.0, b.1, b.2, nx, ny, nz),
    decreases nz,
{
    if nz > 0 {
        lemma_in_block_codes(ids, a, b, nx, ny, (nz - 1) as nat);
        lemma_axis_shift(a.2, b.2, nz - 1);
        lemma_in_slab_codes(ids, (a.0, a.1, a.2 + nz - 1), (b.0, b.1, b.2 + nz - 1), nx, ny);
    }
}

proof fn lemma_in_slab_codes(
    ids: Seq<u64>,
    a: (int, int, int),
    b: (int, int, int),
    nx: nat,
    ny: nat,
)
    requires
        axis_code(a.0) == axis_code(b.0),
        axis_code(a.1) == axis_code(b.1),
        axis_code(a.2) == axis_code(b.2),
    ensures
        in_slab(ids, a.0, a.1, a.2, nx, ny) == in_slab(ids, b.0, b.1, b.2, nx, ny),
    decreases ny,
{
    if ny > 0 {
        lemma_in_slab_codes(ids, a, b, nx, (ny - 1) as nat);
        lemma_axis_shift(a.1, b.1, ny - 1);
        lemma_in_row_codes(ids, (a.0, a.1 + ny - 1, a.2), (b.0, b.1 + ny - 1, b.2), nx);
    }
}

proof fn lemma_in_row_codes(ids: Seq<u64>, a: (int, int, int), b: (int, int, int), n: nat)
    requires
        axis_code(a.0) == axis_code(b.0),
        axis_code(a.1) == axis_code(b.1),
        axis_code(a.2) == axis_code(b.2),
    ensures
        in_row(ids, a.0, a.1, a.2, n) == in_row(ids, b.0, b.1, b.2, n),
    decreases n,
{
    if n > 0 {
        lemma_in_row_codes(ids, a, b, (n - 1) as nat);
        lemma_axis_shift(a.0, b.0, n - 1);
    }
}

/// Whether the first `done` particles stand in their slots: those of slot `b` from offset
/// `before_bucket(ids, mask, b)` on, in ascending order, each with its cell id.
spec fn scattered(
    ids: Seq<u64>,
    mask: u64,
    cell_ids: Seq<u64>,
    indices: Seq<u32>,
    done: int,
) -> bool {
    forall|b: int, k: int|
        0 <= b <= mask && 0 <= k < in_bucket(ids.take(done), mask, b).len() ==> {
            let i = #[trigger] in_bucket(ids.take(done), mask, b)[k];
            let slot = before_bucket(ids, mask, b) + k;
            &&& indices[slot] == i
            &&& cell_ids[slot] == ids[i as int]
        }
}

/// A hash table from cells to particles.
///
/// Cell size should be at least `2 * radius` so that any colliding pair lies in the same
/// cell or an immediate (3x3x3) neighbor. The table is hashed (not dense) so memory stays
/// proportional to the number of particles however spread out they are.
///
/// After [`HashGrid::rebuild`] the particles are sorted by slot: `cell_starts` holds the
/// offset of each slot, `indices` the particles and `cell_ids` the packed cell of each.
pub struct HashGrid<S> {
    cell_size: S,
    inv_cell_size: S,
    table_size: usize,
    table_mask: u64,
    cell_starts: Vec<u32>,
    cell_ids: Vec<u64>,
    indices: Vec<u32>,
    ids: Ghost<Seq<u64>>,
}

impl<S: Number> HashGrid<S> {
    /// The packed cell id of each particle, by particle.
    pub closed spec fn view(&self) -> Seq<u64> {
        self.ids@
    }

    /// The cell size.
    pub closed spec fn cell_edge(&self) -> S {
        self.cell_size
    }

    /// The reciprocal of the cell size.
    pub closed spec fn scale(&self) -> S {
        self.inv_cell_size
    }

    /// The number of slots.
    pub closed spec fn slots(&self) -> nat {
        self.table_size as nat
    }

    /// All that the table consists of: its size and mask, the offsets of its slots, and the cells
    /// and numbers of the particles in them.
    pub closed spec fn table(&self) -> (usize, u64, Seq<u32>, Seq<u64>, Seq<u32>) {
        (
            self.table_size,
            self.table_mask,
            self.cell_starts@,
            self.cell_ids@,
            self.indices@,
        )
    }

    /// The table holds every particle of the view in the slot of its cell.
    pub closed spec fn wf(&self) -> bool {
        &&& self.table_size >= 1
        &&& self.table_mask == self.table_size - 1
        &&& self.cell_starts@.len() == self.table_size + 1
        &&& self.ids@.len() <= u32::MAX
        &&& self.cell_ids@.len() == self.ids@.len()
        &&& self.indices@.len() == self.ids@.len()
        &&& forall|b: int|
            0 <= b <= self.table_size ==> self.cell_starts@[b] == #[trigger] before_bucket(
                self.ids@,
                self.table_mask,
                b,
            )
        &&& scattered(
            self.ids@,
            self.table_mask,
            self.cell_ids@,
            self.indices@,
            self.ids@.len() as int,
        )
    }
}

impl<S: Scalar> HashGrid<S> {
    /// An empty grid with cells of the given size.
    pub fn new(cell_size: S) -> (r: Self)
        ensures
            r.wf(),
            r@ == Seq::<u64>::empty(),
            r.cell_edge() == cell_size,
            r.scale() == S::whole(1).quotient(cell_size),
            r.slots() == 16,
    {
        let table_size: usize = 16;
        let ids: Ghost<Seq<u64>> = Ghost(Seq::empty());
        proof {
            assert forall|b: int| 0 <= b <= 16 implies #[trigger] before_bucket(ids@, 15, b)
                == 0 by {
                lemma_before_bucket_empty(ids@, 15, b);
            }
            assert(ids@.take(0) =~= ids@);
        }
        HashGrid {
            cell_size,
            inv_cell_size: S::from_u64(1).div(cell_size),
            table_size,
            table_mask: 15,
            cell_starts: vec![0; table_size + 1],
            cell_ids: Vec::new(),
            indices: Vec::new(),
            ids,
        }
    }

    /// Sorts the particles at `positions` into the table, replacing what it held.
    pub fn rebuild(&mut self, positions: &[Vec3<S>])
        requires
            fits_grid(positions@.len()),
        ensures
            final(self).wf(),
            final(self)@ == cell_ids_of(positions@, old(self).scale()),
            final(self).cell_edge() == old(self).cell_edge(),
            final(self).scale() == old(self).scale(),
            final(self).slots() == table_size_for(positions@.len()),
    {
        let n: usize = positions.len();
        let target: usize = table_size(n);
        let mask: u64 = (target - 1) as u64;
        let mut cell_ids_in: Vec<u64> = Vec::new();
        let mut i: usize = 0;
        while i < n
            invariant
                i <= n,
                n == positions@.len(),
                cell_ids_in@.len() == i,
                forall|k: int|
                    0 <= k < i ==> cell_ids_in@[k] == cell_id(positions@[k], self.inv_cell_size),
                *self == *old(self),
            decreases n - i,
        {
            let c: [i32; 3] = cell_coord_of(positions[i], self.inv_cell_size);
            cell_ids_in.push(pack_cell(c));
            i = i + 1;
        }
        let ghost ids = cell_ids_in@;
        assert(ids =~= cell_ids_of(positions@, self.inv_cell_size));
        let cell_starts: Vec<u32> = bucket_starts(&cell_ids_in, target, mask);
        let (cell_ids, indices) = scatter(&cell_ids_in, &cell_starts, target, mask);
        self.table_size = target;
        self.table_mask = mask;
        self.cell_starts = cell_starts;
        self.cell_ids = cell_ids;
        self.indices = indices;
        self.ids = Ghost(ids);
    }

    /// Appends the particles of one cell to `out`.
    fn visit_cell(&self, c: [i32; 3], out: &mut Vec<usize>)
        requires
            self.wf(),
        ensures
            final(out)@ == old(out)@ + in_cell(
                self@,
                packed(c[0] as int, c[1] as int, c[2] as int) as u64,
            ),
    {
        let cid: u64 = pack_cell(c);
        let mask: u64 = self.table_mask;
        let b: usize = bucket_of(cid, mask);
        let ghost ids = self.ids@;
        let ghost members = in_bucket(ids, mask, b as int);
        proof {
            lemma_before_bucket_grows(ids, mask, 0, b as int);
            lemma_before_bucket_grows(ids, mask, b + 1, self.table_size as int);
            lemma_before_bucket_all(ids, mask);
            assert(self.cell_starts@[b as int] == before_bucket(ids, mask, b as int));
            assert(self.cell_starts@[b + 1] == before_bucket(ids, mask, b + 1));
        }
        let start: usize = self.cell_starts[b] as usize;
        let end: usize = self.cell_starts[b + 1] as usize;
        let mut k: usize = start;
        proof {
            assert(members.take(0) =~= Seq::<usize>::empty());
        }
        while k < end
            invariant
                self.wf(),
                ids == self.ids@,
                mask == self.table_mask,
                0 <= b <= mask,
                members == in_bucket(ids, mask, b as int),
                start == before_bucket(ids, mask, b as int),
                start <= k <= end,
                end == start + members.len(),
                end <= ids.len(),
                out@ == old(out)@ + picked(ids, members.take(k - start), cid),
            decreases end - k,
        {
            proof {
                let j = k - start;
                assert(ids.take(ids.len() as int) =~= ids);
                assert(in_bucket(ids.take(ids.len() as int), mask, b as int)[j] == members[j]);
                lemma_in_bucket(ids, mask, b as int, j);
                assert(members.take(j + 1).drop_last() =~= members.take(j));
            }
            // The slot may hold particles of unrelated cells that hash alike.
            if self.cell_ids[k] == cid {
                out.push(self.indices[k] as usize);
            }
            k = k + 1;
        }
        proof {
            assert(members.take(members.len() as int) =~= members);
            lemma_picked_bucket(ids, mask, cid);
        }
    }

    /// The particles of the cells in the block of `nx * ny * nz` cells whose lowest corner is
    /// `lo`, cell by cell with `x` running fastest.
    fn visit_block(&self, lo: [i32; 3], nx: u64, ny: u64, nz: u64) -> (r: Vec<usize>)
        requires
            self.wf(),
            nx <= 0x1_0000_0000,
            ny <= 0x1_0000_0000,
            nz <= 0x1_0000_0000,
        ensures
            r@ == in_block(
                self@,
                lo[0] as int,
                lo[1] as int,
                lo[2] as int,
                nx as nat,
                ny as nat,
                nz as nat,
            ),
    {
        let ghost (x, y, z) = (lo[0] as int, lo[1] as int, lo[2] as int);
        let mut out: Vec<usize> = Vec::new();
        let mut oz: u64 = 0;
        while oz < nz
            invariant
                self.wf(),
                x == lo[0] && y == lo[1] && z == lo[2],
                nx <= 0x1_0000_0000,
                ny <= 0x1_0000_0000,
                oz <= nz <= 0x1_0000_0000,
                out@ == in_block(self@, x, y, z, nx as nat, ny as nat, oz as nat),
            decreases nz - oz,
        {
            let ghost block = out@;
            let mut oy: u64 = 0;
            proof {
                assert(out@ =~= block + in_slab(self@, x, y, z + oz, nx as nat, 0));
            }
            while oy < ny
                invariant
                    self.wf(),
                    x == lo[0] && y == lo[1] && z == lo[2],
                    nx <= 0x1_0000_0000,
                    oy <= ny <= 0x1_0000_0000,
                    oz < 0x1_0000_0000,
                    out@ == block + in_slab(self@, x, y, z + oz, nx as nat, oy as nat),
                decreases ny - oy,
            {
                let ghost slab = in_slab(self@, x, y, z + oz, nx as nat, oy as nat);
                let mut ox: u64 = 0;
                proof {
                    assert(out@ =~= block + (slab + in_row(self@, x, y + oy, z + oz, 0)));
                }
                while ox < nx
                    invariant
                        self.wf(),
                        x == lo[0] && y == lo[1] && z == lo[2],
                        ox <= nx <= 0x1_0000_0000,
                        oy < 0x1_0000_0000,
                        oz < 0x1_0000_0000,
                        out@ == block + (slab + in_row(
                            self@,
                            x,
                            y + oy,
                            z + oz,
                            ox as nat,
                        )),
                    decreases nx - ox,
                {
                    let cell: [i32; 3] = [
                        lo[0].wrapping_add_unsigned(ox as u32),
                        lo[1].wrapping_add_unsigned(oy as u32),
                        lo[2].wrapping_add_unsigned(oz as u32),
                    ];
                    proof {
                        lemma_axis_wrap(lo[0], ox as u32);
                        lemma_axis_wrap(lo[1], oy as u32);
                        lemma_axis_wrap(lo[2], oz as u32);
                    }
                    let ghost row = in_row(self@, x, y + oy, z + oz, ox as nat);
                    self.visit_cell(cell, &mut out);
                    proof {
                        let one = in_cell(self@, packed(x + ox, y + oy, z + oz) as u64);
                        assert((block + (slab + row)) + one =~= block + (slab + (row + one)));
                    }
                    ox = ox + 1;
                }
                proof {
                    let row = in_row(self@, x, y + oy, z + oz, nx as nat);
                    assert(in_slab(self@, x, y, z + oz, nx as nat, (oy + 1) as nat) == slab
                        + row);
                }
                oy = oy + 1;
            }
            oz = oz + 1;
        }
        out
    }

    /// Every particle whose cell lies in the 3x3x3 neighborhood of the cell of `p`, each
    /// once, in the order of the cells. The particle at `p` itself may be among them.
    pub fn for_each_neighbor(&self, p: Vec3<S>) -> (r: Vec<usize>)
        requires
            self.wf(),
        ensures
            r@ == neighbors(self@, p, self.scale()),
    {
        let c: [i32; 3] = cell_coord_of(p, self.inv_cell_size);
        let lo: [i32; 3] = [
            c[0].wrapping_sub(1),
            c[1].wrapping_sub(1),
            c[2].wrapping_sub(1),
        ];
        proof {
            lemma_axis_wrap_back(c[0]);
            lemma_axis_wrap_back(c[1]);
            lemma_axis_wrap_back(c[2]);
            lemma_in_block_codes(
                self@,
                (lo[0] as int, lo[1] as int, lo[2] as int),
                (c[0] - 1, c[1] - 1, c[2] - 1),
                3,
                3,
                3,
            );
        }
        self.visit_block(lo, 3, 3, 3)
    }

    /// Every particle whose cell meets the box from `lo` to `hi`, cell by cell.
    pub fn for_each_in_aabb(&self, lo: Vec3<S>, hi: Vec3<S>) -> (r: Vec<usize>)
        requires
            self.wf(),
        ensures
            r@ == overlapping(self@, lo, hi, self.scale()),
    {
        let a: [i32; 3] = cell_coord_of(lo, self.inv_cell_size);
        let b: [i32; 3] = cell_coord_of(hi, self.inv_cell_size);
        self.visit_block(a, span(a[0], b[0]), span(a[1], b[1]), span(a[2], b[2]))
    }
}

/// Every offset before slot `top` belongs to a slot.
proof fn lemma_slot_of_offset(ids: Seq<u64>, mask: u64, top: int, offset: int) -> (b: int)
    requires
        0 <= top,
        0 <= offset < before_bucket(ids, mask, top),
    ensures
        0 <= b < top,
        before_bucket(ids, mask, b) <= offset < before_bucket(ids, mask, b) + in_bucket(
            ids,
            mask,
            b,
        ).len(),
    decreases top,
{
    if offset < before_bucket(ids, mask, top - 1) {
        lemma_slot_of_offset(ids, mask, top - 1, offset)
    } else {
        top - 1
    }
}

/// Grids that hold the same cells in as many slots have the same table: nothing of what a grid
/// held before [`HashGrid::rebuild`] survives it.
pub proof fn rebuilt_grids_agree<S: Number>(a: HashGrid<S>, b: HashGrid<S>)
    requires
        a.wf(),
        b.wf(),
        a@ == b@,
        a.slots() == b.slots(),
    ensures
        a.table() == b.table(),
{
    let ids = a.ids@;
    let mask = a.table_mask;
    assert forall|i: int| 0 <= i < a.cell_starts@.len() implies a.cell_starts@[i]
        == b.cell_starts@[i] by {
        assert(a.cell_starts@[i] == before_bucket(ids, mask, i));
    }
    assert(a.cell_starts@ =~= b.cell_starts@);
    assert(ids.take(ids.len() as int) =~= ids);
    assert forall|offset: int| 0 <= offset < ids.len() implies a.cell_ids@[offset]
        == b.cell_ids@[offset] && a.indices@[offset] == b.indices@[offset] by {
        lemma_before_bucket_all(ids, mask);
        let slot = lemma_slot_of_offset(ids, mask, mask + 1, offset);
        let k = offset - before_bucket(ids, mask, slot);
        let i = in_bucket(ids.take(ids.len() as int), mask, slot)[k];
        assert(a.indices@[offset] == i && b.indices@[offset] == i);
    }
    assert(a.cell_ids@ =~= b.cell_ids@);
    assert(a.indices@ =~= b.indices@);
}

/// How many cells lie from `lo` to `hi` on one axis, both included.
fn span(lo: i32, hi: i32) -> (r: u64)
    ensures
        r == span_of(lo as int, hi as int),
        r <= 0x1_0000_0000,
{
    if hi < lo {
        0
    } else {
        (hi as i64 - lo as i64 + 1) as u64
    }
}

/// The offset at which each slot begins, and the number of particles behind the last.
fn bucket_starts(ids: &Vec<u64>, table_size: usize, mask: u64) -> (r: Vec<u32>)
    requires
        1 <= table_size < usize::MAX,
        mask == table_size - 1,
        ids@.len() <= u32::MAX,
    ensures
        r@.len() == table_size + 1,
        forall|b: int|
            0 <= b <= table_size ==> r@[b] == #[trigger] before_bucket(ids@, mask, b),
{
    let mut starts: Vec<u32> = vec![0; table_size + 1];
    // Bucket counts, offset by one so that the sums below run in place.
    let mut i: usize = 0;
    proof {
        assert(ids@.take(0) =~= Seq::<u64>::empty());
    }
    while i < ids.len()
        invariant
            i <= ids@.len() <= u32::MAX,
            mask == table_size - 1,
            table_size < usize::MAX,
            starts@.len() == table_size + 1,
            starts@[0] == 0,
            forall|b: int|
                0 <= b < table_size ==> starts@[b + 1] == #[trigger] in_bucket(
                    ids@.take(i as int),
                    mask,
                    b,
                ).len(),
        decreases ids.len() - i,
    {
        let b: usize = bucket_of(ids[i], mask);
        proof {
            lemma_in_bucket_len(ids@.take(i as int), mask, b as int);
            assert(ids@.take(i + 1).drop_last() =~= ids@.take(i as int));
            assert(starts@[b + 1] == in_bucket(ids@.take(i as int), mask, b as int).len());
        }
        let ghost before = starts@;
        let count: u32 = starts[b + 1];
        starts.set(b + 1, count + 1);
        proof {
            assert forall|c: int| 0 <= c < table_size implies starts@[c + 1]
                == #[trigger] in_bucket(ids@.take(i + 1), mask, c).len() by {
                assert(before[c + 1] == in_bucket(ids@.take(i as int), mask, c).len());
            }
        }
        i = i + 1;
    }
    proof {
        assert(ids@.take(i as int) =~= ids@);
        lemma_before_bucket_all(ids@, mask);
    }
    let mut k: usize = 1;
    while k < starts.len()
        invariant
            1 <= k <= table_size + 1,
            mask == table_size - 1,
            ids@.len() <= u32::MAX,
            starts@.len() == table_size + 1,
            before_bucket(ids@, mask, table_size as int) == ids@.len(),
            forall|b: int|
                0 <= b < k ==> starts@[b] == #[trigger] before_bucket(ids@, mask, b),
            forall|b: int|
                k <= b + 1 <= table_size ==> starts@[b + 1] == #[trigger] in_bucket(
                    ids@,
                    mask,
                    b,
                ).len(),
        decreases starts.len() - k,
    {
        let ghost before = starts@;
        proof {
            assert(before[k - 1] == before_bucket(ids@, mask, k - 1));
            assert(before[k - 1 + 1] == in_bucket(ids@, mask, k - 1).len());
            lemma_before_bucket_grows(ids@, mask, k as int, table_size as int);
        }
        let sum: u32 = starts[k] + starts[k - 1];
        starts.set(k, sum);
        proof {
            assert forall|b: int| 0 <= b < k + 1 implies starts@[b] == #[trigger] before_bucket(
                ids@,
                mask,
                b,
            ) by {
                if b < k {
                    assert(before[b] == before_bucket(ids@, mask, b));
                }
            }
            assert forall|b: int| k + 1 <= b + 1 <= table_size implies starts@[b + 1]
                == #[trigger] in_bucket(ids@, mask, b).len() by {
                assert(before[b + 1] == in_bucket(ids@, mask, b).len());
            }
        }
        k = k + 1;
    }
    starts
}

/// The slot of a cell id.
fn bucket_of(id: u64, mask: u64) -> (r: usize)
    requires
        mask < usize::MAX,
    ensures
        r == bucket(id, mask),
        r <= mask,
{
    proof {
        lemma_bucket_bound(id, mask);
    }
    (hash64(id) & mask) as usize
}

/// Puts every particle into its slot, keeping the order within a slot.
fn scatter(ids: &Vec<u64>, starts: &Vec<u32>, table_size: usize, mask: u64) -> (r: (
    Vec<u64>,
    Vec<u32>,
))
    requires
        1 <= table_size < usize::MAX,
        mask == table_size - 1,
        ids@.len() <= u32::MAX,
        starts@.len() == table_size + 1,
        forall|b: int|
            0 <= b <= table_size ==> starts@[b] == #[trigger] before_bucket(ids@, mask, b),
    ensures
        r.0@.len() == ids@.len(),
        r.1@.len() == ids@.len(),
        scattered(ids@, mask, r.0@, r.1@, ids@.len() as int),
{
    let n: usize = ids.len();
    let mut cell_ids: Vec<u64> = vec![0; n];
    let mut indices: Vec<u32> = vec![0; n];
    let mut cursors: Vec<u32> = Vec::new();
    let mut c: usize = 0;
    while c < table_size
        invariant
            c <= table_size,
            starts@.len() == table_size + 1,
            cursors@ =~= starts@.take(c as int),
        decreases table_size - c,
    {
        cursors.push(starts[c]);
        c = c + 1;
    }
    proof {
        assert(ids@.take(0) =~= Seq::<u64>::empty());
        assert forall|b: int| 0 <= b < table_size implies cursors@[b] == #[trigger] before_bucket(
            ids@,
            mask,
            b,
        ) + in_bucket(ids@.take(0), mask, b).len() by {
            assert(starts@[b] == before_bucket(ids@, mask, b));
        }
    }
    let mut i: usize = 0;
    while i < n
        invariant
            i <= n,
            n == ids@.len() <= u32::MAX,
            1 <= table_size < usize::MAX,
            mask == table_size - 1,
            cell_ids@.len() == n,
            indices@.len() == n,
            cursors@.len() == table_size,
            forall|b: int|
                0 <= b < table_size ==> cursors@[b] == #[trigger] before_bucket(ids@, mask, b)
                    + in_bucket(ids@.take(i as int), mask, b).len(),
            scattered(ids@, mask, cell_ids@, indices@, i as int),
        decreases n - i,
    {
        let cid: u64 = ids[i];
        let b: usize = bucket_of(cid, mask);
        let ghost now = ids@.take(i as int);
        let ghost next = ids@.take(i + 1);
        proof {
            assert(next.drop_last() =~= now);
            assert(cursors@[b as int] == before_bucket(ids@, mask, b as int) + in_bucket(
                now,
                mask,
                b as int,
            ).len());
            lemma_in_bucket_prefix(ids@, mask, b as int, i as int);
            lemma_before_bucket_grows(ids@, mask, b + 1, table_size as int);
            lemma_before_bucket_all(ids@, mask);
            lemma_before_bucket_grows(ids@, mask, 0, b as int);
        }
        let slot: usize = cursors[b] as usize;
        let ghost old_cell_ids = cell_ids@;
        let ghost old_indices = indices@;
        let ghost old_cursors = cursors@;
        cell_ids.set(slot, cid);
        indices.set(slot, i as u32);
        let cursor: u32 = cursors[b];
        cursors.set(b, cursor + 1);
        proof {
            assert forall|d: int| 0 <= d < table_size implies cursors@[d]
                == #[trigger] before_bucket(ids@, mask, d) + in_bucket(next, mask, d).len() by {
                assert(old_cursors[d] == before_bucket(ids@, mask, d) + in_bucket(
                    now,
                    mask,
                    d,
                ).len());
            }
            assert forall|d: int, k: int|
                0 <= d <= mask && 0 <= k < in_bucket(next, mask, d).len() implies {
                let j = #[trigger] in_bucket(next, mask, d)[k];
                let at = before_bucket(ids@, mask, d) + k;
                &&& indices@[at] == j
                &&& cell_ids@[at] == ids@[j as int]
            } by {
                let at = before_bucket(ids@, mask, d) + k;
                if d == b && k == in_bucket(now, mask, d).len() {
                    assert(at == slot);
                } else {
                    assert(k < in_bucket(now, mask, d).len());
                    assert(in_bucket(next, mask, d)[k] == in_bucket(now, mask, d)[k]);
                    lemma_in_bucket_prefix(ids@, mask, d, i as int);
                    lemma_before_bucket_grows(ids@, mask, 0, d);
                    lemma_before_bucket_grows(ids@, mask, d + 1, table_size as int);
                    if d < b {
                        lemma_before_bucket_grows(ids@, mask, d + 1, b as int);
                    } else if d > b {
                        lemma_before_bucket_grows(ids@, mask, b + 1, d);
                    }
                    assert(at != slot);
                    assert(0 <= at < n);
                    assert(indices@[at] == old_indices[at]);
                    assert(cell_ids@[at] == old_cell_ids[at]);
                }
            }
        }
        i = i + 1;
    }
    (cell_ids, indices)
}

} // verus!
