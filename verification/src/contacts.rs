//! The pairs of particles that touch.

use rayon::iter::{IntoParallelIterator, ParallelIterator};
use vstd::prelude::*;

use crate::grid::{cell_ids_of, neighbors, HashGrid};
use crate::neighborhood::{in_reach, neighbors_are_in_reach};
use crate::scalar::{Number, Scalar};
use crate::vector::Vec3;

verus! {

/// Whether two particles are closer than contact distance and do not coincide; `reach` is the
/// square of that distance.
pub open spec fn touching<S: Number>(p: Vec3<S>, q: Vec3<S>, reach: S) -> bool {
    let dist_sq = q.difference(p).squared_length();
    dist_sq.less(reach) && S::whole(0).less(dist_sq)
}

/// Whether the pair `(i, j)` is tested and found to touch.
pub open spec fn in_contact<S: Number>(
    points: Seq<Vec3<S>>,
    inv_cell_size: S,
    reach: S,
    i: int,
    j: int,
) -> bool {
    in_reach(points[i], points[j], inv_cell_size) && touching(points[i], points[j], reach)
}

/// The contacts of particle `i` with the particles behind it and before `end`, in ascending
/// order.
pub open spec fn contacts_before<S: Number>(
    points: Seq<Vec3<S>>,
    inv_cell_size: S,
    reach: S,
    i: int,
    end: int,
) -> Seq<(usize, usize)>
    decreases end,
{
    if end <= i + 1 || end <= 0 {
        Seq::empty()
    } else {
        let rest = contacts_before(points, inv_cell_size, reach, i, end - 1);
        if in_contact(points, inv_cell_size, reach, i, end - 1) {
            rest.push((i as usize, (end - 1) as usize))
        } else {
            rest
        }
    }
}

/// The contacts whose first particle comes before `end`, in ascending order.
pub open spec fn contacts_from<S: Number>(
    points: Seq<Vec3<S>>,
    inv_cell_size: S,
    reach: S,
    end: int,
) -> Seq<(usize, usize)>
    decreases end,
{
    if end <= 0 {
        Seq::empty()
    } else {
        contacts_from(points, inv_cell_size, reach, end - 1) + contacts_before(
            points,
            inv_cell_size,
            reach,
            end - 1,
            points.len() as int,
        )
    }
}

/// All pairs `(i, j)` with `i < j` of particles in contact, in ascending order.
pub open spec fn contact_pairs<S: Number>(
    points: Seq<Vec3<S>>,
    inv_cell_size: S,
    reach: S,
) -> Seq<(usize, usize)> {
    contacts_from(points, inv_cell_size, reach, points.len() as int)
}

/// The order of pairs: by the first member, then by the second.
pub open spec fn pair_less(a: (usize, usize), b: (usize, usize)) -> bool {
    a.0 < b.0 || (a.0 == b.0 && a.1 < b.1)
}

/// Whether a sequence of pairs ascends and holds none twice.
pub open spec fn ascending(pairs: Seq<(usize, usize)>) -> bool {
    forall|j: int, k: int| 0 <= j < k < pairs.len() ==> pair_less(pairs[j], pairs[k])
}

/// The contacts of particle `i` with those of `candidates` that come behind it.
pub open spec fn touched<S: Number>(
    points: Seq<Vec3<S>>,
    reach: S,
    i: int,
    candidates: Seq<usize>,
) -> Seq<(usize, usize)>
    decreases candidates.len(),
{
    if candidates.len() == 0 {
        Seq::empty()
    } else {
        let rest = touched(points, reach, i, candidates.drop_last());
        let j = candidates.last();
        if j > i && touching(points[i], points[j as int], reach) {
            rest.push((i as usize, j))
        } else {
            rest
        }
    }
}

/// The contacts of the particles before `end`, each with the particles in its neighborhood, in
/// the order of the grid.
pub open spec fn touched_from<S: Number>(
    points: Seq<Vec3<S>>,
    inv_cell_size: S,
    reach: S,
    end: int,
) -> Seq<(usize, usize)>
    decreases end,
{
    if end <= 0 {
        Seq::empty()
    } else {
        touched_from(points, inv_cell_size, reach, end - 1) + touched(
            points,
            reach,
            end - 1,
            neighbors(
                cell_ids_of(points, inv_cell_size),
                points[end - 1],
                inv_cell_size,
            ),
        )
    }
}

/// [`contact_pairs`] lists exactly the pairs in contact, each once and in ascending order.
pub proof fn contact_pairs_are_contacts<S: Number>(
    points: Seq<Vec3<S>>,
    inv_cell_size: S,
    reach: S,
)
    requires
        points.len() <= usize::MAX,
    ensures
        forall|a: usize, b: usize|
            #[trigger] contact_pairs(points, inv_cell_size, reach).contains((a, b)) <==> a < b
                && b < points.len() && in_contact(points, inv_cell_size, reach, a as int, b as int),
        ascending(contact_pairs(points, inv_cell_size, reach)),
{
    lemma_contacts_from(points, inv_cell_size, reach, points.len() as int);
}

proof fn lemma_contacts_before<S: Number>(
    points: Seq<Vec3<S>>,
    inv_cell_size: S,
    reach: S,
    i: int,
    end: int,
)
    requires
        0 <= i,
        end <= points.len() <= usize::MAX,
    ensures
        forall|a: usize, b: usize|
            #[trigger] contacts_before(points, inv_cell_size, reach, i, end).contains((a, b))
                <==> a == i && i < b < end && in_contact(points, inv_cell_size, reach, i, b as int),
        ascending(contacts_before(points, inv_cell_size, reach, i, end)),
    decreases end,
{
    let all = contacts_before(points, inv_cell_size, reach, i, end);
    if end > i + 1 && end > 0 {
        let rest = contacts_before(points, inv_cell_size, reach, i, end - 1);
        lemma_contacts_before(points, inv_cell_size, reach, i, end - 1);
        assert forall|j: int, k: int| 0 <= j < k < all.len() implies pair_less(all[j], all[k]) by {
            if k == rest.len() {
                let (a, b) = rest[j];
                assert(rest.contains((a, b)));
            }
        }
        assert forall|a: usize, b: usize|
            #[trigger] all.contains((a, b)) <==> a == i && i < b < end && in_contact(
                points,
                inv_cell_size,
                reach,
                i,
                b as int,
            ) by {
            if all.contains((a, b)) {
                let k = all.index_of((a, b));
                if k < rest.len() {
                    assert(rest[k] == (a, b));
                    assert(rest.contains((a, b)));
                }
            }
            if a == i && i < b < end && in_contact(points, inv_cell_size, reach, i, b as int) {
                if b == end - 1 {
                    assert(all[all.len() - 1] == (a, b));
                } else {
                    assert(rest.contains((a, b)));
                    let k = rest.index_of((a, b));
                    assert(all[k] == (a, b));
                }
            }
        }
    }
}

proof fn lemma_pair_concat(s: Seq<(usize, usize)>, t: Seq<(usize, usize)>, x: (usize, usize))
    ensures
        (s + t).contains(x) <==> s.contains(x) || t.contains(x),
{
    if s.contains(x) {
        let k = s.index_of(x);
        assert((s + t)[k] == x);
    }
    if t.contains(x) {
        let k = t.index_of(x);
        assert((s + t)[s.len() + k] == x);
    }
}

proof fn lemma_contacts_from<S: Number>(
    points: Seq<Vec3<S>>,
    inv_cell_size: S,
    reach: S,
    end: int,
)
    requires
        end <= points.len() <= usize::MAX,
    ensures
        forall|a: usize, b: usize|
            #[trigger] contacts_from(points, inv_cell_size, reach, end).contains((a, b)) <==> a
                < end && a < b && b < points.len() && in_contact(
                points,
                inv_cell_size,
                reach,
                a as int,
                b as int,
            ),
        ascending(contacts_from(points, inv_cell_size, reach, end)),
    decreases end,
{
    if end > 0 {
        let n = points.len() as int;
        let all = contacts_from(points, inv_cell_size, reach, end);
        let rest = contacts_from(points, inv_cell_size, reach, end - 1);
        let last = contacts_before(points, inv_cell_size, reach, end - 1, n);
        lemma_contacts_from(points, inv_cell_size, reach, end - 1);
        lemma_contacts_before(points, inv_cell_size, reach, end - 1, n);
        assert forall|a: usize, b: usize|
            #[trigger] all.contains((a, b)) <==> a < end && a < b && b < points.len()
                && in_contact(points, inv_cell_size, reach, a as int, b as int) by {
            lemma_pair_concat(rest, last, (a, b));
            assert(rest.contains((a, b)) || !rest.contains((a, b)));
            assert(last.contains((a, b)) || !last.contains((a, b)));
        }
        assert forall|j: int, k: int| 0 <= j < k < all.len() implies pair_less(all[j], all[k]) by {
            if j < rest.len() && k >= rest.len() {
                let (a, b) = rest[j];
                let (c, d) = last[k - rest.len()];
                assert(rest.contains((a, b)));
                assert(last.contains((c, d)));
            } else if j >= rest.len() {
                assert(pair_less(last[j - rest.len()], last[k - rest.len()]));
            }
        }
    }
}

proof fn lemma_touched<S: Number>(
    points: Seq<Vec3<S>>,
    reach: S,
    i: int,
    candidates: Seq<usize>,
)
    requires
        0 <= i <= usize::MAX,
        candidates.no_duplicates(),
    ensures
        forall|a: usize, b: usize|
            #[trigger] touched(points, reach, i, candidates).contains((a, b)) <==> a == i && b > i
                && candidates.contains(b) && touching(points[i], points[b as int], reach),
        touched(points, reach, i, candidates).no_duplicates(),
    decreases candidates.len(),
{
    if candidates.len() > 0 {
        let all = touched(points, reach, i, candidates);
        let front = candidates.drop_last();
        let rest = touched(points, reach, i, front);
        let j = candidates.last();
        assert(front.no_duplicates());
        lemma_touched(points, reach, i, front);
        assert(!front.contains(j)) by {
            if front.contains(j) {
                let k = front.index_of(j);
                assert(candidates[k] == candidates[candidates.len() - 1]);
            }
        }
        assert(!rest.contains((i as usize, j)));
        assert forall|a: usize, b: usize|
            #[trigger] all.contains((a, b)) <==> a == i && b > i && candidates.contains(b)
                && touching(points[i], points[b as int], reach) by {
            if all.contains((a, b)) {
                let k = all.index_of((a, b));
                if k < rest.len() {
                    assert(rest[k] == (a, b));
                    assert(rest.contains((a, b)));
                    let m = front.index_of(b);
                    assert(candidates[m] == b);
                } else {
                    assert(candidates[candidates.len() - 1] == b);
                }
            }
            if a == i && b > i && candidates.contains(b) && touching(
                points[i],
                points[b as int],
                reach,
            ) {
                if b == j {
                    assert(all[all.len() - 1] == (a, b));
                } else {
                    let m = candidates.index_of(b);
                    assert(front[m] == b);
                    assert(rest.contains((a, b)));
                    let k = rest.index_of((a, b));
                    assert(all[k] == (a, b));
                }
            }
        }
        assert forall|x: int, y: int|
            0 <= x < all.len() && 0 <= y < all.len() && x != y implies all[x] != all[y] by {
            if x == rest.len() {
                assert(rest.contains(rest[y]));
            } else if y == rest.len() {
                assert(rest.contains(rest[x]));
            }
        }
    }
}

proof fn lemma_touched_from<S: Number>(
    points: Seq<Vec3<S>>,
    inv_cell_size: S,
    reach: S,
    end: int,
)
    requires
        end <= points.len() <= usize::MAX,
    ensures
        forall|a: usize, b: usize|
            #[trigger] touched_from(points, inv_cell_size, reach, end).contains((a, b)) <==> a < end
                && a < b && b < points.len() && in_contact(
                points,
                inv_cell_size,
                reach,
                a as int,
                b as int,
            ),
        touched_from(points, inv_cell_size, reach, end).no_duplicates(),
    decreases end,
{
    if end > 0 {
        let ids = cell_ids_of(points, inv_cell_size);
        let i = end - 1;
        let near = neighbors(ids, points[i], inv_cell_size);
        let all = touched_from(points, inv_cell_size, reach, end);
        let rest = touched_from(points, inv_cell_size, reach, i);
        let last = touched(points, reach, i, near);
        lemma_touched_from(points, inv_cell_size, reach, i);
        neighbors_are_in_reach(points, points[i], inv_cell_size);
        lemma_touched(points, reach, i, near);
        assert forall|a: usize, b: usize|
            #[trigger] all.contains((a, b)) <==> a < end && a < b && b < points.len()
                && in_contact(points, inv_cell_size, reach, a as int, b as int) by {
            lemma_pair_concat(rest, last, (a, b));
            assert(rest.contains((a, b)) || !rest.contains((a, b)));
            assert(last.contains((a, b)) || !last.contains((a, b)));
            assert(near.contains(b) || !near.contains(b));
        }
        assert forall|x: int, y: int|
            0 <= x < all.len() && 0 <= y < all.len() && x != y implies all[x] != all[y] by {
            if x < rest.len() && y >= rest.len() {
                let (a, b) = rest[x];
                let (c, d) = last[y - rest.len()];
                assert(rest.contains((a, b)));
                assert(last.contains((c, d)));
            } else if y < rest.len() && x >= rest.len() {
                let (a, b) = rest[y];
                let (c, d) = last[x - rest.len()];
                assert(rest.contains((a, b)));
                assert(last.contains((c, d)));
            }
        }
    }
}

/// Ascending sequences with the same members are equal.
proof fn lemma_ascending_unique(s: Seq<(usize, usize)>, t: Seq<(usize, usize)>)
    requires
        ascending(s),
        ascending(t),
        forall|a: usize, b: usize| #[trigger] s.contains((a, b)) == t.contains((a, b)),
    ensures
        s == t,
    decreases s.len(),
{
    if s.len() == 0 {
        if t.len() > 0 {
            let (a, b) = t[0];
            assert(t.contains((a, b)));
            assert(s.contains((a, b)));
        }
        assert(s =~= t);
    } else {
        let x = s[s.len() - 1];
        assert(s.contains((x.0, x.1)));
        assert(t.contains((x.0, x.1)));
        let y = t[t.len() - 1];
        assert(t.contains((y.0, y.1)));
        assert(s.contains((y.0, y.1)));
        let j = s.index_of(y);
        let k = t.index_of(x);
        assert(x == y) by {
            if j < s.len() - 1 {
                assert(pair_less(s[j], s[s.len() - 1]));
            }
            if k < t.len() - 1 {
                assert(pair_less(t[k], t[t.len() - 1]));
            }
        }
        let s0 = s.drop_last();
        let t0 = t.drop_last();
        assert forall|a: usize, b: usize| #[trigger] s0.contains((a, b)) == t0.contains((a, b)) by {
            if s0.contains((a, b)) {
                let m = s0.index_of((a, b));
                assert(s[m] == (a, b));
                assert(pair_less(s[m], s[s.len() - 1]));
                assert(s.contains((a, b)));
                let l = t.index_of((a, b));
                assert(t0[l] == (a, b));
            }
            if t0.contains((a, b)) {
                let m = t0.index_of((a, b));
                assert(t[m] == (a, b));
                assert(pair_less(t[m], t[t.len() - 1]));
                assert(t.contains((a, b)));
                assert(s.contains((a, b)));
                let l = s.index_of((a, b));
                assert(s0[l] == (a, b));
            }
        }
        lemma_ascending_unique(s0, t0);
        assert(s =~= s0.push(x));
        assert(t =~= t0.push(y));
    }
}

/// The contacts of particle `i` with the particles behind it, in the order of the grid.
pub fn contacts_of<S: Scalar>(
    grid: &HashGrid<S>,
    positions: &Vec<Vec3<S>>,
    reach: S,
    i: usize,
) -> (r: Vec<(usize, usize)>)
    requires
        grid.wf(),
        grid@ == cell_ids_of(positions@, grid.scale()),
        i < positions@.len(),
    ensures
        r@ == touched(
            positions@,
            reach,
            i as int,
            neighbors(grid@, positions@[i as int], grid.scale()),
        ),
{
    let n: usize = positions.len();
    let pos_i = positions[i];
    let near: Vec<usize> = grid.for_each_neighbor(pos_i);
    proof {
        neighbors_are_in_reach(positions@, pos_i, grid.scale());
        assert forall|m: int| 0 <= m < near@.len() implies #[trigger] near@[m] < n by {
            assert(near@.contains(near@[m]));
        }
    }
    let mut out: Vec<(usize, usize)> = Vec::new();
    let mut k: usize = 0;
    proof {
        assert(near@.take(0) =~= Seq::<usize>::empty());
    }
    while k < near.len()
        invariant
            k <= near@.len(),
            i < positions@.len(),
            pos_i == positions@[i as int],
            forall|m: int| 0 <= m < near@.len() ==> #[trigger] near@[m] < n,
            n == positions@.len(),
            out@ == touched(positions@, reach, i as int, near@.take(k as int)),
        decreases near.len() - k,
    {
        proof {
            assert(near@.take(k + 1).drop_last() =~= near@.take(k as int));
        }
        let j: usize = near[k];
        if j > i {
            let dist_sq = positions[j].sub(pos_i).length_squared();
            if dist_sq.lt(reach) && S::from_u64(0).lt(dist_sq) {
                out.push((i, j));
            }
        }
        k = k + 1;
    }
    proof {
        assert(near@.take(k as int) =~= near@);
    }
    out
}

/// Runs [`contacts_of`] for every particle on rayon's thread pool.
///
/// Trusted: `flat_map_iter` on the parallel iterator over `0..n`, collected into a vector,
/// yields the items of the vectors that the closure returns for `0`, `1`, up to `n - 1`, one
/// after the other, whatever the threads did.
#[verifier::external_body]
fn contacts_in_parallel<S: Scalar>(
    grid: &HashGrid<S>,
    positions: &Vec<Vec3<S>>,
    reach: S,
) -> (r: Vec<(usize, usize)>)
    requires
        grid.wf(),
        grid@ == cell_ids_of(positions@, grid.scale()),
    ensures
        r@ == touched_from(positions@, grid.scale(), reach, positions@.len() as int),
{
    (0..positions.len()).into_par_iter().flat_map_iter(
        |i| contacts_of(grid, positions, reach, i),
    ).collect()
}

/// Sorts pairs by the first member, then by the second.
///
/// Trusted: `slice::sort_unstable` reorders the items so that none is greater than the next in
/// the order of tuples.
#[verifier::external_body]
fn sort_pairs(pairs: &mut Vec<(usize, usize)>)
    ensures
        final(pairs)@.to_multiset() == old(pairs)@.to_multiset(),
        forall|j: int, k: int|
            0 <= j < k < final(pairs)@.len() ==> !pair_less(final(pairs)@[k], final(pairs)@[j]),
{
    pairs.sort_unstable();
}

/// The pairs in contact, in ascending order. Only the 3x3x3 cells around each particle are
/// searched instead of all pairs.
pub fn find_contacts<S: Scalar>(
    grid: &HashGrid<S>,
    positions: &Vec<Vec3<S>>,
    reach: S,
) -> (r: Vec<(usize, usize)>)
    requires
        grid.wf(),
        grid@ == cell_ids_of(positions@, grid.scale()),
    ensures
        r@ == contact_pairs(positions@, grid.scale(), reach),
{
    let n: usize = positions.len();
    let mut pairs: Vec<(usize, usize)> = contacts_in_parallel(grid, positions, reach);
    let ghost found = pairs@;
    sort_pairs(&mut pairs);
    proof {
        let sorted = pairs@;
        lemma_touched_from(positions@, grid.scale(), reach, n as int);
        contact_pairs_are_contacts(positions@, grid.scale(), reach);
        found.lemma_multiset_has_no_duplicates();
        sorted.lemma_multiset_has_no_duplicates_conv();
        found.to_multiset_ensures();
        sorted.to_multiset_ensures();
        assert forall|a: usize, b: usize|
            #[trigger] sorted.contains((a, b)) == contact_pairs(
                positions@,
                grid.scale(),
                reach,
            ).contains((a, b)) by {
            assert(sorted.contains((a, b)) == (sorted.to_multiset().count((a, b)) > 0));
            assert(found.contains((a, b)) == (found.to_multiset().count((a, b)) > 0));
        }
        assert forall|j: int, k: int| 0 <= j < k < sorted.len() implies pair_less(
            sorted[j],
            sorted[k],
        ) by {
            assert(sorted[j] != sorted[k]);
            assert(!pair_less(sorted[k], sorted[j]));
        }
        lemma_ascending_unique(sorted, contact_pairs(positions@, grid.scale(), reach));
    }
    pairs
}

} // verus!
