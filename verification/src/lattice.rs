//! Face-centered cubic lattices, the densest arrangement of equal spheres.

use vstd::arithmetic::div_mod::lemma_fundamental_div_mod_converse;
use vstd::prelude::*;

use crate::domain::Domain;
use crate::scalar::{Number, Scalar};
use crate::vector::Vec3;

verus! {

/// `nx * ny * nz` cubes with edges of length `spacing`, the first of them with its lowest corner
/// at `origin`. Each cube has four sites: its lowest corner and the centers of the three faces
/// that meet there.
#[derive(Clone, Copy, Debug)]
pub struct Lattice<S> {
    pub origin: Vec3<S>,
    pub spacing: S,
    pub nx: i32,
    pub ny: i32,
    pub nz: i32,
}

/// The number of cubes along an axis.
pub open spec fn side(count: i32) -> nat {
    if count > 0 {
        count as nat
    } else {
        0
    }
}

impl<S: Number> Lattice<S> {
    /// The number of sites.
    pub open spec fn sites(self) -> nat {
        4 * (side(self.nx) * (side(self.ny) * side(self.nz)))
    }

    /// Where site `b` of a cube lies in the cube.
    pub open spec fn offset(self, b: int) -> Vec3<S> {
        let none = S::whole(0);
        let half = S::decimal(5, 1);
        if b == 0 {
            Vec3 { x: none, y: none, z: none }
        } else if b == 1 {
            (Vec3 { x: half, y: half, z: none }).scaled(self.spacing)
        } else if b == 2 {
            (Vec3 { x: half, y: none, z: half }).scaled(self.spacing)
        } else {
            (Vec3 { x: none, y: half, z: half }).scaled(self.spacing)
        }
    }

    /// Site `b` of the cube in column `i`, row `j` and layer `k`.
    pub open spec fn site_of(self, i: int, j: int, k: int, b: int) -> Vec3<S> {
        (Vec3 {
            x: self.origin.x.sum(S::whole(i as u64).product(self.spacing)),
            y: self.origin.y.sum(S::whole(j as u64).product(self.spacing)),
            z: self.origin.z.sum(S::whole(k as u64).product(self.spacing)),
        }).sum(self.offset(b))
    }

    /// Site number `t`, counted cube by cube, row by row and layer by layer.
    pub open spec fn site(self, t: int) -> Vec3<S> {
        let cube = t / 4;
        let row = cube / side(self.nx) as int;
        self.site_of(
            cube % side(self.nx) as int,
            row % side(self.ny) as int,
            row / side(self.ny) as int,
            t % 4,
        )
    }

    /// Those of the first `t` sites at which a sphere of radius `r` fits into the domain.
    pub open spec fn kept(self, domain: Domain<S>, r: S, t: int) -> Seq<Vec3<S>>
        decreases t,
    {
        if t <= 0 {
            Seq::empty()
        } else {
            let before = self.kept(domain, r, t - 1);
            if domain.holds_center(self.site(t - 1), r) {
                before.push(self.site(t - 1))
            } else {
                before
            }
        }
    }

    /// The first `n` sites at which a sphere of radius `r` fits into the domain; `None` where
    /// there are fewer.
    pub open spec fn filled(self, domain: Domain<S>, r: S, n: nat) -> Option<Seq<Vec3<S>>> {
        let kept = self.kept(domain, r, self.sites() as int);
        if n <= kept.len() {
            Some(kept.take(n as int))
        } else {
            None
        }
    }
}

impl<S: Scalar> Lattice<S> {
    fn offset_of(&self, b: usize) -> (r: Vec3<S>)
        requires
            b < 4,
        ensures
            r == self.offset(b as int),
    {
        let none = S::from_u64(0);
        let half = S::from_decimal(5, 1);
        if b == 0 {
            Vec3::new(none, none, none)
        } else if b == 1 {
            Vec3::new(half, half, none).scale(self.spacing)
        } else if b == 2 {
            Vec3::new(half, none, half).scale(self.spacing)
        } else {
            Vec3::new(none, half, half).scale(self.spacing)
        }
    }

    /// The first `n` sites at which a sphere of radius `r` fits into the domain; `None` where
    /// there are fewer.
    pub fn fill(&self, domain: &Domain<S>, r: S, n: usize) -> (res: Option<Vec<Vec3<S>>>)
        ensures
            res is Some <==> self.filled(*domain, r, n as nat) is Some,
            res matches Some(positions) ==> Some(positions@) == self.filled(
                *domain,
                r,
                n as nat,
            ),
    {
        let mut positions: Vec<Vec3<S>> = Vec::new();
        let ghost goal = self.sites() as int;
        if self.nx <= 0 || self.ny <= 0 {
            proof {
                assert(goal == 0) by (nonlinear_arith)
                    requires
                        goal == 4 * (side(self.nx) * (side(self.ny) * side(self.nz))),
                        side(self.nx) == 0 || side(self.ny) == 0,
                ;
            }
            if n == 0 {
                assert(positions@ =~= self.kept(*domain, r, goal).take(0));
                return Some(positions);
            }
            return None;
        }
        let mut b: usize = 0;
        let mut i: i32 = 0;
        let mut j: i32 = 0;
        let mut k: i32 = 0;
        let ghost mut t: int = 0;
        assert(4 * (self.nx * (self.ny * 0 + 0) + 0) + 0 == 0) by (nonlinear_arith);
        while positions.len() < n && k < self.nz
            invariant
                0 < self.nx,
                0 < self.ny,
                goal == self.sites(),
                b < 4,
                0 <= i < self.nx,
                0 <= j < self.ny,
                0 <= k,
                k <= side(self.nz),
                k == side(self.nz) ==> b == 0 && i == 0 && j == 0,
                t == 4 * (self.nx * (self.ny * k + j) + i) + b,
                0 <= t <= goal,
                positions@ == self.kept(*domain, r, t),
                positions@.len() <= n,
            decreases goal - t,
        {
            proof {
                lemma_site(*self, i as int, j as int, k as int, b as int);
            }
            let corner = Vec3::new(
                self.origin.x.add(S::from_u64(i as u64).mul(self.spacing)),
                self.origin.y.add(S::from_u64(j as u64).mul(self.spacing)),
                self.origin.z.add(S::from_u64(k as u64).mul(self.spacing)),
            );
            let p = corner.add(self.offset_of(b));
            if domain.contains_center(p, r) {
                positions.push(p);
            }
            proof {
                t = t + 1;
                lemma_next_site(*self, i as int, j as int, k as int);
            }
            b = b + 1;
            if b == 4 {
                b = 0;
                i = i + 1;
                if i == self.nx {
                    i = 0;
                    j = j + 1;
                    if j == self.ny {
                        j = 0;
                        k = k + 1;
                    }
                }
            }
        }
        if positions.len() == n {
            proof {
                lemma_kept_grows(*self, *domain, r, t, goal);
                assert(self.kept(*domain, r, goal).take(n as int) =~= positions@);
            }
            Some(positions)
        } else {
            proof {
                assert(t == goal) by (nonlinear_arith)
                    requires
                        k == side(self.nz),
                        self.nx == side(self.nx),
                        self.ny == side(self.ny),
                        t == 4 * (self.nx * (self.ny * k + 0) + 0) + 0,
                        goal == 4 * (side(self.nx) * (side(self.ny) * side(self.nz))),
                ;
            }
            None
        }
    }
}

/// Site `b` of the cube in column `i`, row `j` and layer `k` has the number that the order of
/// counting gives it.
pub(crate) proof fn lemma_site<S: Number>(lattice: Lattice<S>, i: int, j: int, k: int, b: int)
    requires
        0 <= i < lattice.nx,
        0 <= j < lattice.ny,
        0 <= k < lattice.nz,
        0 <= b < 4,
    ensures
        ({
            let t = 4 * (lattice.nx * (lattice.ny * k + j) + i) + b;
            0 <= t < lattice.sites() && lattice.site(t) == lattice.site_of(i, j, k, b)
        }),
{
    let nx = lattice.nx as int;
    let ny = lattice.ny as int;
    let nz = lattice.nz as int;
    let row = ny * k + j;
    let cube = nx * row + i;
    let t = 4 * cube + b;
    assert(t / 4 == cube && t % 4 == b);
    assert(ny * k == k * ny && nx * row == row * nx) by (nonlinear_arith);
    lemma_fundamental_div_mod_converse(cube, nx, row, i);
    lemma_fundamental_div_mod_converse(row, ny, k, j);
    assert(0 <= row < ny * nz) by (nonlinear_arith)
        requires
            row == ny * k + j,
            0 <= j < ny,
            0 <= k < nz,
    ;
    assert(0 <= cube < nx * (ny * nz)) by (nonlinear_arith)
        requires
            cube == nx * row + i,
            0 <= i < nx,
            0 <= row < ny * nz,
    ;
}

/// Where the count goes from the last cube of a row, and from the last row of a layer.
proof fn lemma_next_site<S: Number>(lattice: Lattice<S>, i: int, j: int, k: int)
    ensures
        lattice.nx * (lattice.ny * k + j) + lattice.nx == lattice.nx * (lattice.ny * k + (j + 1)),
        lattice.ny * k + lattice.ny == lattice.ny * (k + 1),
        lattice.ny * (k + 1) + 0 == lattice.ny * k + lattice.ny,
{
    assert(lattice.nx * (lattice.ny * k + j) + lattice.nx == lattice.nx * (lattice.ny * k + (j
        + 1))) by (nonlinear_arith);
    assert(lattice.ny * k + lattice.ny == lattice.ny * (k + 1)) by (nonlinear_arith);
}

/// The particles on a lattice are at sites inside the domain.
pub proof fn kept_sites_are_inside<S: Number>(lattice: Lattice<S>, domain: Domain<S>, r: S, t: int)
    ensures
        forall|m: int|
            0 <= m < lattice.kept(domain, r, t).len() ==> domain.holds_center(
                #[trigger] lattice.kept(domain, r, t)[m],
                r,
            ),
    decreases t,
{
    if t > 0 {
        kept_sites_are_inside(lattice, domain, r, t - 1);
        let before = lattice.kept(domain, r, t - 1);
        let kept = lattice.kept(domain, r, t);
        assert forall|m: int| 0 <= m < kept.len() implies domain.holds_center(
            #[trigger] kept[m],
            r,
        ) by {
            if m < before.len() {
                assert(kept[m] == before[m]);
            }
        }
    }
}

pub(crate) proof fn lemma_kept_grows<S: Number>(
    lattice: Lattice<S>,
    domain: Domain<S>,
    r: S,
    t: int,
    u: int,
)
    requires
        0 <= t <= u,
    ensures
        lattice.kept(domain, r, t).len() <= lattice.kept(domain, r, u).len(),
        forall|m: int|
            0 <= m < lattice.kept(domain, r, t).len() ==> #[trigger] lattice.kept(
                domain,
                r,
                t,
            )[m] == lattice.kept(domain, r, u)[m],
    decreases u - t,
{
    if t < u {
        lemma_kept_grows(lattice, domain, r, t, u - 1);
    }
}

} // verus!
