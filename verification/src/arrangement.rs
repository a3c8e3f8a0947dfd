//! Why particles do not overlap at the start: laws of [`crate::lattice`] and [`crate::setup`],
//! most of them stated of real numbers.

use vstd::arithmetic::div_mod::{lemma_fundamental_div_mod, lemma_mod_bound};
use vstd::prelude::*;

use crate::domain::{Domain, SimulationParams};
use crate::elastic::half_value;
use crate::exact::{root, ten_to, Exact};
use crate::geometry::{
    apart_after_moving,
    normalized,
    quotient_times,
    root_squared,
    roots_exist,
    scaled_length,
    ten_to_positive,
    times_reciprocal,
};
use crate::lattice::{kept_sites_are_inside, side, Lattice};
use crate::scalar::{sqrt_2_value, Number};
use crate::setup::{
    direction,
    jitter_reach,
    jittered,
    lattice_in,
    least_spacing,
    sent_off,
    without_drift,
    Filling,
    Phase,
    Request,
};
use crate::vector::{total, Vec3};

verus! {

/// The cube and the corner of the cube that site number `t` belongs to.
pub open spec fn place_of<S: Number>(lattice: Lattice<S>, t: int) -> (int, int, int, int) {
    let cube = t / 4;
    let row = cube / side(lattice.nx) as int;
    (cube % side(lattice.nx) as int, row % side(lattice.ny) as int, row / side(lattice.ny) as int, t
        % 4)
}

/// Sites with different numbers are at different places, all of them in the lattice.
proof fn lemma_places<S: Number>(lattice: Lattice<S>, t: int, u: int)
    requires
        0 <= t < lattice.sites(),
        0 <= u < lattice.sites(),
    ensures
        place_of(lattice, t) == place_of(lattice, u) ==> t == u,
        ({
            let (i, j, k, b) = place_of(lattice, t);
            0 <= i < lattice.nx && 0 <= j < lattice.ny && 0 <= k < lattice.nz && 0 <= b < 4
        }),
{
    let nx = side(lattice.nx) as int;
    let ny = side(lattice.ny) as int;
    let nz = side(lattice.nz) as int;
    assert(nx > 0 && ny > 0 && nz > 0) by (nonlinear_arith)
        requires
            0 <= nx,
            0 <= ny,
            0 <= nz,
            0 < 4 * (nx * (ny * nz)),
    ;
    lemma_fundamental_div_mod(t / 4, nx);
    lemma_fundamental_div_mod((t / 4) / nx, ny);
    lemma_fundamental_div_mod(u / 4, nx);
    lemma_fundamental_div_mod((u / 4) / nx, ny);
    lemma_mod_bound(t / 4, nx);
    lemma_mod_bound((t / 4) / nx, ny);
    let cube = t / 4;
    let row = cube / nx;
    let k = row / ny;
    let i = cube % nx;
    let j = row % ny;
    assert(0 <= row < ny * nz) by (nonlinear_arith)
        requires
            0 <= cube < nx * (ny * nz),
            cube == nx * row + i,
            0 <= i < nx,
    ;
    assert(0 <= k < nz) by (nonlinear_arith)
        requires
            0 <= row < ny * nz,
            row == ny * k + j,
            0 <= j < ny,
    ;
}

/// Twice the offset of corner `b` of a cube along each axis, in units of the spacing.
pub open spec fn doubled_offset(b: int) -> (int, int, int) {
    if b == 0 {
        (0, 0, 0)
    } else if b == 1 {
        (1, 1, 0)
    } else if b == 2 {
        (1, 0, 1)
    } else {
        (0, 1, 1)
    }
}

/// One coordinate of a site, in units of half the spacing from the origin.
pub(crate) proof fn lemma_coordinate(origin: real, i: int, a: real, o: int, h: real)
    requires
        0 <= i <= i32::MAX,
        o == 0 || o == 1,
        h == if o == 1 {
            1real / 2real
        } else {
            0real
        },
    ensures
        (origin + ((i as u64) as real) * a) + h * a == origin + ((2 * i + o) as real) * (a / 2real),
{
    let x = (i as u64) as real;
    let y = o as real;
    assert((2 * i + o) as real == 2real * x + y);
    assert(x * a + h * a == (2real * x + y) * (a / 2real)) by (nonlinear_arith)
        requires
            2real * h == y,
    {
        assert((2real * x + y) * (a / 2real) == (2real * x + 2real * h) * (a / 2real));
    }
}

/// The offset between two sites, in units of half the spacing.
proof fn lemma_site_offset(lattice: Lattice<Exact>, t: int)
    requires
        0 <= t < lattice.sites(),
    ensures
        ({
            let (i, j, k, b) = place_of(lattice, t);
            let (ox, oy, oz) = doubled_offset(b);
            let h = lattice.spacing.value / 2real;
            let p = lattice.site(t);
            &&& p.x.value == lattice.origin.x.value + ((2 * i + ox) as real) * h
            &&& p.y.value == lattice.origin.y.value + ((2 * j + oy) as real) * h
            &&& p.z.value == lattice.origin.z.value + ((2 * k + oz) as real) * h
        }),
{
    lemma_places(lattice, t, t);
    half_value();
    let (i, j, k, b) = place_of(lattice, t);
    let (ox, oy, oz) = doubled_offset(b);
    let a = lattice.spacing.value;
    let half = 1real / 2real;
    assert(0real * a == 0real) by (nonlinear_arith);
    lemma_coordinate(
        lattice.origin.x.value,
        i,
        a,
        ox,
        if ox == 1 {
            half
        } else {
            0real
        },
    );
    lemma_coordinate(
        lattice.origin.y.value,
        j,
        a,
        oy,
        if oy == 1 {
            half
        } else {
            0real
        },
    );
    lemma_coordinate(
        lattice.origin.z.value,
        k,
        a,
        oz,
        if oz == 1 {
            half
        } else {
            0real
        },
    );
}

/// Whether `p` and `q` are at least `spacing` divided by the square root of two apart.
pub open spec fn spaced(p: Vec3<Exact>, q: Vec3<Exact>, spacing: Exact) -> bool {
    spacing.value * spacing.value <= 2real * q.difference(p).squared_length().value
}

/// An integer vector whose coordinates have an even sum is zero or at least the square root of
/// two long.
proof fn lemma_even_vector(x: int, y: int, z: int)
    requires
        (x + y + z) % 2 == 0,
        !(x == 0 && y == 0 && z == 0),
    ensures
        2 <= x * x + y * y + z * z,
{
    assert(x * x >= 0 && y * y >= 0 && z * z >= 0) by (nonlinear_arith);
    assert(x != 0 ==> x * x >= 1) by (nonlinear_arith);
    assert(y != 0 ==> y * y >= 1) by (nonlinear_arith);
    assert(z != 0 ==> z * z >= 1) by (nonlinear_arith);
    assert(x * x <= 1 ==> -1 <= x <= 1) by (nonlinear_arith);
    assert(y * y <= 1 ==> -1 <= y <= 1) by (nonlinear_arith);
    assert(z * z <= 1 ==> -1 <= z <= 1) by (nonlinear_arith);
}

proof fn lemma_square_as_real(d: int)
    ensures
        (d as real) * (d as real) == (d * d) as real,
{
    assert((d as real) * (d as real) == (d * d) as real) by (nonlinear_arith);
}

/// Different sites of a lattice are at least the spacing divided by the square root of two apart.
pub proof fn sites_are_spaced(lattice: Lattice<Exact>, t: int, u: int)
    requires
        0 <= t < lattice.sites(),
        0 <= u < lattice.sites(),
        t != u,
    ensures
        spaced(lattice.site(t), lattice.site(u), lattice.spacing),
{
    lemma_places(lattice, t, u);
    lemma_places(lattice, u, t);
    lemma_site_offset(lattice, t);
    lemma_site_offset(lattice, u);
    let (i, j, k, b) = place_of(lattice, t);
    let (ii, jj, kk, bb) = place_of(lattice, u);
    let (ox, oy, oz) = doubled_offset(b);
    let (px, py, pz) = doubled_offset(bb);
    let x = (2 * ii + px) - (2 * i + ox);
    let y = (2 * jj + py) - (2 * j + oy);
    let z = (2 * kk + pz) - (2 * k + oz);
    lemma_even_vector(x, y, z);
    let h = lattice.spacing.value / 2real;
    lemma_scaled_difference((2 * i + ox) as real, (2 * ii + px) as real, h);
    lemma_scaled_difference((2 * j + oy) as real, (2 * jj + py) as real, h);
    lemma_scaled_difference((2 * k + oz) as real, (2 * kk + pz) as real, h);
    lemma_square_as_real(x);
    lemma_square_as_real(y);
    lemma_square_as_real(z);
    lemma_scaled_square(x as real, h);
    lemma_scaled_square(y as real, h);
    lemma_scaled_square(z as real, h);
    lemma_spread(
        (x as real) * (x as real),
        (y as real) * (y as real),
        (z as real) * (z as real),
        h * h,
    );
    let m = (x as real) * (x as real) + (y as real) * (y as real) + (z as real) * (z as real);
    assert(2real <= m);
    let a = lattice.spacing.value;
    lemma_twice_squared(h);
    assert(0real <= h * h) by (nonlinear_arith);
    lemma_at_least_twice(m, h * h);
}

proof fn lemma_twice_squared(h: real)
    by (nonlinear_arith)
    ensures
        (2real * h) * (2real * h) == 4real * (h * h),
{
}

proof fn lemma_at_least_twice(m: real, q: real)
    by (nonlinear_arith)
    requires
        2real <= m,
        0real <= q,
    ensures
        2real * q <= m * q,
{
}

proof fn lemma_scaled_difference(x: real, y: real, h: real)
    by (nonlinear_arith)
    ensures
        y * h - x * h == (y - x) * h,
{
}

proof fn lemma_scaled_square(x: real, h: real)
    by (nonlinear_arith)
    ensures
        (x * h) * (x * h) == (x * x) * (h * h),
{
}

proof fn lemma_spread(a: real, b: real, c: real, q: real)
    by (nonlinear_arith)
    ensures
        (a + b + c) * q == a * q + b * q + c * q,
{
}

/// Each particle on a lattice has a site.
proof fn lemma_kept_are_sites<S: Number>(lattice: Lattice<S>, domain: Domain<S>, r: S, t: int)
    ensures
        forall|m: int|
            0 <= m < lattice.kept(domain, r, t).len() ==> exists|u: int|
                0 <= u < t && #[trigger] lattice.site(u) == #[trigger] lattice.kept(
                    domain,
                    r,
                    t,
                )[m],
    decreases t,
{
    if t > 0 {
        lemma_kept_are_sites(lattice, domain, r, t - 1);
        let before = lattice.kept(domain, r, t - 1);
        let kept = lattice.kept(domain, r, t);
        assert forall|m: int| 0 <= m < kept.len() implies exists|u: int|
            0 <= u < t && #[trigger] lattice.site(u) == #[trigger] kept[m] by {
            if m < before.len() {
                let u = choose|u: int|
                    0 <= u < t - 1 && #[trigger] lattice.site(u) == before[m];
                assert(lattice.site(u) == kept[m]);
            } else {
                assert(lattice.site(t - 1) == kept[m]);
            }
        }
    }
}

/// Whether the points are pairwise spaced.
pub open spec fn all_spaced(points: Seq<Vec3<Exact>>, spacing: Exact) -> bool {
    forall|i: int, j: int|
        0 <= i < j < points.len() ==> spaced(#[trigger] points[i], #[trigger] points[j], spacing)
}

/// The particles on a lattice are pairwise spaced.
pub proof fn kept_sites_are_spaced(
    lattice: Lattice<Exact>,
    domain: Domain<Exact>,
    r: Exact,
    t: int,
)
    requires
        t <= lattice.sites(),
    ensures
        all_spaced(lattice.kept(domain, r, t), lattice.spacing),
    decreases t,
{
    if t > 0 {
        kept_sites_are_spaced(lattice, domain, r, t - 1);
        lemma_kept_are_sites(lattice, domain, r, t - 1);
        let before = lattice.kept(domain, r, t - 1);
        let kept = lattice.kept(domain, r, t);
        assert forall|i: int, j: int| 0 <= i < j < kept.len() implies spaced(
            #[trigger] kept[i],
            #[trigger] kept[j],
            lattice.spacing,
        ) by {
            if j < before.len() {
                assert(kept[i] == before[i] && kept[j] == before[j]);
            } else {
                assert(kept[i] == before[i]);
                let u = choose|u: int|
                    0 <= u < t - 1 && #[trigger] lattice.site(u) == before[i];
                sites_are_spaced(lattice, u, t - 1);
            }
        }
    }
}

/// The constant for the square root of two is not below it.
proof fn lemma_sqrt_2()
    ensures
        0real < sqrt_2_value::<Exact>().value,
        2real <= sqrt_2_value::<Exact>().value * sqrt_2_value::<Exact>().value,
{
    reveal_with_fuel(ten_to, 17);
    assert(ten_to(16) == 10_000_000_000_000_000real);
    assert(sqrt_2_value::<Exact>().value == 14_142_135_623_730_951real
        / 10_000_000_000_000_000real);
}

/// The length that the spacing guarantees between particles on different sites.
pub open spec fn gap(spacing: Exact) -> real {
    spacing.value / sqrt_2_value::<Exact>().value
}

proof fn lemma_gap(spacing: Exact, p: Vec3<Exact>, q: Vec3<Exact>)
    requires
        spaced(p, q, spacing),
    ensures
        gap(spacing) * gap(spacing) <= q.difference(p).squared_length().value,
{
    lemma_sqrt_2();
    let s = sqrt_2_value::<Exact>().value;
    let d = gap(spacing);
    quotient_times(spacing.value, s);
    lemma_product_squared(d, s);
    assert(0real <= d * d) by (nonlinear_arith);
    lemma_at_least_twice(s * s, d * d);
}

proof fn lemma_product_squared(d: real, s: real)
    by (nonlinear_arith)
    ensures
        (d * s) * (d * s) == (s * s) * (d * d),
{
}

/// A spacing that is not too small guarantees a gap of two radii.
proof fn lemma_least_gap(spacing: Exact, r: Exact)
    requires
        least_spacing(r).value <= spacing.value,
    ensures
        2real * r.value <= gap(spacing),
{
    lemma_sqrt_2();
    let s = sqrt_2_value::<Exact>().value;
    quotient_times(spacing.value, s);
    lemma_regrouped(s, r.value);
    lemma_cancel_factor(s, 2real * r.value, gap(spacing));
}

proof fn lemma_regrouped(s: real, r: real)
    by (nonlinear_arith)
    ensures
        (2real * s) * r == (2real * r) * s,
{
}

proof fn lemma_cancel_factor(s: real, x: real, y: real)
    by (nonlinear_arith)
    requires
        0real < s,
        x * s <= y * s,
    ensures
        x <= y,
{
}

/// Twice the square root of three times the reach of the jitter is nine tenths of what the gap
/// leaves.
pub(crate) proof fn lemma_reach(spacing: Exact, r: Exact)
    requires
        roots_exist(),
    ensures
        ({
            let k = (2real * root(3real)) * jitter_reach(spacing, r).value;
            &&& k == (9real / 10real) * (gap(spacing) - 2real * r.value)
            &&& k * k == 12real * (jitter_reach(spacing, r).value * jitter_reach(spacing, r).value)
            &&& 0real < root(3real)
        }),
{
    root_squared(3real);
    reveal_with_fuel(ten_to, 2);
    assert(ten_to(1) == 10real);
    let w = root(3real);
    assert(w == 0real ==> w * w == 0real) by (nonlinear_arith);
    let x = gap(spacing) - 2real * r.value;
    let m = 2real * w;
    let y = x / m;
    quotient_times(x, m);
    let t = Exact::decimal(9, 1).value;
    assert(t == 9real / 10real);
    let reach = jitter_reach(spacing, r).value;
    assert(reach == y * t);
    lemma_reordered(m, y, t);
    lemma_twelve(w, reach);
}

proof fn lemma_reordered(m: real, y: real, t: real)
    by (nonlinear_arith)
    ensures
        m * (y * t) == t * (y * m),
{
}

proof fn lemma_twelve(w: real, q: real)
    by (nonlinear_arith)
    ensures
        ((2real * w) * q) * ((2real * w) * q) == 4real * ((w * w) * (q * q)),
{
}

/// Whether `p` is at most `reach` from `site` along each axis.
pub open spec fn near(p: Vec3<Exact>, site: Vec3<Exact>, reach: real) -> bool {
    &&& -reach <= p.x.value - site.x.value <= reach
    &&& -reach <= p.y.value - site.y.value <= reach
    &&& -reach <= p.z.value - site.z.value <= reach
}

proof fn lemma_square_bounded(x: real, b: real)
    by (nonlinear_arith)
    requires
        -b <= x <= b,
    ensures
        x * x <= b * b,
{
}

/// Particles near spaced sites do not overlap, if the sites are far enough apart for a jitter.
proof fn lemma_near_sites_apart(
    p: Vec3<Exact>,
    q: Vec3<Exact>,
    a: Vec3<Exact>,
    b: Vec3<Exact>,
    spacing: Exact,
    r: Exact,
)
    requires
        roots_exist(),
        0real <= r.value,
        spaced(a, b, spacing),
        0real < jitter_reach(spacing, r).value,
        near(p, a, jitter_reach(spacing, r).value),
        near(q, b, jitter_reach(spacing, r).value),
    ensures
        (2real * r.value) * (2real * r.value) <= q.difference(p).squared_length().value,
{
    let reach = jitter_reach(spacing, r).value;
    let w = 2real * root(3real);
    let k = w * reach;
    let d = gap(spacing);
    lemma_reach(spacing, r);
    assert(0real < k) by (nonlinear_arith)
        requires
            0real < w,
            0real < reach,
            k == w * reach,
    ;
    lemma_gap(spacing, a, b);
    let base = b.difference(a);
    let moved = q.difference(b).difference(p.difference(a));
    let (x, y, z) = (moved.x.value, moved.y.value, moved.z.value);
    lemma_square_bounded(x, 2real * reach);
    lemma_square_bounded(y, 2real * reach);
    lemma_square_bounded(z, 2real * reach);
    lemma_twice_squared(reach);
    assert(moved.squared_length().value <= k * k);
    apart_after_moving(base, moved, d, k);
    assert(base.sum(moved) == q.difference(p));
    lemma_square_ordered(2real * r.value, d - k);
}

proof fn lemma_square_ordered(x: real, y: real)
    by (nonlinear_arith)
    requires
        0real <= x <= y,
    ensures
        x * x <= y * y,
{
}

/// Whether the particles of a filling are near the spaced sites that they were laid on, as near
/// as the jitter allows.
pub open spec fn settled(
    filling: Filling<Exact>,
    sites: Seq<Vec3<Exact>>,
    spacing: Exact,
) -> bool {
    let reach = jitter_reach(spacing, filling.params.radius);
    let slack = if 0real < reach.value {
        reach.value
    } else {
        0real
    };
    &&& all_spaced(sites, spacing)
    &&& sites.len() == filling.n
    &&& least_spacing(filling.params.radius).value <= spacing.value
    &&& match filling.phase {
        Phase::Jitter { positions, reach: bound, moved, drawn } => {
            &&& bound == reach
            &&& 0real < reach.value
            &&& positions.len() == filling.n
            &&& drawn.len() < 3
            &&& forall|m: int|
                0 <= m < drawn.len() ==> -slack <= (#[trigger] drawn[m]).value <= slack
            &&& forall|i: int|
                0 <= i < filling.n ==> near(#[trigger] positions[i], sites[i], slack)
            &&& forall|i: int|
                moved <= i < filling.n ==> #[trigger] positions[i] == sites[i]
        },
        Phase::Aiming { positions, .. } => {
            &&& positions.len() == filling.n
            &&& forall|i: int|
                0 <= i < filling.n ==> near(#[trigger] positions[i], sites[i], slack)
        },
        Phase::Ready { positions, .. } => {
            &&& positions.len() == filling.n
            &&& forall|i: int|
                0 <= i < filling.n ==> near(#[trigger] positions[i], sites[i], slack)
        },
        _ => false,
    }
}

/// The particles that a filling has placed so far.
pub open spec fn placed_particles<S: Number>(filling: Filling<S>) -> Seq<Vec3<S>> {
    match filling.phase {
        Phase::Jitter { positions, .. } => positions,
        Phase::Aiming { positions, .. } => positions,
        Phase::Ready { positions, .. } => positions,
        _ => Seq::empty(),
    }
}

/// Particles are laid on sites inside the domain.
pub proof fn laying_places_particles_inside<S: Number>(filling: Filling<S>, spacing: S)
    requires
        filling.phase == (Phase::Laying { spacing }),
    ensures
        forall|i: int|
            0 <= i < placed_particles(filling.laid()).len() ==> filling.params.domain.holds_center(
                #[trigger] placed_particles(filling.laid())[i],
                filling.params.radius,
            ),
{
    let r = filling.params.radius;
    let domain = filling.params.domain;
    let lattice = lattice_in(filling.params, spacing);
    let kept = lattice.kept(domain, r, lattice.sites() as int);
    let placed = placed_particles(filling.laid());
    kept_sites_are_inside(lattice, domain, r, lattice.sites() as int);
    assert forall|i: int| 0 <= i < placed.len() implies domain.holds_center(
        #[trigger] placed[i],
        r,
    ) by {
        assert(placed == kept.take(filling.n as int));
        assert(placed[i] == kept[i]);
    }
}

/// A lattice that has enough sites leaves the particles settled on them.
pub proof fn laying_settles_particles(filling: Filling<Exact>, spacing: Exact)
    requires
        filling.wf(),
        filling.phase == (Phase::Laying { spacing }),
        filling.laid().phase is Jitter || filling.laid().phase is Aiming,
    ensures
        settled(filling.laid(), placed_particles(filling.laid()), spacing),
{
    let r = filling.params.radius;
    let domain = filling.params.domain;
    let lattice = lattice_in(filling.params, spacing);
    let sites = placed_particles(filling.laid());
    let kept = lattice.kept(domain, r, lattice.sites() as int);
    kept_sites_are_spaced(lattice, domain, r, lattice.sites() as int);
    assert(sites == kept.take(filling.n as int));
    assert forall|i: int, j: int| 0 <= i < j < sites.len() implies spaced(
        #[trigger] sites[i],
        #[trigger] sites[j],
        spacing,
    ) by {
        assert(sites[i] == kept[i] && sites[j] == kept[j]);
    }
}

/// Numbers from the ranges that a filling asks for leave the particles settled.
pub proof fn answers_keep_particles_settled(
    filling: Filling<Exact>,
    sites: Seq<Vec3<Exact>>,
    spacing: Exact,
    value: Exact,
)
    requires
        filling.wf(),
        settled(filling, sites, spacing),
        filling.phase matches Phase::Jitter { reach, .. } ==> -reach.value <= value.value
            <= reach.value,
    ensures
        settled(filling.answered(value), sites, spacing),
{
    match filling.phase {
        Phase::Jitter { positions, reach, moved, drawn } => {
            let all = drawn.push(value);
            if all.len() < 3 {
                assert forall|m: int| 0 <= m < all.len() implies -reach.value <= (
                #[trigger] all[m]).value <= reach.value by {
                    if m < drawn.len() {
                        assert(all[m] == drawn[m]);
                    }
                }
            } else {
                assert(all[0] == drawn[0] && all[1] == drawn[1] && all[2] == value);
                assert(-reach.value <= drawn[0].value <= reach.value);
                assert(-reach.value <= drawn[1].value <= reach.value);
                assert(positions[moved as int] == sites[moved as int]);
                let by = Vec3 { x: all[0], y: all[1], z: all[2] };
                let p = jittered(
                    filling.params.domain,
                    filling.params.radius,
                    positions[moved as int],
                    by,
                );
                let after = positions.update(moved as int, p);
                assert(placed_particles(filling.answered(value)) == after);
                assert forall|i: int| 0 <= i < filling.n implies near(
                    #[trigger] after[i],
                    sites[i],
                    reach.value,
                ) by {
                    if i != moved {
                        assert(after[i] == positions[i]);
                    }
                }
            }
        },
        _ => {},
    }
}

/// Settled particles do not overlap.
pub proof fn settled_particles_do_not_overlap(
    filling: Filling<Exact>,
    sites: Seq<Vec3<Exact>>,
    spacing: Exact,
)
    requires
        roots_exist(),
        settled(filling, sites, spacing),
        0real <= filling.params.radius.value,
    ensures
        forall|i: int, j: int|
            0 <= i < j < filling.n ==> (2real * filling.params.radius.value) * (2real
                * filling.params.radius.value) <= (#[trigger] placed_particles(filling)[j]).difference(
                #[trigger] placed_particles(filling)[i],
            ).squared_length().value,
{
    let r = filling.params.radius;
    let ps = placed_particles(filling);
    assert forall|i: int, j: int| 0 <= i < j < filling.n implies (2real * r.value) * (2real
        * r.value) <= (#[trigger] ps[j]).difference(#[trigger] ps[i]).squared_length().value by {
        assert(spaced(sites[i], sites[j], spacing));
        if 0real < jitter_reach(spacing, r).value {
            lemma_near_sites_apart(ps[i], ps[j], sites[i], sites[j], spacing, r);
        } else {
            assert(ps[i] == sites[i] && ps[j] == sites[j]);
            lemma_gap(spacing, sites[i], sites[j]);
            lemma_least_gap(spacing, r);
            lemma_square_ordered(2real * r.value, gap(spacing));
        }
    }
}

/// Three numbers that give a direction give a vector of length one.
pub proof fn directions_have_length_one(x: Exact, y: Exact, z: Exact)
    requires
        roots_exist(),
        direction(x, y, z) is Some,
    ensures
        direction(x, y, z)->0.squared_length().value == 1real,
{
    let v = Vec3 { x, y, z };
    ten_to_positive(8);
    let t = ten_to(8);
    assert(0real < 1real / t) by (nonlinear_arith)
        requires
            0real < t,
    ;
    normalized(v);
    let d = v.norm().value;
    times_reciprocal(x.value, d);
    times_reciprocal(y.value, d);
    times_reciprocal(z.value, d);
    assert(direction(x, y, z)->0 == v.divided(v.norm()));
}

/// A particle sent off in a direction has the given speed.
pub proof fn directions_give_speed(x: Exact, y: Exact, z: Exact, speed: Exact)
    requires
        roots_exist(),
        direction(x, y, z) is Some,
    ensures
        direction(x, y, z)->0.scaled(speed).squared_length() == speed.product(speed),
{
    directions_have_length_one(x, y, z);
    scaled_length(direction(x, y, z)->0, speed);
    let s = speed.value;
    assert(s * s * 1real == s * s) by (nonlinear_arith);
}

/// A particle that has been sent off has the given speed.
pub proof fn particles_sent_off_have_speed(v: Vec3<Exact>, speed: Exact)
    requires
        roots_exist(),
        sent_off(v, speed),
    ensures
        v.squared_length() == speed.product(speed),
{
    let (x, y, z) = choose|x: Exact, y: Exact, z: Exact|
        (#[trigger] direction(x, y, z)) matches Some(unit) && v == unit.scaled(speed);
    directions_give_speed(x, y, z, speed);
}

/// The sum of vectors that all have been reduced by `d`.
proof fn lemma_total_reduced(vs: Seq<Vec3<Exact>>, d: Vec3<Exact>)
    ensures
        ({
            let reduced = total(Seq::new(vs.len(), |i: int| vs[i].difference(d)));
            let n = vs.len() as real;
            &&& reduced.x.value == total(vs).x.value - n * d.x.value
            &&& reduced.y.value == total(vs).y.value - n * d.y.value
            &&& reduced.z.value == total(vs).z.value - n * d.z.value
        }),
    decreases vs.len(),
{
    let all = Seq::new(vs.len(), |i: int| vs[i].difference(d));
    if vs.len() == 0 {
        let (x, y, z) = (d.x.value, d.y.value, d.z.value);
        assert(0real * x == 0real && 0real * y == 0real && 0real * z == 0real)
            by (nonlinear_arith);
    } else {
        let rest = vs.drop_last();
        lemma_total_reduced(rest, d);
        assert(all.drop_last() =~= Seq::new(rest.len(), |i: int| rest[i].difference(d)));
        let m = rest.len() as real;
        lemma_one_more(m, d.x.value);
        lemma_one_more(m, d.y.value);
        lemma_one_more(m, d.z.value);
        assert(vs.len() as real == m + 1real);
    }
}

proof fn lemma_one_more(m: real, d: real)
    by (nonlinear_arith)
    ensures
        (m + 1real) * d == m * d + d,
{
}

/// Velocities less their mean have no net momentum: the center of mass stays put.
pub proof fn drift_is_removed(velocities: Seq<Vec3<Exact>>)
    requires
        0 < velocities.len() <= u64::MAX,
    ensures
        total(without_drift(velocities)) == Vec3::<Exact>::origin(),
{
    let n = velocities.len() as real;
    let t = total(velocities);
    let drift = t.divided(Exact::whole(velocities.len() as u64));
    lemma_total_reduced(velocities, drift);
    quotient_times(t.x.value, n);
    quotient_times(t.y.value, n);
    quotient_times(t.z.value, n);
    lemma_commuted(n, t.x.value / n);
    lemma_commuted(n, t.y.value / n);
    lemma_commuted(n, t.z.value / n);
}

proof fn lemma_commuted(x: real, y: real)
    by (nonlinear_arith)
    ensures
        x * y == y * x,
{
}

/// A filling after a list of answers.
pub open spec fn answered_all<S: Number>(filling: Filling<S>, values: Seq<S>) -> Filling<S>
    decreases values.len(),
{
    if values.len() == 0 {
        filling
    } else {
        answered_all(filling, values.drop_last()).answered(values.last())
    }
}

/// Whether each answer comes from the range that was asked for.
pub open spec fn answers_fit(filling: Filling<Exact>, values: Seq<Exact>) -> bool
    decreases values.len(),
{
    values.len() == 0 || {
        let before = answered_all(filling, values.drop_last());
        &&& answers_fit(filling, values.drop_last())
        &&& before.request() matches Request::Uniform { low, high } ==> low.value
            <= values.last().value < high.value
    }
}

/// A filling begins well-formed.
pub proof fn fillings_begin_well_formed<S: Number>(
    n: nat,
    params: SimulationParams<S>,
    speed: S,
)
    ensures
        Filling::begun(n, params, speed).wf(),
{
}

/// Laying a lattice and answering keep a filling well-formed; in particular every particle that
/// has been placed stays inside the domain, and every one that has been sent off has the speed.
pub proof fn answers_keep_fillings_well_formed<S: Number>(filling: Filling<S>, value: S)
    requires
        filling.wf(),
    ensures
        filling.answered(value).wf(),
        filling.laid().wf(),
{
    match filling.phase {
        Phase::Laying { spacing } => {
            let lattice = lattice_in(filling.params, spacing);
            let kept = lattice.kept(
                filling.params.domain,
                filling.params.radius,
                lattice.sites() as int,
            );
            laying_places_particles_inside(filling, spacing);
            assert(filling.n <= kept.len() ==> kept.take(filling.n as int).len() == filling.n);
            let laid = filling.laid();
            assert(laid.holds_all(placed_particles(laid)));
        },
        Phase::Aiming { velocities, drawn, .. } => {
            let all = drawn.push(value);
            if all.len() == 3 {
                if let Some(unit) = direction(all[0], all[1], all[2]) {
                    assert(sent_off(unit.scaled(filling.speed), filling.speed));
                    let sent = velocities.push(unit.scaled(filling.speed));
                    assert(filling.answered(value).all_sent_off(sent));
                }
            }
        },
        Phase::Jitter { positions, moved, drawn, .. } => {
            let after = filling.answered(value);
            let placed = placed_particles(after);
            assert forall|i: int| 0 <= i < placed.len() implies filling.params.domain.holds_center(
                #[trigger] placed[i],
                filling.params.radius,
            ) by {
                assert(filling.params.domain.holds_center(positions[i], filling.params.radius));
            }
            assert(after.holds_all(placed));
        },
        _ => {},
    }
}

proof fn lemma_all_settled(filling: Filling<Exact>, spacing: Exact, values: Seq<Exact>)
    requires
        filling.wf(),
        settled(filling, placed_particles(filling), spacing),
        filling.phase is Jitter || filling.phase is Aiming,
        answers_fit(filling, values),
    ensures
        ({
            let after = answered_all(filling, values);
            &&& after.wf()
            &&& after.n == filling.n
            &&& after.params == filling.params
            &&& settled(after, placed_particles(filling), spacing)
            &&& after.speed == filling.speed
        }),
    decreases values.len(),
{
    if values.len() > 0 {
        lemma_all_settled(filling, spacing, values.drop_last());
        let before = answered_all(filling, values.drop_last());
        let value = values.last();
        answers_keep_fillings_well_formed(before, value);
        answers_keep_particles_settled(before, placed_particles(filling), spacing, value);
    }
}

/// A search that ends with particles on sites leaves them settled there.
proof fn lemma_search_settles(filling: Filling<Exact>, tries: nat)
    requires
        filling.wf(),
        filling.phase is Laying,
        filling.searched(tries).phase is Jitter || filling.searched(tries).phase is Aiming,
    ensures
        ({
            let found = filling.searched(tries);
            &&& found.wf()
            &&& found.n == filling.n
            &&& found.params == filling.params
            &&& found.speed == filling.speed
            &&& exists|spacing: Exact| settled(found, placed_particles(found), spacing)
        }),
    decreases tries,
{
    let spacing = filling.phase->Laying_spacing;
    assert(filling.phase == (Phase::Laying { spacing }));
    let laid = filling.laid();
    answers_keep_fillings_well_formed(filling, spacing);
    if laid.phase is Laying {
        lemma_search_settles(laid, (tries - 1) as nat);
    } else {
        assert(laid.searched((tries - 1) as nat) == laid);
        laying_settles_particles(filling, spacing);
    }
}

/// Whatever spacing the search for a lattice begins with, if it ends with the particles on sites
/// and every later answer comes from the range that was asked for, the filling ends in `n`
/// particles inside the domain that do not overlap, each with a velocity of magnitude `speed`.
pub proof fn started_particles_do_not_overlap(
    n: nat,
    params: SimulationParams<Exact>,
    speed: Exact,
    first_spacing: Exact,
    tries: nat,
    values: Seq<Exact>,
)
    requires
        roots_exist(),
        0real <= params.radius.value,
        Filling::begun(n, params, speed).phase is Rooting,
        ({
            let laid = Filling::begun(n, params, speed).answered(first_spacing).searched(tries);
            &&& laid.phase is Jitter || laid.phase is Aiming
            &&& answers_fit(laid, values)
            &&& answered_all(laid, values).phase is Ready
        }),
    ensures
        ({
            let laid = Filling::begun(n, params, speed).answered(first_spacing).searched(tries);
            let positions = answered_all(laid, values).phase->Ready_positions;
            let velocities = answered_all(laid, values).phase->Ready_velocities;
            let contact = 2real * params.radius.value;
            &&& positions.len() == n
            &&& velocities.len() == n
            &&& forall|i: int|
                0 <= i < n ==> (#[trigger] velocities[i]).squared_length() == speed.product(speed)
            &&& forall|i: int|
                0 <= i < n ==> params.domain.holds_center(#[trigger] positions[i], params.radius)
            &&& forall|i: int, j: int|
                0 <= i < j < n ==> contact * contact <= (#[trigger] positions[j]).difference(
                    #[trigger] positions[i],
                ).squared_length().value
        }),
{
    let filling = Filling::begun(n, params, speed).answered(first_spacing);
    let laid = filling.searched(tries);
    lemma_search_settles(filling, tries);
    let spacing = choose|spacing: Exact| settled(laid, placed_particles(laid), spacing);
    lemma_all_settled(laid, spacing, values);
    let after = answered_all(laid, values);
    settled_particles_do_not_overlap(after, placed_particles(laid), spacing);
    let positions = after.phase->Ready_positions;
    let velocities = after.phase->Ready_velocities;
    assert(after.phase == (Phase::Ready { positions, velocities }));
    assert(placed_particles(after) == positions);
    assert forall|i: int| 0 <= i < n implies (#[trigger] velocities[i]).squared_length()
        == speed.product(speed) by {
        particles_sent_off_have_speed(velocities[i], speed);
    }
}

} // verus!
