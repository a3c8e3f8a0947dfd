//! How the space is searched for places when a simulation is filled: laws of [`crate::lattice`]
//! and [`crate::setup`], stated of real numbers.

use vstd::prelude::*;

use crate::arrangement::{
    doubled_offset,
    lemma_coordinate,
    lemma_reach,
    placed_particles,
};
use crate::confinement::{center_volume_is_that_of_a_smaller_domain, constants_are_close};
use crate::domain::{Domain, SimulationParams};
use crate::elastic::half_value;
use crate::exact::{root, ten_to, Exact};
use crate::geometry::{along, is_times, root_is_unique, roots_exist};
use crate::lattice::{lemma_kept_grows, lemma_site, Lattice};
use crate::scalar::{pi_value, sqrt_2_value, Number};
use crate::setup::{
    direction,
    jitter_reach,
    lattice_in,
    least_spacing,
    Filling,
    Phase,
    Request,
};
use crate::vector::Vec3;

verus! {

/// `v` moved by `by` along every axis.
pub open spec fn shifted(v: Vec3<Exact>, by: real) -> Vec3<Exact> {
    Vec3 {
        x: Exact { value: v.x.value + by },
        y: Exact { value: v.y.value + by },
        z: Exact { value: v.z.value + by },
    }
}

/// The lowest and the highest corner of the box that centers of particles are sought in.
pub open spec fn search_box(params: SimulationParams<Exact>) -> (Vec3<Exact>, Vec3<Exact>) {
    let r = params.radius.value;
    match params.domain {
        Domain::Box { min, max } => (shifted(min, r), shifted(max, -r)),
        Domain::Sphere { center, radius } => (
            shifted(center, r - radius.value),
            shifted(center, radius.value - r),
        ),
    }
}

/// Whether `count` steps of `spacing` fit into an extent, and no more.
pub open spec fn fits(count: i32, spacing: real, extent: real) -> bool {
    count as real * spacing <= extent && extent < (count as real + 1real) * spacing
}

/// Whether a lattice starts in the lowest corner of the box that is searched and reaches across it
/// along every axis.
pub open spec fn spans(lattice: Lattice<Exact>, params: SimulationParams<Exact>) -> bool {
    let (lo, hi) = search_box(params);
    &&& lattice.origin == lo
    &&& fits(lattice.nx, lattice.spacing.value, hi.x.value - lo.x.value)
    &&& fits(lattice.ny, lattice.spacing.value, hi.y.value - lo.y.value)
    &&& fits(lattice.nz, lattice.spacing.value, hi.z.value - lo.z.value)
}

proof fn lemma_floored(extent: real, spacing: real)
    requires
        0real < spacing,
        0real <= extent < 2_147_483_648real * spacing,
    ensures
        fits(
            (Exact { value: extent }).quotient(Exact { value: spacing }).floored(),
            spacing,
            extent,
        ),
{
    let x = extent / spacing;
    assert(0real <= x < 2_147_483_648real && x * spacing == extent) by (nonlinear_arith)
        requires
            0real < spacing,
            0real <= extent < 2_147_483_648real * spacing,
            x == extent / spacing,
    {
        assert(x * spacing == extent);
    }
    let k = x.floor();
    let y = k as real;
    assert(y <= x < y + 1real);
    assert(0 <= k <= i32::MAX);
    assert(y * spacing <= x * spacing && x * spacing < (y + 1real) * spacing) by (nonlinear_arith)
        requires
            0real < spacing,
            y <= x < y + 1real,
    ;
}

/// The lattice that is laid at a spacing reaches across the space for centers along every axis.
pub proof fn lattices_span_the_space(params: SimulationParams<Exact>, spacing: Exact)
    requires
        0real < spacing.value,
        ({
            let (lo, hi) = search_box(params);
            let most = 2_147_483_648real * spacing.value;
            &&& 0real <= hi.x.value - lo.x.value < most
            &&& 0real <= hi.y.value - lo.y.value < most
            &&& 0real <= hi.z.value - lo.z.value < most
        }),
    ensures
        spans(lattice_in(params, spacing), params),
        lattice_in(params, spacing).spacing == spacing,
{
    let (lo, hi) = search_box(params);
    assert(params.domain.center_corners(params.radius) == (lo, hi));
    lemma_floored(hi.x.value - lo.x.value, spacing.value);
    lemma_floored(hi.y.value - lo.y.value, spacing.value);
    lemma_floored(hi.z.value - lo.z.value, spacing.value);
}

proof fn lemma_floor_of(count: i32, spacing: real, extent: real)
    requires
        0real < spacing,
        fits(count, spacing, extent),
    ensures
        (Exact { value: extent }).quotient(Exact { value: spacing }).floored() == count,
{
    let x = extent / spacing;
    let y = count as real;
    assert(y <= x < y + 1real) by (nonlinear_arith)
        requires
            0real < spacing,
            y * spacing <= extent,
            extent < (y + 1real) * spacing,
            x == extent / spacing,
    {
        assert(x * spacing == extent);
    }
    assert(x.floor() == count);
}

/// Only the lattice that is laid spans the space at its spacing.
proof fn lemma_spanning_lattice(params: SimulationParams<Exact>, lattice: Lattice<Exact>)
    requires
        0real < lattice.spacing.value,
        spans(lattice, params),
    ensures
        lattice_in(params, lattice.spacing) == lattice,
{
    let (lo, hi) = search_box(params);
    let a = lattice.spacing.value;
    assert(params.domain.center_corners(params.radius) == (lo, hi));
    lemma_floor_of(lattice.nx, a, hi.x.value - lo.x.value);
    lemma_floor_of(lattice.ny, a, hi.y.value - lo.y.value);
    lemma_floor_of(lattice.nz, a, hi.z.value - lo.z.value);
}

/// Each cube of a lattice has four sites: its lowest corner and the centers of the three faces
/// that meet there. They are counted site by site, cube by cube along `x`, row by row along `y`
/// and layer by layer along `z`.
pub proof fn sites_are_corners_and_face_centers(
    lattice: Lattice<Exact>,
    i: int,
    j: int,
    k: int,
    b: int,
)
    requires
        0 <= i < lattice.nx,
        0 <= j < lattice.ny,
        0 <= k < lattice.nz,
        0 <= b < 4,
    ensures
        lattice.sites() == 4 * (lattice.nx * (lattice.ny * lattice.nz)),
        ({
            let t = 4 * (lattice.nx * (lattice.ny * k + j) + i) + b;
            let p = lattice.site(t);
            let h = lattice.spacing.value / 2real;
            let (x, y, z) = doubled_offset(b);
            &&& 0 <= t < lattice.sites()
            &&& p.x.value == lattice.origin.x.value + ((2 * i + x) as real) * h
            &&& p.y.value == lattice.origin.y.value + ((2 * j + y) as real) * h
            &&& p.z.value == lattice.origin.z.value + ((2 * k + z) as real) * h
        }),
{
    lemma_site(lattice, i, j, k, b);
    half_value();
    let (x, y, z) = doubled_offset(b);
    let a = lattice.spacing.value;
    assert(0real * a == 0real) by (nonlinear_arith);
    lemma_coordinate(lattice.origin.x.value, i, a, x, half_or_none(x));
    lemma_coordinate(lattice.origin.y.value, j, a, y, half_or_none(y));
    lemma_coordinate(lattice.origin.z.value, k, a, z, half_or_none(z));
}

spec fn half_or_none(o: int) -> real {
    if o == 1 {
        1real / 2real
    } else {
        0real
    }
}

/// How many of the first `t` sites of a lattice lie inside the domain.
pub open spec fn room<S: Number>(lattice: Lattice<S>, domain: Domain<S>, r: S, t: int) -> nat
    decreases t,
{
    if t <= 0 {
        0
    } else if domain.holds_center(lattice.site(t - 1), r) {
        room(lattice, domain, r, t - 1) + 1
    } else {
        room(lattice, domain, r, t - 1)
    }
}

proof fn lemma_room<S: Number>(lattice: Lattice<S>, domain: Domain<S>, r: S, t: int)
    ensures
        lattice.kept(domain, r, t).len() == room(lattice, domain, r, t),
    decreases t,
{
    if t > 0 {
        lemma_room(lattice, domain, r, t - 1);
    }
}

/// A lattice takes `n` particles exactly if at least so many of its sites lie inside the domain,
/// and they take those sites from the first on, leaving out none.
pub proof fn lattices_are_filled_in_order<S: Number>(
    lattice: Lattice<S>,
    domain: Domain<S>,
    r: S,
    n: nat,
)
    ensures
        ({
            let all = room(lattice, domain, r, lattice.sites() as int);
            &&& lattice.filled(domain, r, n) is Some <==> n <= all
            &&& lattice.filled(domain, r, n) matches Some(places) ==> {
                &&& places.len() == n
                &&& forall|t: int|
                    0 <= t < lattice.sites() && domain.holds_center(
                        #[trigger] lattice.site(t),
                        r,
                    ) && room(lattice, domain, r, t) < n ==> places[room(
                        lattice,
                        domain,
                        r,
                        t,
                    ) as int] == lattice.site(t)
            }
        }),
{
    let total = lattice.sites() as int;
    let kept = lattice.kept(domain, r, total);
    lemma_room(lattice, domain, r, total);
    assert forall|t: int|
        0 <= t < total && domain.holds_center(#[trigger] lattice.site(t), r) && room(
            lattice,
            domain,
            r,
            t,
        ) < n && n <= kept.len() implies kept.take(n as int)[room(lattice, domain, r, t) as int]
        == lattice.site(t) by {
        lemma_room(lattice, domain, r, t);
        lemma_kept_grows(lattice, domain, r, t + 1, total);
        let next = lattice.kept(domain, r, t + 1);
        let at = room(lattice, domain, r, t) as int;
        assert(next == lattice.kept(domain, r, t).push(lattice.site(t)));
        assert(next[at] == lattice.site(t));
        assert(next[at] == kept[at]);
    }
}

/// The least spacing at which particles of radius `r` do not overlap.
pub open spec fn touching_spacing(r: Exact) -> real {
    (2real * sqrt_2_value::<Exact>().value) * r.value
}

/// One try of a lattice: below the least spacing nothing fits. Else, if enough sites of the
/// lattice that spans the space lie inside the domain, the particles are placed on them; if not, a
/// spacing that is two percent smaller is next.
pub proof fn lattices_are_tried(filling: Filling<Exact>, lattice: Lattice<Exact>)
    requires
        filling.phase == (Phase::Laying { spacing: lattice.spacing }),
        0real < lattice.spacing.value,
        spans(lattice, filling.params),
    ensures
        ({
            let after = filling.laid();
            let (domain, r) = (filling.params.domain, filling.params.radius);
            let a = lattice.spacing.value;
            let enough = filling.n <= room(lattice, domain, r, lattice.sites() as int);
            &&& a < touching_spacing(r) ==> after.phase is Impossible
            &&& touching_spacing(r) <= a && enough ==> {
                &&& after.phase is Jitter || after.phase is Aiming
                &&& lattice.filled(domain, r, filling.n) == Some(placed_particles(after))
                &&& after.phase matches Phase::Jitter { reach, moved, drawn, .. } ==> {
                    &&& reach == jitter_reach(lattice.spacing, r)
                    &&& 0real < reach.value
                    &&& moved == 0
                    &&& drawn.len() == 0
                }
                &&& after.phase matches Phase::Aiming { velocities, drawn, .. } ==> {
                    &&& jitter_reach(lattice.spacing, r).value <= 0real
                    &&& velocities.len() == 0
                    &&& drawn.len() == 0
                }
            }
            &&& touching_spacing(r) <= a && !enough ==> {
                &&& after.phase matches Phase::Laying { spacing }
                &&& spacing.value == a * (98real / 100real)
            }
            &&& after.n == filling.n && after.params == filling.params && after.speed
                == filling.speed
        }),
{
    let (domain, r) = (filling.params.domain, filling.params.radius);
    lemma_spanning_lattice(filling.params, lattice);
    lattices_are_filled_in_order(lattice, domain, r, filling.n);
    reveal_with_fuel(ten_to, 3);
    assert(ten_to(2) == 100real);
    assert(least_spacing(r).value == touching_spacing(r));
}

/// A spacing after `m` tries without success.
pub open spec fn shrunk(spacing: real, m: nat) -> real
    decreases m,
{
    if m == 0 {
        spacing
    } else {
        shrunk(spacing, (m - 1) as nat) * (98real / 100real)
    }
}

proof fn lemma_shrunk_first(spacing: real, m: nat)
    ensures
        shrunk(spacing * (98real / 100real), m) == shrunk(spacing, m + 1),
    decreases m,
{
    if m > 0 {
        lemma_shrunk_first(spacing, (m - 1) as nat);
    } else {
        assert(shrunk(spacing, 0) == spacing);
    }
}

proof fn lemma_shrunk_below(spacing: real, m: nat)
    requires
        0real < spacing,
    ensures
        0real < shrunk(spacing, m) <= spacing,
    decreases m,
{
    if m > 0 {
        lemma_shrunk_below(spacing, (m - 1) as nat);
        let x = shrunk(spacing, (m - 1) as nat);
        assert(0real < x * (98real / 100real) <= x) by (nonlinear_arith)
            requires
                0real < x,
        ;
    }
}

/// A search from a spacing ends in the verdict that the particles do not fit only if at every
/// spacing that is tried, down to the least one, fewer sites than particles of the lattice that
/// spans the space lie inside the domain.
pub proof fn search_fails_only_without_room(
    filling: Filling<Exact>,
    spacing: Exact,
    tries: nat,
    m: nat,
    lattice: Lattice<Exact>,
)
    requires
        filling.phase == (Phase::Laying { spacing }),
        filling.searched(tries).phase is Impossible,
        0real < spacing.value,
        lattice.spacing.value == shrunk(spacing.value, m),
        touching_spacing(filling.params.radius) <= lattice.spacing.value,
        spans(lattice, filling.params),
    ensures
        room(
            lattice,
            filling.params.domain,
            filling.params.radius,
            lattice.sites() as int,
        ) < filling.n,
    decreases tries,
{
    lemma_shrunk_below(spacing.value, m);
    let (domain, r) = (filling.params.domain, filling.params.radius);
    let a = spacing.value;
    assert(tries > 0);
    let next = filling.laid();
    reveal_with_fuel(ten_to, 3);
    assert(ten_to(2) == 100real);
    assert(least_spacing(r).value == touching_spacing(r));
    if m == 0 {
        assert(lattice.spacing == spacing);
        lattices_are_tried(filling, lattice);
        if filling.n <= room(lattice, domain, r, lattice.sites() as int) {
            assert(next.searched((tries - 1) as nat) == next);
        }
    } else {
        if next.phase is Laying {
            let smaller = Exact { value: a * (98real / 100real) };
            assert(next.phase == (Phase::Laying { spacing: smaller }));
            assert(0real < a * (98real / 100real)) by (nonlinear_arith)
                requires
                    0real < a,
            ;
            lemma_shrunk_first(a, (m - 1) as nat);
            search_fails_only_without_room(
                next,
                smaller,
                (tries - 1) as nat,
                (m - 1) as nat,
                lattice,
            );
        } else {
            assert(next.searched((tries - 1) as nat) == next);
        }
    }
}

/// The search takes the first spacing at which the lattice that spans the space has room for all
/// particles: `lattices` holds those that are tried, of which only the last one has enough room.
pub proof fn search_takes_the_first_lattice_with_room(
    filling: Filling<Exact>,
    lattices: Seq<Lattice<Exact>>,
    tries: nat,
)
    requires
        0 < lattices.len() <= tries,
        filling.phase == (Phase::Laying { spacing: lattices[0].spacing }),
        0real < lattices[0].spacing.value,
        forall|m: int|
            0 <= m < lattices.len() ==> spans(#[trigger] lattices[m], filling.params)
                && lattices[m].spacing.value == shrunk(lattices[0].spacing.value, m as nat)
                && touching_spacing(filling.params.radius) <= lattices[m].spacing.value,
        forall|m: int|
            0 <= m < lattices.len() ==> (filling.n <= room(
                #[trigger] lattices[m],
                filling.params.domain,
                filling.params.radius,
                lattices[m].sites() as int,
            ) <==> m == lattices.len() - 1),
    ensures
        ({
            let found = filling.searched(tries);
            &&& found.phase is Jitter || found.phase is Aiming
            &&& lattices.last().filled(
                filling.params.domain,
                filling.params.radius,
                filling.n,
            ) == Some(placed_particles(found))
        }),
    decreases lattices.len(),
{
    let first = lattices[0];
    let a = first.spacing.value;
    lattices_are_tried(filling, first);
    let next = filling.laid();
    if lattices.len() == 1 {
        assert(next.searched((tries - 1) as nat) == next);
        assert(lattices.last() == first);
    } else {
        let rest = lattices.drop_first();
        assert(lattices[1].spacing.value == shrunk(a, 1));
        assert(shrunk(a, 1) == shrunk(a, 0) * (98real / 100real));
        assert(rest[0] == lattices[1]);
        assert(next.phase == (Phase::Laying { spacing: rest[0].spacing }));
        lemma_shrunk_below(a, 1);
        assert forall|m: int| 0 <= m < rest.len() implies spans(#[trigger] rest[m], next.params)
            && rest[m].spacing.value == shrunk(rest[0].spacing.value, m as nat)
            && touching_spacing(next.params.radius) <= rest[m].spacing.value by {
            assert(rest[m] == lattices[m + 1]);
            lemma_shrunk_first(a, m as nat);
        }
        assert forall|m: int| 0 <= m < rest.len() implies (next.n <= room(
            #[trigger] rest[m],
            next.params.domain,
            next.params.radius,
            rest[m].sites() as int,
        ) <==> m == rest.len() - 1) by {
            assert(rest[m] == lattices[m + 1]);
        }
        search_takes_the_first_lattice_with_room(next, rest, (tries - 1) as nat);
        assert(rest.last() == lattices.last());
    }
}

/// A filling is impossible at the outset exactly if the space for centers has no extent along some
/// axis. It is ready where there are no particles. Else the first spacing is the edge of a cube of
/// four times the volume that each particle has.
pub proof fn fillings_begin_with_the_volume(
    n: nat,
    params: SimulationParams<Exact>,
    speed: Exact,
    first: Exact,
)
    requires
        n <= u64::MAX,
    ensures
        ({
            let (lo, hi) = search_box(params);
            let (x, y, z) = (
                hi.x.value - lo.x.value,
                hi.y.value - lo.y.value,
                hi.z.value - lo.z.value,
            );
            let flat = x <= 0real || y <= 0real || z <= 0real;
            let begun = Filling::begun(n, params, speed);
            &&& begun.n == n && begun.params == params && begun.speed == speed
            &&& flat <==> begun.phase is Impossible
            &&& !flat && n == 0 ==> {
                &&& begun.phase matches Phase::Ready { positions, velocities }
                &&& positions.len() == 0 && velocities.len() == 0
            }
            &&& !flat && n > 0 ==> {
                &&& begun.phase matches Phase::Rooting { cube }
                &&& cube.value * (n as real) == 4real * params.domain.center_volume(
                    params.radius,
                ).value
                &&& begun.answered(first).phase == (Phase::Laying { spacing: first })
            }
        }),
{
    let (lo, hi) = search_box(params);
    assert(params.domain.center_corners(params.radius) == (lo, hi));
    let (x, y, z) = (
        hi.x.value - lo.x.value,
        hi.y.value - lo.y.value,
        hi.z.value - lo.z.value,
    );
    let volume = params.domain.center_volume(params.radius).value;
    if 0real < x && 0real < y && 0real < z {
        center_volume_is_that_of_a_smaller_domain(params.domain, params.radius);
        match params.domain {
            Domain::Box { .. } => {
                assert(0real < (x * y) * z) by (nonlinear_arith)
                    requires
                        0real < x,
                        0real < y,
                        0real < z,
                {
                    assert(0real < x * y);
                }
            },
            Domain::Sphere { radius, .. } => {
                constants_are_close();
                let inner = radius.value - params.radius.value;
                let pi = pi_value::<Exact>().value;
                assert(0real < pi * ((inner * inner) * inner)) by (nonlinear_arith)
                    requires
                        0real < pi,
                        0real < inner,
                {
                    assert(0real < inner * inner);
                    assert(0real < (inner * inner) * inner);
                }
            },
        }
        assert(0real < volume);
        if n > 0 {
            let m = n as real;
            let v = 4real * volume;
            assert((v / m) * m == v) by (nonlinear_arith)
                requires
                    0real < m,
            ;
        }
    }
}

/// The jitter: `2 sqrt(3)` times its reach is nine tenths of what the distance of neighboring
/// sites, the spacing over the square root of two, leaves beyond two radii.
pub proof fn jitter_uses_nine_tenths_of_the_gap(spacing: Exact, r: Exact, root_of_three: real)
    requires
        roots_exist(),
        0real <= root_of_three,
        root_of_three * root_of_three == 3real,
    ensures
        (2real * root_of_three) * jitter_reach(spacing, r).value == (9real / 10real) * (
        spacing.value / sqrt_2_value::<Exact>().value - 2real * r.value),
{
    root_is_unique(3real, root_of_three);
    lemma_reach(spacing, r);
}

/// Three numbers give the direction of the vector that they make, if its length `d` is at most one
/// and more than a ten-thousandth; else none.
pub proof fn directions_are_those_of_vectors(x: Exact, y: Exact, z: Exact, d: real)
    requires
        roots_exist(),
        0real <= d,
        d * d == along(Vec3 { x, y, z }, Vec3 { x, y, z }),
    ensures
        direction(x, y, z) is Some <==> 1real / 100_000_000real < d * d <= 1real,
        direction(x, y, z) matches Some(unit) ==> is_times(Vec3 { x, y, z }, d, unit),
{
    reveal_with_fuel(ten_to, 9);
    assert(ten_to(8) == 100_000_000real);
    root_is_unique(d * d, d);
    if 1real / 100_000_000real < d * d {
        assert(d != 0real) by (nonlinear_arith)
            requires
                1real / 100_000_000real < d * d,
        ;
        lemma_over(x.value, d);
        lemma_over(y.value, d);
        lemma_over(z.value, d);
    }
}

proof fn lemma_over(x: real, d: real)
    by (nonlinear_arith)
    requires
        d != 0real,
    ensures
        d * (x * (1real / d)) == x,
{
    assert((1real / d) * d == 1real);
    assert(d * (x * (1real / d)) == x * ((1real / d) * d));
}

/// The three numbers of a jitter move the next particle by them, if that leaves it inside the
/// domain, and do nothing to the others; when all particles have had their turn, they are aimed.
pub proof fn jitter_moves_the_next_particle(
    filling: Filling<Exact>,
    places: Seq<Vec3<Exact>>,
    reach: Exact,
    moved: nat,
    by: Vec3<Exact>,
)
    requires
        filling.phase == (Phase::Jitter { positions: places, reach, moved, drawn: Seq::empty() }),
        places.len() == filling.n,
        moved < filling.n,
    ensures
        ({
            let after = filling.answered(by.x).answered(by.y).answered(by.z);
            let now = placed_particles(after);
            let (p, q) = (places[moved as int], now[moved as int]);
            let there = Vec3 {
                x: Exact { value: p.x.value + by.x.value },
                y: Exact { value: p.y.value + by.y.value },
                z: Exact { value: p.z.value + by.z.value },
            };
            let fits = filling.params.domain.holds_center(there, filling.params.radius);
            &&& filling.request() == (Request::Uniform {
                low: Exact { value: -reach.value },
                high: reach,
            })
            &&& fits ==> q == there
            &&& !fits ==> q == p
            &&& now.len() == places.len()
            &&& forall|i: int|
                0 <= i < places.len() && i != moved ==> #[trigger] now[i] == places[i]
            &&& moved + 1 < filling.n ==> after.phase == (Phase::Jitter {
                positions: now,
                reach,
                moved: moved + 1,
                drawn: Seq::empty(),
            })
            &&& moved + 1 == filling.n ==> after.phase == (Phase::Aiming {
                positions: now,
                velocities: Seq::empty(),
                drawn: Seq::empty(),
            })
        }),
{
    let one = filling.answered(by.x);
    let two = one.answered(by.y);
    let after = two.answered(by.z);
    let none = Seq::<Exact>::empty();
    assert(one.phase->Jitter_drawn =~= none.push(by.x));
    assert(two.phase->Jitter_drawn =~= none.push(by.x).push(by.y));
    let all = none.push(by.x).push(by.y).push(by.z);
    assert(all[0] == by.x && all[1] == by.y && all[2] == by.z);
}

/// The three numbers of a direction, a vector of length `d`, send the next particle off along that
/// vector at the speed; if they give no direction, three others are drawn. When all particles have
/// been sent off, the filling is ready.
pub proof fn directions_send_the_next_particle_off(
    filling: Filling<Exact>,
    places: Seq<Vec3<Exact>>,
    velocities: Seq<Vec3<Exact>>,
    to: Vec3<Exact>,
    d: real,
)
    requires
        roots_exist(),
        filling.phase == (Phase::Aiming { positions: places, velocities, drawn: Seq::empty() }),
        velocities.len() < filling.n,
        0real <= d,
        d * d == along(to, to),
    ensures
        ({
            let after = filling.answered(to.x).answered(to.y).answered(to.z);
            let sent = match after.phase {
                Phase::Ready { velocities, .. } => velocities,
                Phase::Aiming { velocities, .. } => velocities,
                _ => Seq::empty(),
            };
            let good = 1real / 100_000_000real < d * d <= 1real;
            let v = sent.last();
            &&& filling.request() == (Request::Uniform {
                low: Exact { value: -1real },
                high: Exact { value: 1real },
            })
            &&& placed_particles(after) == places
            &&& good ==> {
                &&& sent.len() == velocities.len() + 1
                &&& sent.drop_last() == velocities
                &&& d * v.x.value == filling.speed.value * to.x.value
                &&& d * v.y.value == filling.speed.value * to.y.value
                &&& d * v.z.value == filling.speed.value * to.z.value
                &&& after.phase is Ready <==> sent.len() == filling.n
                &&& after.phase matches Phase::Aiming { drawn, .. } ==> drawn.len() == 0
            }
            &&& !good ==> after.phase == filling.phase
        }),
{
    let one = filling.answered(to.x);
    let two = one.answered(to.y);
    let after = two.answered(to.z);
    let none = Seq::<Exact>::empty();
    assert(one.phase->Aiming_drawn =~= none.push(to.x));
    assert(two.phase->Aiming_drawn =~= none.push(to.x).push(to.y));
    let all = none.push(to.x).push(to.y).push(to.z);
    assert(all[0] == to.x && all[1] == to.y && all[2] == to.z);
    directions_are_those_of_vectors(to.x, to.y, to.z, d);
    if let Some(unit) = direction(to.x, to.y, to.z) {
        let s = filling.speed.value;
        lemma_sped(unit.x.value, s, d);
        lemma_sped(unit.y.value, s, d);
        lemma_sped(unit.z.value, s, d);
        let sent = velocities.push(unit.scaled(filling.speed));
        assert(sent.drop_last() =~= velocities);
    }
}

proof fn lemma_sped(u: real, s: real, d: real)
    by (nonlinear_arith)
    ensures
        d * (u * s) == s * (d * u),
{
}

} // verus!
