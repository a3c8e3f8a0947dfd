//! What a time step does to particles, bodies and pistons: laws of [`crate::simulation`] as a
//! whole, stated of real numbers.

use vstd::prelude::*;

use crate::angle::{Angle, Swing};
use crate::body::RigidBody;
use crate::cannon::Cannon;
use crate::confinement::{
    bodies_meet_walls_like_particles,
    bounced,
    box_walls_mirror,
    inside_is_clear_of_walls,
    recoverable,
    sphere_walls_leave_inside_alone,
    sphere_walls_mirror,
    walls_keep_inside,
};
use crate::conservation::{
    contacts_among,
    countable,
    lemma_bodies_frame,
    lemma_candidates_below,
    lemma_cannons_frame,
    lemma_pairs_frame,
    step_keeps_frame,
};
use crate::domain::{Domain, SimulationParams};
use crate::elastic::half_value;
use crate::encounters::{
    body_phase_clears_an_immovable_body,
    body_phase_parts_body_and_particle,
    clear_of_body,
    lemma_body_missed,
    lone_contacts_bounce,
    overlap,
    pair_phase_parts_two_particles,
    particles_without_contact_go_on,
};
use crate::exact::{root, Exact};
use crate::geometry::{
    along,
    gap_squared,
    is_times,
    kicked,
    root_squared,
    roots_exist,
    squared_length_sign,
    way,
};
use crate::grid::cell_ids_of;
use crate::response::tiny_is_a_millionth_squared;
use crate::scalar::{pi_value, tau_value, Number};
use crate::simulation::State;
use crate::vector::Vec3;
use crate::walls::{body_walled, walled};

verus! {

/// A new simulation holds the given particles and nothing else, and its cells are two radii wide.
pub proof fn new_simulations_have_cells_of_two_radii(
    params: SimulationParams<Exact>,
    positions: Seq<Vec3<Exact>>,
    velocities: Seq<Vec3<Exact>>,
)
    requires
        0real < params.radius.value,
    ensures
        ({
            let state = State::fresh(params, positions, velocities);
            &&& state.params == params
            &&& state.positions == positions
            &&& state.velocities == velocities
            &&& state.bodies.len() == 0
            &&& state.cannons.len() == 0
            &&& 0real < state.inv_cell_size.value
            &&& (2real * params.radius.value) * state.inv_cell_size.value == 1real
        }),
{
    let d = 2real * params.radius.value;
    let s = 1real / d;
    assert(0real < s && d * s == 1real) by (nonlinear_arith)
        requires
            0real < d,
            s == 1real / d,
    ;
}

/// Where `p` comes to with velocity `v` in the time `dt`.
pub open spec fn carried(p: Vec3<Exact>, v: Vec3<Exact>, dt: Exact) -> Vec3<Exact> {
    Vec3 {
        x: Exact { value: p.x.value + v.x.value * dt.value },
        y: Exact { value: p.y.value + v.y.value * dt.value },
        z: Exact { value: p.z.value + v.z.value * dt.value },
    }
}

/// The state in the middle of a step, when only bodies and particles remain to meet.
pub open spec fn before_body_phase(
    state: State<Exact>,
    dt: Exact,
    swings: Seq<Swing<Exact>>,
) -> State<Exact> {
    let moved = state.integrated(dt).bodies_integrated(dt).cannons_advanced(dt, swings);
    let inside = moved.walls_resolved().body_walls_resolved();
    inside.cannons_resolved(inside.cannons.len() as int).pairs_resolved()
}

/// Whether no particle touches body `b` when its turn comes in the body phase.
pub open spec fn met_by_none(state: State<Exact>, b: int) -> bool {
    let turn = state.bodies_resolved(cell_ids_of(state.positions, state.inv_cell_size), b);
    forall|j: int|
        0 <= j < turn.positions.len() ==> clear_of_body(
            turn.bodies[b],
            #[trigger] turn.positions[j],
            state.params.radius,
        )
}

/// The turn of one body does nothing to another.
proof fn lemma_other_body(state: State<Exact>, c: int, candidates: Seq<usize>, b: int)
    requires
        0 <= c < state.bodies.len(),
        0 <= b < state.bodies.len(),
        b != c,
    ensures
        state.body_resolved(c, candidates).bodies[b] == state.bodies[b],
        state.body_resolved(c, candidates).bodies.len() == state.bodies.len(),
    decreases candidates.len(),
{
    if candidates.len() > 0 {
        lemma_other_body(state, c, candidates.drop_last(), b);
    }
}

proof fn lemma_unmet_body(state: State<Exact>, ids: Seq<u64>, k: int, b: int)
    requires
        state.positions.len() == state.velocities.len(),
        ids == cell_ids_of(state.positions, state.inv_cell_size),
        state.positions.len() <= usize::MAX,
        k <= state.bodies.len(),
        0 <= b < state.bodies.len(),
        met_by_none(state, b),
    ensures
        state.bodies_resolved(ids, k).bodies[b] == state.bodies[b],
    decreases k,
{
    if k > 0 {
        lemma_unmet_body(state, ids, k - 1, b);
        lemma_bodies_frame(state, ids, k - 1);
        let before = state.bodies_resolved(ids, k - 1);
        let candidates = before.body_candidates(ids, k - 1);
        if k - 1 == b {
            lemma_candidates_below(before, ids, b);
            lemma_body_missed(before, b, candidates);
        } else {
            lemma_other_body(before, k - 1, candidates, b);
        }
    }
}

/// A body that no particle touches in a step has met the walls after it moved, and nothing else.
proof fn lemma_body_in_step(state: State<Exact>, dt: Exact, swings: Seq<Swing<Exact>>, b: int)
    requires
        countable(state),
        0 <= b < state.bodies.len(),
        met_by_none(before_body_phase(state, dt, swings), b),
    ensures
        ({
            let body = state.bodies[b];
            let moved = RigidBody { pos: carried(body.pos, body.vel, dt), ..body };
            state.stepped(dt, swings).bodies[b] == body_walled(state.params.domain, moved)
        }),
{
    let moved = state.integrated(dt).bodies_integrated(dt).cannons_advanced(dt, swings);
    let inside = moved.walls_resolved().body_walls_resolved();
    lemma_cannons_frame(inside, inside.cannons.len() as int);
    let clear = inside.cannons_resolved(inside.cannons.len() as int);
    contacts_among(clear);
    lemma_pairs_frame(clear, clear.contacts());
    let parted = clear.pairs_resolved();
    assert(parted == before_body_phase(state, dt, swings));
    lemma_unmet_body(
        parted,
        cell_ids_of(parted.positions, parted.inv_cell_size),
        parted.bodies.len() as int,
        b,
    );
    let body = state.bodies[b];
    assert(moved.bodies[b] == (RigidBody { pos: carried(body.pos, body.vel, dt), ..body }));
}

/// Whether a coordinate that started between walls at `lo` and `hi` with velocity `v`, and was
/// carried to `x` by it, is between them afterwards, at `y`, and moves away from a wall that it
/// passed.
pub open spec fn turned_back(lo: real, hi: real, x: real, y: real, w: real) -> bool {
    &&& lo <= y <= hi
    &&& x < lo ==> 0real < w
    &&& hi < x ==> w < 0real
}

proof fn lemma_turned_back(
    lo: real,
    hi: real,
    start: real,
    v: real,
    dt: real,
    y: real,
    w: real,
)
    requires
        lo <= start <= hi,
        0real < dt,
        lo - (hi - lo) <= start + v * dt <= hi + (hi - lo),
        bounced(lo, hi, start + v * dt, v, y, w),
    ensures
        turned_back(lo, hi, start + v * dt, y, w),
{
    assert(v * dt < 0real ==> v < 0real) by (nonlinear_arith)
        requires
            0real < dt,
    ;
    assert(0real < v * dt ==> 0real < v) by (nonlinear_arith)
        requires
            0real < dt,
    ;
}

/// In a box, a body that no particle touches in a step moves by its velocity and bounces off the
/// faces, which it keeps its radius away from.
pub proof fn step_bounces_bodies_in_a_box(
    state: State<Exact>,
    dt: Exact,
    swings: Seq<Swing<Exact>>,
    b: int,
    min: Vec3<Exact>,
    max: Vec3<Exact>,
)
    requires
        countable(state),
        0 <= b < state.bodies.len(),
        met_by_none(before_body_phase(state, dt, swings), b),
        state.params.domain == (Domain::Box { min, max }),
    ensures
        ({
            let body = state.bodies[b];
            let moved = carried(body.pos, body.vel, dt);
            let after = state.stepped(dt, swings).bodies[b];
            let r = body.radius.value;
            &&& bounced(
                min.x.value + r,
                max.x.value - r,
                moved.x.value,
                body.vel.x.value,
                after.pos.x.value,
                after.vel.x.value,
            )
            &&& bounced(
                min.y.value + r,
                max.y.value - r,
                moved.y.value,
                body.vel.y.value,
                after.pos.y.value,
                after.vel.y.value,
            )
            &&& bounced(
                min.z.value + r,
                max.z.value - r,
                moved.z.value,
                body.vel.z.value,
                after.pos.z.value,
                after.vel.z.value,
            )
        }),
{
    lemma_body_in_step(state, dt, swings, b);
    let body = state.bodies[b];
    let moved = RigidBody { pos: carried(body.pos, body.vel, dt), ..body };
    bodies_meet_walls_like_particles(state.params.domain, moved);
    box_walls_mirror(min, max, body.radius, moved.pos, moved.vel);
}

/// In a sphere, a body that no particle touches in a step moves by its velocity; `d` from the
/// center after that, it is mirrored across the wall if it passed it, and turned inward if it
/// moved outward. The wall is its radius inside the sphere.
pub proof fn step_bounces_bodies_in_a_sphere(
    state: State<Exact>,
    dt: Exact,
    swings: Seq<Swing<Exact>>,
    b: int,
    center: Vec3<Exact>,
    radius: Exact,
    d: real,
)
    requires
        roots_exist(),
        countable(state),
        0 <= b < state.bodies.len(),
        met_by_none(before_body_phase(state, dt, swings), b),
        state.params.domain == (Domain::Sphere { center, radius }),
        0real <= d,
        d * d == gap_squared(
            center,
            carried(state.bodies[b].pos, state.bodies[b].vel, dt),
        ),
    ensures
        ({
            let body = state.bodies[b];
            let moved = carried(body.pos, body.vel, dt);
            let after = state.stepped(dt, swings).bodies[b];
            let inner = radius.value - body.radius.value;
            let line = way(center, moved);
            let outward = along(body.vel, line);
            &&& 0real < inner < d && 1real / 1_000_000_000_000real < d * d ==> {
                &&& is_times(way(center, after.pos), (2real * inner - d) / d, line)
                &&& 0real < outward ==> along(after.vel, line) == -outward && is_times(
                    way(after.vel, body.vel),
                    (2real * outward) / (d * d),
                    line,
                )
                &&& outward <= 0real ==> after.vel == body.vel
            }
            &&& d <= inner || inner <= 0real ==> after.pos == moved && after.vel == body.vel
        }),
{
    lemma_body_in_step(state, dt, swings, b);
    let body = state.bodies[b];
    let moved = RigidBody { pos: carried(body.pos, body.vel, dt), ..body };
    bodies_meet_walls_like_particles(state.params.domain, moved);
    let inner = radius.value - body.radius.value;
    if 0real < inner < d && 1real / 1_000_000_000_000real < d * d {
        assert(inner * inner < d * d) by (nonlinear_arith)
            requires
                0real < inner < d,
        ;
        sphere_walls_mirror(center, radius, body.radius, moved.pos, moved.vel, d);
    }
    if 0real < inner && d <= inner {
        assert(d * d <= inner * inner) by (nonlinear_arith)
            requires
                0real <= d <= inner,
        ;
        sphere_walls_leave_inside_alone(center, radius, body.radius, moved.pos, moved.vel);
    }
}

/// A body that starts inside the walls, that its velocity carries past them by no more than the
/// space inside is wide, and that no particle touches in the step, is inside them after it; and
/// where it passed a wall, it moves away from it.
pub proof fn step_keeps_bodies_inside(
    state: State<Exact>,
    dt: Exact,
    swings: Seq<Swing<Exact>>,
    b: int,
)
    requires
        roots_exist(),
        countable(state),
        0real < dt.value,
        0 <= b < state.bodies.len(),
        met_by_none(before_body_phase(state, dt, swings), b),
        state.params.domain.holds_center(state.bodies[b].pos, state.bodies[b].radius),
        recoverable(
            state.params.domain,
            state.bodies[b].radius,
            carried(state.bodies[b].pos, state.bodies[b].vel, dt),
        ),
    ensures
        ({
            let body = state.bodies[b];
            let moved = carried(body.pos, body.vel, dt);
            let after = state.stepped(dt, swings).bodies[b];
            let r = body.radius.value;
            &&& state.params.domain.holds_center(after.pos, after.radius)
            &&& after.radius == body.radius
            &&& match state.params.domain {
                Domain::Box { min, max } => {
                    &&& turned_back(
                        min.x.value + r,
                        max.x.value - r,
                        moved.x.value,
                        after.pos.x.value,
                        after.vel.x.value,
                    )
                    &&& turned_back(
                        min.y.value + r,
                        max.y.value - r,
                        moved.y.value,
                        after.pos.y.value,
                        after.vel.y.value,
                    )
                    &&& turned_back(
                        min.z.value + r,
                        max.z.value - r,
                        moved.z.value,
                        after.pos.z.value,
                        after.vel.z.value,
                    )
                },
                Domain::Sphere { center, radius } => {
                    let inner = radius.value - r;
                    inner * inner < gap_squared(center, moved) ==> along(
                        after.vel,
                        way(center, moved),
                    ) < 0real
                },
            }
        }),
{
    let domain = state.params.domain;
    let body = state.bodies[b];
    let moved = RigidBody { pos: carried(body.pos, body.vel, dt), ..body };
    let after = state.stepped(dt, swings).bodies[b];
    let r = body.radius.value;
    lemma_body_in_step(state, dt, swings, b);
    bodies_meet_walls_like_particles(domain, moved);
    walls_keep_inside(domain, body.radius, moved.pos, moved.vel);
    inside_is_clear_of_walls(domain, body.radius, body.pos);
    match domain {
        Domain::Box { min, max } => {
            step_bounces_bodies_in_a_box(state, dt, swings, b, min, max);
            lemma_turned_back(
                min.x.value + r,
                max.x.value - r,
                body.pos.x.value,
                body.vel.x.value,
                dt.value,
                after.pos.x.value,
                after.vel.x.value,
            );
            lemma_turned_back(
                min.y.value + r,
                max.y.value - r,
                body.pos.y.value,
                body.vel.y.value,
                dt.value,
                after.pos.y.value,
                after.vel.y.value,
            );
            lemma_turned_back(
                min.z.value + r,
                max.z.value - r,
                body.pos.z.value,
                body.vel.z.value,
                dt.value,
                after.pos.z.value,
                after.vel.z.value,
            );
        },
        Domain::Sphere { center, radius } => {
            let inner = radius.value - r;
            let e = gap_squared(center, moved.pos);
            if inner * inner < e {
                let d = root(e);
                assert(0real <= inner * inner) by (nonlinear_arith);
                root_squared(e);
                tiny_is_a_millionth_squared();
                assert(inner < d) by (nonlinear_arith)
                    requires
                        0real <= d,
                        0real < inner,
                        inner * inner < d * d,
                ;
                step_bounces_bodies_in_a_sphere(state, dt, swings, b, center, radius, d);
                lemma_outward(center, body.pos, body.vel, dt, inner * inner);
            }
        },
    }
}

/// What is carried out of a ball moves outward.
proof fn lemma_outward(
    center: Vec3<Exact>,
    p: Vec3<Exact>,
    v: Vec3<Exact>,
    dt: Exact,
    bound: real,
)
    requires
        0real < dt.value,
        gap_squared(center, p) <= bound,
        bound < gap_squared(center, carried(p, v, dt)),
    ensures
        0real < along(v, way(center, carried(p, v, dt))),
{
    let line = way(center, carried(p, v, dt));
    kicked(line, v, dt);
    let back = line.difference(v.scaled(dt));
    assert(back == way(center, p));
    assert(back.squared_length().value == gap_squared(center, p));
    assert(line.squared_length().value == gap_squared(center, carried(p, v, dt)));
    squared_length_sign(v);
    let (t, o, e) = (dt.value, line.dot_product(v).value, v.squared_length().value);
    assert(0real <= t * t * e) by (nonlinear_arith)
        requires
            0real <= e,
    ;
    assert(0real < t * o);
    assert(0real < o) by (nonlinear_arith)
        requires
            0real < t,
            0real < t * o,
    ;
    assert(o == along(v, line)) by {
        lemma_commuted(line.x.value, v.x.value);
        lemma_commuted(line.y.value, v.y.value);
        lemma_commuted(line.z.value, v.z.value);
    }
}

proof fn lemma_commuted(x: real, y: real)
    by (nonlinear_arith)
    ensures
        x * y == y * x,
{
}

/// Where a particle is after the walls, when it has moved by its velocity for `dt`.
pub open spec fn inside_place(state: State<Exact>, dt: Exact, i: int) -> (
    Vec3<Exact>,
    Vec3<Exact>,
) {
    walled(
        state.params.domain,
        state.params.radius,
        carried(state.positions[i], state.velocities[i], dt),
        state.velocities[i],
    )
}

/// Without cannons and bodies, a step is motion, then walls, then collisions of particles.
proof fn lemma_plain_step(state: State<Exact>, dt: Exact)
    requires
        state.positions.len() == state.velocities.len(),
        state.cannons.len() == 0,
        state.bodies.len() == 0,
    ensures
        ({
            let inside = state.integrated(dt).bodies_integrated(dt).cannons_advanced(
                dt,
                Seq::empty(),
            ).walls_resolved().body_walls_resolved();
            &&& state.stepped(dt, Seq::empty()).positions == inside.pairs_resolved().positions
            &&& state.stepped(dt, Seq::empty()).velocities == inside.pairs_resolved().velocities
            &&& inside.positions.len() == state.positions.len()
            &&& inside.velocities.len() == state.velocities.len()
            &&& inside.params == state.params
            &&& inside.inv_cell_size == state.inv_cell_size
            &&& forall|i: int|
                0 <= i < state.positions.len() ==> (#[trigger] inside.positions[i])
                    == inside_place(state, dt, i).0 && inside.velocities[i] == inside_place(
                    state,
                    dt,
                    i,
                ).1
        }),
{
    let moved = state.integrated(dt).bodies_integrated(dt).cannons_advanced(dt, Seq::empty());
    let inside = moved.walls_resolved().body_walls_resolved();
    assert(inside.cannons_resolved(0) == inside);
    assert forall|i: int| 0 <= i < state.positions.len() implies (#[trigger] inside.positions[i])
        == inside_place(state, dt, i).0 && inside.velocities[i] == inside_place(
        state,
        dt,
        i,
    ).1 by {
        assert(moved.positions[i] == carried(state.positions[i], state.velocities[i], dt));
    }
    let parted = inside.pairs_resolved();
    lemma_no_bodies(inside, inside.contacts());
    assert(parted.bodies.len() == 0);
    assert(parted.body_particles_resolved() == parted);
}

proof fn lemma_no_bodies(state: State<Exact>, pairs: Seq<(usize, usize)>)
    ensures
        state.pair_list_resolved(pairs).bodies == state.bodies,
    decreases pairs.len(),
{
    if pairs.len() > 0 {
        lemma_no_bodies(state, pairs.drop_last());
    }
}

/// Without cannons and bodies, a particle that overlaps no other once all have moved and met the
/// walls is where motion and walls have put it.
pub proof fn step_moves_free_particles(state: State<Exact>, dt: Exact, i: int)
    requires
        countable(state),
        state.cannons.len() == 0,
        state.bodies.len() == 0,
        0 <= i < state.positions.len(),
        forall|j: int|
            0 <= j < state.positions.len() && j != i ==> !overlap(
                inside_place(state, dt, i).0,
                (#[trigger] inside_place(state, dt, j)).0,
                state.params.radius,
            ),
    ensures
        state.stepped(dt, Seq::empty()).positions[i] == inside_place(state, dt, i).0,
        state.stepped(dt, Seq::empty()).velocities[i] == inside_place(state, dt, i).1,
{
    lemma_plain_step(state, dt);
    let inside = state.integrated(dt).bodies_integrated(dt).cannons_advanced(
        dt,
        Seq::empty(),
    ).walls_resolved().body_walls_resolved();
    assert forall|j: int| 0 <= j < inside.positions.len() && j != i implies !overlap(
        inside.positions[i],
        #[trigger] inside.positions[j],
        inside.params.radius,
    ) by {
        assert(!overlap(
            inside_place(state, dt, i).0,
            inside_place(state, dt, j).0,
            state.params.radius,
        ));
    }
    particles_without_contact_go_on(inside, i);
}

/// In a box without cannons and bodies, a particle that overlaps no other moves by its velocity
/// and bounces off the faces, which it keeps its radius away from.
pub proof fn step_bounces_particles_in_a_box(
    state: State<Exact>,
    dt: Exact,
    i: int,
    min: Vec3<Exact>,
    max: Vec3<Exact>,
)
    requires
        countable(state),
        state.cannons.len() == 0,
        state.bodies.len() == 0,
        state.params.domain == (Domain::Box { min, max }),
        0 <= i < state.positions.len(),
        forall|j: int|
            0 <= j < state.positions.len() && j != i ==> !overlap(
                inside_place(state, dt, i).0,
                (#[trigger] inside_place(state, dt, j)).0,
                state.params.radius,
            ),
    ensures
        ({
            let (p, v) = (state.positions[i], state.velocities[i]);
            let after = state.stepped(dt, Seq::empty());
            let (q, w) = (after.positions[i], after.velocities[i]);
            let r = state.params.radius.value;
            &&& bounced(
                min.x.value + r,
                max.x.value - r,
                p.x.value + v.x.value * dt.value,
                v.x.value,
                q.x.value,
                w.x.value,
            )
            &&& bounced(
                min.y.value + r,
                max.y.value - r,
                p.y.value + v.y.value * dt.value,
                v.y.value,
                q.y.value,
                w.y.value,
            )
            &&& bounced(
                min.z.value + r,
                max.z.value - r,
                p.z.value + v.z.value * dt.value,
                v.z.value,
                q.z.value,
                w.z.value,
            )
        }),
{
    step_moves_free_particles(state, dt, i);
    box_walls_mirror(
        min,
        max,
        state.params.radius,
        carried(state.positions[i], state.velocities[i], dt),
        state.velocities[i],
    );
}

/// Two particles alone, without cannons and bodies, do not overlap after a step; and if they did
/// when they had moved and met the walls, `d` apart, approaching along the line of centers then,
/// they part along it as fast as they approached.
pub proof fn step_parts_two_particles(state: State<Exact>, dt: Exact, d: real)
    requires
        roots_exist(),
        countable(state),
        state.positions.len() == 2,
        state.cannons.len() == 0,
        state.bodies.len() == 0,
        0real < state.params.radius.value,
        0real < state.inv_cell_size.value,
        (2real * state.params.radius.value) * state.inv_cell_size.value <= 1real,
        0real <= d,
        d * d == gap_squared(inside_place(state, dt, 0).0, inside_place(state, dt, 1).0),
    ensures
        ({
            let after = state.stepped(dt, Seq::empty());
            let (p, v) = inside_place(state, dt, 0);
            let (q, w) = inside_place(state, dt, 1);
            let contact = 2real * state.params.radius.value;
            let line = way(p, q);
            &&& !overlap(after.positions[0], after.positions[1], state.params.radius)
            &&& 0real < d < contact ==> {
                let before = along(way(w, v), line);
                let parting = along(way(after.velocities[1], after.velocities[0]), line);
                &&& gap_squared(after.positions[0], after.positions[1]) == contact * contact
                &&& parting == if 0real < before {
                    -before
                } else {
                    before
                }
            }
            &&& contact <= d || d == 0real ==> after.positions[0] == p && after.positions[1] == q
                && after.velocities[0] == v && after.velocities[1] == w
        }),
{
    lemma_plain_step(state, dt);
    let inside = state.integrated(dt).bodies_integrated(dt).cannons_advanced(
        dt,
        Seq::empty(),
    ).walls_resolved().body_walls_resolved();
    let contact = 2real * state.params.radius.value;
    assert(inside.positions[0] == inside_place(state, dt, 0).0);
    assert(inside.positions[1] == inside_place(state, dt, 1).0);
    if 0real < d < contact {
        lone_contacts_bounce(inside, 0, 1, d);
    } else {
        assert(d * d >= contact * contact || d * d == 0real) by (nonlinear_arith)
            requires
                0real < contact,
                contact <= d || d == 0real,
        ;
        let (p, q) = (inside.positions[0], inside.positions[1]);
        assert(gap_squared(p, q) == gap_squared(q, p)) by {
            lemma_square_turned(p.x.value, q.x.value);
            lemma_square_turned(p.y.value, q.y.value);
            lemma_square_turned(p.z.value, q.z.value);
        }
        particles_without_contact_go_on(inside, 0);
        particles_without_contact_go_on(inside, 1);
    }
}

proof fn lemma_square_turned(x: real, y: real)
    by (nonlinear_arith)
    ensures
        (y - x) * (y - x) == (x - y) * (x - y),
{
}

/// A particle that only one of the cannons acts on, both where it is and where that cannon puts
/// it, is after the cannon phase what that cannon makes of it.
pub proof fn each_cannon_acts<S: Number>(state: State<S>, c: int, i: int)
    requires
        state.positions.len() == state.velocities.len(),
        0 <= c < state.cannons.len(),
        0 <= i < state.positions.len(),
        ({
            let r = state.params.radius;
            let (p, v) = (state.positions[i], state.velocities[i]);
            let (q, w) = state.cannons[c].met(r, p, v);
            forall|k: int|
                0 <= k < state.cannons.len() && k != c ==> (#[trigger] state.cannons[k]).met(
                    r,
                    p,
                    v,
                ) == (p, v) && state.cannons[k].met(r, q, w) == (q, w)
        }),
    ensures
        ({
            let after = state.cannons_resolved(state.cannons.len() as int);
            (after.positions[i], after.velocities[i]) == state.cannons[c].met(
                state.params.radius,
                state.positions[i],
                state.velocities[i],
            )
        }),
{
    lemma_each_cannon(state, state.cannons.len() as int, c, i);
}

proof fn lemma_each_cannon<S: Number>(state: State<S>, n: int, c: int, i: int)
    requires
        state.positions.len() == state.velocities.len(),
        0 <= n <= state.cannons.len(),
        0 <= c < state.cannons.len(),
        0 <= i < state.positions.len(),
        ({
            let r = state.params.radius;
            let (p, v) = (state.positions[i], state.velocities[i]);
            let (q, w) = state.cannons[c].met(r, p, v);
            forall|k: int|
                0 <= k < state.cannons.len() && k != c ==> (#[trigger] state.cannons[k]).met(
                    r,
                    p,
                    v,
                ) == (p, v) && state.cannons[k].met(r, q, w) == (q, w)
        }),
    ensures
        ({
            let after = state.cannons_resolved(n);
            &&& after.positions.len() == state.positions.len()
            &&& after.velocities.len() == state.velocities.len()
            &&& after.params == state.params
            &&& (after.positions[i], after.velocities[i]) == (if n <= c {
                (state.positions[i], state.velocities[i])
            } else {
                state.cannons[c].met(
                    state.params.radius,
                    state.positions[i],
                    state.velocities[i],
                )
            })
        }),
    decreases n,
{
    if n > 0 {
        lemma_each_cannon(state, n - 1, c, i);
        let k = n - 1;
        if k != c {
            let (p, v) = (state.positions[i], state.velocities[i]);
            assert(state.cannons[k].met(state.params.radius, p, v) == (p, v));
        }
    }
}

/// Whether a cannon is another one after `dt` more: the clock runs on; until the cycle is
/// completed the piston is at `stroke * (1 - cos) / 2` and as fast as `stroke * pi / period * sin`,
/// then it rests at zero. Nothing else of a cannon changes.
pub open spec fn ran_on(
    before: Cannon<Exact>,
    after: Cannon<Exact>,
    dt: Exact,
    swing: Swing<Exact>,
) -> bool {
    let (stroke, period) = (before.piston_stroke.value, before.piston_period.value);
    let clock = before.elapsed.value + dt.value;
    let rests = period <= 0real || period <= clock;
    &&& after.elapsed.value == clock
    &&& rests ==> after.piston_offset.value == 0real && after.piston_vel.value == 0real
    &&& !rests ==> 2real * after.piston_offset.value == stroke * (1real - swing.cos.value)
    &&& !rests ==> after.piston_vel.value == ((stroke * pi_value::<Exact>().value) / period)
        * swing.sin.value
    &&& after.origin == before.origin
    &&& after.axis == before.axis
    &&& after.length == before.length
    &&& after.bore_radius == before.bore_radius
    &&& after.lip_outer_radius == before.lip_outer_radius
    &&& after.piston_stroke == before.piston_stroke
    &&& after.piston_period == before.piston_period
}

/// A piston runs on as its cannon says, and the phase whose cosine and sine it follows is the
/// part of a full turn that the clock has gone of the period.
pub proof fn pistons_run_on(cannon: Cannon<Exact>, dt: Exact, swing: Swing<Exact>)
    ensures
        ran_on(cannon, cannon.advanced(dt, swing), dt, swing),
        0real < cannon.piston_period.value ==> cannon.phase_after(dt).value
            * cannon.piston_period.value == tau_value::<Exact>().value * (cannon.elapsed.value
            + dt.value),
{
    half_value();
    let x = cannon.piston_stroke.value * (1real - swing.cos.value);
    assert(2real * (x * (1real / 2real)) == x) by (nonlinear_arith);
    let (a, p) = (
        tau_value::<Exact>().value * (cannon.elapsed.value + dt.value),
        cannon.piston_period.value,
    );
    assert(0real < p ==> (a / p) * p == a) by (nonlinear_arith);
}

/// A step lets every piston run on by the time of the step.
pub proof fn step_runs_pistons_on(
    state: State<Exact>,
    dt: Exact,
    swings: Seq<Swing<Exact>>,
    c: int,
)
    requires
        countable(state),
        0 <= c < state.cannons.len(),
    ensures
        ran_on(state.cannons[c], state.stepped(dt, swings).cannons[c], dt, swings[c]),
{
    step_keeps_frame(state, dt, swings);
    pistons_run_on(state.cannons[c], dt, swings[c]);
}

/// With one cannon and no bodies, a single particle moves, meets the walls, and then meets the
/// cannon as it is once its piston has run on.
pub proof fn step_meets_the_cannon(state: State<Exact>, dt: Exact, swings: Seq<Swing<Exact>>)
    requires
        countable(state),
        state.positions.len() == 1,
        state.cannons.len() == 1,
        state.bodies.len() == 0,
    ensures
        ({
            let after = state.stepped(dt, swings);
            let (p, v) = inside_place(state, dt, 0);
            (after.positions[0], after.velocities[0]) == after.cannons[0].met(
                state.params.radius,
                p,
                v,
            )
        }),
{
    step_keeps_frame(state, dt, swings);
    let moved = state.integrated(dt).bodies_integrated(dt).cannons_advanced(dt, swings);
    let inside = moved.walls_resolved().body_walls_resolved();
    assert(moved.positions[0] == carried(state.positions[0], state.velocities[0], dt));
    each_cannon_acts(inside, 0, 0);
    lemma_cannons_frame(inside, 1);
    let clear = inside.cannons_resolved(1);
    particles_without_contact_go_on(clear, 0);
    let parted = clear.pairs_resolved();
    lemma_no_bodies(clear, clear.contacts());
    assert(parted.body_particles_resolved() == parted);
}

/// Without cannons, a single particle and a single body that can be moved do not overlap after a
/// step.
pub proof fn step_parts_body_and_particle(state: State<Exact>, dt: Exact)
    requires
        roots_exist(),
        countable(state),
        state.positions.len() == 1,
        state.cannons.len() == 0,
        state.bodies.len() == 1,
        0real < state.inv_cell_size.value,
        0real < state.params.mass.value,
        0real <= state.bodies[0].inv_mass.value,
        0real < state.bodies[0].radius.value + state.params.radius.value,
    ensures
        ({
            let after = state.stepped(dt, Seq::empty());
            clear_of_body(after.bodies[0], after.positions[0], state.params.radius)
        }),
{
    let moved = state.integrated(dt).bodies_integrated(dt).cannons_advanced(dt, Seq::empty());
    let inside = moved.walls_resolved().body_walls_resolved();
    assert(inside.cannons_resolved(0) == inside);
    contacts_among(inside);
    lemma_pairs_frame(inside, inside.contacts());
    let parted = inside.pairs_resolved();
    body_phase_parts_body_and_particle(parted);
    assert(parted.bodies[0].radius == state.bodies[0].radius);
    let ids = cell_ids_of(parted.positions, parted.inv_cell_size);
    lemma_bodies_frame(parted, ids, 1);
}

/// Two particles without bodies do not overlap after a step, whatever cannons did to them.
pub proof fn step_leaves_two_particles_apart(
    state: State<Exact>,
    dt: Exact,
    swings: Seq<Swing<Exact>>,
)
    requires
        roots_exist(),
        countable(state),
        state.positions.len() == 2,
        state.bodies.len() == 0,
        0real < state.params.radius.value,
        0real < state.inv_cell_size.value,
        (2real * state.params.radius.value) * state.inv_cell_size.value <= 1real,
    ensures
        ({
            let after = state.stepped(dt, swings);
            !overlap(after.positions[0], after.positions[1], state.params.radius)
        }),
{
    let moved = state.integrated(dt).bodies_integrated(dt).cannons_advanced(dt, swings);
    let inside = moved.walls_resolved().body_walls_resolved();
    lemma_cannons_frame(inside, inside.cannons.len() as int);
    let clear = inside.cannons_resolved(inside.cannons.len() as int);
    pair_phase_parts_two_particles(clear);
    lemma_no_bodies(clear, clear.contacts());
    let parted = clear.pairs_resolved();
    assert(parted.body_particles_resolved() == parted);
}

/// No particle overlaps a single immovable body after a step, whatever cannons and other particles
/// did to it.
pub proof fn step_clears_an_immovable_body(
    state: State<Exact>,
    dt: Exact,
    swings: Seq<Swing<Exact>>,
    j: int,
)
    requires
        roots_exist(),
        countable(state),
        state.bodies.len() == 1,
        0real < state.inv_cell_size.value,
        0real < state.params.mass.value,
        state.bodies[0].inv_mass.value == 0real,
        0real < state.bodies[0].radius.value + state.params.radius.value,
        0 <= j < state.positions.len(),
    ensures
        ({
            let after = state.stepped(dt, swings);
            clear_of_body(after.bodies[0], after.positions[j], state.params.radius)
        }),
{
    let moved = state.integrated(dt).bodies_integrated(dt).cannons_advanced(dt, swings);
    let inside = moved.walls_resolved().body_walls_resolved();
    lemma_cannons_frame(inside, inside.cannons.len() as int);
    let clear = inside.cannons_resolved(inside.cannons.len() as int);
    contacts_among(clear);
    lemma_pairs_frame(clear, clear.contacts());
    body_phase_clears_an_immovable_body(clear.pairs_resolved(), j);
}

/// The piston follows the cosine of its phase and its velocity the sine, in whatever numbers.
pub proof fn pistons_follow_cosine_and_sine<S: Angle>(state: State<S>, dt: S, c: int)
    requires
        0 <= c < state.cannons.len(),
        !state.cannons[c].rests_after(dt),
    ensures
        ({
            let cannon = state.cannons[c];
            let phase = cannon.phase_after(dt);
            let after = state.cannons_advanced(dt, state.swings_after(dt)).cannons[c];
            &&& after.piston_offset == cannon.piston_stroke.product(
                S::whole(1).difference(phase.cosine()),
            ).product(S::decimal(5, 1))
            &&& after.piston_vel == cannon.piston_stroke.product(pi_value()).quotient(
                cannon.piston_period,
            ).product(phase.sine())
        }),
{
}

} // verus!
