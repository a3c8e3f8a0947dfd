//! Single operations, on numbers whose results can be given to the bit.

use physics_core::cannon::resolve_particle_against_cannon;
use physics_core::collision::{Pair, Strike};
use physics_core::contacts::find_contacts;
use physics_core::domain::Domain;
use physics_core::grid::{cell_coord_of, hash64, pack_cell, HashGrid};
use physics_core::lattice::Lattice;
use physics_core::setup::init_random_uniform_speed;
use physics_core::walls::{resolve_body_wall, resolve_wall};
use physics_core::{Angle, Cannon, Fixed, RigidBody, Sampler, Scalar, Simulation, SimulationParams, Vec3};

fn fx(n: i64) -> Fixed {
    Fixed { raw: n << 32 }
}

/// `n / 4`.
fn quarters(n: i64) -> Fixed {
    Fixed { raw: n << 30 }
}

fn at(x: i64, y: i64, z: i64) -> Vec3<Fixed> {
    Vec3 { x: fx(x), y: fx(y), z: fx(z) }
}

fn same(a: Vec3<Fixed>, b: Vec3<Fixed>) -> bool {
    a.x == b.x && a.y == b.y && a.z == b.z
}

#[test]
fn sums_saturate() {
    assert_eq!(fx(2).add(fx(3)), fx(5));
    assert_eq!(fx(2).sub(fx(3)), fx(-1));
    assert_eq!(Fixed { raw: i64::MAX }.add(fx(1)), Fixed { raw: i64::MAX });
    assert_eq!(Fixed { raw: i64::MIN }.sub(fx(1)), Fixed { raw: i64::MIN });
    assert_eq!(Fixed { raw: i64::MIN }.neg(), Fixed { raw: i64::MAX });
    assert_eq!(Fixed { raw: i64::MIN }.abs(), Fixed { raw: i64::MAX });
    assert_eq!(fx(-4).abs(), fx(4));
    assert_eq!(fx(4).neg(), fx(-4));
}

#[test]
fn products_round_toward_zero() {
    assert_eq!(fx(-3).mul(fx(7)), fx(-21));
    assert_eq!(quarters(2).mul(quarters(2)), quarters(1));
    assert_eq!(Fixed { raw: 1 }.mul(Fixed { raw: 1 }), fx(0));
    assert_eq!(Fixed { raw: -1 }.mul(quarters(2)), fx(0));
    assert_eq!(fx(1 << 20).mul(fx(1 << 20)), Fixed { raw: i64::MAX });
    assert_eq!(fx(-(1 << 20)).mul(fx(1 << 20)), Fixed { raw: i64::MIN });
}

#[test]
fn quotients_round_toward_zero() {
    assert_eq!(fx(21).div(fx(-7)), fx(-3));
    assert_eq!(fx(1).div(fx(4)), quarters(1));
    assert_eq!(fx(1).div(fx(3)), Fixed { raw: 0x5555_5555 });
    assert_eq!(fx(-1).div(fx(3)), Fixed { raw: -0x5555_5555 });
    assert_eq!(fx(1).div(fx(0)), Fixed { raw: i64::MAX });
    assert_eq!(fx(-1).div(fx(0)), Fixed { raw: i64::MIN });
    assert_eq!(fx(0).div(fx(0)), fx(0));
}

#[test]
fn roots_round_down() {
    assert_eq!(fx(9).sqrt(), fx(3));
    assert_eq!(quarters(1).sqrt(), quarters(2));
    assert_eq!(fx(2).sqrt(), Fixed { raw: 0x1_6A09_E667 });
    assert_eq!(fx(0).sqrt(), fx(0));
    assert_eq!(fx(-4).sqrt(), fx(0));
}

#[test]
fn floors_round_down() {
    assert_eq!(quarters(7).floor(), 1);
    assert_eq!(quarters(-1).floor(), -1);
    assert_eq!(fx(-2).floor(), -2);
    assert_eq!(Fixed { raw: i64::MIN }.floor(), i32::MIN);
    assert_eq!(Fixed { raw: i64::MAX }.floor(), i32::MAX);
}

#[test]
fn decimals_are_truncated() {
    assert_eq!(Fixed::from_decimal(5, 1), quarters(2));
    assert_eq!(Fixed::from_decimal(-25, 2), quarters(-1));
    assert_eq!(Fixed::from_decimal(1, 1), Fixed { raw: 0x1999_9999 });
    assert_eq!(Fixed::from_decimal(1, 4_000_000_000), fx(0));
    assert_eq!(Fixed::from_decimal(3, 0), fx(3));
    assert_eq!(Fixed::from_u64(7), fx(7));
    assert_eq!(Fixed::from_u64(u64::MAX), Fixed { raw: i64::MAX });
}

#[test]
fn comparisons_are_those_of_the_numbers() {
    assert!(fx(1).lt(fx(2)) && !fx(2).lt(fx(2)));
    assert!(fx(2).le(fx(2)) && !fx(3).le(fx(2)));
    assert!(Scalar::eq(fx(2), fx(2)) && !Scalar::eq(fx(2), fx(3)));
    assert_eq!(Scalar::min(fx(1), fx(2)), fx(1));
    assert_eq!(Scalar::max(fx(1), fx(2)), fx(2));
    assert!(fx(1).is_finite());
}

#[test]
fn packed_cells_use_one_field_per_axis() {
    assert_eq!(pack_cell([0, 0, 0]), (1 << 20) | (1 << 41) | (1u64 << 62));
    assert_eq!(pack_cell([-1 << 20, -1 << 20, -1 << 20]), 0);
    assert_eq!(pack_cell([1 - (1 << 20), 2 - (1 << 20), 3 - (1 << 20)]), 1 | (2 << 21) | (3 << 42));
    // Coordinates out of range alias.
    assert_eq!(pack_cell([5, 0, 0]), pack_cell([5 + (1 << 21), 0, 0]));
    assert_eq!(pack_cell([i32::MAX, 0, 0]), pack_cell([-1, 0, 0]));
}

#[test]
fn packed_cells_in_range_differ() {
    let mut seen: Vec<u64> = Vec::new();
    for x in -2..2 {
        for y in -2..2 {
            for z in -2..2 {
                seen.push(pack_cell([x, y, z]));
            }
        }
    }
    seen.sort();
    seen.dedup();
    assert_eq!(seen.len(), 64);
}

#[test]
fn hashes_fold_the_upper_half() {
    assert_eq!(hash64(0), 0);
    assert_eq!(hash64(1), 0x9E37_79B9_7F4A_7C15 ^ 0x9E37_79B9);
    let h = 2u64.wrapping_mul(0x9E37_79B9_7F4A_7C15);
    assert_eq!(hash64(2), h ^ (h >> 32));
}

#[test]
fn cells_round_down() {
    let c = cell_coord_of(Vec3 { x: quarters(-1), y: quarters(9), z: fx(-3) }, fx(1));
    assert_eq!(c, [-1, 2, -3]);
}

#[test]
fn neighbors_are_found_once() {
    let points =
        vec![at(0, 0, 0), at(1, 1, 1), at(2, 0, 0), at(-1, -1, -1), at(0, 0, 0), at(0, 3, 0)];
    let mut grid = HashGrid::new(fx(1));
    assert!(grid.for_each_neighbor(at(0, 0, 0)).is_empty());
    grid.rebuild(&points);
    let mut found = grid.for_each_neighbor(at(0, 0, 0));
    found.sort();
    assert_eq!(found, vec![0, 1, 3, 4]);
    // The cells are walked from the lowest corner on.
    assert_eq!(grid.for_each_neighbor(at(0, 0, 0)), vec![3, 0, 4, 1]);
    grid.rebuild(&Vec::new());
    assert!(grid.for_each_neighbor(at(0, 0, 0)).is_empty());
}

#[test]
fn boxes_find_what_shares_a_cell() {
    let points = vec![at(0, 0, 0), at(2, 0, 0), at(4, 0, 0), at(0, 5, 0)];
    let mut grid = HashGrid::new(fx(1));
    grid.rebuild(&points);
    assert_eq!(grid.for_each_in_aabb(at(-1, -1, -1), at(2, 1, 1)), vec![0, 1]);
    assert_eq!(grid.for_each_in_aabb(at(3, 0, 0), at(4, 0, 0)), vec![2]);
    assert!(grid.for_each_in_aabb(at(1, 0, 0), at(0, 0, 0)).is_empty());
}

#[test]
fn contacts_are_sorted() {
    // The grid yields the particle in the lower cell first, so the pairs do not come in order.
    let points = vec![
        Vec3 { x: quarters(1), y: fx(0), z: fx(0) },
        Vec3 { x: quarters(3), y: fx(0), z: fx(0) },
        Vec3 { x: quarters(-1), y: fx(0), z: fx(0) },
        at(9, 0, 0),
    ];
    let mut grid = HashGrid::new(fx(1));
    grid.rebuild(&points);
    assert_eq!(grid.for_each_neighbor(points[0]), vec![2, 0, 1]);
    assert_eq!(find_contacts(&grid, &points, fx(1)), vec![(0, 1), (0, 2)]);
    assert_eq!(find_contacts(&grid, &points, fx(2)), vec![(0, 1), (0, 2), (1, 2)]);
}

#[test]
fn coinciding_particles_are_not_in_contact() {
    let points = vec![at(0, 0, 0), at(0, 0, 0)];
    let mut grid = HashGrid::new(fx(1));
    grid.rebuild(&points);
    assert!(find_contacts(&grid, &points, fx(1)).is_empty());
}

fn pair(x: i64, vi: Vec3<Fixed>, vj: Vec3<Fixed>) -> Pair<Fixed> {
    Pair { pos_i: at(0, 0, 0), vel_i: vi, pos_j: at(x, 0, 0), vel_j: vj }
}

#[test]
fn approaching_particles_exchange_normal_velocities() {
    let after = pair(1, at(3, 1, 0), at(-2, 0, 5)).collide(fx(2));
    assert!(same(after.vel_i, at(-2, 1, 0)));
    assert!(same(after.vel_j, at(3, 0, 5)));
    // Each is pushed by half the overlap.
    assert!(same(after.pos_i, Vec3 { x: quarters(-2), y: fx(0), z: fx(0) }));
    assert!(same(after.pos_j, Vec3 { x: quarters(6), y: fx(0), z: fx(0) }));
}

#[test]
fn receding_particles_keep_their_velocities() {
    let after = pair(1, at(-3, 0, 0), at(2, 0, 0)).collide(fx(2));
    assert!(same(after.vel_i, at(-3, 0, 0)));
    assert!(same(after.vel_j, at(2, 0, 0)));
    assert_eq!(after.pos_j.x.sub(after.pos_i.x), fx(2));
}

#[test]
fn distant_particles_are_left_alone() {
    let before = pair(2, at(3, 0, 0), at(-3, 0, 0));
    let after = before.collide(fx(2));
    assert!(same(after.vel_i, before.vel_i) && same(after.pos_j, before.pos_j));
    let before = pair(0, at(3, 0, 0), at(-3, 0, 0));
    let after = before.collide(fx(2));
    assert!(same(after.vel_i, before.vel_i) && same(after.pos_j, before.pos_j));
}

#[test]
fn pairs_keep_energy_and_momentum() {
    let before = pair(1, at(3, 1, 2), at(-2, 4, 5));
    let after = before.collide(fx(2));
    let energy = |p: Pair<Fixed>| p.vel_i.length_squared().add(p.vel_j.length_squared());
    assert_eq!(energy(before), energy(after));
    assert!(same(before.vel_i.add(before.vel_j), after.vel_i.add(after.vel_j)));
    assert!(same(before.pos_i.add(before.pos_j), after.pos_i.add(after.pos_j)));
}

fn body(mass: Fixed) -> RigidBody<Fixed> {
    RigidBody::new(at(0, 0, 0), at(0, 0, 0), fx(1), mass)
}

#[test]
fn bodies_cache_the_inverse_mass() {
    assert_eq!(body(fx(4)).inv_mass, quarters(1));
    assert_eq!(body(fx(0)).inv_mass, fx(0));
    assert_eq!(body(fx(-2)).inv_mass, fx(0));
}

#[test]
fn strikes_share_by_inverse_mass() {
    // A particle of mass one hits a body of mass one: they exchange velocities.
    let strike = Strike { pos: at(1, 0, 0), vel: at(-2, 3, 0), body: body(fx(1)) };
    let after = strike.collide(fx(2), fx(1));
    assert!(same(after.vel, at(0, 3, 0)));
    assert!(same(after.body.vel, at(-2, 0, 0)));
    assert!(same(after.pos, Vec3 { x: quarters(6), y: fx(0), z: fx(0) }));
    assert!(same(after.body.pos, Vec3 { x: quarters(-2), y: fx(0), z: fx(0) }));
}

#[test]
fn immovable_bodies_stay() {
    let strike = Strike { pos: at(1, 0, 0), vel: at(-2, 0, 0), body: body(fx(0)) };
    let after = strike.collide(fx(2), fx(1));
    assert!(same(after.vel, at(2, 0, 0)));
    assert!(same(after.pos, at(2, 0, 0)));
    assert!(same(after.body.vel, at(0, 0, 0)));
    assert!(same(after.body.pos, at(0, 0, 0)));
    // If the particle is immovable too, nothing happens.
    let after = strike.collide(fx(2), fx(0));
    assert!(same(after.vel, at(-2, 0, 0)) && same(after.pos, at(1, 0, 0)));
}

#[test]
fn box_walls_mirror() {
    let domain = Domain::Box { min: at(0, 0, 0), max: at(10, 10, 10) };
    let (p, v) = resolve_wall(&domain, fx(1), at(0, 12, 5), at(-3, 4, 5));
    assert!(same(p, at(2, 6, 5)));
    assert!(same(v, at(3, -4, 5)));
    let (p, v) = resolve_wall(&domain, fx(1), at(1, 9, 5), at(-3, 4, 5));
    assert!(same(p, at(1, 9, 5)) && same(v, at(-3, 4, 5)));
}

#[test]
fn sphere_walls_mirror() {
    let domain = Domain::Sphere { center: at(1, 0, 0), radius: fx(5) };
    let (p, v) = resolve_wall(&domain, fx(1), at(6, 0, 0), at(2, 3, 0));
    assert!(same(p, at(4, 0, 0)));
    assert!(same(v, at(-2, 3, 0)));
    // An inward velocity is kept.
    let (p, v) = resolve_wall(&domain, fx(1), at(6, 0, 0), at(-2, 3, 0));
    assert!(same(p, at(4, 0, 0)) && same(v, at(-2, 3, 0)));
}

#[test]
fn bodies_too_large_for_a_sphere_have_no_walls() {
    let domain = Domain::Sphere { center: at(0, 0, 0), radius: fx(2) };
    let mut b = RigidBody::new(at(9, 0, 0), at(1, 0, 0), fx(2), fx(1));
    b = resolve_body_wall(&domain, b);
    assert!(same(b.pos, at(9, 0, 0)) && same(b.vel, at(1, 0, 0)));
    let b = RigidBody::new(at(2, 0, 0), at(1, 0, 0), fx(1), fx(1));
    let b = resolve_body_wall(&domain, b);
    assert!(same(b.pos, at(0, 0, 0)) && same(b.vel, at(-1, 0, 0)));
    let domain = Domain::Box { min: at(0, 0, 0), max: at(4, 4, 4) };
    let b = RigidBody::new(at(0, 2, 2), at(-1, 0, 0), fx(1), fx(1));
    let b = resolve_body_wall(&domain, b);
    assert!(same(b.pos, at(2, 2, 2)) && same(b.vel, at(1, 0, 0)));
}

#[test]
fn domains_have_boxes_and_volumes() {
    let cube = Domain::Box { min: at(0, 0, 0), max: at(6, 7, 8) };
    let (lo, hi) = cube.aabb();
    assert!(same(lo, at(0, 0, 0)) && same(hi, at(6, 7, 8)));
    let (lo, hi) = cube.particle_aabb(fx(1));
    assert!(same(lo, at(1, 1, 1)) && same(hi, at(5, 6, 7)));
    assert_eq!(cube.particle_volume(fx(1)), fx(4 * 5 * 6));
    assert!(cube.contains_center(at(1, 6, 3), fx(1)));
    assert!(!cube.contains_center(at(0, 6, 3), fx(1)));
    let ball = Domain::Sphere { center: at(1, 1, 1), radius: fx(3) };
    let (lo, hi) = ball.aabb();
    assert!(same(lo, at(-2, -2, -2)) && same(hi, at(4, 4, 4)));
    let (lo, hi) = ball.particle_aabb(fx(1));
    assert!(same(lo, at(-1, -1, -1)) && same(hi, at(3, 3, 3)));
    assert!(ball.contains_center(at(3, 1, 1), fx(1)));
    assert!(!ball.contains_center(at(3, 2, 1), fx(1)));
    // Four thirds of pi times eight.
    assert_eq!(ball.particle_volume(fx(1)).floor(), 33);
    assert_eq!(ball.particle_volume(fx(4)), fx(0));
}

#[test]
fn lattices_fill_from_the_lowest_corner() {
    let lattice = Lattice { origin: at(0, 0, 0), spacing: fx(2), nx: 2, ny: 1, nz: 1 };
    let domain = Domain::Box { min: at(0, 0, 0), max: at(9, 9, 9) };
    let sites = lattice.fill(&domain, fx(0), 6).unwrap();
    assert!(same(sites[0], at(0, 0, 0)));
    assert!(same(sites[1], at(1, 1, 0)));
    assert!(same(sites[2], at(1, 0, 1)));
    assert!(same(sites[3], at(0, 1, 1)));
    assert!(same(sites[4], at(2, 0, 0)));
    assert!(same(sites[5], at(3, 1, 0)));
    assert_eq!(sites.len(), 6);
    assert!(lattice.fill(&domain, fx(0), 9).is_none());
    // Sites outside the domain do not count.
    let narrow = Domain::Box { min: at(0, 0, 0), max: at(1, 1, 1) };
    assert!(lattice.fill(&narrow, fx(0), 4).is_some());
    assert!(lattice.fill(&narrow, fx(0), 5).is_none());
    let empty = Lattice { origin: at(0, 0, 0), spacing: fx(2), nx: 0, ny: 1, nz: -1 };
    assert!(empty.fill(&domain, fx(0), 1).is_none());
    assert_eq!(empty.fill(&domain, fx(0), 0).unwrap().len(), 0);
}

fn sim(positions: Vec<Vec3<Fixed>>, velocities: Vec<Vec3<Fixed>>) -> Simulation<Fixed> {
    let domain = Domain::Box { min: at(-100, -100, -100), max: at(100, 100, 100) };
    Simulation::new(SimulationParams { radius: fx(1), mass: fx(2), domain }, positions, velocities)
}

#[test]
fn energy_and_momentum_add_up() {
    let s = sim(vec![at(0, 0, 0), at(9, 0, 0)], vec![at(1, 2, 2), at(0, -3, 0)]);
    assert_eq!(s.kinetic_energy(), fx(18));
    assert!(same(s.momentum(), at(2, -2, 4)));
    assert_eq!(s.len(), 2);
    assert!(!s.is_empty());
    let s = sim(Vec::new(), Vec::new());
    assert_eq!(s.kinetic_energy(), fx(0));
    assert!(s.is_empty());
}

#[test]
fn steps_move_everything() {
    let mut s = sim(vec![at(0, 0, 0)], vec![at(1, 2, 3)]);
    s.add_body(RigidBody::new(at(50, 0, 0), at(0, 1, 0), fx(2), fx(10)));
    s.step(fx(2));
    assert!(same(s.positions[0], at(2, 4, 6)));
    assert!(same(s.bodies[0].pos, at(50, 2, 0)));
    assert!(same(s.velocities[0], at(1, 2, 3)));
}

#[test]
fn steps_let_particles_collide() {
    let mut s = sim(vec![at(0, 0, 0), at(5, 0, 0)], vec![at(2, 0, 0), at(-2, 0, 0)]);
    s.step(fx(1));
    // They met at a distance of one and were pushed to a distance of two.
    assert!(same(s.velocities[0], at(-2, 0, 0)));
    assert!(same(s.velocities[1], at(2, 0, 0)));
    assert_eq!(s.positions[1].x.sub(s.positions[0].x), fx(2));
    assert_eq!(s.kinetic_energy(), fx(8));
}

#[test]
fn steps_let_particles_hit_bodies() {
    let mut s = sim(vec![at(5, 0, 0)], vec![at(-2, 0, 0)]);
    s.add_body(RigidBody::new(at(0, 0, 0), at(0, 0, 0), fx(3), fx(2)));
    s.step(fx(1));
    // Equal masses exchange velocities, and share the overlap of one.
    assert!(same(s.velocities[0], at(0, 0, 0)));
    assert!(same(s.bodies[0].vel, at(-2, 0, 0)));
    assert_eq!(s.positions[0].x.sub(s.bodies[0].pos.x), fx(4));
}

#[test]
fn steps_turn_particles_at_the_walls() {
    let mut s = sim(vec![at(98, 0, 0)], vec![at(3, 0, 0)]);
    s.step(fx(1));
    assert!(same(s.positions[0], at(97, 0, 0)));
    assert!(same(s.velocities[0], at(-3, 0, 0)));
}

#[test]
fn three_in_a_row_are_resolved_in_order() {
    // The first pair is resolved before the second, from the state that the first one left.
    let mut s = sim(
        vec![at(0, 0, 0), Vec3 { x: quarters(6), y: fx(0), z: fx(0) }, at(3, 0, 0)],
        vec![at(4, 0, 0), at(0, 0, 0), at(0, 0, 0)],
    );
    s.resolve_pairs();
    assert!(same(s.velocities[0], at(0, 0, 0)));
    assert!(same(s.velocities[1], at(0, 0, 0)));
    assert!(same(s.velocities[2], at(4, 0, 0)));
}

/// A cannon along `x`: bore of radius two, outer radius four, ten long.
fn cannon() -> Cannon<Fixed> {
    Cannon::new(at(0, 0, 0), at(1, 0, 0), fx(10), fx(2), fx(4), fx(4), fx(8))
}

fn met(c: &Cannon<Fixed>, p: Vec3<Fixed>, v: Vec3<Fixed>) -> (Vec3<Fixed>, Vec3<Fixed>) {
    let (mut pos, mut vel) = (p, v);
    resolve_particle_against_cannon(&mut pos, &mut vel, fx(1), c);
    (pos, vel)
}

#[test]
fn pistons_push_particles_ahead() {
    let mut c = cannon();
    c.piston_offset = fx(2);
    c.piston_vel = fx(3);
    // A particle at rest that the piston has overtaken leaves at twice the piston's velocity.
    let (p, v) = met(&c, at(1, 0, 0), at(0, 0, 0));
    assert!(same(p, at(3, 0, 0)));
    assert_eq!(v.x, c.piston_vel.add(c.piston_vel));
    // One that is faster than the piston keeps its velocity.
    let (p, v) = met(&c, at(1, 0, 0), at(9, 0, 0));
    assert!(same(p, at(3, 0, 0)) && same(v, at(9, 0, 0)));
    // One in front of the piston is left alone.
    let (p, v) = met(&c, at(5, 0, 0), at(-9, 0, 0));
    assert!(same(p, at(5, 0, 0)) && same(v, at(-9, 0, 0)));
}

#[test]
fn resting_pistons_are_walls() {
    let (p, v) = met(&cannon(), Vec3 { x: quarters(2), y: fx(0), z: fx(0) }, at(-3, 1, 0));
    assert!(same(p, at(1, 0, 0)) && same(v, at(3, 1, 0)));
}

#[test]
fn lips_turn_particles_back() {
    // In front of the muzzle, between bore and outer surface.
    let from = Vec3 { x: quarters(42), y: fx(3), z: fx(0) };
    let (p, v) = met(&cannon(), from, at(-1, 0, 2));
    assert!(same(p, at(11, 3, 0)) && same(v, at(1, 0, 2)));
    // Moving away already: only pushed out.
    let (p, v) = met(&cannon(), from, at(1, 0, 2));
    assert!(same(p, at(11, 3, 0)) && same(v, at(1, 0, 2)));
}

#[test]
fn back_faces_turn_particles_back() {
    let from = Vec3 { x: quarters(-2), y: fx(3), z: fx(0) };
    let (p, v) = met(&cannon(), from, at(2, 0, 0));
    assert!(same(p, at(-1, 3, 0)) && same(v, at(-2, 0, 0)));
}

#[test]
fn outer_walls_turn_particles_back() {
    let from = Vec3 { x: fx(5), y: quarters(18), z: fx(0) };
    let (p, v) = met(&cannon(), from, at(1, -2, 0));
    assert!(same(p, at(5, 5, 0)) && same(v, at(1, 2, 0)));
    // Far from the cannon nothing happens.
    let (p, v) = met(&cannon(), at(5, 9, 0), at(1, -2, 0));
    assert!(same(p, at(5, 9, 0)) && same(v, at(1, -2, 0)));
}

#[test]
fn steps_keep_the_numbers_of_things() {
    let mut s = sim(vec![at(0, 0, 0), at(1, 0, 0)], vec![at(1, 0, 0), at(0, 0, 0)]);
    s.add_body(RigidBody::new(at(5, 0, 0), at(0, 0, 0), fx(3), fx(7)));
    s.add_cannon(cannon());
    s.step(fx(1));
    assert_eq!(s.positions.len(), 2);
    assert_eq!(s.velocities.len(), 2);
    assert_eq!(s.bodies.len(), 1);
    assert_eq!(s.bodies[0].mass, fx(7));
    assert_eq!(s.cannons[0].elapsed, fx(1));
    assert_eq!(s.params.radius, fx(1));
}

#[test]
fn cube_roots_round_toward_zero() {
    assert_eq!(fx(27).cbrt(), fx(3));
    assert_eq!(fx(-8).cbrt(), fx(-2));
    assert_eq!(Fixed { raw: 1 << 29 }.cbrt(), quarters(2));
    assert_eq!(fx(2).cbrt(), Fixed { raw: 0x1_428A_2F98 });
    assert_eq!(fx(0).cbrt(), fx(0));
}

#[test]
fn filling_in_fixed_point_is_the_same_everywhere() {
    let domain = Domain::Box { min: at(0, 0, 0), max: at(20, 20, 20) };
    let params = SimulationParams { radius: fx(1), mass: fx(1), domain };
    let (p, v) = init_random_uniform_speed(30, params, fx(1), 77).unwrap();
    let (q, w) = init_random_uniform_speed(30, params, fx(1), 77).unwrap();
    let (other, _) = init_random_uniform_speed(30, params, fx(1), 78).unwrap();
    assert_eq!(p.len(), 30);
    assert_eq!(v.len(), 30);
    assert!((0..30).all(|i| same(p[i], q[i]) && same(v[i], w[i])));
    // Another seed gives other numbers.
    assert!((0..30).any(|i| !same(p[i], other[i])));
    for i in 0..30 {
        for j in i + 1..30 {
            assert!(fx(4).le(p[j].sub(p[i]).length_squared()));
        }
    }
    // The numbers drawn differ from each other.
    assert!(!same(v[0], v[1]));
    // Each of them has the speed.
    assert!(v.iter().all(|v| close(v.length(), fx(1))));
}

/// Whether two numbers differ by less than `2^-24`.
fn close(a: Fixed, b: Fixed) -> bool {
    a.sub(b).abs().lt(Fixed { raw: 1 << 8 })
}

#[test]
fn cosines_and_sines_follow_the_circle() {
    assert_eq!(fx(0).cos(), fx(1));
    assert_eq!(fx(0).sin(), fx(0));
    let pi = Fixed::from_decimal(31_415_926_535_897_932, 16);
    assert!(close(pi.cos(), fx(-1)));
    assert!(close(pi.sin(), fx(0)));
    let half = pi.div(fx(2));
    assert!(close(half.cos(), fx(0)));
    assert!(close(half.sin(), fx(1)));
    let turn = pi.mul(fx(2));
    assert!(close(turn.cos(), fx(1)));
    assert!(close(turn.sin(), fx(0)));
    // A sixth of a half turn.
    assert!(close(pi.div(fx(6)).sin(), quarters(2)));
    // Rounding takes neither of them beyond one.
    for i in 0..2000 {
        let angle = Fixed { raw: i << 24 };
        assert!(angle.cos().abs().le(fx(1)));
        assert!(angle.sin().abs().le(fx(1)));
    }
}

#[test]
fn pistons_swing_in_fixed_point() {
    let mut c = cannon();
    c.advance(fx(2));
    assert!(close(c.piston_offset, fx(2)));
    c.advance(fx(2));
    assert!(close(c.piston_offset, fx(4)));
    c.advance(fx(4));
    assert_eq!(c.piston_offset, fx(0));
    assert_eq!(c.piston_vel, fx(0));
}

#[test]
fn particles_behind_a_cannon_are_left_alone() {
    let c = Cannon::new(at(0, 0, 0), at(1, 0, 0), fx(10), fx(2), fx(4), fx(2), fx(1));
    let (mut pos, mut vel) = (at(-5, 0, 0), at(1, 0, 0));
    resolve_particle_against_cannon(&mut pos, &mut vel, quarters(2), &c);
    assert!(same(pos, at(-5, 0, 0)) && same(vel, at(1, 0, 0)));
    // One that still reaches into the bore is pushed in front of the piston.
    let (mut pos, mut vel) = (Vec3 { x: quarters(-1), y: fx(0), z: fx(0) }, at(-1, 0, 0));
    resolve_particle_against_cannon(&mut pos, &mut vel, quarters(2), &c);
    assert!(same(pos, Vec3 { x: quarters(2), y: fx(0), z: fx(0) }) && same(vel, at(1, 0, 0)));
}

#[test]
fn domains_smaller_than_a_particle_hold_nothing() {
    let thin = Domain::Box { min: at(0, 0, 0), max: at(1, 1, 4) };
    assert_eq!(thin.particle_volume(fx(1)), fx(0));
    let ball = Domain::Sphere { center: at(0, 0, 0), radius: fx(1) };
    assert!(!ball.contains_center(at(0, 0, 0), fx(2)));
    assert!(ball.contains_center(at(0, 0, 0), fx(1)));
}

#[test]
fn rebuilding_forgets_what_was_held() {
    let points = vec![at(0, 0, 0), at(1, 0, 0), at(0, 1, 5)];
    let mut fresh = HashGrid::new(fx(1));
    fresh.rebuild(&points);
    let mut used = HashGrid::new(fx(1));
    let many: Vec<Vec3<Fixed>> = (0..100).map(|i| at(i, -i, 0)).collect();
    used.rebuild(&many);
    used.rebuild(&points);
    used.rebuild(&points);
    for p in [at(0, 0, 0), at(50, -50, 0), at(0, 1, 4)] {
        assert_eq!(fresh.for_each_neighbor(p), used.for_each_neighbor(p));
    }
}

#[test]
fn collisions_in_fixed_point_keep_momentum_to_the_bit() {
    // A crooked direction, so that the normal is rounded.
    let mut s = sim(
        vec![at(0, 0, 0), Vec3 { x: quarters(3), y: quarters(1), z: quarters(2) }],
        vec![at(3, 1, -2), at(-1, 4, 1)],
    );
    s.resolve_pairs();
    assert_eq!(s.velocities[0].x.add(s.velocities[1].x), fx(2));
    assert_eq!(s.velocities[0].y.add(s.velocities[1].y), fx(5));
    assert_eq!(s.velocities[0].z.add(s.velocities[1].z), fx(-1));
    assert_eq!(s.positions[0].x.add(s.positions[1].x), quarters(3));
    assert!(!same(s.velocities[0], at(3, 1, -2)));
}

#[test]
fn speed_relative_to_an_immovable_body_is_kept() {
    let wall = RigidBody::new(at(0, 0, 0), at(1, 0, 0), fx(1), fx(0));
    let strike = Strike { pos: at(1, 0, 0), vel: at(-3, 2, 0), body: wall };
    let after = strike.collide(fx(2), fx(1));
    // Four towards the body, then four away from it.
    assert!(same(after.vel, at(5, 2, 0)) && same(after.body.vel, at(1, 0, 0)));
}

#[test]
fn larger_cells_yield_all_close_particles() {
    // Cells of three, and a radius of search that is no larger.
    let points: Vec<Vec3<Fixed>> = (-9..10).map(|i| at(i, 2 * i, -i)).collect();
    let mut grid = HashGrid::new(fx(3));
    grid.rebuild(&points);
    for p in &points {
        let found = grid.for_each_neighbor(*p);
        for (j, q) in points.iter().enumerate() {
            if q.sub(*p).length_squared().lt(fx(9)) {
                assert!(found.contains(&j));
            }
        }
    }
}

#[test]
fn pistons_never_leave_their_stroke() {
    let mut c = cannon();
    let mut moved = false;
    for _ in 0..100 {
        c.advance(Fixed { raw: 1 << 28 });
        assert!(fx(0).le(c.piston_offset) && c.piston_offset.le(c.piston_stroke));
        moved = moved || fx(3).lt(c.piston_offset);
    }
    assert!(moved);
    // At rest it stays so.
    c.advance(fx(100));
    c.advance(fx(0));
    assert_eq!(c.piston_offset, fx(0));
    assert_eq!(c.piston_vel, fx(0));
}

#[test]
fn space_decides_whether_a_filling_is_finished() {
    let domain = Domain::Box { min: at(0, 0, 0), max: at(9, 9, 9) };
    let params = SimulationParams { radius: fx(1), mass: fx(1), domain };
    for seed in 0..20 {
        assert!(init_random_uniform_speed(12, params, fx(2), seed).is_some());
        assert!(init_random_uniform_speed(4000, params, fx(2), seed).is_none());
    }
}

#[test]
fn steps_do_nothing_to_cannons_but_advance_them() {
    let mut s = sim(vec![at(2, 0, 0)], vec![at(-1, 0, 0)]);
    s.add_cannon(cannon());
    s.step(fx(1));
    let mut c = cannon();
    c.advance(fx(1));
    assert!(same(s.cannons[0].origin, c.origin) && same(s.cannons[0].axis, c.axis));
    assert_eq!(s.cannons[0].piston_offset, c.piston_offset);
    assert_eq!(s.cannons[0].piston_vel, c.piston_vel);
    assert_eq!(s.cannons[0].elapsed, c.elapsed);
    assert_eq!(s.cannons[0].length, c.length);
}
