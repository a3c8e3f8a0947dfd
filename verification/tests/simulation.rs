//! Runs of whole simulations in single precision.

use physics_core::cannon::resolve_particle_against_cannon;
use physics_core::contacts::find_contacts;
use physics_core::grid::HashGrid;
use physics_core::report::read;
use physics_core::setup::{
    init_random_uniform_speed, random_unit_vec3, remove_drift, Initializer, Request,
};
use physics_core::{
    Angle, Cannon, Domain, Number, RigidBody, Sampler, Scalar, Simulation, SimulationParams, Vec3,
};
use rand::Rng;
use rand_xoshiro::rand_core::SeedableRng;
use rand_xoshiro::Xoshiro256PlusPlus;

/// A single-precision number.
#[derive(Clone, Copy, Debug, PartialEq)]
struct F(f32);

impl Number for F {
    fn sum(self, other: Self) -> Self {
        F(self.0 + other.0)
    }
    fn difference(self, other: Self) -> Self {
        F(self.0 - other.0)
    }
    fn product(self, other: Self) -> Self {
        F(self.0 * other.0)
    }
    fn quotient(self, other: Self) -> Self {
        F(self.0 / other.0)
    }
    fn negation(self) -> Self {
        F(-self.0)
    }
    fn square_root(self) -> Self {
        F(self.0.sqrt())
    }
    fn magnitude(self) -> Self {
        F(self.0.abs())
    }
    fn minimum(self, other: Self) -> Self {
        F(self.0.min(other.0))
    }
    fn maximum(self, other: Self) -> Self {
        F(self.0.max(other.0))
    }
    fn less(self, other: Self) -> bool {
        self.0 < other.0
    }
    fn at_most(self, other: Self) -> bool {
        self.0 <= other.0
    }
    fn equal(self, other: Self) -> bool {
        self.0 == other.0
    }
    fn finite(self) -> bool {
        self.0.is_finite()
    }
    fn floored(self) -> i32 {
        self.0.floor() as i32
    }
    fn whole(n: u64) -> Self {
        F(n as f32)
    }
    fn decimal(digits: i64, places: u32) -> Self {
        F(format!("{}e-{}", digits, places).parse().unwrap())
    }
}

impl Scalar for F {
    fn add(self, other: Self) -> Self {
        self.sum(other)
    }
    fn sub(self, other: Self) -> Self {
        self.difference(other)
    }
    fn mul(self, other: Self) -> Self {
        self.product(other)
    }
    fn div(self, other: Self) -> Self {
        self.quotient(other)
    }
    fn neg(self) -> Self {
        self.negation()
    }
    fn sqrt(self) -> Self {
        self.square_root()
    }
    fn abs(self) -> Self {
        self.magnitude()
    }
    fn min(self, other: Self) -> Self {
        self.minimum(other)
    }
    fn max(self, other: Self) -> Self {
        self.maximum(other)
    }
    fn lt(self, other: Self) -> bool {
        self.less(other)
    }
    fn le(self, other: Self) -> bool {
        self.at_most(other)
    }
    fn eq(self, other: Self) -> bool {
        self.equal(other)
    }
    fn is_finite(self) -> bool {
        self.finite()
    }
    fn floor(self) -> i32 {
        self.floored()
    }
    fn from_u64(n: u64) -> Self {
        Self::whole(n)
    }
    fn from_decimal(digits: i64, places: u32) -> Self {
        Self::decimal(digits, places)
    }
}

impl Angle for F {
    fn cosine(self) -> Self {
        F(self.0.cos())
    }
    fn sine(self) -> Self {
        F(self.0.sin())
    }
    fn cos(self) -> Self {
        self.cosine()
    }
    fn sin(self) -> Self {
        self.sine()
    }
}

impl Sampler for F {
    fn cube_root(self) -> Self {
        F(self.0.cbrt())
    }
    fn draw(
        rng: Xoshiro256PlusPlus,
        low: Self,
        high: Self,
    ) -> (Self, Xoshiro256PlusPlus) {
        let mut after = rng;
        let value = F(after.gen_range(low.0..high.0));
        (value, after)
    }
    fn cbrt(self) -> Self {
        self.cube_root()
    }
    fn uniform(rng: &mut Xoshiro256PlusPlus, low: Self, high: Self) -> Self {
        F(rng.gen_range(low.0..high.0))
    }
}

fn v3(x: f32, y: f32, z: f32) -> Vec3<F> {
    Vec3 { x: F(x), y: F(y), z: F(z) }
}

fn splat(s: f32) -> Vec3<F> {
    v3(s, s, s)
}

fn boxed(min: f32, max: f32) -> Domain<F> {
    Domain::Box { min: splat(min), max: splat(max) }
}

fn params(radius: f32, mass: f32, domain: Domain<F>) -> SimulationParams<F> {
    SimulationParams { radius: F(radius), mass: F(mass), domain }
}

fn default_params() -> SimulationParams<F> {
    params(0.05, 1.0, boxed(0.0, 2.0))
}

#[test]
fn wall_only_conserves_energy_and_momentum() {
    // No pair collisions: spread them out far enough that they won't interact.
    let params = SimulationParams { radius: F(0.01), ..default_params() };
    let (positions, velocities) = init_random_uniform_speed(8, params, F(1.0), 42).unwrap();
    let mut sim = Simulation::new(params, positions, velocities);
    let e0 = sim.kinetic_energy().0;
    let p0 = sim.momentum().length().0;
    for _ in 0..2000 {
        sim.step(F(0.005));
    }
    let e1 = sim.kinetic_energy().0;
    let p1 = sim.momentum().length().0;
    assert!((e1 - e0).abs() / e0 < 1e-4, "energy drift: {} -> {}", e0, e1);
    // Wall reflections flip individual components, so total momentum is NOT conserved
    // (the box exerts external forces). Just check the magnitude stays bounded.
    assert!(p1 <= p0.max(1.0) * 10.0);
}

#[test]
fn pair_collisions_conserve_energy_and_momentum() {
    // Use a very large box so walls don't interfere.
    let wide = params(0.05, 1.0, boxed(-100.0, 100.0));
    // Place particles in a tight cluster so they actually collide.
    let small_params = SimulationParams { domain: boxed(-0.5, 0.5), ..wide };
    let (positions, velocities) = init_random_uniform_speed(20, small_params, F(1.0), 7).unwrap();
    let mut sim = Simulation::new(wide, positions, velocities);
    let e0 = sim.kinetic_energy().0;
    let p0 = sim.momentum();
    for _ in 0..2000 {
        sim.step(F(0.005));
    }
    let e1 = sim.kinetic_energy().0;
    let p1 = sim.momentum();
    assert!(
        (e1 - e0).abs() / e0 < 1e-3,
        "energy not conserved across pair collisions: {} -> {}",
        e0,
        e1
    );
    assert!(
        p1.sub(p0).length().0 < 1e-3,
        "momentum not conserved across pair collisions: {:?} -> {:?}",
        p0,
        p1
    );
}

#[test]
fn body_particle_collision_conserves_energy_and_momentum() {
    // Body and particles share a large box (walls won't interfere over the test interval).
    let wide = params(0.05, 1.0, boxed(-50.0, 50.0));
    let small_params = SimulationParams { domain: boxed(-0.5, 0.5), ..wide };
    let (positions, velocities) = init_random_uniform_speed(20, small_params, F(1.0), 9).unwrap();
    let mut sim = Simulation::new(wide, positions, velocities);
    // Heavy-but-finite body so it actually exchanges energy with the particles.
    sim.add_body(RigidBody::new(v3(2.0, 0.0, 0.0), v3(-1.5, 0.0, 0.0), F(0.3), F(50.0)));

    let total_energy = |s: &Simulation<F>| {
        let part = s.kinetic_energy().0;
        let body: f32 =
            s.bodies.iter().map(|b| 0.5 * b.mass.0 * b.vel.length_squared().0).sum();
        part + body
    };
    let total_momentum = |s: &Simulation<F>| {
        let mut sum = s.momentum();
        for b in &s.bodies {
            sum = sum.add(b.vel.scale(b.mass));
        }
        sum
    };

    let e0 = total_energy(&sim);
    let p0 = total_momentum(&sim);
    for _ in 0..2000 {
        sim.step(F(0.005));
    }
    let e1 = total_energy(&sim);
    let p1 = total_momentum(&sim);
    assert!(
        (e1 - e0).abs() / e0 < 1e-2,
        "energy not conserved with body: {} -> {}",
        e0,
        e1,
    );
    assert!(
        p1.sub(p0).length().0 < 1e-2,
        "momentum not conserved with body: {:?} -> {:?}",
        p0,
        p1,
    );
}

#[test]
fn sphere_walls_conserve_energy_and_keep_particles_inside() {
    let params =
        params(0.02, 1.0, Domain::Sphere { center: splat(1.0), radius: F(1.0) });
    let (positions, velocities) = init_random_uniform_speed(50, params, F(1.0), 11).unwrap();
    let mut sim = Simulation::new(params, positions, velocities);
    let e0 = sim.kinetic_energy().0;
    for _ in 0..2000 {
        sim.step(F(0.005));
    }
    let e1 = sim.kinetic_energy().0;
    assert!((e1 - e0).abs() / e0 < 1e-3, "energy drift: {} -> {}", e0, e1);
    // No particle should have leaked out (allowing a small numerical slack).
    for p in &sim.positions {
        let d = p.sub(splat(1.0)).length().0;
        assert!(d <= 1.0 - 0.02 + 1e-4, "particle at distance {} from center", d);
    }
}

#[test]
fn head_on_equal_mass_swaps_velocities() {
    // Two particles on the x-axis moving toward each other; they should swap velocities.
    let params = params(0.1, 1.0, boxed(-10.0, 10.0));
    let positions = vec![v3(-0.15, 0.0, 0.0), v3(0.15, 0.0, 0.0)];
    let velocities = vec![v3(1.0, 0.0, 0.0), v3(-1.0, 0.0, 0.0)];
    let mut sim = Simulation::new(params, positions, velocities);
    // Many small steps so the moment of contact falls inside a step rather than on a boundary.
    for _ in 0..100 {
        sim.step(F(0.005));
    }
    // After collision, velocities should have swapped (equal mass head-on).
    assert!(
        sim.velocities[0].x.0 < 0.0,
        "left particle should bounce back, got {:?}",
        sim.velocities[0]
    );
    assert!(
        sim.velocities[1].x.0 > 0.0,
        "right particle should bounce back, got {:?}",
        sim.velocities[1]
    );
    // Total kinetic energy unchanged.
    let ke = sim.kinetic_energy().0;
    assert!((ke - 1.0).abs() < 1e-5, "energy not preserved: {}", ke);
}

#[test]
fn filling_places_particles_without_overlap() {
    let params = default_params();
    let (positions, velocities) = init_random_uniform_speed(300, params, F(2.0), 5).unwrap();
    assert_eq!(positions.len(), 300);
    assert_eq!(velocities.len(), 300);
    for i in 0..positions.len() {
        for j in i + 1..positions.len() {
            let d = positions[j].sub(positions[i]).length().0;
            assert!(d >= 0.1 - 1e-5, "particles {} and {} are {} apart", i, j, d);
        }
    }
}

#[test]
fn filling_gives_every_particle_the_speed() {
    for (n, speed) in [(1, 3.0), (2, 0.5), (64, 1.0)] {
        let (_, velocities) = init_random_uniform_speed(n, default_params(), F(speed), 3).unwrap();
        assert_eq!(velocities.len(), n);
        for v in &velocities {
            assert!((v.length().0 - speed).abs() < 1e-5 * speed);
        }
    }
    // Nothing moves without a speed.
    let (_, velocities) = init_random_uniform_speed(8, default_params(), F(0.0), 3).unwrap();
    assert!(velocities.iter().all(|v| v.length().0 == 0.0));
}

#[test]
fn filling_depends_on_the_seed_alone() {
    let (p1, v1) = init_random_uniform_speed(10, default_params(), F(1.0), 21).unwrap();
    let (p2, v2) = init_random_uniform_speed(10, default_params(), F(1.0), 21).unwrap();
    let (p3, _) = init_random_uniform_speed(10, default_params(), F(1.0), 22).unwrap();
    for i in 0..10 {
        assert_eq!(p1[i].x, p2[i].x);
        assert_eq!(v1[i].z, v2[i].z);
    }
    assert!((0..10).any(|i| p1[i].x != p3[i].x));
}

#[test]
fn filling_fails_where_there_is_no_space() {
    // The box is too small for one particle.
    assert!(init_random_uniform_speed(1, params(0.5, 1.0, boxed(0.0, 1.0)), F(1.0), 1).is_none());
    // The box is too small for so many.
    assert!(init_random_uniform_speed(1000, params(0.3, 1.0, boxed(0.0, 2.0)), F(1.0), 1).is_none());
    // The sphere has no inside.
    let ball = Domain::Sphere { center: splat(0.0), radius: F(0.1) };
    assert!(init_random_uniform_speed(1, params(0.2, 1.0, ball), F(1.0), 1).is_none());
}

#[test]
fn filling_with_nothing_is_empty() {
    let (positions, velocities) = init_random_uniform_speed(0, default_params(), F(1.0), 1).unwrap();
    assert!(positions.is_empty());
    assert!(velocities.is_empty());
    // Even nothing does not fit where there is no inside.
    assert!(init_random_uniform_speed(0, params(0.5, 1.0, boxed(0.0, 1.0)), F(1.0), 1).is_none());
}

#[test]
fn filling_asks_in_order() {
    let mut init = Initializer::new(1, default_params(), F(3.0));
    // The first spacing is the cube root of four times the volume per particle.
    let cube = match init.request() {
        Request::CubeRoot(x) => x.0,
        _ => panic!("a cube root is needed first"),
    };
    let side: f32 = (2.0 - 0.0) - 2.0 * 0.05;
    assert_eq!(cube, 4.0 * (side * side * side) / 1.0);
    init.answer(F(1.0));
    assert!(matches!(init.request(), Request::Lattice));
    init.lay();
    // One particle in the lowest corner, to be moved by less than the jitter allows.
    let reach = ((1.0f32 / std::f32::consts::SQRT_2 - 2.0 * 0.05) / (2.0 * 3f32.sqrt())) * 0.9;
    match init.request() {
        Request::Uniform { low, high } => {
            assert_eq!(low.0, -reach);
            assert_eq!(high.0, reach);
        }
        _ => panic!("a jitter is needed next"),
    }
    init.answer(F(0.01));
    init.answer(F(0.02));
    init.answer(F(0.03));
    match init.request() {
        Request::Uniform { low, high } => {
            assert_eq!(low.0, -1.0);
            assert_eq!(high.0, 1.0);
        }
        _ => panic!("a direction is needed next"),
    }
    // Too long for a direction: drawn again.
    init.answer(F(1.0));
    init.answer(F(1.0));
    init.answer(F(1.0));
    assert!(matches!(init.request(), Request::Uniform { .. }));
    init.answer(F(0.0));
    init.answer(F(0.5));
    init.answer(F(0.0));
    assert!(matches!(init.request(), Request::Ready));
    let (positions, velocities) = init.finish().unwrap();
    assert_eq!(positions.len(), 1);
    assert_eq!(positions[0].x.0, 0.05 + 0.01);
    assert_eq!(positions[0].y.0, 0.05 + 0.02);
    assert_eq!(positions[0].z.0, 0.05 + 0.03);
    assert_eq!(velocities[0].x.0, 0.0);
    assert_eq!(velocities[0].y.0, 3.0);
    assert_eq!(velocities[0].z.0, 0.0);
}

#[test]
fn jitter_leaves_no_particle_outside() {
    // A particle in the lowest corner that would be moved out of the box stays on its site.
    let mut init = Initializer::new(1, default_params(), F(1.0));
    init.answer(F(1.0));
    init.lay();
    init.answer(F(0.01));
    init.answer(F(0.02));
    init.answer(F(-0.03));
    init.answer(F(0.0));
    init.answer(F(0.5));
    init.answer(F(0.0));
    let (positions, _) = init.finish().unwrap();
    assert_eq!(positions[0].x.0, 0.05);
    assert_eq!(positions[0].y.0, 0.05);
    assert_eq!(positions[0].z.0, 0.05);
    for seed in 0..20 {
        let ball = params(0.02, 1.0, Domain::Sphere { center: splat(1.0), radius: F(1.0) });
        for p in [default_params(), ball] {
            let (positions, _) = init_random_uniform_speed(60, p, F(1.0), seed).unwrap();
            assert!(positions.iter().all(|c| p.domain.contains_center(*c, p.radius)));
        }
    }
}

#[test]
fn positions_depend_neither_on_mass_nor_on_speed() {
    let light = default_params();
    let heavy = SimulationParams { mass: F(9.0), ..light };
    let (p, v) = init_random_uniform_speed(20, light, F(1.0), 4).unwrap();
    let (q, w) = init_random_uniform_speed(20, heavy, F(1.0), 4).unwrap();
    let (r, _) = init_random_uniform_speed(20, heavy, F(5.0), 4).unwrap();
    for i in 0..20 {
        assert_eq!(p[i].x, q[i].x);
        assert_eq!(v[i].y, w[i].y);
        assert_eq!(p[i].z, r[i].z);
    }
}

#[test]
fn filling_shrinks_the_lattice() {
    // At a spacing of 1.5 only one cube fits, whose four sites are too few for five particles.
    let params = params(0.05, 1.0, boxed(0.0, 2.0));
    let mut init = Initializer::new(5, params, F(1.0));
    init.answer(F(1.5));
    let mut tries = 0;
    while matches!(init.request(), Request::Lattice) {
        init.try_lattice();
        tries += 1;
    }
    // The side of 1.9 holds two cubes once the spacing is at most 0.95.
    let mut a = 1.5f32;
    let mut expected = 1;
    while (1.9f32 / a).floor() < 2.0 {
        a *= 0.98;
        expected += 1;
    }
    assert_eq!(tries, expected);
    assert!(init.finish().is_none());
}

#[test]
fn filling_is_unfinished_until_ready() {
    let init = Initializer::new(2, default_params(), F(1.0));
    assert!(init.finish().is_none());
}

#[test]
fn directions_have_length_one() {
    let u = random_unit_vec3(F(0.3), F(-0.4), F(0.0)).unwrap();
    assert!((u.x.0 - 0.6).abs() < 1e-6);
    assert!((u.y.0 + 0.8).abs() < 1e-6);
    assert_eq!(u.z.0, 0.0);
    // On the unit sphere and inside it, but not outside, nor at its center.
    assert!(random_unit_vec3(F(1.0), F(0.0), F(0.0)).is_some());
    assert!(random_unit_vec3(F(1.0), F(0.1), F(0.0)).is_none());
    assert!(random_unit_vec3(F(0.0001), F(0.0), F(0.0)).is_none());
    assert!(random_unit_vec3(F(0.0), F(0.0), F(0.0)).is_none());
}

#[test]
fn drift_is_the_mean() {
    let mut velocities = vec![v3(1.0, 2.0, 0.0), v3(3.0, -2.0, 4.0)];
    remove_drift(&mut velocities);
    assert_eq!(velocities[0].x.0, -1.0);
    assert_eq!(velocities[0].y.0, 2.0);
    assert_eq!(velocities[0].z.0, -2.0);
    assert_eq!(velocities[1].x.0, 1.0);
    assert_eq!(velocities[1].y.0, -2.0);
    assert_eq!(velocities[1].z.0, 2.0);
}

#[test]
fn contacts_match_a_search_over_all_pairs() {
    let mut rng = Xoshiro256PlusPlus::seed_from_u64(17);
    let mut positions: Vec<Vec3<F>> = Vec::new();
    for _ in 0..400 {
        positions.push(v3(
            rng.gen_range(-1.0..1.0),
            rng.gen_range(-1.0..1.0),
            rng.gen_range(-1.0..1.0),
        ));
    }
    let min_dist = F(0.2);
    let reach = min_dist.mul(min_dist);
    let mut grid = HashGrid::new(min_dist);
    grid.rebuild(&positions);
    let found = find_contacts(&grid, &positions, reach);
    let mut expected: Vec<(usize, usize)> = Vec::new();
    for i in 0..positions.len() {
        for j in i + 1..positions.len() {
            let d = positions[j].sub(positions[i]).length_squared();
            if d.lt(reach) && F(0.0).lt(d) {
                expected.push((i, j));
            }
        }
    }
    assert!(expected.len() > 10);
    assert_eq!(found, expected);
}

#[test]
fn piston_follows_one_cycle_then_rests() {
    let mut cannon = Cannon::new(
        splat(0.0),
        v3(0.0, 0.0, 2.0),
        F(2.0),
        F(0.5),
        F(0.6),
        F(1.0),
        F(4.0),
    );
    assert_eq!(cannon.axis.z.0, 1.0);
    // A quarter of the cycle: half the stroke out, at peak velocity.
    cannon.advance(F(1.0));
    let phase = std::f32::consts::TAU * 1.0 / 4.0;
    assert_eq!(cannon.elapsed.0, 1.0);
    assert_eq!(cannon.piston_offset.0, 1.0 * (1.0 - phase.cos()) * 0.5);
    assert_eq!(cannon.piston_vel.0, 1.0 * std::f32::consts::PI / 4.0 * phase.sin());
    assert!((cannon.piston_offset.0 - 0.5).abs() < 1e-6);
    assert!((cannon.piston_vel.0 - std::f32::consts::FRAC_PI_4).abs() < 1e-6);
    // Half of the cycle: all the stroke out, at rest.
    cannon.advance(F(1.0));
    assert!((cannon.piston_offset.0 - 1.0).abs() < 1e-6);
    assert!(cannon.piston_vel.0.abs() < 1e-6);
    // After the cycle nothing moves any more.
    cannon.advance(F(2.0));
    assert_eq!(cannon.piston_offset.0, 0.0);
    assert_eq!(cannon.piston_vel.0, 0.0);
    cannon.advance(F(5.0));
    assert_eq!(cannon.piston_offset.0, 0.0);
    assert_eq!(cannon.elapsed.0, 9.0);
}

#[test]
fn piston_without_period_rests() {
    let mut cannon = Cannon::new(
        splat(0.0),
        v3(1.0, 0.0, 0.0),
        F(1.0),
        F(0.5),
        F(0.6),
        F(1.0),
        F(0.0),
    );
    cannon.advance(F(0.1));
    assert_eq!(cannon.piston_offset.0, 0.0);
    assert_eq!(cannon.piston_vel.0, 0.0);
}

#[test]
fn cannon_without_direction_has_no_axis() {
    let cannon =
        Cannon::new(splat(0.0), splat(0.0), F(1.0), F(0.5), F(0.6), F(1.0), F(1.0));
    assert_eq!(cannon.axis.length().0, 0.0);
}

#[test]
fn cannon_shoots_a_particle_out_of_the_bore() {
    let mut sim = Simulation::new(
        params(0.05, 1.0, boxed(-20.0, 20.0)),
        vec![v3(0.06, 0.0, 0.0)],
        vec![splat(0.0)],
    );
    sim.add_cannon(Cannon::new(
        splat(0.0),
        v3(1.0, 0.0, 0.0),
        F(2.0),
        F(0.5),
        F(0.6),
        F(1.0),
        F(1.0),
    ));
    for _ in 0..200 {
        sim.step(F(0.005));
    }
    // The piston's peak velocity is pi; an elastic hit gives up to twice that.
    assert!(sim.velocities[0].x.0 > 0.5);
    assert!(sim.velocities[0].x.0 <= 2.0 * std::f32::consts::PI + 1e-3);
    assert_eq!(sim.cannons[0].piston_offset.0, 0.0);
}

#[test]
fn bore_wall_turns_a_particle_back() {
    let cannon = Cannon::new(
        splat(0.0),
        v3(1.0, 0.0, 0.0),
        F(4.0),
        F(1.0),
        F(2.0),
        F(0.0),
        F(0.0),
    );
    let mut pos = v3(2.0, 0.95, 0.0);
    let mut vel = v3(0.5, 1.0, 0.0);
    resolve_particle_against_cannon(&mut pos, &mut vel, F(0.25), &cannon);
    assert!((pos.y.0 - 0.75).abs() < 1e-6);
    assert_eq!(pos.x.0, 2.0);
    assert_eq!(vel.y.0, -1.0);
    assert_eq!(vel.x.0, 0.5);
}

#[test]
fn readings_compare_with_the_start() {
    let sim = Simulation::new(
        default_params(),
        vec![splat(1.0), splat(0.5)],
        vec![v3(3.0, 0.0, 0.0), v3(0.0, 4.0, 0.0)],
    );
    let r = read(&sim, 7, F(10.0));
    assert_eq!(r.step, 7);
    assert_eq!(r.energy.0, 12.5);
    assert_eq!(r.drift.0, 0.25);
    assert_eq!(r.momentum.0, 5.0);
    assert_eq!(read(&sim, 7, F(0.0)).drift.0, 0.0);
}

#[test]
fn vectors_compute_what_glam_computes() {
    let mut rng = Xoshiro256PlusPlus::seed_from_u64(23);
    for _ in 0..200 {
        let a: [f32; 3] =
            [rng.gen_range(-9.0..9.0), rng.gen_range(-9.0..9.0), rng.gen_range(-9.0..9.0)];
        let b: [f32; 3] =
            [rng.gen_range(-9.0..9.0), rng.gen_range(-9.0..9.0), rng.gen_range(-9.0..9.0)];
        let s: f32 = rng.gen_range(0.1..9.0);
        let (p, q) = (v3(a[0], a[1], a[2]), v3(b[0], b[1], b[2]));
        let (g, h) = (glam::Vec3::from_array(a), glam::Vec3::from_array(b));
        let same = |v: Vec3<F>, w: glam::Vec3| v.x.0 == w.x && v.y.0 == w.y && v.z.0 == w.z;
        assert!(same(p.add(q), g + h));
        assert!(same(p.sub(q), g - h));
        assert!(same(p.scale(F(s)), g * s));
        assert!(same(p.div(F(s)), g / s));
        assert!(same(p.normalize_or_zero(), g.normalize_or_zero()));
        assert_eq!(p.dot(q).0, g.dot(h));
        assert_eq!(p.length().0, g.length());
        assert_eq!(p.length_squared().0, g.length_squared());
        assert_eq!(p.min_element().0, g.min_element());
    }
    assert!(splat(0.0).normalize_or_zero().x.0 == 0.0);
}
