//! How a simulation is filled at the start: particles on a lattice, shaken a little, each sent
//! off in a random direction.

use rand_xoshiro::Xoshiro256PlusPlus;
use vstd::prelude::*;

use crate::domain::{Domain, SimulationParams};
use crate::lattice::{kept_sites_are_inside, Lattice};
use crate::random::{generator, seeded, Sampler};
use crate::scalar::{sqrt_2, sqrt_2_value, Number, Scalar};
use crate::vector::{sum_of, total, Vec3};

verus! {

/// The smallest lattice spacing at which spheres of radius `r` do not overlap.
pub open spec fn least_spacing<S: Number>(r: S) -> S {
    S::whole(2).product(sqrt_2_value::<S>()).product(r)
}

/// How far each coordinate of a sphere of radius `r` may be moved from its site.
pub open spec fn jitter_reach<S: Number>(spacing: S, r: S) -> S {
    spacing.quotient(sqrt_2_value::<S>()).difference(S::whole(2).product(r)).quotient(
        S::whole(2).product(S::whole(3).square_root()),
    ).product(S::decimal(9, 1))
}

/// The direction of the vector `(x, y, z)`; `None` where it is too short to have one or does
/// not lie in the unit ball.
pub open spec fn direction<S: Number>(x: S, y: S, z: S) -> Option<Vec3<S>> {
    let len_sq = x.product(x).sum(y.product(y)).sum(z.product(z));
    if S::decimal(1, 8).less(len_sq) && len_sq.at_most(S::whole(1)) {
        let inv = S::whole(1).quotient(len_sq.square_root());
        Some(Vec3 { x: x.product(inv), y: y.product(inv), z: z.product(inv) })
    } else {
        None
    }
}

/// Whether `v` has the given speed, in a direction that three numbers give.
pub open spec fn sent_off<S: Number>(v: Vec3<S>, speed: S) -> bool {
    exists|x: S, y: S, z: S|
        (#[trigger] direction(x, y, z)) matches Some(unit) && v == unit.scaled(speed)
}

/// The velocities less their mean.
pub open spec fn without_drift<S: Number>(velocities: Seq<Vec3<S>>) -> Seq<Vec3<S>> {
    let drift = total(velocities).divided(S::whole(velocities.len() as u64));
    Seq::new(velocities.len(), |i: int| velocities[i].difference(drift))
}

/// The lattice that is laid into the domain at a given spacing.
pub open spec fn lattice_in<S: Number>(params: SimulationParams<S>, spacing: S) -> Lattice<S> {
    let (lo, hi) = params.domain.center_corners(params.radius);
    let usable = hi.difference(lo);
    Lattice {
        origin: lo,
        spacing,
        nx: usable.x.quotient(spacing).floored(),
        ny: usable.y.quotient(spacing).floored(),
        nz: usable.z.quotient(spacing).floored(),
    }
}

/// A particle of radius `r` moved by `by` from its site; one that would leave the domain stays on
/// its site.
pub open spec fn jittered<S: Number>(
    domain: Domain<S>,
    r: S,
    site: Vec3<S>,
    by: Vec3<S>,
) -> Vec3<S> {
    if domain.holds_center(site.sum(by), r) {
        site.sum(by)
    } else {
        site
    }
}

/// How far the filling has come.
#[verifier::ext_equal]
pub enum Phase<S> {
    /// The particles do not fit.
    Impossible,
    /// The first spacing is the cube root of `cube`, which is awaited.
    Rooting { cube: S },
    /// A lattice is about to be tried.
    Laying { spacing: S },
    /// The first `moved` particles have been moved from their sites by up to `reach` along each
    /// axis, if that keeps them in the domain; `drawn` holds what has been drawn for the next one.
    Jitter { positions: Seq<Vec3<S>>, reach: S, moved: nat, drawn: Seq<S> },
    /// The first particles have been sent off; `drawn` holds what has been drawn for the next
    /// direction.
    Aiming { positions: Seq<Vec3<S>>, velocities: Seq<Vec3<S>>, drawn: Seq<S> },
    /// All particles are placed and moving.
    Ready { positions: Seq<Vec3<S>>, velocities: Seq<Vec3<S>> },
}

/// The filling of a simulation as a value: `n` particles, sent off at `speed`.
#[verifier::ext_equal]
pub struct Filling<S> {
    pub n: nat,
    pub params: SimulationParams<S>,
    pub speed: S,
    pub phase: Phase<S>,
}

/// What a filling waits for.
#[derive(Clone, Copy, Debug)]
pub enum Request<S> {
    /// Nothing: the particles do not fit.
    Impossible,
    /// The cube root of a number.
    CubeRoot(S),
    /// [`Initializer::lay`].
    Lattice,
    /// A random number from `low` on and below `high`.
    Uniform { low: S, high: S },
    /// Nothing: the particles are placed and moving.
    Ready,
}

impl<S: Number> Filling<S> {
    /// Whether all of `positions` lie inside the domain.
    pub open spec fn holds_all(self, positions: Seq<Vec3<S>>) -> bool {
        forall|i: int|
            0 <= i < positions.len() ==> self.params.domain.holds_center(
                #[trigger] positions[i],
                self.params.radius,
            )
    }

    /// Whether all of `velocities` have the speed.
    pub open spec fn all_sent_off(self, velocities: Seq<Vec3<S>>) -> bool {
        forall|i: int|
            0 <= i < velocities.len() ==> sent_off(#[trigger] velocities[i], self.speed)
    }

    /// Every placed particle lies inside the domain, every particle that has been sent off has
    /// the speed, and each phase holds as many numbers as it has come to.
    pub open spec fn wf(self) -> bool {
        match self.phase {
            Phase::Impossible => true,
            Phase::Rooting { .. } => 0 < self.n,
            Phase::Laying { .. } => 0 < self.n,
            Phase::Jitter { positions, moved, drawn, .. } => {
                &&& positions.len() == self.n
                &&& self.holds_all(positions)
                &&& moved < self.n
                &&& drawn.len() < 3
            },
            Phase::Aiming { positions, velocities, drawn } => {
                &&& positions.len() == self.n
                &&& self.holds_all(positions)
                &&& self.all_sent_off(velocities)
                &&& velocities.len() < self.n
                &&& drawn.len() < 3
            },
            Phase::Ready { positions, velocities } => {
                &&& positions.len() == self.n
                &&& self.holds_all(positions)
                &&& self.all_sent_off(velocities)
                &&& velocities.len() == self.n
            },
        }
    }

    /// The start of filling a simulation.
    pub open spec fn begun(n: nat, params: SimulationParams<S>, speed: S) -> Self {
        let (lo, hi) = params.domain.center_corners(params.radius);
        let volume = params.domain.center_volume(params.radius);
        let phase = if hi.difference(lo).least().at_most(S::whole(0)) {
            Phase::Impossible
        } else if n == 0 {
            Phase::Ready { positions: Seq::empty(), velocities: Seq::empty() }
        } else if volume.at_most(S::whole(0)) {
            Phase::Impossible
        } else {
            Phase::Rooting { cube: S::whole(4).product(volume).quotient(S::whole(n as u64)) }
        };
        Filling { n, params, speed, phase }
    }

    /// The particles on their sites, with the lattice at the given spacing.
    pub open spec fn placed(self, positions: Seq<Vec3<S>>, spacing: S) -> Self {
        let reach = jitter_reach(spacing, self.params.radius);
        let phase = if S::whole(0).less(reach) {
            Phase::Jitter { positions, reach, moved: 0, drawn: Seq::empty() }
        } else {
            Phase::Aiming { positions, velocities: Seq::empty(), drawn: Seq::empty() }
        };
        Filling { phase, ..self }
    }

    /// What is waited for.
    pub open spec fn request(self) -> Request<S> {
        match self.phase {
            Phase::Impossible => Request::Impossible,
            Phase::Rooting { cube } => Request::CubeRoot(cube),
            Phase::Laying { .. } => Request::Lattice,
            Phase::Jitter { reach, .. } => Request::Uniform { low: reach.negation(), high: reach },
            Phase::Aiming { .. } => Request::Uniform {
                low: S::whole(1).negation(),
                high: S::whole(1),
            },
            Phase::Ready { .. } => Request::Ready,
        }
    }

    /// A lattice tried: the particles are on its sites where it has enough of them in the
    /// domain, else a spacing two percent smaller is next. Nothing fits once the spacing is below
    /// the least one.
    pub open spec fn laid(self) -> Self {
        match self.phase {
            Phase::Laying { spacing } => {
                if spacing.less(least_spacing(self.params.radius)) {
                    Filling { phase: Phase::Impossible, ..self }
                } else {
                    match lattice_in(self.params, spacing).filled(
                        self.params.domain,
                        self.params.radius,
                        self.n,
                    ) {
                        Some(positions) => self.placed(positions, spacing),
                        None => Filling {
                            phase: Phase::Laying { spacing: spacing.product(S::decimal(98, 2)) },
                            ..self
                        },
                    }
                }
            },
            _ => self,
        }
    }

    /// Lattices tried, each with a smaller spacing than the one before, until one has enough
    /// sites or the spacing is too small, but at most `tries` times.
    pub open spec fn searched(self, tries: nat) -> Self
        decreases tries,
    {
        if tries == 0 || !(self.phase is Laying) {
            self
        } else {
            self.laid().searched((tries - 1) as nat)
        }
    }

    /// What was waited for has come.
    pub open spec fn answered(self, value: S) -> Self {
        let phase = match self.phase {
            Phase::Rooting { .. } => Phase::Laying { spacing: value },
            Phase::Jitter { positions, reach, moved, drawn } => {
                let drawn = drawn.push(value);
                if drawn.len() < 3 {
                    Phase::Jitter { positions, reach, moved, drawn }
                } else {
                    let by = Vec3 { x: drawn[0], y: drawn[1], z: drawn[2] };
                    let positions = positions.update(
                        moved as int,
                        jittered(
                            self.params.domain,
                            self.params.radius,
                            positions[moved as int],
                            by,
                        ),
                    );
                    if moved + 1 < self.n {
                        Phase::Jitter { positions, reach, moved: moved + 1, drawn: Seq::empty() }
                    } else {
                        Phase::Aiming { positions, velocities: Seq::empty(), drawn: Seq::empty() }
                    }
                }
            },
            Phase::Aiming { positions, velocities, drawn } => {
                let drawn = drawn.push(value);
                if drawn.len() < 3 {
                    Phase::Aiming { positions, velocities, drawn }
                } else {
                    match direction(drawn[0], drawn[1], drawn[2]) {
                        None => Phase::Aiming { positions, velocities, drawn: Seq::empty() },
                        Some(unit) => {
                            let velocities = velocities.push(unit.scaled(self.speed));
                            if velocities.len() < self.n {
                                Phase::Aiming { positions, velocities, drawn: Seq::empty() }
                            } else {
                                Phase::Ready { positions, velocities }
                            }
                        },
                    }
                }
            },
            other => other,
        };
        Filling { phase, ..self }
    }
}

#[derive(Clone, Copy, Debug)]
enum Stage {
    Impossible,
    Rooting,
    Laying,
    Jitter,
    Aiming,
    Ready,
}

/// A filling under way. Its driver looks at [`Initializer::request`] and hands the answer to
/// [`Initializer::answer`], or calls [`Initializer::lay`], until there is nothing more to do.
pub struct Initializer<S> {
    n: usize,
    params: SimulationParams<S>,
    speed: S,
    stage: Stage,
    /// The cube, the spacing or the reach of the jitter, whichever the stage has.
    value: S,
    positions: Vec<Vec3<S>>,
    velocities: Vec<Vec3<S>>,
    moved: usize,
    drawn: Vec<S>,
}

impl<S: Number> Initializer<S> {
    pub closed spec fn view(&self) -> Filling<S> {
        let positions = self.positions@;
        let velocities = self.velocities@;
        let drawn = self.drawn@;
        let phase = match self.stage {
            Stage::Impossible => Phase::Impossible,
            Stage::Rooting => Phase::Rooting { cube: self.value },
            Stage::Laying => Phase::Laying { spacing: self.value },
            Stage::Jitter => Phase::Jitter {
                positions,
                reach: self.value,
                moved: self.moved as nat,
                drawn,
            },
            Stage::Aiming => Phase::Aiming { positions, velocities, drawn },
            Stage::Ready => Phase::Ready { positions, velocities },
        };
        Filling { n: self.n as nat, params: self.params, speed: self.speed, phase }
    }

    /// The filling is well-formed, and what later stages collect is still empty.
    pub closed spec fn wf(&self) -> bool {
        &&& self@.wf()
        &&& !(self.stage is Aiming || self.stage is Ready) ==> self.velocities@.len() == 0
        &&& !(self.stage is Jitter || self.stage is Aiming) ==> self.drawn@.len() == 0
    }
}

/// The direction of the vector `(x, y, z)`; `None` where it is too short to have one or does
/// not lie in the unit ball, so that three other numbers have to be drawn.
pub fn random_unit_vec3<S: Scalar>(x: S, y: S, z: S) -> (r: Option<Vec3<S>>)
    ensures
        r == direction(x, y, z),
{
    let len_sq = x.mul(x).add(y.mul(y)).add(z.mul(z));
    if S::from_decimal(1, 8).lt(len_sq) && len_sq.le(S::from_u64(1)) {
        let inv = S::from_u64(1).div(len_sq.sqrt());
        Some(Vec3::new(x.mul(inv), y.mul(inv), z.mul(inv)))
    } else {
        None
    }
}

/// Takes the mean velocity from every velocity, so that the center of mass stays put. The speeds
/// change with it, so a filling does not do so.
pub fn remove_drift<S: Scalar>(velocities: &mut Vec<Vec3<S>>)
    ensures
        final(velocities)@ == without_drift(old(velocities)@),
{
    let n: usize = velocities.len();
    let drift = sum_of(velocities).div(S::from_u64(n as u64));
    let mut i: usize = 0;
    while i < n
        invariant
            i <= n,
            n == velocities@.len() == old(velocities)@.len(),
            drift == total(old(velocities)@).divided(S::whole(n as u64)),
            forall|k: int|
                0 <= k < i ==> #[trigger] velocities@[k] == old(velocities)@[k].difference(drift),
            forall|k: int| i <= k < n ==> #[trigger] velocities@[k] == old(velocities)@[k],
        decreases n - i,
    {
        let v = velocities[i].sub(drift);
        velocities.set(i, v);
        i = i + 1;
    }
    assert(velocities@ =~= without_drift(old(velocities)@));
}

impl<S: Scalar> Initializer<S> {
    /// Begins to place `n` particles in a domain, to be sent off at `speed`.
    pub fn new(n: usize, params: SimulationParams<S>, speed: S) -> (r: Self)
        ensures
            r.wf(),
            r@ == Filling::begun(n as nat, params, speed),
    {
        let r = params.radius;
        let (lo, hi) = params.domain.particle_aabb(r);
        let zero = S::from_u64(0);
        let mut stage = Stage::Rooting;
        let mut value = zero;
        if hi.sub(lo).min_element().le(zero) {
            stage = Stage::Impossible;
        } else if n == 0 {
            stage = Stage::Ready;
        } else {
            let volume = params.domain.particle_volume(r);
            if volume.le(zero) {
                stage = Stage::Impossible;
            } else {
                value = S::from_u64(4).mul(volume).div(S::from_u64(n as u64));
            }
        }
        let r = Initializer {
            n,
            params,
            speed,
            stage,
            value,
            positions: Vec::new(),
            velocities: Vec::new(),
            moved: 0,
            drawn: Vec::new(),
        };
        assert(r@ =~= Filling::begun(n as nat, params, speed));
        r
    }

    /// What the filling waits for.
    pub fn request(&self) -> (r: Request<S>)
        ensures
            r == self@.request(),
    {
        match self.stage {
            Stage::Impossible => Request::Impossible,
            Stage::Rooting => Request::CubeRoot(self.value),
            Stage::Laying => Request::Lattice,
            Stage::Jitter => Request::Uniform { low: self.value.neg(), high: self.value },
            Stage::Aiming => Request::Uniform {
                low: S::from_u64(1).neg(),
                high: S::from_u64(1),
            },
            Stage::Ready => Request::Ready,
        }
    }

    /// Searches for a lattice, if that is what the filling waits for.
    pub fn lay(&mut self)
        requires
            old(self).wf(),
        ensures
            final(self).wf(),
            final(self)@ == old(self)@.searched(u64::MAX as nat),
    {
        let mut left: u64 = u64::MAX;
        while left > 0 && self.is_laying()
            invariant
                self.wf(),
                old(self)@.searched(u64::MAX as nat) == self@.searched(left as nat),
            decreases left,
        {
            self.try_lattice();
            left = left - 1;
        }
    }

    fn is_laying(&self) -> (r: bool)
        ensures
            r == (self@.phase is Laying),
    {
        match self.stage {
            Stage::Laying => true,
            _ => false,
        }
    }

    /// Tries one lattice, if that is what the filling waits for.
    pub fn try_lattice(&mut self)
        requires
            old(self).wf(),
        ensures
            final(self).wf(),
            final(self)@ == old(self)@.laid(),
    {
        match self.stage {
            Stage::Laying => {
                let spacing = self.value;
                let r = self.params.radius;
                let least = S::from_u64(2).mul(sqrt_2()).mul(r);
                if spacing.lt(least) {
                    self.stage = Stage::Impossible;
                } else {
                    let (lo, hi) = self.params.domain.particle_aabb(r);
                    let usable = hi.sub(lo);
                    let lattice = Lattice {
                        origin: lo,
                        spacing,
                        nx: usable.x.div(spacing).floor(),
                        ny: usable.y.div(spacing).floor(),
                        nz: usable.z.div(spacing).floor(),
                    };
                    match lattice.fill(&self.params.domain, r, self.n) {
                        Some(positions) => {
                            proof {
                                let domain = self.params.domain;
                                let kept = lattice.kept(domain, r, lattice.sites() as int);
                                kept_sites_are_inside(lattice, domain, r, lattice.sites() as int);
                                assert forall|i: int| 0 <= i < positions@.len() implies
                                    domain.holds_center(#[trigger] positions@[i], r) by {
                                    assert(positions@[i] == kept[i]);
                                }
                            }
                            let reach = spacing.div(sqrt_2()).sub(S::from_u64(2).mul(r)).div(
                                S::from_u64(2).mul(S::from_u64(3).sqrt()),
                            ).mul(S::from_decimal(9, 1));
                            self.positions = positions;
                            if S::from_u64(0).lt(reach) {
                                self.stage = Stage::Jitter;
                                self.value = reach;
                                self.moved = 0;
                            } else {
                                self.stage = Stage::Aiming;
                            }
                        },
                        None => {
                            self.value = spacing.mul(S::from_decimal(98, 2));
                        },
                    }
                }
            },
            _ => {},
        }
        assert(self@ =~= old(self)@.laid());
    }

    /// Takes the number that the filling waits for; nothing happens where it waits for none.
    pub fn answer(&mut self, value: S)
        requires
            old(self).wf(),
        ensures
            final(self).wf(),
            final(self)@ == old(self)@.answered(value),
    {
        match self.stage {
            Stage::Rooting => {
                self.stage = Stage::Laying;
                self.value = value;
            },
            Stage::Jitter => {
                self.drawn.push(value);
                if self.drawn.len() == 3 {
                    let by = Vec3::new(self.drawn[0], self.drawn[1], self.drawn[2]);
                    let p = self.positions[self.moved].add(by);
                    if self.params.domain.contains_center(p, self.params.radius) {
                        self.positions.set(self.moved, p);
                    } else {
                        proof {
                            let i = self.moved as int;
                            assert(self.positions@.update(i, self.positions@[i])
                                =~= self.positions@);
                        }
                    }
                    self.moved = self.moved + 1;
                    self.drawn = Vec::new();
                    if self.moved == self.n {
                        self.stage = Stage::Aiming;
                    }
                }
            },
            Stage::Aiming => {
                self.drawn.push(value);
                if self.drawn.len() == 3 {
                    match random_unit_vec3(self.drawn[0], self.drawn[1], self.drawn[2]) {
                        None => {},
                        Some(unit) => {
                            self.velocities.push(unit.scale(self.speed));
                            proof {
                                let d = self.drawn@;
                                assert(direction(d[0], d[1], d[2]) == Some(unit));
                                assert(sent_off(unit.scaled(self.speed), self.speed));
                            }
                            if self.velocities.len() == self.n {
                                self.stage = Stage::Ready;
                            }
                        },
                    }
                    self.drawn = Vec::new();
                }
            },
            _ => {},
        }
        assert(self@ =~= old(self)@.answered(value));
    }

    /// The positions and velocities, once the filling is ready.
    pub fn finish(self) -> (r: Option<(Vec<Vec3<S>>, Vec<Vec3<S>>)>)
        ensures
            r is Some <==> self@.phase is Ready,
            r matches Some((positions, velocities)) ==> self@.phase == (Phase::Ready {
                positions: positions@,
                velocities: velocities@,
            }),
    {
        match self.stage {
            Stage::Ready => Some((self.positions, self.velocities)),
            _ => None,
        }
    }
}

proof fn lemma_search_keeps_count<S: Number>(filling: Filling<S>, tries: nat)
    ensures
        filling.searched(tries).n == filling.n,
        filling.searched(tries).params == filling.params,
        filling.searched(tries).speed == filling.speed,
    decreases tries,
{
    if tries > 0 && filling.phase is Laying {
        lemma_search_keeps_count(filling.laid(), (tries - 1) as nat);
    }
}

/// Whether random numbers can be drawn from the range from `low` on and below `high`.
pub open spec fn drawable<S: Number>(low: S, high: S) -> bool {
    low.less(high) && high.difference(low).finite()
}

/// A filling that is answered with numbers from a generator as long as it asks for them, but at
/// most `tries` times.
pub open spec fn drawn_out<S: Sampler>(
    filling: Filling<S>,
    rng: Xoshiro256PlusPlus,
    tries: nat,
) -> Filling<S>
    decreases tries,
{
    match filling.request() {
        Request::Uniform { low, high } => {
            if tries == 0 || !drawable(low, high) {
                filling
            } else {
                let (value, after) = S::draw(rng, low, high);
                drawn_out(filling.answered(value), after, (tries - 1) as nat)
            }
        },
        _ => filling,
    }
}

/// The filling of a simulation with `n` particles, before any random number has come.
pub open spec fn sited<S: Sampler>(n: nat, params: SimulationParams<S>, speed: S) -> Filling<S> {
    let begun = Filling::begun(n, params, speed);
    match begun.phase {
        Phase::Rooting { cube } => begun.answered(cube.cube_root()).searched(u64::MAX as nat),
        _ => begun,
    }
}

/// The filling of a simulation with `n` particles, with the random numbers that `seed` gives.
pub open spec fn filled<S: Sampler>(
    n: nat,
    params: SimulationParams<S>,
    speed: S,
    seed: u64,
) -> Filling<S> {
    drawn_out(sited(n, params, speed), generator(seed), u64::MAX as nat)
}

/// Places `n` particles at random non-overlapping positions inside the domain, each with a
/// velocity of magnitude `speed` in a uniformly random direction.
///
/// Returns `None` if the domain has no space for all particles, or if the jitter that the space
/// allows is too large to be drawn.
pub fn init_random_uniform_speed<S: Sampler>(
    n: usize,
    params: SimulationParams<S>,
    speed: S,
    seed: u64,
) -> (r: Option<(Vec<Vec3<S>>, Vec<Vec3<S>>)>)
    ensures
        r is Some <==> filled(n as nat, params, speed, seed).phase is Ready,
        r matches Some((positions, velocities)) ==> filled(n as nat, params, speed, seed).phase == (
        Phase::Ready { positions: positions@, velocities: velocities@ }),
        r matches Some((positions, velocities)) ==> positions@.len() == n && velocities@.len() == n
            && forall|i: int|
            0 <= i < n ==> params.domain.holds_center(#[trigger] positions@[i], params.radius),
        r matches Some((positions, velocities)) ==> forall|i: int|
            0 <= i < n ==> sent_off(#[trigger] velocities@[i], speed),
{
    let mut init = Initializer::new(n, params, speed);
    match init.request() {
        Request::CubeRoot(cube) => {
            init.answer(cube.cbrt());
            proof {
                lemma_search_keeps_count(init@, u64::MAX as nat);
            }
            init.lay();
        },
        _ => {
            return init.finish();
        },
    }
    let mut rng: Xoshiro256PlusPlus = seeded(seed);
    let ghost goal = drawn_out(init@, rng, u64::MAX as nat);
    let mut left: u64 = u64::MAX;
    while left > 0
        invariant
            init.wf(),
            init@.n == n,
            init@.params == params,
            init@.speed == speed,
            goal == filled(n as nat, params, speed, seed),
            goal == drawn_out(init@, rng, left as nat),
        decreases left,
    {
        match init.request() {
            Request::Uniform { low, high } => {
                if !(low.lt(high) && high.sub(low).is_finite()) {
                    return init.finish();
                }
                let value = S::uniform(&mut rng, low, high);
                init.answer(value);
            },
            _ => {
                return init.finish();
            },
        }
        left = left - 1;
    }
    init.finish()
}

} // verus!
