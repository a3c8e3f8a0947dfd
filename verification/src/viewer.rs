//! What a viewer shows of a simulation, and how it answers to the keyboard and the screen.

use vstd::arithmetic::div_mod::{
    lemma_add_mod_noop,
    lemma_mod_add_multiples_vanish,
    lemma_small_mod,
};
use vstd::prelude::*;

use crate::camera::{clamp, clamped, OrbitCamera};
use crate::domain::Domain;
use crate::scalar::{Number, Scalar};
use crate::simulation::Simulation;
use crate::vector::Vec3;

verus! {

/// What the color of a particle stands for.
#[derive(Clone, Copy, Debug, PartialEq, Eq, Structural)]
pub enum ColorMode {
    /// The speed, from blue to the configured color.
    Velocity,
    /// Nothing: all particles have the configured color.
    Uniform,
}

impl Default for ColorMode {
    fn default() -> (r: Self)
        ensures
            r == ColorMode::Velocity,
    {
        ColorMode::Velocity
    }
}

#[derive(Clone, Copy, Debug, PartialEq, Eq, Structural)]
pub enum Axis {
    X,
    Y,
    Z,
}

/// The part of the domain that is shown: the particles from `min` to `max` along `axis`.
#[derive(Clone, Copy, Debug)]
pub struct SliceConfig<S> {
    pub axis: Axis,
    pub min: S,
    pub max: S,
}

/// A color: red, green and blue from zero to one.
#[derive(Clone, Copy, Debug)]
pub struct Color<S> {
    pub red: S,
    pub green: S,
    pub blue: S,
}

/// How particles are drawn. The radius of the particles controls collisions; the pixel size here
/// controls only the size of the drawn dots, unless they are drawn at physical size.
#[derive(Clone, Copy, Debug)]
pub struct ViewConfig<S> {
    pub particle_pixel_size: S,
    pub color_mode: ColorMode,
    /// Only every particle whose number is a multiple of this is drawn.
    pub subsample: usize,
    pub slice: Option<SliceConfig<S>>,
    /// Color used in `Uniform` mode and as the warm end of `Velocity`.
    pub color: Color<S>,
    /// 0 = every particle the same size on screen; 1 = closer particles drawn bigger (full
    /// perspective). Values in between give subtle depth cues.
    pub depth_scale: S,
    /// When true, each dot is drawn at the physical size of the particle.
    pub render_at_physical_size: bool,
}

/// The default of [`ViewConfig::particle_pixel_size`].
pub fn default_pixel_size<S: Scalar>() -> (r: S)
    ensures
        r == S::whole(6),
{
    S::from_u64(6)
}

/// The default of [`ViewConfig::subsample`].
pub fn one() -> (r: usize)
    ensures
        r == 1,
{
    1
}

/// The default of [`ViewConfig::color`].
pub fn default_color<S: Scalar>() -> (r: Color<S>)
    ensures
        r == (Color { red: S::decimal(9, 1), green: S::decimal(6, 1), blue: S::decimal(2, 1) }),
{
    Color {
        red: S::from_decimal(9, 1),
        green: S::from_decimal(6, 1),
        blue: S::from_decimal(2, 1),
    }
}

/// The default of [`ViewConfig::depth_scale`].
pub fn default_depth_scale<S: Scalar>() -> (r: S)
    ensures
        r == S::whole(0),
{
    S::from_u64(0)
}

impl<S: Scalar> Default for ViewConfig<S> {
    fn default() -> (r: Self)
        ensures
            r == (ViewConfig {
                particle_pixel_size: S::whole(6),
                color_mode: ColorMode::Velocity,
                subsample: 1,
                slice: None,
                color: Color {
                    red: S::decimal(9, 1),
                    green: S::decimal(6, 1),
                    blue: S::decimal(2, 1),
                },
                depth_scale: S::whole(0),
                render_at_physical_size: false,
            }),
    {
        ViewConfig {
            particle_pixel_size: default_pixel_size(),
            color_mode: ColorMode::Velocity,
            subsample: one(),
            slice: None,
            color: default_color(),
            depth_scale: default_depth_scale(),
            render_at_physical_size: false,
        }
    }
}

impl<S: Scalar> ViewConfig<S> {
    /// The radius at which dots are drawn in the world; `None` where their size is in pixels.
    pub fn world_radius(&self, radius: S) -> (r: Option<S>)
        ensures
            r == if self.render_at_physical_size {
                Some(radius)
            } else {
                None
            },
    {
        if self.render_at_physical_size {
            Some(radius)
        } else {
            None
        }
    }
}

/// `from` blended into `to` by `t`.
pub open spec fn blended<S: Number>(from: S, to: S, t: S) -> S {
    from.sum(to.difference(from).product(t))
}

/// Blue-to-warm color ramp: blue at zero, `warm` from one and a half on.
pub open spec fn ramp<S: Number>(t: S, warm: Color<S>) -> Color<S> {
    let top = S::decimal(15, 1);
    let t = clamped(t, S::whole(0), top).quotient(top);
    Color {
        red: blended(S::decimal(1, 1), warm.red, t),
        green: blended(S::decimal(3, 1), warm.green, t),
        blue: blended(S::whole(1), warm.blue, t),
    }
}

fn blend<S: Scalar>(from: S, to: S, t: S) -> (r: S)
    ensures
        r == blended(from, to, t),
{
    from.add(to.sub(from).mul(t))
}

/// Blue-to-warm color ramp. `t` is typically in `[0, ~2]`; clamped.
pub fn velocity_color<S: Scalar>(t: S, warm: Color<S>) -> (r: Color<S>)
    ensures
        r == ramp(t, warm),
{
    let top = S::from_decimal(15, 1);
    let t = clamp(t, S::from_u64(0), top).div(top);
    Color {
        red: blend(S::from_decimal(1, 1), warm.red, t),
        green: blend(S::from_decimal(3, 1), warm.green, t),
        blue: blend(S::from_u64(1), warm.blue, t),
    }
}

/// A dot to be drawn.
#[derive(Clone, Copy, Debug)]
pub struct Instance<S> {
    pub pos: Vec3<S>,
    pub color: Color<S>,
}

impl<S: Number> SliceConfig<S> {
    /// The coordinate of `p` along the axis.
    pub open spec fn coordinate(self, p: Vec3<S>) -> S {
        match self.axis {
            Axis::X => p.x,
            Axis::Y => p.y,
            Axis::Z => p.z,
        }
    }

    /// Whether `p` lies in the slice.
    pub open spec fn shows(self, p: Vec3<S>) -> bool {
        !self.coordinate(p).less(self.min) && !self.max.less(self.coordinate(p))
    }
}

impl<S: Number> ViewConfig<S> {
    /// The step from one drawn particle to the next.
    pub open spec fn stride(self) -> int {
        if self.subsample > 1 {
            self.subsample as int
        } else {
            1
        }
    }

    /// Whether particle `i` at `p` is drawn.
    pub open spec fn draws(self, i: int, p: Vec3<S>) -> bool {
        i % self.stride() == 0 && (self.slice matches Some(slice) ==> slice.shows(p))
    }

    /// The color of a particle with velocity `v`; `speed` is the speed that counts as one.
    pub open spec fn color_of(self, v: Vec3<S>, speed: S) -> Color<S> {
        match self.color_mode {
            ColorMode::Uniform => self.color,
            ColorMode::Velocity => ramp(
                v.norm().quotient(speed.maximum(S::decimal(1, 6))),
                self.color,
            ),
        }
    }

    /// The dots of the first `n` particles, in order.
    pub open spec fn dots(
        self,
        positions: Seq<Vec3<S>>,
        velocities: Seq<Vec3<S>>,
        speed: S,
        n: int,
    ) -> Seq<Instance<S>>
        decreases n,
    {
        if n <= 0 {
            Seq::empty()
        } else {
            let before = self.dots(positions, velocities, speed, n - 1);
            if self.draws(n - 1, positions[n - 1]) {
                before.push(
                    Instance {
                        pos: positions[n - 1],
                        color: self.color_of(velocities[n - 1], speed),
                    },
                )
            } else {
                before
            }
        }
    }
}

impl<S: Scalar> SliceConfig<S> {
    fn contains(&self, p: Vec3<S>) -> (r: bool)
        ensures
            r == self.shows(p),
    {
        let v = match self.axis {
            Axis::X => p.x,
            Axis::Y => p.y,
            Axis::Z => p.z,
        };
        !v.lt(self.min) && !self.max.lt(v)
    }
}

impl<S: Scalar> ViewConfig<S> {
    fn color_for(&self, v: Vec3<S>, scale: S) -> (r: Color<S>)
        ensures
            forall|speed: S|
                scale == #[trigger] speed.maximum(S::decimal(1, 6)) ==> r == self.color_of(
                    v,
                    speed,
                ),
    {
        match self.color_mode {
            ColorMode::Uniform => self.color,
            ColorMode::Velocity => velocity_color(v.length().div(scale), self.color),
        }
    }

    /// The dots to draw of a simulation; `speed` is the speed that counts as one on the color
    /// ramp.
    pub fn build_instances(&self, sim: &Simulation<S>, speed: S) -> (r: Vec<Instance<S>>)
        requires
            sim.positions@.len() == sim.velocities@.len(),
        ensures
            r@ == self.dots(
                sim.positions@,
                sim.velocities@,
                speed,
                sim.positions@.len() as int,
            ),
    {
        let mut instances: Vec<Instance<S>> = Vec::new();
        let n: usize = sim.len();
        let sub: usize = if self.subsample > 1 {
            self.subsample
        } else {
            1
        };
        let scale = speed.max(S::from_decimal(1, 6));
        let mut i: usize = 0;
        while i < n
            invariant
                n == sim.positions@.len() == sim.velocities@.len(),
                sub == self.stride(),
                sub >= 1,
                i % sub == 0,
                scale == speed.maximum(S::decimal(1, 6)),
                instances@ == self.dots(
                    sim.positions@,
                    sim.velocities@,
                    speed,
                    if i < n {
                        i as int
                    } else {
                        n as int
                    },
                ),
            decreases n - i,
        {
            let p = sim.positions[i];
            let shown = match self.slice {
                Some(slice) => slice.contains(p),
                None => true,
            };
            if shown {
                let color = self.color_for(sim.velocities[i], scale);
                instances.push(Instance { pos: p, color });
            }
            let ghost next = if n - i <= sub { n as int } else { i + sub };
            proof {
                assert(self.draws(i as int, p) == shown);
                lemma_skipped(
                    *self,
                    sim.positions@,
                    sim.velocities@,
                    speed,
                    i as int,
                    i + 1,
                    next,
                );
            }
            if n - i <= sub {
                return instances;
            }
            proof {
                lemma_next_multiple(i as int, sub as int);
            }
            i = i + sub;
        }
        instances
    }
}

proof fn lemma_next_multiple(i: int, sub: int)
    requires
        sub >= 1,
        i % sub == 0,
    ensures
        (i + sub) % sub == 0,
{
    lemma_mod_add_multiples_vanish(i, sub);
}

/// Between one multiple of the stride and the next nothing is drawn.
proof fn lemma_skipped<S: Number>(
    view: ViewConfig<S>,
    positions: Seq<Vec3<S>>,
    velocities: Seq<Vec3<S>>,
    speed: S,
    i: int,
    from: int,
    to: int,
)
    requires
        0 <= i < from <= to <= i + view.stride(),
        i % view.stride() == 0,
    ensures
        view.dots(positions, velocities, speed, to) == view.dots(
            positions,
            velocities,
            speed,
            from,
        ),
    decreases to - from,
{
    if from < to {
        lemma_skipped(view, positions, velocities, speed, i, from, to - 1);
        let d = to - 1 - i;
        lemma_add_mod_noop(i, d, view.stride());
        lemma_small_mod(d as nat, view.stride() as nat);
        assert((to - 1) % view.stride() == d);
    }
}

/// The keys that a viewer answers to.
#[derive(Clone, Copy, Debug, PartialEq, Eq, Structural)]
pub enum Key {
    Escape,
    Space,
    R,
    ArrowLeft,
    ArrowRight,
    ArrowUp,
    ArrowDown,
    Plus,
    Minus,
    Other,
}

/// Whether the program goes on.
#[derive(Clone, Copy, Debug, PartialEq, Eq, Structural)]
pub enum Flow {
    Continue,
    Exit,
}

/// What happens on a redraw.
#[derive(Clone, Copy, Debug, PartialEq, Eq, Structural)]
pub enum Frame {
    /// Nothing: there is no screen yet.
    Skip,
    /// The simulation is drawn as it is.
    Draw,
    /// The simulation makes a step and is drawn.
    StepAndDraw,
}

/// How drawing a frame ended.
#[derive(Clone, Copy, Debug, PartialEq, Eq, Structural)]
pub enum Rendered {
    Done,
    Lost,
    Outdated,
    OutOfMemory,
    Failed,
}

/// What follows a drawn frame.
#[derive(Clone, Copy, Debug, PartialEq, Eq, Structural)]
pub enum Aftermath {
    Nothing,
    /// The screen is set up again at its present size.
    Resize,
    /// The program ends.
    Exit,
    /// The failure is reported.
    Report,
}

/// What follows a frame that ended as `outcome` says.
pub fn after_render(outcome: Rendered) -> (r: Aftermath)
    ensures
        r == match outcome {
            Rendered::Done => Aftermath::Nothing,
            Rendered::Lost => Aftermath::Resize,
            Rendered::Outdated => Aftermath::Resize,
            Rendered::OutOfMemory => Aftermath::Exit,
            Rendered::Failed => Aftermath::Report,
        },
{
    match outcome {
        Rendered::Done => Aftermath::Nothing,
        Rendered::Lost | Rendered::Outdated => Aftermath::Resize,
        Rendered::OutOfMemory => Aftermath::Exit,
        Rendered::Failed => Aftermath::Report,
    }
}

/// The state of a viewer that the keyboard controls.
#[derive(Clone, Copy, Debug)]
pub struct Controls<S> {
    pub camera: OrbitCamera<S>,
    pub paused: bool,
}

/// The angle by which an arrow key turns the camera.
pub open spec fn turn<S: Number>() -> S {
    S::decimal(5, 2)
}

/// The factor by which a step closer changes the radius.
pub open spec fn closer<S: Number>() -> S {
    S::decimal(9, 1)
}

/// The factor by which a step back changes the radius.
pub open spec fn farther<S: Number>() -> S {
    S::whole(1).quotient(S::decimal(9, 1))
}

impl<S: Number> Controls<S> {
    /// The controls after a key was pressed; `repeat` tells a key that is held down.
    pub open spec fn pressed(self, key: Key, repeat: bool) -> Self {
        let zero = S::whole(0);
        match key {
            Key::Space => Controls {
                paused: if repeat {
                    self.paused
                } else {
                    !self.paused
                },
                ..self
            },
            Key::R => Controls {
                camera: if repeat {
                    self.camera
                } else {
                    self.camera.restored()
                },
                ..self
            },
            Key::ArrowLeft => Controls {
                camera: self.camera.rotated(turn::<S>().negation(), zero),
                ..self
            },
            Key::ArrowRight => Controls { camera: self.camera.rotated(turn(), zero), ..self },
            Key::ArrowUp => Controls { camera: self.camera.rotated(zero, turn()), ..self },
            Key::ArrowDown => Controls {
                camera: self.camera.rotated(zero, turn::<S>().negation()),
                ..self
            },
            Key::Plus => Controls { camera: self.camera.zoomed(closer()), ..self },
            Key::Minus => Controls { camera: self.camera.zoomed(farther()), ..self },
            Key::Escape => self,
            Key::Other => self,
        }
    }
}

impl<S: Scalar> Controls<S> {
    /// Controls for looking at a domain; the simulation runs.
    pub fn new(domain: &Domain<S>) -> (r: Self)
        ensures
            !r.paused,
            r.camera == OrbitCamera::framing(domain.corners().0, domain.corners().1),
    {
        let (lo, hi) = domain.aabb();
        Controls { camera: OrbitCamera::looking_at_box(lo, hi), paused: false }
    }

    /// Answers to a key; `repeat` tells a key that is held down.
    pub fn press(&mut self, key: Key, repeat: bool) -> (r: Flow)
        ensures
            *final(self) == old(self).pressed(key, repeat),
            r == if key == Key::Escape {
                Flow::Exit
            } else {
                Flow::Continue
            },
    {
        let zero = S::from_u64(0);
        let rot = S::from_decimal(5, 2);
        match key {
            Key::Escape => {
                return Flow::Exit;
            },
            Key::Space => {
                if !repeat {
                    self.paused = !self.paused;
                }
            },
            Key::R => {
                if !repeat {
                    self.camera.reset();
                }
            },
            Key::ArrowLeft => {
                self.camera.rotate(rot.neg(), zero);
            },
            Key::ArrowRight => {
                self.camera.rotate(rot, zero);
            },
            Key::ArrowUp => {
                self.camera.rotate(zero, rot);
            },
            Key::ArrowDown => {
                self.camera.rotate(zero, rot.neg());
            },
            Key::Plus => {
                self.camera.zoom(S::from_decimal(9, 1));
            },
            Key::Minus => {
                self.camera.zoom(S::from_u64(1).div(S::from_decimal(9, 1)));
            },
            Key::Other => {},
        }
        Flow::Continue
    }

    /// What happens on a redraw.
    pub fn redraw(&self, has_screen: bool) -> (r: Frame)
        ensures
            r == if !has_screen {
                Frame::Skip
            } else if self.paused {
                Frame::Draw
            } else {
                Frame::StepAndDraw
            },
    {
        if !has_screen {
            Frame::Skip
        } else if self.paused {
            Frame::Draw
        } else {
            Frame::StepAndDraw
        }
    }
}

} // verus!
