//! What holds of every view: laws of [`crate::camera`] and [`crate::viewer`].

use vstd::prelude::*;

use crate::angle::Swing;
use crate::camera::{clamped, highest_pitch, lowest_pitch, quarter_turn, OrbitCamera};
use crate::elastic::half_value;
use crate::exact::{ten_to, Exact};
use crate::geometry::{along, gap_squared, root_is_unique, roots_exist, way};
use crate::scalar::{pi_value, Number};
use crate::vector::Vec3;
use crate::viewer::{blended, ramp, Axis, Color, ColorMode, Controls, Instance, Key, ViewConfig};

verus! {

/// The controls after a list of key presses.
pub open spec fn pressed_all<S: Number>(controls: Controls<S>, keys: Seq<(Key, bool)>) -> Controls<S>
    decreases keys.len(),
{
    if keys.len() == 0 {
        controls
    } else {
        pressed_all(controls, keys.drop_last()).pressed(keys.last().0, keys.last().1)
    }
}

/// Whatever keys have been pressed, the reset key brings the camera back to where it began.
pub proof fn reset_restores_first_view<S: Number>(controls: Controls<S>, keys: Seq<(Key, bool)>)
    requires
        controls.camera == controls.camera.restored(),
    ensures
        pressed_all(controls, keys).pressed(Key::R, false).camera == controls.camera,
    decreases keys.len(),
{
    if keys.len() > 0 {
        reset_restores_first_view(controls, keys.drop_last());
    }
}

/// A camera that frames a box is where it began.
pub proof fn framing_is_first_view<S: Number>(box_min: Vec3<S>, box_max: Vec3<S>)
    ensures
        OrbitCamera::framing(box_min, box_max).restored() == OrbitCamera::framing(
            box_min,
            box_max,
        ),
{
}

/// Whether the camera neither looks straight up nor straight down, and did not at the start.
pub open spec fn level(camera: OrbitCamera<Exact>) -> bool {
    &&& lowest_pitch::<Exact>().value <= camera.pitch.value <= highest_pitch::<Exact>().value
    &&& lowest_pitch::<Exact>().value <= camera.initial_pitch.value
        <= highest_pitch::<Exact>().value
}

proof fn lemma_ten_to_sixteen()
    ensures
        ten_to(16) == 10_000_000_000_000_000real,
        ten_to(2) == 100real,
        ten_to(1) == 10real,
{
    reveal_with_fuel(ten_to, 17);
}

proof fn lemma_pitch_limits()
    ensures
        quarter_turn::<Exact>().value == 15_707_963_267_948_966real / 10_000_000_000_000_000real,
        Exact::decimal(5, 2).value == 5real / 100real,
        lowest_pitch::<Exact>().value < highest_pitch::<Exact>().value,
{
    lemma_ten_to_sixteen();
}

/// A camera that frames a box is level.
pub proof fn framing_is_level(box_min: Vec3<Exact>, box_max: Vec3<Exact>)
    ensures
        level(OrbitCamera::framing(box_min, box_max)),
{
    lemma_ten_to_sixteen();
    lemma_pitch_limits();
    assert(Exact::decimal(5_235_987_755_982_989, 16).value == 5_235_987_755_982_989real
        / 10_000_000_000_000_000real);
}

/// No key takes a level camera out of level.
pub proof fn keys_keep_camera_level(controls: Controls<Exact>, keys: Seq<(Key, bool)>)
    requires
        level(controls.camera),
    ensures
        level(pressed_all(controls, keys).camera),
    decreases keys.len(),
{
    lemma_pitch_limits();
    if keys.len() > 0 {
        keys_keep_camera_level(controls, keys.drop_last());
    }
}

/// Zooming never brings the camera closer than twice the distance at which it begins to see.
pub proof fn zoom_keeps_distance(camera: OrbitCamera<Exact>, factor: Exact)
    ensures
        camera.znear.product(Exact::whole(2)).value <= camera.zoomed(factor).radius.value,
{
}

/// The blue end of the color ramp.
pub open spec fn cool<S: Number>() -> Color<S> {
    Color { red: S::decimal(1, 1), green: S::decimal(3, 1), blue: S::whole(1) }
}

/// A particle at rest, or below, is blue.
pub proof fn slowest_color_is_cool(t: Exact, warm: Color<Exact>)
    requires
        t.value <= 0real,
    ensures
        ramp(t, warm) == cool::<Exact>(),
{
    lemma_ten_to_sixteen();
    let top = Exact::decimal(15, 1).value;
    assert(top == 15real / 10real);
    assert(0real / top == 0real) by (nonlinear_arith)
        requires
            0real < top,
    ;
    lemma_times_zero(warm.red.value - Exact::decimal(1, 1).value);
    lemma_times_zero(warm.green.value - Exact::decimal(3, 1).value);
    lemma_times_zero(warm.blue.value - Exact::whole(1).value);
}

proof fn lemma_times_zero(x: real)
    by (nonlinear_arith)
    ensures
        x * 0real == 0real,
        x * 1real == x,
{
}

/// From one and a half times the reference speed on, a particle has the warm color.
pub proof fn fastest_color_is_warm(t: Exact, warm: Color<Exact>)
    requires
        15real / 10real <= t.value,
    ensures
        ramp(t, warm) == warm,
{
    lemma_ten_to_sixteen();
    let top = Exact::decimal(15, 1).value;
    assert(top == 15real / 10real);
    assert(top / top == 1real) by (nonlinear_arith)
        requires
            0real < top,
    ;
    lemma_times_zero(warm.red.value - Exact::decimal(1, 1).value);
    lemma_times_zero(warm.green.value - Exact::decimal(3, 1).value);
    lemma_times_zero(warm.blue.value - Exact::whole(1).value);
}

/// Whether `x` lies between `a` and `b`, whichever of them is larger.
pub open spec fn between<S: Number>(a: S, x: S, b: S) -> bool {
    (a.at_most(x) && x.at_most(b)) || (b.at_most(x) && x.at_most(a))
}

proof fn lemma_fraction(x: real, y: real, top: real)
    by (nonlinear_arith)
    requires
        0real < top,
        0real <= x <= y <= top,
    ensures
        0real <= x / top <= y / top <= 1real,
{
}

proof fn lemma_scaled_up(d: real, x: real, y: real)
    by (nonlinear_arith)
    requires
        0real <= d,
        0real <= x <= y <= 1real,
    ensures
        0real <= d * x <= d * y <= d,
{
}

/// A channel that goes from `a` to `b` moves one way, and stays between its ends.
proof fn lemma_blended(a: Exact, b: Exact, x: real, y: real)
    requires
        0real <= x <= y <= 1real,
    ensures
        ({
            let first = blended(a, b, Exact { value: x });
            let second = blended(a, b, Exact { value: y });
            &&& between(a, first, second)
            &&& between(first, second, b)
            &&& between(a, first, b)
        }),
{
    let d = b.value - a.value;
    if 0real <= d {
        lemma_scaled_up(d, x, y);
    } else {
        lemma_scaled_up(-d, x, y);
        assert((-d) * x == -(d * x)) by (nonlinear_arith);
        assert((-d) * y == -(d * y)) by (nonlinear_arith);
    }
}

/// Whether each channel of `x` lies between those of `a` and `b`.
pub open spec fn color_between<S: Number>(a: Color<S>, x: Color<S>, b: Color<S>) -> bool {
    &&& between(a.red, x.red, b.red)
    &&& between(a.green, x.green, b.green)
    &&& between(a.blue, x.blue, b.blue)
}

/// The faster a particle, the further its color is from blue to warm: each channel lies between
/// its two ends and moves one way.
pub proof fn colors_move_one_way(slow: Exact, fast: Exact, warm: Color<Exact>)
    requires
        slow.value <= fast.value,
    ensures
        color_between(cool(), ramp(slow, warm), ramp(fast, warm)),
        color_between(ramp(slow, warm), ramp(fast, warm), warm),
        color_between(cool(), ramp(slow, warm), warm),
{
    lemma_ten_to_sixteen();
    let top = Exact::decimal(15, 1);
    assert(top.value == 15real / 10real);
    let zero = Exact::whole(0);
    let x = clamped(slow, zero, top).value;
    let y = clamped(fast, zero, top).value;
    lemma_fraction(x, y, top.value);
    let (u, v) = (x / top.value, y / top.value);
    let cool = cool::<Exact>();
    lemma_blended(cool.red, warm.red, u, v);
    lemma_blended(cool.green, warm.green, u, v);
    lemma_blended(cool.blue, warm.blue, u, v);
}

/// The first view of a box: from 1.4 times its diagonal, which is `extent` long, towards its
/// center, an eighth of a turn around and a twelfth of a turn up, with an angle of view of a sixth
/// of a turn.
pub proof fn first_view_frames_the_box(box_min: Vec3<Exact>, box_max: Vec3<Exact>, extent: real)
    requires
        roots_exist(),
        0real <= extent,
        extent * extent == gap_squared(box_min, box_max),
    ensures
        ({
            let camera = OrbitCamera::framing(box_min, box_max);
            let pi = pi_value::<Exact>().value;
            let tiny = 1real / 1_000_000_000_000_000real;
            &&& camera.target.x.value - box_min.x.value == box_max.x.value - camera.target.x.value
            &&& camera.target.y.value - box_min.y.value == box_max.y.value - camera.target.y.value
            &&& camera.target.z.value - box_min.z.value == box_max.z.value - camera.target.z.value
            &&& 10real * camera.radius.value == 14real * extent
            &&& camera.zfar.value == 20real * extent
            &&& camera.znear.value == 1real / 20real
            &&& 3real * camera.fov_y.value == pi
            &&& 4real * camera.yaw.value == pi
            &&& -tiny < 6real * camera.pitch.value - pi < tiny
            &&& camera.initial_radius == camera.radius
            &&& camera.initial_yaw == camera.yaw
            &&& camera.initial_pitch == camera.pitch
        }),
{
    lemma_ten_to_sixteen();
    half_value();
    let o = box_max.difference(box_min);
    assert(o.squared_length().value == gap_squared(box_min, box_max));
    root_is_unique(extent * extent, extent);
    let pi = pi_value::<Exact>().value;
    assert(3real * (60real * (pi / 180real)) == pi) by (nonlinear_arith);
    lemma_halved(box_min.x.value + box_max.x.value);
    lemma_halved(box_min.y.value + box_max.y.value);
    lemma_halved(box_min.z.value + box_max.z.value);
    assert(10real * (extent * (14real / 10real)) == 14real * extent) by (nonlinear_arith);
    let camera = OrbitCamera::framing(box_min, box_max);
    assert(camera.yaw.value == 7_853_981_633_974_483real / 10_000_000_000_000_000real);
    assert(camera.pitch.value == 5_235_987_755_982_989real / 10_000_000_000_000_000real);
    assert(pi == 31_415_926_535_897_932real / 10_000_000_000_000_000real);
    assert(camera.znear.value == 5real / 100real);
    assert(camera.fov_y.value == 60real * (pi / 180real));
    lemma_commuted(extent, 20real);
    assert(o.norm().value == extent);
    assert(camera.radius.value == extent * (14real / 10real));
    assert(camera.zfar.value == 20real * extent);
}

proof fn lemma_halved(x: real)
    by (nonlinear_arith)
    ensures
        2real * (x * (1real / 2real)) == x,
{
}

/// Turning adds to the yaw and to the pitch; the pitch stops a twentieth short of straight up and
/// straight down. Nothing else changes.
pub proof fn turning_stops_short_of_the_poles(
    camera: OrbitCamera<Exact>,
    d_yaw: Exact,
    d_pitch: Exact,
)
    ensures
        ({
            let after = camera.rotated(d_yaw, d_pitch);
            let most = pi_value::<Exact>().value / 2real - 1real / 20real;
            let pitch = camera.pitch.value + d_pitch.value;
            &&& after.yaw.value == camera.yaw.value + d_yaw.value
            &&& -most <= pitch <= most ==> after.pitch.value == pitch
            &&& pitch < -most ==> after.pitch.value == -most
            &&& most < pitch ==> after.pitch.value == most
            &&& after == (OrbitCamera { yaw: after.yaw, pitch: after.pitch, ..camera })
        }),
{
    lemma_ten_to_sixteen();
    lemma_pitch_limits();
}

/// Zooming multiplies the distance, but not below twice the distance at which the camera begins
/// to see. Nothing else changes.
pub proof fn zooming_multiplies_the_distance(camera: OrbitCamera<Exact>, factor: Exact)
    ensures
        ({
            let after = camera.zoomed(factor);
            let least = 2real * camera.znear.value;
            let radius = camera.radius.value * factor.value;
            &&& least <= radius ==> after.radius.value == radius
            &&& radius < least ==> after.radius.value == least
            &&& after == (OrbitCamera { radius: after.radius, ..camera })
        }),
{
    lemma_commuted(camera.znear.value, 2real);
}

proof fn lemma_commuted(x: real, y: real)
    by (nonlinear_arith)
    ensures
        x * y == y * x,
{
}

/// The eye is as far from the target as the radius says, above it by the sine of the pitch, and
/// around it by the yaw.
pub proof fn eye_is_on_the_orbit(
    camera: OrbitCamera<Exact>,
    yaw: Swing<Exact>,
    pitch: Swing<Exact>,
)
    requires
        yaw.cos.value * yaw.cos.value + yaw.sin.value * yaw.sin.value == 1real,
        pitch.cos.value * pitch.cos.value + pitch.sin.value * pitch.sin.value == 1real,
    ensures
        ({
            let eye = camera.eye_at(yaw, pitch);
            let to = way(camera.target, eye);
            let r = camera.radius.value;
            &&& gap_squared(camera.target, eye) == r * r
            &&& to.y.value == r * pitch.sin.value
            &&& to.x.value == r * (pitch.cos.value * yaw.sin.value)
            &&& to.z.value == r * (pitch.cos.value * yaw.cos.value)
        }),
{
    let r = camera.radius.value;
    let (c, s) = (pitch.cos.value, pitch.sin.value);
    let (a, b) = (yaw.sin.value, yaw.cos.value);
    lemma_commuted(c * a, r);
    lemma_commuted(c * b, r);
    lemma_commuted(s, r);
    lemma_orbit_square(r, c * a);
    lemma_orbit_square(r, c * b);
    lemma_orbit_square(r, s);
    lemma_orbit_square(c, a);
    lemma_orbit_square(c, b);
    let (e, f) = (c * c, r * r);
    assert(e * (a * a) + e * (b * b) == e * (a * a + b * b)) by (nonlinear_arith);
    assert(e * 1real == e && f * 1real == f) by (nonlinear_arith);
    let (x, y, z) = ((c * a) * (c * a), (c * b) * (c * b), s * s);
    assert(f * x + f * y + f * z == f * (x + y + z)) by (nonlinear_arith);
    assert(b * b + a * a == 1real);
}

proof fn lemma_orbit_square(r: real, x: real)
    by (nonlinear_arith)
    ensures
        (r * x) * (r * x) == (r * r) * (x * x),
{
}

/// What the keys do: the arrows turn the camera by a twentieth around or up, plus brings it a
/// tenth closer, minus moves it back by as much, the space bar halts and resumes, and the reset key
/// restores the first view; the last two do nothing while they are held down. Other keys do
/// nothing.
pub proof fn keys_do_what_they_say(controls: Controls<Exact>, repeat: bool)
    ensures
        ({
            let camera = controls.camera;
            let (none, turn) = (Exact { value: 0real }, Exact { value: 1real / 20real });
            let back = Exact { value: -(1real / 20real) };
            let away = controls.pressed(Key::Minus, repeat).camera;
            &&& controls.pressed(Key::ArrowLeft, repeat) == (Controls {
                camera: camera.rotated(back, none),
                ..controls
            })
            &&& controls.pressed(Key::ArrowRight, repeat) == (Controls {
                camera: camera.rotated(turn, none),
                ..controls
            })
            &&& controls.pressed(Key::ArrowUp, repeat) == (Controls {
                camera: camera.rotated(none, turn),
                ..controls
            })
            &&& controls.pressed(Key::ArrowDown, repeat) == (Controls {
                camera: camera.rotated(none, back),
                ..controls
            })
            &&& controls.pressed(Key::Plus, repeat) == (Controls {
                camera: camera.zoomed(Exact { value: 9real / 10real }),
                ..controls
            })
            &&& controls.pressed(Key::Minus, repeat) == (Controls {
                camera: camera.zoomed(Exact { value: 10real / 9real }),
                ..controls
            })
            &&& controls.pressed(Key::Space, true) == controls
            &&& controls.pressed(Key::Space, false) == (Controls {
                paused: !controls.paused,
                ..controls
            })
            &&& controls.pressed(Key::R, true) == controls
            &&& controls.pressed(Key::R, false) == (Controls {
                camera: OrbitCamera {
                    radius: camera.initial_radius,
                    yaw: camera.initial_yaw,
                    pitch: camera.initial_pitch,
                    ..camera
                },
                ..controls
            })
            &&& controls.pressed(Key::Escape, repeat) == controls
            &&& controls.pressed(Key::Other, repeat) == controls
        }),
{
    lemma_ten_to_sixteen();
    assert(1real / (9real / 10real) == 10real / 9real) by (nonlinear_arith);
    assert(5real / 100real == 1real / 20real) by (nonlinear_arith);
}

/// The opposite key brings the camera back, as long as no limit is in the way.
pub proof fn opposite_keys_undo_each_other(controls: Controls<Exact>, repeat: bool)
    requires
        level(controls.camera),
        lowest_pitch::<Exact>().value <= controls.camera.pitch.value - 1real / 20real,
        controls.camera.pitch.value + 1real / 20real <= highest_pitch::<Exact>().value,
        20real * controls.camera.znear.value <= 9real * controls.camera.radius.value,
        0real <= controls.camera.radius.value,
    ensures
        controls.pressed(Key::ArrowLeft, repeat).pressed(Key::ArrowRight, repeat) == controls,
        controls.pressed(Key::ArrowUp, repeat).pressed(Key::ArrowDown, repeat) == controls,
        controls.pressed(Key::ArrowDown, repeat).pressed(Key::ArrowUp, repeat) == controls,
        controls.pressed(Key::Plus, repeat).pressed(Key::Minus, repeat) == controls,
        controls.pressed(Key::Space, false).pressed(Key::Space, false) == controls,
{
    lemma_ten_to_sixteen();
    lemma_pitch_limits();
    keys_do_what_they_say(controls, repeat);
    keys_do_what_they_say(controls.pressed(Key::ArrowLeft, repeat), repeat);
    keys_do_what_they_say(controls.pressed(Key::ArrowUp, repeat), repeat);
    keys_do_what_they_say(controls.pressed(Key::ArrowDown, repeat), repeat);
    keys_do_what_they_say(controls.pressed(Key::Plus, repeat), repeat);
    let r = controls.camera.radius.value;
    let c = controls.camera.znear.value;
    assert((r * (9real / 10real)) * (10real / 9real) == r) by (nonlinear_arith);
    assert(c * 2real <= r * (9real / 10real)) by (nonlinear_arith)
        requires
            20real * c <= 9real * r,
    ;
    assert(r * (9real / 10real) <= r) by (nonlinear_arith)
        requires
            0real <= r,
    ;
}

/// From rest to one and a half times the reference speed, each channel goes from blue to warm in
/// proportion to the speed.
pub proof fn colors_go_in_proportion(t: Exact, warm: Color<Exact>)
    requires
        0real <= t.value <= 3real / 2real,
    ensures
        ({
            let color = ramp(t, warm);
            let s = t.value;
            &&& 3real * (color.red.value - 1real / 10real) == (2real * s) * (warm.red.value - 1real
                / 10real)
            &&& 3real * (color.green.value - 3real / 10real) == (2real * s) * (warm.green.value
                - 3real / 10real)
            &&& 3real * (color.blue.value - 1real) == (2real * s) * (warm.blue.value - 1real)
        }),
{
    lemma_ten_to_sixteen();
    let top = Exact::decimal(15, 1).value;
    assert(top == 15real / 10real);
    let s = t.value;
    lemma_proportion(warm.red.value - 1real / 10real, s);
    lemma_proportion(warm.green.value - 3real / 10real, s);
    lemma_proportion(warm.blue.value - 1real, s);
}

proof fn lemma_proportion(d: real, s: real)
    by (nonlinear_arith)
    ensures
        3real * (d * (s / (15real / 10real))) == (2real * s) * d,
{
    assert((s / (15real / 10real)) * (15real / 10real) == s);
    assert(3real * (s / (15real / 10real)) == 2real * s);
    assert(3real * (d * (s / (15real / 10real))) == d * (3real * (s / (15real / 10real))));
}

/// All particles have the configured color, or each one that of the ratio `t` of its speed to the
/// reference speed, which is at least a millionth.
pub proof fn colors_show_the_speed(
    view: ViewConfig<Exact>,
    v: Vec3<Exact>,
    speed: Exact,
    pace: real,
    t: Exact,
)
    requires
        roots_exist(),
        0real <= pace,
        pace * pace == along(v, v),
        ({
            let scale = if speed.value < 1real / 1_000_000real {
                1real / 1_000_000real
            } else {
                speed.value
            };
            t.value * scale == pace
        }),
    ensures
        view.color_mode == ColorMode::Uniform ==> view.color_of(v, speed) == view.color,
        view.color_mode == ColorMode::Velocity ==> view.color_of(v, speed) == ramp(t, view.color),
{
    reveal_with_fuel(ten_to, 7);
    assert(ten_to(6) == 1_000_000real);
    let scale = speed.maximum(Exact::decimal(1, 6)).value;
    root_is_unique(along(v, v), pace);
    let x = t.value;
    assert((x * scale) / scale == x) by (nonlinear_arith)
        requires
            0real < scale,
    ;
}

/// Whether particle `i` at `p` is shown: its number is a multiple of the step, and it lies between
/// the ends of the slice, if there is one.
pub open spec fn is_shown(view: ViewConfig<Exact>, i: int, p: Vec3<Exact>) -> bool {
    let step = if view.subsample == 0 {
        1
    } else {
        view.subsample as int
    };
    &&& i % step == 0
    &&& view.slice matches Some(slice) ==> {
        let x = match slice.axis {
            Axis::X => p.x.value,
            Axis::Y => p.y.value,
            Axis::Z => p.z.value,
        };
        slice.min.value <= x <= slice.max.value
    }
}

/// How many of the first `n` particles are shown.
pub open spec fn shown_before(view: ViewConfig<Exact>, positions: Seq<Vec3<Exact>>, n: int) -> nat
    decreases n,
{
    if n <= 0 {
        0
    } else if is_shown(view, n - 1, positions[n - 1]) {
        shown_before(view, positions, n - 1) + 1
    } else {
        shown_before(view, positions, n - 1)
    }
}

/// Exactly the particles that are shown are drawn, in order, each where it is and in its color.
pub proof fn shown_particles_are_drawn(
    view: ViewConfig<Exact>,
    positions: Seq<Vec3<Exact>>,
    velocities: Seq<Vec3<Exact>>,
    speed: Exact,
    n: int,
)
    ensures
        ({
            let dots = view.dots(positions, velocities, speed, n);
            &&& dots.len() == shown_before(view, positions, n)
            &&& forall|i: int|
                0 <= i < n && is_shown(view, i, #[trigger] positions[i]) ==> shown_before(
                    view,
                    positions,
                    i,
                ) < dots.len() && dots[shown_before(view, positions, i) as int] == (Instance {
                    pos: positions[i],
                    color: view.color_of(velocities[i], speed),
                })
        }),
    decreases n,
{
    if n > 0 {
        shown_particles_are_drawn(view, positions, velocities, speed, n - 1);
        assert(view.draws(n - 1, positions[n - 1]) == is_shown(view, n - 1, positions[n - 1]));
    }
}

} // verus!
