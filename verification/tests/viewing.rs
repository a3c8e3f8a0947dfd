//! What a viewer shows and how it answers.

use physics_core::camera::OrbitCamera;
use physics_core::report::report_due;
use physics_core::start::{
    choose_domain, start, BoxConfig, ConfigError, SphereConfig, StartError,
};
use physics_core::viewer::{
    after_render, default_color, default_depth_scale, default_pixel_size, one, velocity_color,
    Aftermath, Axis, Color, ColorMode, Controls, Flow, Frame, Key, Rendered, SliceConfig,
    ViewConfig,
};
use physics_core::{Domain, Fixed, Scalar, Simulation, SimulationParams, Vec3};

fn fx(n: i64) -> Fixed {
    Fixed { raw: n << 32 }
}

fn at(x: i64, y: i64, z: i64) -> Vec3<Fixed> {
    Vec3 { x: fx(x), y: fx(y), z: fx(z) }
}

fn same(a: Vec3<Fixed>, b: Vec3<Fixed>) -> bool {
    a.x == b.x && a.y == b.y && a.z == b.z
}

fn controls() -> Controls<Fixed> {
    Controls::new(&Domain::Box { min: at(0, 0, 0), max: at(2, 4, 4) })
}

#[test]
fn a_configuration_has_one_domain() {
    let b = BoxConfig { min: at(0, 0, 0), max: at(1, 2, 3) };
    let s = SphereConfig { center: at(1, 1, 1), radius: fx(4) };
    match choose_domain(Some(b), None) {
        Ok(Domain::Box { min, max }) => {
            assert!(same(min, at(0, 0, 0)) && same(max, at(1, 2, 3)));
        }
        _ => panic!("a box was given"),
    }
    match choose_domain(None, Some(s)) {
        Ok(Domain::Sphere { center, radius }) => {
            assert!(same(center, at(1, 1, 1)) && radius == fx(4));
        }
        _ => panic!("a sphere was given"),
    }
    let both = choose_domain(Some(b), Some(s)).unwrap_err();
    assert_eq!(both, ConfigError::Both);
    assert_eq!(both.message(), "config must specify either [box] or [sphere], not both");
    let neither = choose_domain::<Fixed>(None, None).unwrap_err();
    assert_eq!(neither, ConfigError::Neither);
    assert_eq!(neither.message(), "config must specify [box] or [sphere]");
}

#[test]
fn simulations_start_as_configured() {
    let b = BoxConfig { min: at(0, 0, 0), max: at(10, 10, 10) };
    let s = SphereConfig { center: at(0, 0, 0), radius: fx(9) };
    let sim = start(Some(b), None, 5, fx(1), fx(2), fx(3), 1).ok().unwrap();
    assert_eq!(sim.len(), 5);
    assert_eq!(sim.velocities.len(), 5);
    assert!(sim.bodies.is_empty() && sim.cannons.is_empty());
    assert_eq!(sim.params.mass, fx(2));
    assert!(sim.positions.iter().all(|p| sim.params.domain.contains_center(*p, fx(1))));
    let error = |r: Result<Simulation<Fixed>, StartError>| r.err().unwrap();
    assert_eq!(
        error(start(Some(b), Some(s), 5, fx(1), fx(2), fx(3), 1)),
        StartError::Config(ConfigError::Both)
    );
    assert_eq!(
        error(start(None, None, 5, fx(1), fx(2), fx(3), 1)),
        StartError::Config(ConfigError::Neither)
    );
    assert_eq!(error(start(Some(b), None, 5, fx(6), fx(2), fx(3), 1)), StartError::NoSpace);
    assert_eq!(error(start(None, Some(s), 5000, fx(1), fx(2), fx(3), 1)), StartError::NoSpace);
}

#[test]
fn views_have_defaults() {
    let view: ViewConfig<Fixed> = ViewConfig::default();
    assert_eq!(view.particle_pixel_size, fx(6));
    assert_eq!(view.color_mode, ColorMode::Velocity);
    assert_eq!(view.color_mode, ColorMode::default());
    assert_eq!(view.subsample, 1);
    assert!(view.slice.is_none());
    assert_eq!(view.color.red, Fixed::from_decimal(9, 1));
    assert_eq!(view.color.green, Fixed::from_decimal(6, 1));
    assert_eq!(view.color.blue, Fixed::from_decimal(2, 1));
    assert_eq!(view.depth_scale, fx(0));
    assert!(!view.render_at_physical_size);
    assert_eq!(one(), 1);
    assert_eq!(default_pixel_size::<Fixed>(), fx(6));
    assert_eq!(default_depth_scale::<Fixed>(), fx(0));
    assert_eq!(default_color::<Fixed>().red, view.color.red);
}

#[test]
fn dots_have_a_world_radius_at_physical_size_only() {
    let mut view: ViewConfig<Fixed> = ViewConfig::default();
    assert_eq!(view.world_radius(fx(3)), None);
    view.render_at_physical_size = true;
    assert_eq!(view.world_radius(fx(3)), Some(fx(3)));
}

#[test]
fn colors_go_from_blue_to_warm() {
    let warm = Color { red: fx(1), green: fx(0), blue: fx(0) };
    let cool = velocity_color(fx(0), warm);
    assert_eq!(cool.red, Fixed::from_decimal(1, 1));
    assert_eq!(cool.green, Fixed::from_decimal(3, 1));
    assert_eq!(cool.blue, fx(1));
    let slow = velocity_color(fx(-5), warm);
    assert_eq!(slow.blue, cool.blue);
    let hot = velocity_color(fx(2), warm);
    assert_eq!(hot.red, fx(1));
    assert_eq!(hot.green, fx(0));
    assert_eq!(hot.blue, fx(0));
    // Three quarters of the reference speed is half-way up the ramp.
    let mid = velocity_color(Fixed { raw: 3 << 30 }, warm);
    assert_eq!(mid.blue, Fixed { raw: 1 << 31 });
    // Each channel moves one way.
    let mut last = cool;
    for i in 0..20 {
        let next = velocity_color(Fixed { raw: i << 29 }, warm);
        assert!(last.red.le(next.red) && next.green.le(last.green) && next.blue.le(last.blue));
        last = next;
    }
}

fn row() -> Simulation<Fixed> {
    let domain = Domain::Box { min: at(-50, -50, -50), max: at(50, 50, 50) };
    let positions = (0..10).map(|i| at(i, 2 * i, -i)).collect();
    let velocities = (0..10).map(|i| at(0, 0, i)).collect();
    Simulation::new(SimulationParams { radius: fx(1), mass: fx(1), domain }, positions, velocities)
}

#[test]
fn every_particle_is_drawn_by_default() {
    let view: ViewConfig<Fixed> = ViewConfig::default();
    let dots = view.build_instances(&row(), fx(1));
    assert_eq!(dots.len(), 10);
    for i in 0..10 {
        assert!(same(dots[i as usize].pos, at(i, 2 * i, -i)));
    }
    // The first particle rests, the last is fast.
    assert_eq!(dots[0].color.blue, fx(1));
    assert_eq!(dots[9].color.red, view.color.red);
}

#[test]
fn subsampling_skips_particles() {
    let mut view: ViewConfig<Fixed> = ViewConfig::default();
    view.subsample = 4;
    let dots = view.build_instances(&row(), fx(1));
    let drawn: Vec<i32> = dots.iter().map(|d| d.pos.x.floor()).collect();
    assert_eq!(drawn, vec![0, 4, 8]);
    view.subsample = usize::MAX;
    assert_eq!(view.build_instances(&row(), fx(1)).len(), 1);
    view.subsample = 0;
    assert_eq!(view.build_instances(&row(), fx(1)).len(), 10);
}

#[test]
fn slices_hide_what_is_outside() {
    let mut view: ViewConfig<Fixed> = ViewConfig::default();
    view.slice = Some(SliceConfig { axis: Axis::Y, min: fx(4), max: fx(10) });
    let drawn: Vec<i32> =
        view.build_instances(&row(), fx(1)).iter().map(|d| d.pos.x.floor()).collect();
    assert_eq!(drawn, vec![2, 3, 4, 5]);
    view.slice = Some(SliceConfig { axis: Axis::Z, min: fx(-3), max: fx(-2) });
    assert_eq!(view.build_instances(&row(), fx(1)).len(), 2);
    view.slice = Some(SliceConfig { axis: Axis::X, min: fx(9), max: fx(90) });
    assert_eq!(view.build_instances(&row(), fx(1)).len(), 1);
}

#[test]
fn uniform_color_ignores_the_speed() {
    let mut view: ViewConfig<Fixed> = ViewConfig::default();
    view.color_mode = ColorMode::Uniform;
    for dot in view.build_instances(&row(), fx(1)) {
        assert_eq!(dot.color.red, view.color.red);
        assert_eq!(dot.color.blue, view.color.blue);
    }
}

#[test]
fn cameras_frame_a_box() {
    let camera = OrbitCamera::looking_at_box(at(0, 0, 0), at(2, 4, 4));
    assert!(same(camera.target, at(1, 2, 2)));
    // The diagonal is six.
    assert_eq!(camera.radius, fx(6).mul(Fixed::from_decimal(14, 1)));
    assert_eq!(camera.zfar, fx(120));
    assert_eq!(camera.znear, Fixed::from_decimal(5, 2));
    assert_eq!(camera.yaw, Fixed::from_decimal(785_398_163_397, 12));
    assert_eq!(camera.pitch, Fixed::from_decimal(523_598_775_598, 12));
    assert!(!controls().paused);
}

#[test]
fn eyes_look_along_the_angles() {
    let mut camera = OrbitCamera::looking_at_box(at(0, 0, 0), at(2, 4, 4));
    camera.radius = fx(10);
    camera.yaw = fx(0);
    camera.pitch = fx(0);
    assert!(same(camera.eye(), at(1, 2, 12)));
    // A quarter turn to the side, then up.
    camera.yaw = Fixed::from_decimal(15_707_963_267_948_966, 16);
    let eye = camera.eye();
    let near = |a: Fixed, b: Fixed| a.sub(b).abs().lt(Fixed { raw: 1 << 12 });
    assert!(near(eye.x, fx(11)) && near(eye.y, fx(2)) && near(eye.z, fx(2)));
    camera.pitch = Fixed::from_decimal(15_707_963_267_948_966, 16);
    let eye = camera.eye();
    assert!(near(eye.x, fx(1)) && near(eye.y, fx(12)) && near(eye.z, fx(2)));
}

#[test]
fn reset_returns_to_the_first_view() {
    let first = controls();
    let mut c = controls();
    let keys = [
        Key::ArrowLeft,
        Key::ArrowUp,
        Key::ArrowUp,
        Key::Plus,
        Key::Minus,
        Key::ArrowDown,
        Key::ArrowRight,
        Key::ArrowRight,
        Key::Plus,
    ];
    for key in keys {
        assert_eq!(c.press(key, false), Flow::Continue);
    }
    assert!(c.camera.radius != first.camera.radius);
    assert!(c.camera.yaw != first.camera.yaw);
    // Holding the key down does nothing.
    c.press(Key::R, true);
    assert!(c.camera.radius != first.camera.radius);
    c.press(Key::R, false);
    assert_eq!(c.camera.radius, first.camera.radius);
    assert_eq!(c.camera.yaw, first.camera.yaw);
    assert_eq!(c.camera.pitch, first.camera.pitch);
}

#[test]
fn pitch_stops_short_of_the_poles() {
    let limit = Fixed::from_decimal(15_707_963_267_948_966, 16).sub(Fixed::from_decimal(5, 2));
    let mut c = controls();
    for _ in 0..100 {
        c.press(Key::ArrowUp, true);
    }
    assert_eq!(c.camera.pitch, limit);
    for _ in 0..100 {
        c.press(Key::ArrowDown, true);
    }
    assert_eq!(c.camera.pitch, limit.neg());
}

#[test]
fn zoom_stops_short_of_the_target() {
    let mut c = controls();
    for _ in 0..200 {
        c.press(Key::Plus, true);
    }
    assert_eq!(c.camera.radius, c.camera.znear.mul(fx(2)));
    c.press(Key::Minus, true);
    assert!(c.camera.znear.mul(fx(2)).lt(c.camera.radius));
}

#[test]
fn space_pauses_and_escape_ends() {
    let mut c = controls();
    assert_eq!(c.redraw(false), Frame::Skip);
    assert_eq!(c.redraw(true), Frame::StepAndDraw);
    c.press(Key::Space, false);
    assert!(c.paused);
    assert_eq!(c.redraw(true), Frame::Draw);
    c.press(Key::Space, true);
    assert!(c.paused);
    c.press(Key::Space, false);
    assert!(!c.paused);
    assert_eq!(c.press(Key::Other, false), Flow::Continue);
    assert_eq!(c.press(Key::Escape, false), Flow::Exit);
}

#[test]
fn frames_end_in_different_ways() {
    assert_eq!(after_render(Rendered::Done), Aftermath::Nothing);
    assert_eq!(after_render(Rendered::Lost), Aftermath::Resize);
    assert_eq!(after_render(Rendered::Outdated), Aftermath::Resize);
    assert_eq!(after_render(Rendered::OutOfMemory), Aftermath::Exit);
    assert_eq!(after_render(Rendered::Failed), Aftermath::Report);
}

#[test]
fn reports_are_due_at_multiples() {
    let due: Vec<u64> = (0..10).filter(|&s| report_due(s, 3)).collect();
    assert_eq!(due, vec![2, 5, 8]);
    assert!((0..10).all(|s| !report_due(s, 0)));
    assert!((0..10).all(|s| report_due(s, 1)));
}
