//! A camera that orbits the domain.

use vstd::prelude::*;

use crate::angle::{swing_of, Angle, Swing};
use crate::scalar::{pi, pi_value, Number, Scalar};
use crate::vector::Vec3;

verus! {

/// A camera at `radius` from `target`, which it looks at.
#[derive(Clone, Copy, Debug)]
pub struct OrbitCamera<S> {
    pub target: Vec3<S>,
    pub radius: S,
    /// Angle around the `y` axis, in radians.
    pub yaw: S,
    /// Angle up from the `xz` plane, in radians.
    pub pitch: S,
    /// Vertical field of view, in radians.
    pub fov_y: S,
    pub znear: S,
    pub zfar: S,
    /// The radius that [`OrbitCamera::reset`] returns to.
    pub initial_radius: S,
    /// The yaw that [`OrbitCamera::reset`] returns to.
    pub initial_yaw: S,
    /// The pitch that [`OrbitCamera::reset`] returns to.
    pub initial_pitch: S,
}

/// `x`, brought up to `lo` and then down to `hi`.
pub open spec fn clamped<S: Number>(x: S, lo: S, hi: S) -> S {
    let y = if x.less(lo) {
        lo
    } else {
        x
    };
    if hi.less(y) {
        hi
    } else {
        y
    }
}

/// A quarter turn, in radians.
pub open spec fn quarter_turn<S: Number>() -> S {
    S::decimal(15_707_963_267_948_966, 16)
}

/// The lowest pitch, a little above straight down.
pub open spec fn lowest_pitch<S: Number>() -> S {
    quarter_turn::<S>().negation().sum(S::decimal(5, 2))
}

/// The highest pitch, a little below straight up.
pub open spec fn highest_pitch<S: Number>() -> S {
    quarter_turn::<S>().difference(S::decimal(5, 2))
}

impl<S: Number> OrbitCamera<S> {
    /// A camera from which the box from `box_min` to `box_max` is in view.
    pub open spec fn framing(box_min: Vec3<S>, box_max: Vec3<S>) -> Self {
        let extent = box_max.difference(box_min).norm();
        let radius = extent.product(S::decimal(14, 1));
        let yaw = S::decimal(7_853_981_633_974_483, 16);
        let pitch = S::decimal(5_235_987_755_982_989, 16);
        OrbitCamera {
            target: box_min.sum(box_max).scaled(S::decimal(5, 1)),
            radius,
            yaw,
            pitch,
            fov_y: S::whole(60).product(pi_value::<S>().quotient(S::whole(180))),
            znear: S::decimal(5, 2),
            zfar: extent.product(S::whole(20)),
            initial_radius: radius,
            initial_yaw: yaw,
            initial_pitch: pitch,
        }
    }

    /// The camera back where it began.
    pub open spec fn restored(self) -> Self {
        OrbitCamera {
            radius: self.initial_radius,
            yaw: self.initial_yaw,
            pitch: self.initial_pitch,
            ..self
        }
    }

    /// The camera turned by `d_yaw` and `d_pitch`.
    pub open spec fn rotated(self, d_yaw: S, d_pitch: S) -> Self {
        OrbitCamera {
            yaw: self.yaw.sum(d_yaw),
            pitch: clamped(self.pitch.sum(d_pitch), lowest_pitch(), highest_pitch()),
            ..self
        }
    }

    /// The camera moved away from the target by `factor`, but not too close to it.
    pub open spec fn zoomed(self, factor: S) -> Self {
        OrbitCamera {
            radius: self.radius.product(factor).maximum(self.znear.product(S::whole(2))),
            ..self
        }
    }

    /// Where the camera is; `yaw` and `pitch` are the cosine and sine of its angles.
    pub open spec fn eye_at(self, yaw: Swing<S>, pitch: Swing<S>) -> Vec3<S> {
        let dir = Vec3 {
            x: pitch.cos.product(yaw.sin),
            y: pitch.sin,
            z: pitch.cos.product(yaw.cos),
        };
        self.target.sum(dir.scaled(self.radius))
    }
}

pub fn clamp<S: Scalar>(x: S, lo: S, hi: S) -> (r: S)
    ensures
        r == clamped(x, lo, hi),
{
    let y = if x.lt(lo) {
        lo
    } else {
        x
    };
    if hi.lt(y) {
        hi
    } else {
        y
    }
}

impl<S: Scalar> OrbitCamera<S> {
    pub fn looking_at_box(box_min: Vec3<S>, box_max: Vec3<S>) -> (r: Self)
        ensures
            r == Self::framing(box_min, box_max),
    {
        let extent = box_max.sub(box_min).length();
        let radius = extent.mul(S::from_decimal(14, 1));
        let yaw = S::from_decimal(7_853_981_633_974_483, 16);
        let pitch = S::from_decimal(5_235_987_755_982_989, 16);
        OrbitCamera {
            target: box_min.add(box_max).scale(S::from_decimal(5, 1)),
            radius,
            yaw,
            pitch,
            fov_y: S::from_u64(60).mul(pi::<S>().div(S::from_u64(180))),
            znear: S::from_decimal(5, 2),
            zfar: extent.mul(S::from_u64(20)),
            initial_radius: radius,
            initial_yaw: yaw,
            initial_pitch: pitch,
        }
    }

    pub fn reset(&mut self)
        ensures
            *final(self) == old(self).restored(),
    {
        self.radius = self.initial_radius;
        self.yaw = self.initial_yaw;
        self.pitch = self.initial_pitch;
    }

    pub fn rotate(&mut self, d_yaw: S, d_pitch: S)
        ensures
            *final(self) == old(self).rotated(d_yaw, d_pitch),
    {
        let quarter = S::from_decimal(15_707_963_267_948_966, 16);
        let margin = S::from_decimal(5, 2);
        self.yaw = self.yaw.add(d_yaw);
        self.pitch = clamp(
            self.pitch.add(d_pitch),
            quarter.neg().add(margin),
            quarter.sub(margin),
        );
    }

    pub fn zoom(&mut self, factor: S)
        ensures
            *final(self) == old(self).zoomed(factor),
    {
        self.radius = self.radius.mul(factor).max(self.znear.mul(S::from_u64(2)));
    }
}

impl<S: Angle> OrbitCamera<S> {
    /// Where the camera is.
    pub fn eye(&self) -> (r: Vec3<S>)
        ensures
            r == self.eye_at(swing_of(self.yaw), swing_of(self.pitch)),
    {
        let cp = self.pitch.cos();
        let dir = Vec3::new(cp.mul(self.yaw.sin()), self.pitch.sin(), cp.mul(self.yaw.cos()));
        self.target.add(dir.scale(self.radius))
    }
}

} // verus!
