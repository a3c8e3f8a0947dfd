//! Vectors of three scalars.

use vstd::prelude::*;

use crate::scalar::{Number, Scalar};

verus! {

/// A point or a direction in space.
#[derive(Clone, Copy, Debug)]
pub struct Vec3<S> {
    pub x: S,
    pub y: S,
    pub z: S,
}

impl<S: Number> Vec3<S> {
    /// The vector whose components are all `s`.
    pub open spec fn splatted(s: S) -> Self {
        Vec3 { x: s, y: s, z: s }
    }

    /// The zero vector.
    pub open spec fn origin() -> Self {
        Self::splatted(S::whole(0))
    }

    /// The component-wise sum.
    pub open spec fn sum(self, other: Self) -> Self {
        Vec3 { x: self.x.sum(other.x), y: self.y.sum(other.y), z: self.z.sum(other.z) }
    }

    /// The component-wise difference.
    pub open spec fn difference(self, other: Self) -> Self {
        Vec3 {
            x: self.x.difference(other.x),
            y: self.y.difference(other.y),
            z: self.z.difference(other.z),
        }
    }

    /// Every component multiplied by `s`.
    pub open spec fn scaled(self, s: S) -> Self {
        Vec3 { x: self.x.product(s), y: self.y.product(s), z: self.z.product(s) }
    }

    /// Every component divided by `s`.
    pub open spec fn divided(self, s: S) -> Self {
        Vec3 { x: self.x.quotient(s), y: self.y.quotient(s), z: self.z.quotient(s) }
    }

    /// The dot product, summed from `x` to `z`.
    pub open spec fn dot_product(self, other: Self) -> S {
        self.x.product(other.x).sum(self.y.product(other.y)).sum(self.z.product(other.z))
    }

    /// The square of the length.
    pub open spec fn squared_length(self) -> S {
        self.dot_product(self)
    }

    /// The length.
    pub open spec fn norm(self) -> S {
        self.squared_length().square_root()
    }

    /// The smallest component.
    pub open spec fn least(self) -> S {
        self.x.minimum(self.y.minimum(self.z))
    }

    /// The vector of the same direction and length one, or the zero vector where the
    /// reciprocal of the length is not a positive finite number.
    pub open spec fn unit(self) -> Self {
        let reciprocal = S::whole(1).quotient(self.norm());
        if reciprocal.finite() && S::whole(0).less(reciprocal) {
            self.scaled(reciprocal)
        } else {
            Self::origin()
        }
    }
}

impl<S: Scalar> Vec3<S> {
    pub fn new(x: S, y: S, z: S) -> (r: Self)
        ensures
            r == (Vec3 { x, y, z }),
    {
        Vec3 { x, y, z }
    }

    pub fn splat(s: S) -> (r: Self)
        ensures
            r == Self::splatted(s),
    {
        Vec3 { x: s, y: s, z: s }
    }

    pub fn zero() -> (r: Self)
        ensures
            r == Self::origin(),
    {
        Vec3::splat(S::from_u64(0))
    }

    pub fn add(self, other: Self) -> (r: Self)
        ensures
            r == self.sum(other),
    {
        Vec3 { x: self.x.add(other.x), y: self.y.add(other.y), z: self.z.add(other.z) }
    }

    pub fn sub(self, other: Self) -> (r: Self)
        ensures
            r == self.difference(other),
    {
        Vec3 { x: self.x.sub(other.x), y: self.y.sub(other.y), z: self.z.sub(other.z) }
    }

    pub fn scale(self, s: S) -> (r: Self)
        ensures
            r == self.scaled(s),
    {
        Vec3 { x: self.x.mul(s), y: self.y.mul(s), z: self.z.mul(s) }
    }

    pub fn div(self, s: S) -> (r: Self)
        ensures
            r == self.divided(s),
    {
        Vec3 { x: self.x.div(s), y: self.y.div(s), z: self.z.div(s) }
    }

    pub fn dot(self, other: Self) -> (r: S)
        ensures
            r == self.dot_product(other),
    {
        self.x.mul(other.x).add(self.y.mul(other.y)).add(self.z.mul(other.z))
    }

    pub fn length_squared(self) -> (r: S)
        ensures
            r == self.squared_length(),
    {
        self.dot(self)
    }

    pub fn length(self) -> (r: S)
        ensures
            r == self.norm(),
    {
        self.length_squared().sqrt()
    }

    pub fn min_element(self) -> (r: S)
        ensures
            r == self.least(),
    {
        self.x.min(self.y.min(self.z))
    }

    pub fn normalize_or_zero(self) -> (r: Self)
        ensures
            r == self.unit(),
    {
        let reciprocal = S::from_u64(1).div(self.length());
        if reciprocal.is_finite() && S::from_u64(0).lt(reciprocal) {
            self.scale(reciprocal)
        } else {
            Vec3::zero()
        }
    }
}

/// The sum of `vectors`, added up from the zero vector in order.
pub open spec fn total<S: Number>(vectors: Seq<Vec3<S>>) -> Vec3<S>
    decreases vectors.len(),
{
    if vectors.len() == 0 {
        Vec3::origin()
    } else {
        total(vectors.drop_last()).sum(vectors.last())
    }
}

/// Adds up `vectors` in order.
pub fn sum_of<S: Scalar>(vectors: &Vec<Vec3<S>>) -> (r: Vec3<S>)
    ensures
        r == total(vectors@),
{
    let mut acc: Vec3<S> = Vec3::zero();
    let mut i: usize = 0;
    while i < vectors.len()
        invariant
            i <= vectors.len(),
            acc == total(vectors@.take(i as int)),
        decreases vectors.len() - i,
    {
        proof {
            assert(vectors@.take(i as int + 1).drop_last() =~= vectors@.take(i as int));
        }
        acc = acc.add(vectors[i]);
        i = i + 1;
    }
    proof {
        assert(vectors@.take(i as int) =~= vectors@);
    }
    acc
}

} // verus!
