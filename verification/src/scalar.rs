//! The arithmetic that every quantity of the simulation is expressed in.

use vstd::prelude::*;

verus! {

/// What the arithmetic of a number type computes.
///
/// Nothing is demanded of the operations beyond being functions of their operands: a type
/// may round or saturate, and every contract that is stated over this trait still holds of
/// it. [`crate::Fixed`] rounds; [`crate::Exact`] stands for the real numbers.
pub trait Number: Sized {
    /// The value of `self + other`.
    spec fn sum(self, other: Self) -> Self;

    /// The value of `self - other`.
    spec fn difference(self, other: Self) -> Self;

    /// The value of `self * other`.
    spec fn product(self, other: Self) -> Self;

    /// The value of `self / other`.
    spec fn quotient(self, other: Self) -> Self;

    /// The value of `-self`.
    spec fn negation(self) -> Self;

    /// The square root of `self`.
    spec fn square_root(self) -> Self;

    /// The absolute value of `self`.
    spec fn magnitude(self) -> Self;

    /// The smaller of `self` and `other`.
    spec fn minimum(self, other: Self) -> Self;

    /// The larger of `self` and `other`.
    spec fn maximum(self, other: Self) -> Self;

    /// Whether `self < other`.
    spec fn less(self, other: Self) -> bool;

    /// Whether `self <= other`.
    spec fn at_most(self, other: Self) -> bool;

    /// Whether `self` and `other` compare equal.
    spec fn equal(self, other: Self) -> bool;

    /// Whether `self` is neither infinite nor undefined.
    spec fn finite(self) -> bool;

    /// `self` rounded down to an integer, as an `i32`.
    spec fn floored(self) -> i32;

    /// The value that stands for the integer `n`.
    spec fn whole(n: u64) -> Self;

    /// The value that stands for the decimal number `digits / 10^places`.
    spec fn decimal(digits: i64, places: u32) -> Self;
}

/// A number type that a simulation can run on.
///
/// Each operation returns what the [`Number`] of the same type says, so that the contracts
/// in this crate fix, operation by operation and in order, what is computed.
pub trait Scalar: Number + Copy + Send + Sync {
    fn add(self, other: Self) -> (r: Self)
        ensures
            r == self.sum(other),
    ;

    fn sub(self, other: Self) -> (r: Self)
        ensures
            r == self.difference(other),
    ;

    fn mul(self, other: Self) -> (r: Self)
        ensures
            r == self.product(other),
    ;

    fn div(self, other: Self) -> (r: Self)
        ensures
            r == self.quotient(other),
    ;

    fn neg(self) -> (r: Self)
        ensures
            r == self.negation(),
    ;

    fn sqrt(self) -> (r: Self)
        ensures
            r == self.square_root(),
    ;

    fn abs(self) -> (r: Self)
        ensures
            r == self.magnitude(),
    ;

    fn min(self, other: Self) -> (r: Self)
        ensures
            r == self.minimum(other),
    ;

    fn max(self, other: Self) -> (r: Self)
        ensures
            r == self.maximum(other),
    ;

    fn lt(self, other: Self) -> (r: bool)
        ensures
            r == self.less(other),
    ;

    fn le(self, other: Self) -> (r: bool)
        ensures
            r == self.at_most(other),
    ;

    fn eq(self, other: Self) -> (r: bool)
        ensures
            r == self.equal(other),
    ;

    fn is_finite(self) -> (r: bool)
        ensures
            r == self.finite(),
    ;

    fn floor(self) -> (r: i32)
        ensures
            r == self.floored(),
    ;

    fn from_u64(n: u64) -> (r: Self)
        ensures
            r == Self::whole(n),
    ;

    fn from_decimal(digits: i64, places: u32) -> (r: Self)
        ensures
            r == Self::decimal(digits, places),
    ;
}

/// The ratio of a circle's circumference to its diameter, as a scalar.
pub open spec fn pi_value<S: Number>() -> S {
    S::decimal(31_415_926_535_897_932, 16)
}

/// A full turn in radians, as a scalar.
pub open spec fn tau_value<S: Number>() -> S {
    S::decimal(62_831_853_071_795_864, 16)
}

/// The square root of two, as a scalar.
pub open spec fn sqrt_2_value<S: Number>() -> S {
    S::decimal(14_142_135_623_730_951, 16)
}

pub fn pi<S: Scalar>() -> (r: S)
    ensures
        r == pi_value::<S>(),
{
    S::from_decimal(31_415_926_535_897_932, 16)
}

pub fn tau<S: Scalar>() -> (r: S)
    ensures
        r == tau_value::<S>(),
{
    S::from_decimal(62_831_853_071_795_864, 16)
}

pub fn sqrt_2<S: Scalar>() -> (r: S)
    ensures
        r == sqrt_2_value::<S>(),
{
    S::from_decimal(14_142_135_623_730_951, 16)
}

} // verus!
