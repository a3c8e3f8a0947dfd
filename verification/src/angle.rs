//! Cosines and sines.

use vstd::prelude::*;

use crate::fixed::Fixed;
use crate::scalar::{Number, Scalar};

verus! {

/// The cosine and sine of an angle.
#[derive(Clone, Copy, Debug)]
pub struct Swing<S> {
    pub cos: S,
    pub sin: S,
}

/// A number type that has cosines and sines of angles in radians.
pub trait Angle: Scalar {
    /// The cosine of `self`.
    spec fn cosine(self) -> Self;

    /// The sine of `self`.
    spec fn sine(self) -> Self;

    fn cos(self) -> (r: Self)
        ensures
            r == self.cosine(),
    ;

    fn sin(self) -> (r: Self)
        ensures
            r == self.sine(),
    ;
}

/// The cosine and sine of an angle.
pub open spec fn swing_of<S: Angle>(angle: S) -> Swing<S> {
    Swing { cos: angle.cosine(), sin: angle.sine() }
}

/// The term that follows `term`, which has the power `k`, in the power series of cosine and sine;
/// `square` is the square of the angle.
pub open spec fn next_term(term: Fixed, square: Fixed, k: u64) -> Fixed {
    term.product(square).negation().quotient(Fixed::whole(((k + 1) * (k + 2)) as u64))
}

/// The sum of `n` terms of the power series of cosine and sine, from `term` on, which has the
/// power `k`.
pub open spec fn series(term: Fixed, square: Fixed, k: u64, n: nat) -> Fixed
    decreases n,
{
    if n == 0 {
        Fixed::whole(0)
    } else {
        term.sum(
            series(next_term(term, square, k), square, (k + 2) as u64, (n - 1) as nat),
        )
    }
}

/// Adds up `n` terms of the power series of cosine and sine.
fn sum_series(term: Fixed, square: Fixed, k: u64, n: u64) -> (r: Fixed)
    requires
        k + 2 * n <= 1000,
    ensures
        r == series(term, square, k, n as nat),
    decreases n,
{
    if n == 0 {
        return Fixed::from_u64(0);
    }
    proof {
        assert((k + 1) * (k + 2) <= 2000000) by (nonlinear_arith)
            requires
                k <= 1000,
        ;
    }
    let next = term.mul(square).neg().div(Fixed::from_u64((k + 1) * (k + 2)));
    term.add(sum_series(next, square, k + 2, n - 1))
}

/// `x`, but no less than minus one and no more than one.
pub open spec fn within_one(x: Fixed) -> Fixed {
    x.maximum(Fixed::whole(1).negation()).minimum(Fixed::whole(1))
}

/// The power series, with enough terms for the angles of a full turn. What rounding adds beyond
/// one is cut off.
impl Angle for Fixed {
    open spec fn cosine(self) -> Self {
        within_one(series(Fixed::whole(1), self.product(self), 0, 24))
    }

    open spec fn sine(self) -> Self {
        within_one(series(self, self.product(self), 1, 24))
    }

    fn cos(self) -> (r: Self) {
        let one = Fixed::from_u64(1);
        sum_series(one, self.mul(self), 0, 24).max(one.neg()).min(one)
    }

    fn sin(self) -> (r: Self) {
        let one = Fixed::from_u64(1);
        sum_series(self, self.mul(self), 1, 24).max(one.neg()).min(one)
    }
}

} // verus!
