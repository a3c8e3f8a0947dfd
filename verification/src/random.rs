//! Random numbers and cube roots, which the filling of a simulation needs.

use rand::Rng;
use rand_xoshiro::rand_core::SeedableRng;
use rand_xoshiro::Xoshiro256PlusPlus;
use vstd::prelude::*;

use crate::fixed::{fixed_cube_root, Fixed};
use crate::scalar::{Number, Scalar};

verus! {

/// rand_xoshiro's generator of random numbers.
#[verifier::external_type_specification]
#[verifier::external_body]
pub struct ExXoshiro256PlusPlus(Xoshiro256PlusPlus);

/// The generator that a seed gives.
pub uninterp spec fn generator(seed: u64) -> Xoshiro256PlusPlus;

/// The integer that a generator draws from the range from `low` on and below `high`, and the
/// generator after that.
pub uninterp spec fn integer_draw(rng: Xoshiro256PlusPlus, low: i64, high: i64) -> (
    i64,
    Xoshiro256PlusPlus,
);

/// A generator from a seed.
///
/// Trusted: `Xoshiro256PlusPlus::seed_from_u64` returns the same generator whenever it is given
/// the same seed. How it spreads the seed over its state is left unsaid.
#[verifier::external_body]
pub(crate) fn seeded(seed: u64) -> (r: Xoshiro256PlusPlus)
    ensures
        r == generator(seed),
{
    Xoshiro256PlusPlus::seed_from_u64(seed)
}

/// An integer from the range from `low` on and below `high`.
///
/// Trusted: `Rng::gen_range` returns a number from the range, and that number and the state of
/// the generator afterwards depend on the state before and on the range alone. It panics on an
/// empty range. Which number it is, and how likely, is left unsaid.
#[verifier::external_body]
fn draw_integer(rng: &mut Xoshiro256PlusPlus, low: i64, high: i64) -> (r: i64)
    requires
        low < high,
    ensures
        low <= r < high,
        (r, *final(rng)) == integer_draw(*old(rng), low, high),
{
    rng.gen_range(low..high)
}

/// A number type in which a simulation can be filled.
pub trait Sampler: Scalar {
    /// The cube root of `self`.
    spec fn cube_root(self) -> Self;

    /// The number that a generator draws from the range from `low` on and below `high`, and the
    /// generator after that.
    spec fn draw(rng: Xoshiro256PlusPlus, low: Self, high: Self) -> (Self, Xoshiro256PlusPlus);

    fn cbrt(self) -> (r: Self)
        ensures
            r == self.cube_root(),
    ;

    fn uniform(rng: &mut Xoshiro256PlusPlus, low: Self, high: Self) -> (r: Self)
        requires
            low.less(high),
            high.difference(low).finite(),
        ensures
            low.at_most(r),
            r.less(high),
            (r, *final(rng)) == Self::draw(*old(rng), low, high),
    ;
}

impl Sampler for Fixed {
    open spec fn cube_root(self) -> Self {
        fixed_cube_root(self)
    }

    open spec fn draw(rng: Xoshiro256PlusPlus, low: Self, high: Self) -> (
        Self,
        Xoshiro256PlusPlus,
    ) {
        let (raw, after) = integer_draw(rng, low.raw, high.raw);
        (Fixed { raw }, after)
    }

    fn cbrt(self) -> (r: Self) {
        self.cube_root_of()
    }

    fn uniform(rng: &mut Xoshiro256PlusPlus, low: Self, high: Self) -> (r: Self) {
        Fixed { raw: draw_integer(rng, low.raw, high.raw) }
    }
}

} // verus!
