//! The real numbers, as the number type on which nothing is rounded.

use vstd::prelude::*;

use crate::scalar::Number;

verus! {

/// A real number. It exists in proofs only: laws that rounding would spoil are stated of it.
pub struct Exact {
    pub value: real,
}

/// Whether `r` is the square root of `x`.
pub open spec fn is_root(r: real, x: real) -> bool {
    0real <= r && r * r == x
}

/// Whether `x` has a square root, as every real number from zero on does.
pub open spec fn has_root(x: real) -> bool {
    exists|r: real| is_root(r, x)
}

/// The square root of `x`.
pub open spec fn root(x: real) -> real {
    choose|r: real| is_root(r, x)
}

/// `10^places`.
pub open spec fn ten_to(places: nat) -> real
    decreases places,
{
    if places == 0 {
        1real
    } else {
        10real * ten_to((places - 1) as nat)
    }
}

impl Number for Exact {
    open spec fn sum(self, other: Self) -> Self {
        Exact { value: self.value + other.value }
    }

    open spec fn difference(self, other: Self) -> Self {
        Exact { value: self.value - other.value }
    }

    open spec fn product(self, other: Self) -> Self {
        Exact { value: self.value * other.value }
    }

    open spec fn quotient(self, other: Self) -> Self {
        Exact { value: self.value / other.value }
    }

    open spec fn negation(self) -> Self {
        Exact { value: -self.value }
    }

    open spec fn square_root(self) -> Self {
        Exact { value: root(self.value) }
    }

    open spec fn magnitude(self) -> Self {
        Exact { value: if self.value < 0real { -self.value } else { self.value } }
    }

    open spec fn minimum(self, other: Self) -> Self {
        if other.value < self.value { other } else { self }
    }

    open spec fn maximum(self, other: Self) -> Self {
        if self.value < other.value { other } else { self }
    }

    open spec fn less(self, other: Self) -> bool {
        self.value < other.value
    }

    open spec fn at_most(self, other: Self) -> bool {
        self.value <= other.value
    }

    open spec fn equal(self, other: Self) -> bool {
        self.value == other.value
    }

    open spec fn finite(self) -> bool {
        true
    }

    open spec fn floored(self) -> i32 {
        let k = self.value.floor();
        if k < i32::MIN {
            i32::MIN
        } else if k > i32::MAX {
            i32::MAX
        } else {
            k as i32
        }
    }

    open spec fn whole(n: u64) -> Self {
        Exact { value: n as real }
    }

    open spec fn decimal(digits: i64, places: u32) -> Self {
        Exact { value: digits as real / ten_to(places as nat) }
    }
}

} // verus!
