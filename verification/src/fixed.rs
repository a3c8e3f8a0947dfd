//! Fixed-point numbers: a simulation that gives the same bits on every machine.

use vstd::arithmetic::div_mod::lemma_div_denominator;
use vstd::prelude::*;

use crate::scalar::{Number, Scalar};

verus! {

/// A multiple of `1 / 2^32` from `-2^31` on and below `2^31`. Results out of this range
/// saturate; results between two multiples are rounded toward zero.
#[derive(Clone, Copy, Debug, PartialEq, Eq, Structural)]
pub struct Fixed {
    pub raw: i64,
}

/// `2^32`, the raw value of one.
pub open spec fn unit() -> int {
    0x1_0000_0000
}

/// The number with the raw value nearest to `raw`.
pub open spec fn saturated(raw: int) -> Fixed {
    if raw > i64::MAX {
        Fixed { raw: i64::MAX }
    } else if raw < i64::MIN {
        Fixed { raw: i64::MIN }
    } else {
        Fixed { raw: raw as i64 }
    }
}

/// `n / d`, rounded toward zero.
pub open spec fn truncated(n: int, d: int) -> int {
    if (n < 0) == (d < 0) {
        size(n) / size(d)
    } else {
        -(size(n) / size(d))
    }
}

/// The absolute value of `n`.
pub open spec fn size(n: int) -> int {
    if n < 0 {
        -n
    } else {
        n
    }
}

/// Whether `root` is the square root of `n`, rounded down.
pub open spec fn is_floor_root(root: int, n: int) -> bool {
    0 <= root && root * root <= n && n < (root + 1) * (root + 1)
}

/// The square root of `n`, rounded down.
pub open spec fn floor_root(n: int) -> int {
    choose|root: int| is_floor_root(root, n)
}

/// Whether `root` is the cube root of `n`, rounded down.
pub open spec fn is_floor_cube_root(root: int, n: int) -> bool {
    0 <= root && root * root * root <= n && n < (root + 1) * (root + 1) * (root + 1)
}

/// The cube root of `n`, rounded down.
pub open spec fn floor_cube_root(n: int) -> int {
    choose|root: int| is_floor_cube_root(root, n)
}

/// `10^places`.
pub open spec fn power_of_ten(places: nat) -> int
    decreases places,
{
    if places == 0 {
        1
    } else {
        10 * power_of_ten((places - 1) as nat)
    }
}

impl Number for Fixed {
    open spec fn sum(self, other: Self) -> Self {
        saturated(self.raw + other.raw)
    }

    open spec fn difference(self, other: Self) -> Self {
        saturated(self.raw - other.raw)
    }

    open spec fn product(self, other: Self) -> Self {
        saturated(truncated(self.raw * other.raw, unit()))
    }

    open spec fn quotient(self, other: Self) -> Self {
        if other.raw != 0 {
            saturated(truncated(self.raw * unit(), other.raw as int))
        } else if self.raw > 0 {
            Fixed { raw: i64::MAX }
        } else if self.raw < 0 {
            Fixed { raw: i64::MIN }
        } else {
            Fixed { raw: 0 }
        }
    }

    open spec fn negation(self) -> Self {
        saturated(-self.raw)
    }

    open spec fn square_root(self) -> Self {
        if self.raw > 0 {
            saturated(floor_root(self.raw * unit()))
        } else {
            Fixed { raw: 0 }
        }
    }

    open spec fn magnitude(self) -> Self {
        saturated(size(self.raw as int))
    }

    open spec fn minimum(self, other: Self) -> Self {
        if other.raw < self.raw {
            other
        } else {
            self
        }
    }

    open spec fn maximum(self, other: Self) -> Self {
        if self.raw < other.raw {
            other
        } else {
            self
        }
    }

    open spec fn less(self, other: Self) -> bool {
        self.raw < other.raw
    }

    open spec fn at_most(self, other: Self) -> bool {
        self.raw <= other.raw
    }

    open spec fn equal(self, other: Self) -> bool {
        self.raw == other.raw
    }

    open spec fn finite(self) -> bool {
        true
    }

    open spec fn floored(self) -> i32 {
        (self.raw as int / unit()) as i32
    }

    open spec fn whole(n: u64) -> Self {
        saturated(n * unit())
    }

    open spec fn decimal(digits: i64, places: u32) -> Self {
        saturated(truncated(digits * unit(), power_of_ten(places as nat)))
    }
}

/// The absolute value of `n`.
fn size_of(n: i64) -> (r: u64)
    ensures
        r == size(n as int),
        r <= 0x8000_0000_0000_0000,
{
    if n < 0 {
        (-(n as i128)) as u64
    } else {
        n as u64
    }
}

/// The number with the given sign whose absolute raw value is `size`, as far as it is in range.
fn with_sign(negative: bool, size: u128) -> (r: Fixed)
    ensures
        r == saturated(if negative { -(size as int) } else { size as int }),
{
    if negative {
        if size >= 0x8000_0000_0000_0000 {
            Fixed { raw: i64::MIN }
        } else {
            Fixed { raw: -(size as i64) }
        }
    } else if size > 0x7fff_ffff_ffff_ffff {
        Fixed { raw: i64::MAX }
    } else {
        Fixed { raw: size as i64 }
    }
}

/// The square root of `n`, rounded down, by bisection.
fn floor_root_of(n: u128) -> (r: u64)
    requires
        n < 0x1_0000_0000_0000_0000_0000_0000,
    ensures
        r == floor_root(n as int),
        is_floor_root(r as int, n as int),
{
    let mut lo: u64 = 0;
    let mut hi: u64 = 0x1_0000_0000_0000;
    proof {
        assert(0x1_0000_0000_0000int * 0x1_0000_0000_0000int
            == 0x1_0000_0000_0000_0000_0000_0000int) by (nonlinear_arith);
    }
    while hi - lo > 1
        invariant
            lo < hi <= 0x1_0000_0000_0000,
            lo * lo <= n < hi * hi,
        decreases hi - lo,
    {
        let mid: u64 = lo + (hi - lo) / 2;
        proof {
            assert(mid * mid <= 0x1_0000_0000_0000_0000_0000_0000int) by (nonlinear_arith)
                requires
                    0 <= mid <= 0x1_0000_0000_0000,
            ;
        }
        if (mid as u128) * (mid as u128) <= n {
            lo = mid;
        } else {
            hi = mid;
        }
    }
    proof {
        assert(hi == lo + 1);
        assert(is_floor_root(lo as int, n as int));
        floor_root_is_unique(lo as int, floor_root(n as int), n as int);
    }
    lo
}

/// A number has only one square root, rounded down.
pub proof fn floor_root_is_unique(p: int, q: int, n: int)
    requires
        is_floor_root(p, n),
        is_floor_root(q, n),
    ensures
        p == q,
{
    assert(p == q) by (nonlinear_arith)
        requires
            0 <= p,
            0 <= q,
            p * p <= n < (p + 1) * (p + 1),
            q * q <= n < (q + 1) * (q + 1),
    ;
}

/// The cube root of `n`, rounded down, by bisection.
fn floor_cube_root_of(n: u128) -> (r: u64)
    requires
        n <= 0x8000_0000_0000_0000_0000_0000_0000_0000,
    ensures
        r == floor_cube_root(n as int),
        is_floor_cube_root(r as int, n as int),
{
    let mut lo: u64 = 0;
    let mut hi: u64 = 0x600_0000_0000;
    while hi - lo > 1
        invariant
            lo < hi <= 0x600_0000_0000,
            lo * lo * lo <= n,
            n < hi * hi * hi,
        decreases hi - lo,
    {
        let mid: u64 = lo + (hi - lo) / 2;
        proof {
            lemma_cubes_ordered(mid as int, 0x600_0000_0000);
            lemma_squares_ordered(mid as int, 0x600_0000_0000);
        }
        let square: u128 = (mid as u128) * (mid as u128);
        if square * (mid as u128) <= n {
            lo = mid;
        } else {
            hi = mid;
        }
    }
    proof {
        assert(hi == lo + 1);
        assert(is_floor_cube_root(lo as int, n as int));
        floor_cube_root_is_unique(lo as int, floor_cube_root(n as int), n as int);
    }
    lo
}

proof fn lemma_squares_ordered(a: int, b: int)
    by (nonlinear_arith)
    requires
        0 <= a <= b,
    ensures
        0 <= a * a <= b * b,
{
}

proof fn lemma_products_ordered(a: int, b: int, c: int, d: int)
    by (nonlinear_arith)
    requires
        0 <= a <= b,
        0 <= c <= d,
    ensures
        0 <= a * c <= b * d,
{
}

proof fn lemma_cubes_ordered(a: int, b: int)
    requires
        0 <= a <= b,
    ensures
        0 <= a * a * a <= b * b * b,
{
    lemma_squares_ordered(a, b);
    lemma_products_ordered(a * a, b * b, a, b);
}

/// A number has only one cube root, rounded down.
pub proof fn floor_cube_root_is_unique(p: int, q: int, n: int)
    requires
        is_floor_cube_root(p, n),
        is_floor_cube_root(q, n),
    ensures
        p == q,
{
    if p < q {
        lemma_cubes_ordered(p + 1, q);
    } else if q < p {
        lemma_cubes_ordered(q + 1, p);
    }
}

/// The cube root of a number, rounded toward zero.
pub open spec fn fixed_cube_root(x: Fixed) -> Fixed {
    let root = floor_cube_root(size(x.raw as int) * (unit() * unit()));
    saturated(
        if x.raw < 0 {
            -root
        } else {
            root
        },
    )
}

impl Fixed {
    /// The cube root, rounded toward zero.
    pub(crate) fn cube_root_of(self) -> (r: Self)
        ensures
            r == fixed_cube_root(self),
    {
        let cube: u128 = size_of(self.raw) as u128 * 0x1_0000_0000_0000_0000;
        with_sign(self.raw < 0, floor_cube_root_of(cube) as u128)
    }
}

proof fn lemma_power_positive(places: nat)
    ensures
        power_of_ten(places) > 0,
    decreases places,
{
    if places > 0 {
        lemma_power_positive((places - 1) as nat);
    }
}

/// `n / 10^places`.
fn shift_right_decimal(n: u128, places: u32) -> (r: u128)
    ensures
        r == n as int / power_of_ten(places as nat),
{
    let mut m: u128 = n;
    let mut k: u32 = 0;
    while k < places
        invariant
            k <= places,
            m == n as int / power_of_ten(k as nat),
        decreases places - k,
    {
        proof {
            lemma_power_positive(k as nat);
            lemma_div_denominator(n as int, power_of_ten(k as nat), 10);
            assert(power_of_ten(k as nat) * 10 == power_of_ten((k + 1) as nat));
        }
        m = m / 10;
        k = k + 1;
        if m == 0 {
            proof {
                lemma_zero_stays(n as int, k as nat, places as nat);
            }
            return 0;
        }
    }
    m
}

proof fn lemma_zero_stays(n: int, k: nat, places: nat)
    requires
        0 <= n,
        n / power_of_ten(k) == 0,
        k <= places,
    ensures
        n / power_of_ten(places) == 0,
    decreases places - k,
{
    if k < places {
        lemma_power_positive(k);
        lemma_div_denominator(n, power_of_ten(k), 10);
        assert(power_of_ten(k) * 10 == power_of_ten(k + 1));
        lemma_zero_stays(n, k + 1, places);
    }
}

/// Signs and sizes of a product.
proof fn lemma_product_size(a: int, b: int)
    ensures
        size(a * b) == size(a) * size(b),
        a != 0 && b != 0 ==> ((a * b < 0) == ((a < 0) != (b < 0))),
        a == 0 || b == 0 ==> a * b == 0,
{
    assert(size(a * b) == size(a) * size(b)) by (nonlinear_arith);
    assert(a != 0 && b != 0 ==> ((a * b < 0) == ((a < 0) != (b < 0)))) by (nonlinear_arith);
    assert(a == 0 || b == 0 ==> a * b == 0) by (nonlinear_arith);
}

impl Scalar for Fixed {
    fn add(self, other: Self) -> (r: Self) {
        let sum: i128 = self.raw as i128 + other.raw as i128;
        with_sign(sum < 0, if sum < 0 { (-sum) as u128 } else { sum as u128 })
    }

    fn sub(self, other: Self) -> (r: Self) {
        let difference: i128 = self.raw as i128 - other.raw as i128;
        with_sign(
            difference < 0,
            if difference < 0 { (-difference) as u128 } else { difference as u128 },
        )
    }

    fn mul(self, other: Self) -> (r: Self) {
        let a: u128 = size_of(self.raw) as u128;
        let b: u128 = size_of(other.raw) as u128;
        proof {
            assert(a * b <= 0x4000_0000_0000_0000_0000_0000_0000_0000int) by (nonlinear_arith)
                requires
                    0 <= a <= 0x8000_0000_0000_0000,
                    0 <= b <= 0x8000_0000_0000_0000,
            ;
            lemma_product_size(self.raw as int, other.raw as int);
        }
        with_sign((self.raw < 0) != (other.raw < 0), a * b / 0x1_0000_0000)
    }

    fn div(self, other: Self) -> (r: Self) {
        if other.raw == 0 {
            if self.raw > 0 {
                Fixed { raw: i64::MAX }
            } else if self.raw < 0 {
                Fixed { raw: i64::MIN }
            } else {
                Fixed { raw: 0 }
            }
        } else {
            let a: u128 = size_of(self.raw) as u128;
            let b: u128 = size_of(other.raw) as u128;
            with_sign((self.raw < 0) != (other.raw < 0), a * 0x1_0000_0000 / b)
        }
    }

    fn neg(self) -> (r: Self) {
        with_sign(self.raw > 0, size_of(self.raw) as u128)
    }

    fn sqrt(self) -> (r: Self) {
        if self.raw > 0 {
            with_sign(false, floor_root_of(self.raw as u128 * 0x1_0000_0000) as u128)
        } else {
            Fixed { raw: 0 }
        }
    }

    fn abs(self) -> (r: Self) {
        with_sign(false, size_of(self.raw) as u128)
    }

    fn min(self, other: Self) -> (r: Self) {
        if other.raw < self.raw {
            other
        } else {
            self
        }
    }

    fn max(self, other: Self) -> (r: Self) {
        if self.raw < other.raw {
            other
        } else {
            self
        }
    }

    fn lt(self, other: Self) -> (r: bool) {
        self.raw < other.raw
    }

    fn le(self, other: Self) -> (r: bool) {
        self.raw <= other.raw
    }

    fn eq(self, other: Self) -> (r: bool) {
        self.raw == other.raw
    }

    fn is_finite(self) -> (r: bool) {
        true
    }

    fn floor(self) -> (r: i32) {
        let raised: u64 = (self.raw as i128 + 0x8000_0000_0000_0000) as u64;
        ((raised / 0x1_0000_0000) as i64 - 0x8000_0000) as i32
    }

    fn from_u64(n: u64) -> (r: Self) {
        with_sign(false, n as u128 * 0x1_0000_0000)
    }

    fn from_decimal(digits: i64, places: u32) -> (r: Self) {
        proof {
            lemma_power_positive(places as nat);
        }
        let size: u128 = shift_right_decimal(size_of(digits) as u128 * 0x1_0000_0000, places);
        with_sign(digits < 0, size)
    }
}

} // verus!
