//! How close the arithmetic of fixed-point numbers comes to that of the numbers they stand for:
//! laws of [`crate::fixed`] in terms of multiples of `1 / 2^32`.

use vstd::prelude::*;

use crate::angle::{next_term, series, Angle};
use crate::fixed::{
    fixed_cube_root,
    floor_cube_root,
    floor_cube_root_is_unique,
    floor_root,
    floor_root_is_unique,
    is_floor_cube_root,
    is_floor_root,
    power_of_ten,
    size,
    truncated,
    unit,
    Fixed,
};
use crate::scalar::Number;

verus! {

/// Whether `raw` is in the range of fixed-point numbers.
pub open spec fn representable(raw: int) -> bool {
    -0x8000_0000_0000_0000 <= raw <= 0x7fff_ffff_ffff_ffff
}

/// Whether `q` is `n / d` for a positive `d`, with what is left over dropped.
pub open spec fn is_dropped_quotient(q: int, n: int, d: int) -> bool {
    &&& 0 <= n ==> q * d <= n < (q + 1) * d
    &&& n < 0 ==> (q - 1) * d < n <= q * d
}

proof fn lemma_dropped(n: int, d: int)
    requires
        0 < d,
    ensures
        is_dropped_quotient(truncated(n, d), n, d),
        n != 0 ==> truncated(n, -d) == -truncated(n, d),
{
    let m = size(n);
    let q = m / d;
    assert(q * d <= m < (q + 1) * d) by (nonlinear_arith)
        requires
            0 < d,
            0 <= m,
            q == m / d,
    ;
    assert((-q) * d == -(q * d) && (-q - 1) * d == -((q + 1) * d)) by (nonlinear_arith);
}

/// Sums and differences are exact in range, and the nearest number out of it.
pub proof fn sums_are_exact(a: Fixed, b: Fixed)
    ensures
        representable(a.raw + b.raw) ==> a.sum(b).raw == a.raw + b.raw,
        a.raw + b.raw > 0x7fff_ffff_ffff_ffff ==> a.sum(b).raw == 0x7fff_ffff_ffff_ffff,
        a.raw + b.raw < -0x8000_0000_0000_0000 ==> a.sum(b).raw == -0x8000_0000_0000_0000,
        representable(a.raw - b.raw) ==> a.difference(b).raw == a.raw - b.raw,
        a.raw - b.raw > 0x7fff_ffff_ffff_ffff ==> a.difference(b).raw == 0x7fff_ffff_ffff_ffff,
        a.raw - b.raw < -0x8000_0000_0000_0000 ==> a.difference(b).raw == -0x8000_0000_0000_0000,
        a.raw > -0x8000_0000_0000_0000 ==> a.negation().raw == -a.raw,
        0 <= a.raw ==> a.magnitude() == a,
        -0x8000_0000_0000_0000 < a.raw < 0 ==> a.magnitude().raw == -a.raw,
{
}

/// Products are those of the numbers, with what is below the last digit dropped.
pub proof fn products_drop_the_rest(a: Fixed, b: Fixed)
    requires
        -0x8000_0000_0000_0000 * 0x1_0000_0000 < a.raw * b.raw < 0x7fff_ffff_ffff_ffff
            * 0x1_0000_0000,
    ensures
        is_dropped_quotient(a.product(b).raw as int, a.raw * b.raw, 0x1_0000_0000),
{
    let n = a.raw * b.raw;
    lemma_dropped(n, unit());
    let q = truncated(n, unit());
    assert(representable(q));
}

/// Quotients are those of the numbers, with what is below the last digit dropped.
pub proof fn quotients_drop_the_rest(a: Fixed, b: Fixed)
    requires
        0 < b.raw,
        -0x8000_0000_0000_0000 * b.raw < a.raw * 0x1_0000_0000 < 0x7fff_ffff_ffff_ffff * b.raw,
    ensures
        is_dropped_quotient(a.quotient(b).raw as int, a.raw * 0x1_0000_0000, b.raw as int),
        a.raw != 0 && a.quotient(b).raw > -0x8000_0000_0000_0000 ==> a.quotient(
            b.negation(),
        ).raw == -a.quotient(b).raw,
{
    let (n, d) = (a.raw * 0x1_0000_0000, b.raw as int);
    lemma_dropped(n, d);
    lemma_in_range(truncated(n, d), n, d);
}

proof fn lemma_in_range(q: int, n: int, d: int)
    requires
        0 < d,
        is_dropped_quotient(q, n, d),
        -0x8000_0000_0000_0000 * d < n < 0x7fff_ffff_ffff_ffff * d,
    ensures
        representable(q),
{
    assert(q * d < 0x7fff_ffff_ffff_ffff * d ==> q < 0x7fff_ffff_ffff_ffff) by (nonlinear_arith)
        requires
            0 < d,
    ;
    assert((q - 1) * d < 0 ==> q - 1 < 0) by (nonlinear_arith)
        requires
            0 < d,
    ;
    assert(0 <= n ==> -1 < q) by (nonlinear_arith)
        requires
            0 < d,
            0 <= n ==> n < (q + 1) * d,
    ;
    assert(-0x8000_0000_0000_0000 * d < q * d ==> -0x8000_0000_0000_0000 < q) by (nonlinear_arith)
        requires
            0 < d,
    ;
}

/// Products and quotients that are out of range are the nearest number, and a quotient by zero is
/// the largest number with the sign of the dividend, or zero.
pub proof fn results_out_of_range_are_the_nearest(a: Fixed, b: Fixed)
    ensures
        0x8000_0000_0000_0000 * 0x1_0000_0000 <= a.raw * b.raw ==> a.product(b).raw
            == 0x7fff_ffff_ffff_ffff,
        a.raw * b.raw <= -0x8000_0000_0000_0000 * 0x1_0000_0000 ==> a.product(b).raw
            == -0x8000_0000_0000_0000,
        0 < b.raw && 0x8000_0000_0000_0000 * b.raw <= a.raw * 0x1_0000_0000 ==> a.quotient(b).raw
            == 0x7fff_ffff_ffff_ffff,
        0 < b.raw && a.raw * 0x1_0000_0000 <= -0x8000_0000_0000_0000 * b.raw ==> a.quotient(b).raw
            == -0x8000_0000_0000_0000,
        b.raw == 0 && 0 < a.raw ==> a.quotient(b).raw == 0x7fff_ffff_ffff_ffff,
        b.raw == 0 && a.raw < 0 ==> a.quotient(b).raw == -0x8000_0000_0000_0000,
        b.raw == 0 && a.raw == 0 ==> a.quotient(b).raw == 0,
{
    lemma_beyond(a.raw * b.raw, unit());
    if 0 < b.raw {
        lemma_beyond(a.raw * unit(), b.raw as int);
    }
}

proof fn lemma_beyond(n: int, d: int)
    requires
        0 < d,
    ensures
        0x8000_0000_0000_0000 * d <= n ==> 0x8000_0000_0000_0000 <= truncated(n, d),
        n <= -0x8000_0000_0000_0000 * d ==> truncated(n, d) <= -0x8000_0000_0000_0000,
{
    lemma_dropped(n, d);
    let q = truncated(n, d);
    let m = 0x8000_0000_0000_0000int;
    if m * d <= n {
        assert(m <= q) by (nonlinear_arith)
            requires
                0 < d,
                m * d <= n,
                n < (q + 1) * d,
        ;
    }
    if n <= -m * d {
        assert(q <= -m) by (nonlinear_arith)
            requires
                0 < d,
                n <= -m * d,
                (q - 1) * d < n,
        ;
    }
}

/// The square root of a positive number is its root with what is below the last digit dropped;
/// other numbers have zero instead.
pub proof fn square_roots_drop_the_rest(x: Fixed, r: int)
    requires
        0 < x.raw,
        0 <= r,
        r * r <= x.raw * 0x1_0000_0000 < (r + 1) * (r + 1),
    ensures
        x.square_root().raw == r,
{
    let n = x.raw * unit();
    assert(is_floor_root(r, n));
    floor_root_is_unique(r, floor_root(n), n);
    assert(r <= 0x7fff_ffff_ffff_ffff) by (nonlinear_arith)
        requires
            0 <= r,
            r * r <= 0x7fff_ffff_ffff_ffff * 0x1_0000_0000,
    ;
}

/// Numbers that are not positive have the square root zero.
pub proof fn other_square_roots_are_zero(x: Fixed)
    requires
        x.raw <= 0,
    ensures
        x.square_root().raw == 0,
{
}

/// The cube root of a number is its root with what is below the last digit dropped, with the sign
/// of the number.
pub proof fn cube_roots_drop_the_rest(x: Fixed, r: int)
    requires
        0 <= x.raw,
        0 <= r,
        r * r * r <= x.raw * 0x1_0000_0000_0000_0000 < (r + 1) * (r + 1) * (r + 1),
    ensures
        fixed_cube_root(x).raw == r || r > 0x7fff_ffff_ffff_ffff,
        x.raw > 0 && r <= 0x7fff_ffff_ffff_ffff ==> fixed_cube_root(x.negation()).raw == -r,
{
    let n = size(x.raw as int) * (unit() * unit());
    assert(unit() * unit() == 0x1_0000_0000_0000_0000int) by (nonlinear_arith)
        requires
            unit() == 0x1_0000_0000int,
    ;
    assert(n == x.raw * 0x1_0000_0000_0000_0000);
    assert(is_floor_cube_root(r, n));
    floor_cube_root_is_unique(r, floor_cube_root(n), n);
    assert(x.raw > 0 ==> size(x.negation().raw as int) == x.raw);
}

/// Comparisons are those of the numbers, and the smaller and the larger of two go by them.
pub proof fn comparisons_are_those_of_the_numbers(a: Fixed, b: Fixed)
    ensures
        a.less(b) <==> a.raw < b.raw,
        a.at_most(b) <==> a.raw <= b.raw,
        a.equal(b) <==> a.raw == b.raw,
        a.minimum(b).raw <= a.raw && a.minimum(b).raw <= b.raw,
        a.minimum(b) == a || a.minimum(b) == b,
        a.raw <= a.maximum(b).raw && b.raw <= a.maximum(b).raw,
        a.maximum(b) == a || a.maximum(b) == b,
        a.finite(),
{
}

/// Rounding down gives the largest integer that is not above the number.
pub proof fn rounding_down_is_below(a: Fixed)
    ensures
        a.floored() * 0x1_0000_0000 <= a.raw < (a.floored() + 1) * 0x1_0000_0000,
{
    let k = a.raw as int / 0x1_0000_0000int;
    assert(-0x8000_0000 <= k <= 0x7fff_ffff);
}

/// Integers are exact in range, and decimal numbers have what is below the last digit dropped.
pub proof fn constants_are_those_numbers(n: u64, digits: i64, places: u32)
    ensures
        n < 0x8000_0000 ==> Fixed::whole(n).raw == n * 0x1_0000_0000,
        power_of_ten(0) == 1,
        power_of_ten((places + 1) as nat) == 10 * power_of_ten(places as nat),
        -0x8000_0000_0000_0000 * power_of_ten(places as nat) < digits * 0x1_0000_0000
            < 0x7fff_ffff_ffff_ffff * power_of_ten(places as nat) ==> is_dropped_quotient(
            Fixed::decimal(digits, places).raw as int,
            digits * 0x1_0000_0000,
            power_of_ten(places as nat),
        ),
{
    lemma_power_positive(places as nat);
    let (m, d) = (digits * 0x1_0000_0000, power_of_ten(places as nat));
    lemma_dropped(m, d);
    if -0x8000_0000_0000_0000 * d < m < 0x7fff_ffff_ffff_ffff * d {
        lemma_in_range(truncated(m, d), m, d);
    }
}

proof fn lemma_power_positive(places: nat)
    ensures
        0 < power_of_ten(places),
    decreases places,
{
    if places > 0 {
        lemma_power_positive((places - 1) as nat);
    }
}

/// The cosine of the opposite angle is the same, and no cosine and no sine is beyond one.
pub proof fn cosines_do_not_depend_on_the_sign(x: Fixed)
    requires
        x.raw > -0x8000_0000_0000_0000,
    ensures
        x.negation().cosine() == x.cosine(),
        -0x1_0000_0000 <= x.cosine().raw <= 0x1_0000_0000,
        -0x1_0000_0000 <= x.sine().raw <= 0x1_0000_0000,
{
    let (a, b) = (x.raw as int, -x.raw as int);
    assert(a * a == (-a) * (-a)) by (nonlinear_arith);
    assert(Fixed::whole(1).raw == unit());
}

/// A term and the terms that follow it, with the opposite sign.
proof fn lemma_opposite_series(term: Fixed, square: Fixed, k: u64, n: nat)
    requires
        -0x1_0000_0000 <= term.raw <= 0x1_0000_0000,
        0 <= square.raw <= 0x1_0000_0000,
        k + 2 * n <= 100,
    ensures
        -(n * 0x1_0000_0000) <= series(term, square, k, n).raw <= n * 0x1_0000_0000,
        series(term.negation(), square, k, n).raw == -series(term, square, k, n).raw,
    decreases n,
{
    if n > 0 {
        let next = next_term(term, square, k);
        let opposite = next_term(term.negation(), square, k);
        let (t, s) = (term.raw as int, square.raw as int);
        let p = t * s;
        assert((-t) * s == -p) by (nonlinear_arith)
            requires
                p == t * s,
        ;
        assert(-(0x1_0000_0000 * 0x1_0000_0000) <= p <= 0x1_0000_0000 * 0x1_0000_0000)
            by (nonlinear_arith)
            requires
                p == t * s,
                -0x1_0000_0000 <= t <= 0x1_0000_0000,
                0 <= s <= 0x1_0000_0000,
        ;
        let q = truncated(p, unit());
        assert(truncated(-p, unit()) == -q);
        assert(-0x1_0000_0000 <= q <= 0x1_0000_0000);
        let m = (k + 1) * (k + 2);
        assert(2 <= m <= 20000) by (nonlinear_arith)
            requires
                0 <= k <= 98,
                m == (k + 1) * (k + 2),
        ;
        let d = Fixed::whole(m as u64).raw as int;
        assert(d == m * 0x1_0000_0000) by (nonlinear_arith)
            requires
                d == m * unit(),
                unit() == 0x1_0000_0000int,
        ;
        let e = q * unit();
        assert((-q) * unit() == -e) by (nonlinear_arith)
            requires
                e == q * unit(),
        ;
        lemma_smaller(q, m);
        assert(next.raw == -truncated(e, d));
        assert(opposite.raw == truncated(e, d));
        assert(opposite == next.negation());
        lemma_opposite_series(next, square, (k + 2) as u64, (n - 1) as nat);
    }
}

/// A number that is divided by a whole number gets no larger.
proof fn lemma_smaller(q: int, m: int)
    requires
        -0x1_0000_0000 <= q <= 0x1_0000_0000,
        2 <= m <= 20000,
    ensures
        ({
            let e = q * unit();
            let d = m * 0x1_0000_0000;
            &&& -0x1_0000_0000 <= truncated(e, d) <= 0x1_0000_0000
            &&& truncated(-e, d) == -truncated(e, d)
        }),
{
    let e = q * unit();
    let d = m * 0x1_0000_0000;
    let a = size(e);
    assert(a <= 0x1_0000_0000 * 0x1_0000_0000) by (nonlinear_arith)
        requires
            -0x1_0000_0000 <= q <= 0x1_0000_0000,
            a == q * 0x1_0000_0000 || a == -(q * 0x1_0000_0000),
    ;
    let c = a / d;
    assert(0 <= c <= 0x1_0000_0000) by (nonlinear_arith)
        requires
            0 <= a <= 0x1_0000_0000 * 0x1_0000_0000,
            0x2_0000_0000 <= d,
            c == a / d,
    ;
    assert(e == 0 ==> c == 0) by (nonlinear_arith)
        requires
            e == 0 ==> a == 0,
            0x2_0000_0000 <= d,
            c == a / d,
    ;
}

proof fn lemma_part_of_one(n: int)
    requires
        0 <= n <= 0x1_0000_0000_0000_0000,
    ensures
        0 <= truncated(n, unit()) <= 0x1_0000_0000,
{
    lemma_dropped(n, unit());
}

/// The sine of the opposite angle is the opposite, for angles up to one.
pub proof fn sines_change_with_the_sign(x: Fixed)
    requires
        -0x1_0000_0000 <= x.raw <= 0x1_0000_0000,
    ensures
        x.negation().sine().raw == -x.sine().raw,
{
    let a = x.raw as int;
    assert(a * a == (-a) * (-a)) by (nonlinear_arith);
    assert(0 <= a * a <= 0x1_0000_0000_0000_0000int) by (nonlinear_arith)
        requires
            -0x1_0000_0000 <= a <= 0x1_0000_0000,
    ;
    let square = x.product(x);
    assert(x.negation().product(x.negation()) == square);
    lemma_part_of_one(a * a);
    assert(Fixed::whole(1).raw == unit());
    lemma_opposite_series(x, square, 1, 24);
}

} // verus!
