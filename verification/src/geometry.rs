//! Vectors of real numbers: lengths, directions and reflections without rounding.

use vstd::prelude::*;

use crate::exact::{has_root, is_root, root, ten_to, Exact};
use crate::scalar::Number;
use crate::vector::Vec3;
use crate::walls::reflected;

verus! {

/// Whether every real number from zero on has a square root. It is so; the solver's arithmetic
/// of real numbers does not know it, so laws about lengths take it as a premise.
pub open spec fn roots_exist() -> bool {
    forall|x: real| 0real <= x ==> #[trigger] has_root(x)
}

/// A square root is not negative, and its square is the number.
pub proof fn root_squared(x: real)
    requires
        roots_exist(),
        0real <= x,
    ensures
        0real <= root(x),
        root(x) * root(x) == x,
{
    assert(has_root(x));
    assert(is_root(root(x), x));
}

/// The square of a length is not negative, and zero only for the zero vector.
pub proof fn squared_length_sign(v: Vec3<Exact>)
    ensures
        0real <= v.squared_length().value,
        v.squared_length().value == 0real ==> v == Vec3::<Exact>::origin(),
{
    let (x, y, z) = (v.x.value, v.y.value, v.z.value);
    assert(0real <= x * x && 0real <= y * y && 0real <= z * z) by (nonlinear_arith);
    assert(x * x == 0real ==> x == 0real) by (nonlinear_arith);
    assert(y * y == 0real ==> y == 0real) by (nonlinear_arith);
    assert(z * z == 0real ==> z == 0real) by (nonlinear_arith);
}

/// Powers of ten are positive.
pub proof fn ten_to_positive(places: nat)
    ensures
        0real < ten_to(places),
    decreases places,
{
    if places > 0 {
        ten_to_positive((places - 1) as nat);
    }
}

/// `x / d * d == x`.
pub proof fn quotient_times(x: real, d: real)
    requires
        d != 0real,
    ensures
        (x / d) * d == x,
{
    assert((x / d) * d == x) by (nonlinear_arith)
        requires
            d != 0real,
    ;
}

/// A factor that keeps a number other than zero is one.
pub proof fn cancelled(s: real, m: real)
    by (nonlinear_arith)
    requires
        s * m == m,
        m != 0real,
    ensures
        s == 1real,
{
}

/// `(x + p s)^2` and `(x + p s) p`, multiplied out.
proof fn one_axis(x: real, p: real, s: real)
    by (nonlinear_arith)
    ensures
        (x + p * s) * (x + p * s) == x * x + 2real * (s * (x * p)) + s * s * (p * p),
        (x - p * s) * (x - p * s) == x * x - 2real * (s * (x * p)) + s * s * (p * p),
        (x + p * s) * p == x * p + s * (p * p),
        (x - p * s) * p == x * p - s * (p * p),
{
}

/// A factor spread over a sum.
proof fn spread(s: real, a: real, b: real, c: real)
    by (nonlinear_arith)
    ensures
        s * (a + b + c) == s * a + s * b + s * c,
{
}

/// The squared length of `v + n * a`.
pub proof fn kicked(v: Vec3<Exact>, n: Vec3<Exact>, a: Exact)
    ensures
        v.sum(n.scaled(a)).squared_length().value == v.squared_length().value + 2real * (a.value
            * v.dot_product(n).value) + a.value * a.value * n.squared_length().value,
        v.difference(n.scaled(a)).squared_length().value == v.squared_length().value - 2real * (
        a.value * v.dot_product(n).value) + a.value * a.value * n.squared_length().value,
        v.sum(n.scaled(a)).dot_product(n).value == v.dot_product(n).value + a.value
            * n.squared_length().value,
        v.difference(n.scaled(a)).dot_product(n).value == v.dot_product(n).value - a.value
            * n.squared_length().value,
{
    let (x, y, z) = (v.x.value, v.y.value, v.z.value);
    let (p, q, r) = (n.x.value, n.y.value, n.z.value);
    let s = a.value;
    one_axis(x, p, s);
    one_axis(y, q, s);
    one_axis(z, r, s);
    spread(s, x * p, y * q, z * r);
    spread(s * s, p * p, q * q, r * r);
    spread(s, p * p, q * q, r * r);
}

/// A factor taken out of products.
proof fn regrouped(p: real, d: real)
    by (nonlinear_arith)
    ensures
        (p * d) * (p * d) == (d * d) * (p * p),
        (p * d) * p == d * (p * p),
{
}

/// A vector divided by its length is a unit vector of the same direction.
pub proof fn normalized(v: Vec3<Exact>)
    requires
        roots_exist(),
        v.squared_length().value != 0real,
    ensures
        0real < v.norm().value,
        v.norm().value * v.norm().value == v.squared_length().value,
        v.divided(v.norm()).squared_length().value == 1real,
        v.divided(v.norm()).scaled(v.norm()) == v,
        v.dot_product(v.divided(v.norm())).value == v.norm().value,
{
    squared_length_sign(v);
    root_squared(v.squared_length().value);
    let d = v.norm().value;
    let n = v.divided(v.norm());
    let (p, q, r) = (n.x.value, n.y.value, n.z.value);
    let m = p * p + q * q + r * r;
    assert(d == 0real ==> d * d == 0real) by (nonlinear_arith);
    quotient_times(v.x.value, d);
    quotient_times(v.y.value, d);
    quotient_times(v.z.value, d);
    regrouped(p, d);
    regrouped(q, d);
    regrouped(r, d);
    spread(d * d, p * p, q * q, r * r);
    assert(m * (d * d) == (d * d) * m) by (nonlinear_arith);
    cancelled(m, d * d);
    spread(d, p * p, q * q, r * r);
    assert(d * 1real == d) by (nonlinear_arith);
}

/// Reflection about a unit vector keeps the length and reverses the component along it.
pub proof fn reflection_keeps_length(v: Vec3<Exact>, n: Vec3<Exact>)
    requires
        n.squared_length().value == 1real,
    ensures
        reflected(v, n, v.dot_product(n)).squared_length() == v.squared_length(),
        reflected(v, n, v.dot_product(n)).dot_product(n).value == -v.dot_product(n).value,
{
    let along = v.dot_product(n).value;
    let a = Exact::whole(2).product(v.dot_product(n));
    kicked(v, n, a);
    assert(2real * ((2real * along) * along) == (2real * along) * (2real * along) * 1real)
        by (nonlinear_arith);
    assert((2real * along) * 1real == 2real * along) by (nonlinear_arith);
}

proof fn lemma_gap_factored(l: real, b: real, j: real)
    by (nonlinear_arith)
    ensures
        l * b - j - l * l * b + l * j == (1real - l) * (l * b - j),
{
}

proof fn lemma_times_ordered(l: real, x: real, y: real)
    by (nonlinear_arith)
    requires
        0real <= l,
        x <= y,
    ensures
        l * x <= l * y,
{
}

proof fn lemma_gap_squared(l: real, e: real)
    by (nonlinear_arith)
    ensures
        (1real - l) * (l * e - l * l * e) == l * ((1real - l) * (1real - l) * e),
{
}

proof fn lemma_times_cancelled(l: real, x: real, y: real)
    by (nonlinear_arith)
    requires
        0real < l,
        l * x <= l * y,
    ensures
        x <= y,
{
}

proof fn lemma_shrunk(l: real, d: real)
    by (nonlinear_arith)
    ensures
        (1real - l) * (1real - l) * (d * d) == (d - l * d) * (d - l * d),
        (l * d) * (l * d) == l * l * (d * d),
{
}

/// If `b` is at least `d` long and `j` at most `k`, then `b + j` is at least `d - k` long.
pub proof fn apart_after_moving(b: Vec3<Exact>, j: Vec3<Exact>, d: real, k: real)
    requires
        0real < k <= d,
        d * d <= b.squared_length().value,
        j.squared_length().value <= k * k,
    ensures
        (d - k) * (d - k) <= b.sum(j).squared_length().value,
{
    let l = k / d;
    quotient_times(k, d);
    lemma_ratio(l, k, d);
    let (bb, jj) = (b.squared_length().value, j.squared_length().value);
    let c = j.dot_product(b).value;
    kicked(j, b, Exact { value: l });
    squared_length_sign(j.sum(b.scaled(Exact { value: l })));
    assert(0real <= jj + 2real * (l * c) + l * l * bb);
    kicked(j, b, Exact { value: 1real });
    assert(j.sum(b.scaled(Exact { value: 1real })) == b.sum(j)) by {
        lemma_times_one(b.x.value);
        lemma_times_one(b.y.value);
        lemma_times_one(b.z.value);
    }
    lemma_times_one(c);
    lemma_times_one(bb);
    assert(1real * 1real == 1real) by (nonlinear_arith);
    let e = b.sum(j).squared_length().value;
    assert(e == jj + 2real * c + bb);
    lemma_spread_three(l, jj, c, bb);
    assert(l * e == l * jj + 2real * (l * c) + l * bb);
    lemma_gap_factored(l, bb, jj);
    assert((1real - l) * (l * bb - jj) <= l * e);
    lemma_times_ordered(l, d * d, bb);
    lemma_shrunk(l, d);
    assert(l * d == k);
    lemma_times_ordered(1real - l, l * (d * d) - k * k, l * bb - jj);
    lemma_gap_squared(l, d * d);
    lemma_times_cancelled(l, (d - k) * (d - k), e);
}

proof fn lemma_ratio(l: real, k: real, d: real)
    by (nonlinear_arith)
    requires
        l * d == k,
        0real < k <= d,
    ensures
        0real < l <= 1real,
{
}

proof fn lemma_times_one(x: real)
    by (nonlinear_arith)
    ensures
        x * 1real == x,
        1real * x == x,
        1real * 1real * x == x,
{
}

proof fn lemma_spread_three(l: real, a: real, b: real, c: real)
    by (nonlinear_arith)
    ensures
        l * (a + 2real * b + c) == l * a + 2real * (l * b) + l * c,
{
}

/// `x * (1 / d) == x / d`.
pub proof fn times_reciprocal(x: real, d: real)
    by (nonlinear_arith)
    requires
        d != 0real,
    ensures
        x * (1real / d) == x / d,
{
}

/// The squared length of `n * a`.
pub proof fn scaled_length(n: Vec3<Exact>, a: Exact)
    ensures
        n.scaled(a).squared_length().value == a.value * a.value * n.squared_length().value,
{
    let zero = Vec3::<Exact>::origin();
    let (p, q, r) = (n.x.value, n.y.value, n.z.value);
    let s = a.value;
    assert(0real * p == 0real && 0real * q == 0real && 0real * r == 0real) by (nonlinear_arith);
    assert(0real * 0real == 0real && s * 0real == 0real) by (nonlinear_arith);
    kicked(zero, n, a);
    assert(zero.sum(n.scaled(a)) == n.scaled(a));
}

/// The way from `p` to `q`.
pub open spec fn way(p: Vec3<Exact>, q: Vec3<Exact>) -> Vec3<Exact> {
    Vec3 {
        x: Exact { value: q.x.value - p.x.value },
        y: Exact { value: q.y.value - p.y.value },
        z: Exact { value: q.z.value - p.z.value },
    }
}

/// The dot product of `v` and `w`, written out.
pub open spec fn along(v: Vec3<Exact>, w: Vec3<Exact>) -> real {
    v.x.value * w.x.value + v.y.value * w.y.value + v.z.value * w.z.value
}

/// The square of the distance of `p` and `q`, written out.
pub open spec fn gap_squared(p: Vec3<Exact>, q: Vec3<Exact>) -> real {
    (q.x.value - p.x.value) * (q.x.value - p.x.value) + (q.y.value - p.y.value) * (q.y.value
        - p.y.value) + (q.z.value - p.z.value) * (q.z.value - p.z.value)
}

/// Whether `v` is `k` times `w`.
pub open spec fn is_times(v: Vec3<Exact>, k: real, w: Vec3<Exact>) -> bool {
    &&& v.x.value == k * w.x.value
    &&& v.y.value == k * w.y.value
    &&& v.z.value == k * w.z.value
}

/// The operations on vectors of real numbers are those of each component, and the length is the
/// square root of the sum of the squares.
pub proof fn vectors_are_computed_by_component(v: Vec3<Exact>, w: Vec3<Exact>, s: Exact)
    requires
        roots_exist(),
    ensures
        way(w, v.sum(w)) == v,
        v.difference(w) == way(w, v),
        is_times(v.scaled(s), s.value, v),
        s.value != 0real ==> is_times(v, s.value, v.divided(s)),
        v.dot_product(w).value == along(v, w),
        v.squared_length().value == along(v, v),
        0real <= v.norm().value,
        v.norm().value * v.norm().value == along(v, v),
        v.least().value <= v.x.value && v.least().value <= v.y.value && v.least().value
            <= v.z.value,
        v.least() == v.x || v.least() == v.y || v.least() == v.z,
        Vec3::splatted(s) == (Vec3 { x: s, y: s, z: s }),
        Vec3::<Exact>::origin() == (Vec3 {
            x: Exact { value: 0real },
            y: Exact { value: 0real },
            z: Exact { value: 0real },
        }),
{
    squared_length_sign(v);
    root_squared(v.squared_length().value);
    let k = s.value;
    lemma_swapped(v.x.value, k);
    lemma_swapped(v.y.value, k);
    lemma_swapped(v.z.value, k);
    if k != 0real {
        quotient_times(v.x.value, k);
        quotient_times(v.y.value, k);
        quotient_times(v.z.value, k);
        lemma_swapped(v.x.value / k, k);
        lemma_swapped(v.y.value / k, k);
        lemma_swapped(v.z.value / k, k);
    }
}

proof fn lemma_swapped(x: real, y: real)
    by (nonlinear_arith)
    ensures
        x * y == y * x,
{
}

/// The square root of a number is the only number from zero on whose square it is.
pub proof fn root_is_unique(x: real, d: real)
    requires
        roots_exist(),
        0real <= d,
        d * d == x,
    ensures
        root(x) == d,
{
    assert(0real <= d * d) by (nonlinear_arith);
    root_squared(x);
    let r = root(x);
    assert(r == d) by (nonlinear_arith)
        requires
            0real <= r,
            0real <= d,
            r * r == d * d,
    ;
}

/// A vector divided by `d` has the products with other vectors divided by `d`.
pub proof fn divided_along(v: Vec3<Exact>, w: Vec3<Exact>, d: real)
    requires
        d != 0real,
    ensures
        v.dot_product(w.divided(Exact { value: d })).value == along(v, w) / d,
{
    lemma_over(v.x.value, w.x.value, d);
    lemma_over(v.y.value, w.y.value, d);
    lemma_over(v.z.value, w.z.value, d);
    lemma_sum_over(
        v.x.value * w.x.value,
        v.y.value * w.y.value,
        v.z.value * w.z.value,
        d,
    );
}

proof fn lemma_over(x: real, y: real, d: real)
    by (nonlinear_arith)
    requires
        d != 0real,
    ensures
        x * (y / d) == (x * y) / d,
{
}

proof fn lemma_sum_over(a: real, b: real, c: real, d: real)
    by (nonlinear_arith)
    requires
        d != 0real,
    ensures
        a / d + b / d + c / d == (a + b + c) / d,
{
}

/// A vector divided by `d` and multiplied by `s` is `s / d` times the vector.
pub proof fn divided_scaled(v: Vec3<Exact>, d: real, s: real)
    requires
        d != 0real,
    ensures
        is_times(v.divided(Exact { value: d }).scaled(Exact { value: s }), s / d, v),
{
    lemma_over_times(v.x.value, d, s);
    lemma_over_times(v.y.value, d, s);
    lemma_over_times(v.z.value, d, s);
}

proof fn lemma_over_times(x: real, d: real, s: real)
    by (nonlinear_arith)
    requires
        d != 0real,
    ensures
        (x / d) * s == (s / d) * x,
{
}

/// The product of `v + k w` with `w`.
pub proof fn moved_along(v: Vec3<Exact>, u: Vec3<Exact>, k: real, w: Vec3<Exact>)
    requires
        is_times(way(v, u), k, w),
    ensures
        along(u, w) == along(v, w) + k * along(w, w),
{
    lemma_moved(v.x.value, u.x.value, k, w.x.value);
    lemma_moved(v.y.value, u.y.value, k, w.y.value);
    lemma_moved(v.z.value, u.z.value, k, w.z.value);
    spread(k, w.x.value * w.x.value, w.y.value * w.y.value, w.z.value * w.z.value);
}

proof fn lemma_moved(v: real, u: real, k: real, w: real)
    by (nonlinear_arith)
    requires
        u - v == k * w,
    ensures
        u * w == v * w + k * (w * w),
{
    assert(u * w == (v + k * w) * w);
}

} // verus!
