//! Relative nearness of exact values.
//!
//! `near(x, y, m)` says that `x` differs from `y` by at most one part in
//! `m` of `y`. The lemmas carry nearness through sums, products, scalings
//! and chains, so that the error of a whole computation follows from the
//! errors of its roundings.

use vstd::prelude::*;

verus! {

/// `x` lies within `y / m` of `y`.
pub open spec fn near(x: int, y: int, m: int) -> bool {
    (x - y) * m <= y && (y - x) * m <= y
}

/// Every value is near itself.
pub proof fn lemma_near_self(x: int, m: int)
    requires
        x >= 0,
    ensures
        near(x, x, m),
{
    assert((x - x) * m == 0) by (nonlinear_arith);
}

/// Nearness within a smaller part is nearness within a larger one.
pub proof fn lemma_near_weaken(x: int, y: int, m: int, w: int)
    requires
        near(x, y, m),
        0 < w <= m,
    ensures
        near(x, y, w),
{
    assert((x - y) * w <= y && (y - x) * w <= y) by (nonlinear_arith)
        requires
            (x - y) * m <= y,
            (y - x) * m <= y,
            0 < w <= m,
    ;
}

/// What is near a value has that value near itself, within almost the same part.
pub proof fn lemma_near_flip(x: int, y: int, m: int)
    requires
        near(x, y, m),
        m >= 2,
    ensures
        near(y, x, m - 1),
{
    assert((y - x) * (m - 1) <= x && (x - y) * (m - 1) <= x) by (nonlinear_arith)
        requires
            (x - y) * m <= y,
            (y - x) * m <= y,
            m >= 2,
    ;
}

/// Nearness chains, at the cost of half the part.
pub proof fn lemma_near_chain(x: int, y: int, z: int, m: int, w: int)
    requires
        near(x, y, m),
        near(y, z, m),
        w > 0,
        2 * w + 2 <= m,
    ensures
        near(x, z, w),
{
    assert(z >= 0) by (nonlinear_arith)
        requires
            (y - z) * m <= z,
            (z - y) * m <= z,
            m > 0,
    ;
    assert((x - z) * m * m <= (2 * m + 1) * z && (z - x) * m * m <= (2 * m + 1) * z)
        by (nonlinear_arith)
        requires
            (x - y) * m <= y,
            (y - x) * m <= y,
            (y - z) * m <= z,
            (z - y) * m <= z,
            m > 0,
    ;
    assert((2 * m + 1) * w <= m * m) by (nonlinear_arith)
        requires
            w > 0,
            2 * w + 2 <= m,
    ;
    assert((x - z) * w <= z && (z - x) * w <= z) by (nonlinear_arith)
        requires
            (x - z) * m * m <= (2 * m + 1) * z,
            (z - x) * m * m <= (2 * m + 1) * z,
            (2 * m + 1) * w <= m * m,
            z >= 0,
            w > 0,
            m > 0,
    ;
}

/// Nearness survives scaling both values alike.
pub proof fn lemma_near_scale(x: int, y: int, m: int, k: int)
    requires
        near(x, y, m),
        k >= 0,
    ensures
        near(k * x, k * y, m),
{
    assert((k * x - k * y) * m <= k * y && (k * y - k * x) * m <= k * y) by (nonlinear_arith)
        requires
            (x - y) * m <= y,
            (y - x) * m <= y,
            k >= 0,
    ;
}

/// Nearness of scaled values is nearness of the values.
pub proof fn lemma_near_unscale(x: int, y: int, m: int, k: int)
    requires
        near(k * x, k * y, m),
        k > 0,
    ensures
        near(x, y, m),
{
    assert((x - y) * m <= y && (y - x) * m <= y) by (nonlinear_arith)
        requires
            (k * x - k * y) * m <= k * y,
            (k * y - k * x) * m <= k * y,
            k > 0,
    ;
}

/// Sums of near values are near.
pub proof fn lemma_near_sum(x1: int, y1: int, x2: int, y2: int, m: int)
    requires
        near(x1, y1, m),
        near(x2, y2, m),
    ensures
        near(x1 + x2, y1 + y2, m),
{
    assert(((x1 + x2) - (y1 + y2)) * m <= y1 + y2 && ((y1 + y2) - (x1 + x2)) * m <= y1 + y2)
        by (nonlinear_arith)
        requires
            (x1 - y1) * m <= y1,
            (y1 - x1) * m <= y1,
            (x2 - y2) * m <= y2,
            (y2 - x2) * m <= y2,
    ;
}

/// Products of near values are near, at the cost of half the part.
pub proof fn lemma_near_product(x1: int, y1: int, x2: int, y2: int, m: int, w: int)
    requires
        near(x1, y1, m),
        near(x2, y2, m),
        x1 >= 0,
        x2 >= 0,
        w > 0,
        2 * w + 2 <= m,
    ensures
        near(x1 * x2, y1 * y2, w),
{
    let p = x1 * x2;
    let q = y1 * y2;
    assert(y1 >= 0 && y2 >= 0) by (nonlinear_arith)
        requires
            (x1 - y1) * m <= y1,
            (y1 - x1) * m <= y1,
            (x2 - y2) * m <= y2,
            (y2 - x2) * m <= y2,
            m > 0,
    ;
    assert(q >= 0) by (nonlinear_arith)
        requires
            q == y1 * y2,
            y1 >= 0,
            y2 >= 0,
    ;
    let a1 = m * x1;
    let b1 = (m + 1) * y1;
    let c1 = (m - 1) * y1;
    let a2 = m * x2;
    let b2 = (m + 1) * y2;
    let c2 = (m - 1) * y2;
    assert(c1 <= a1 <= b1 && c2 <= a2 <= b2 && 0 <= c1 && 0 <= c2) by (nonlinear_arith)
        requires
            (x1 - y1) * m <= y1,
            (y1 - x1) * m <= y1,
            (x2 - y2) * m <= y2,
            (y2 - x2) * m <= y2,
            a1 == m * x1,
            b1 == (m + 1) * y1,
            c1 == (m - 1) * y1,
            a2 == m * x2,
            b2 == (m + 1) * y2,
            c2 == (m - 1) * y2,
            y1 >= 0,
            y2 >= 0,
            m >= 2,
    ;
    assert(c1 * c2 <= a1 * a2 <= b1 * b2) by (nonlinear_arith)
        requires
            0 <= c1 <= a1 <= b1,
            0 <= c2 <= a2 <= b2,
    ;
    assert(a1 * a2 == (m * m) * p && b1 * b2 == (m * m + 2 * m + 1) * q && c1 * c2 == (m * m - 2
        * m + 1) * q) by (nonlinear_arith)
        requires
            a1 == m * x1,
            b1 == (m + 1) * y1,
            c1 == (m - 1) * y1,
            a2 == m * x2,
            b2 == (m + 1) * y2,
            c2 == (m - 1) * y2,
            p == x1 * x2,
            q == y1 * y2,
    ;
    assert((2 * m + 1) * w <= m * m) by (nonlinear_arith)
        requires
            w > 0,
            2 * w + 2 <= m,
    ;
    assert((p - q) * w <= q && (q - p) * w <= q) by (nonlinear_arith)
        requires
            (m * m - 2 * m + 1) * q <= (m * m) * p,
            (m * m) * p <= (m * m + 2 * m + 1) * q,
            (2 * m + 1) * w <= m * m,
            q >= 0,
            w > 0,
            m >= 2,
    ;
}

/// The difference of two near pairs is near as far as it outweighs their
/// sum: if `y1 + y2` is at most `k` times `y1 - y2`, then `x1 - x2` is near
/// `y1 - y2` within one part in `m / k`.
pub proof fn lemma_near_difference(x1: int, y1: int, x2: int, y2: int, m: int, k: int, w: int)
    requires
        near(x1, y1, m),
        near(x2, y2, m),
        0 <= y1 + y2 <= k * (y1 - y2),
        k > 0,
        w > 0,
        w * k <= m,
    ensures
        near(x1 - x2, y1 - y2, w),
{
    let r = y1 - y2;
    let t = y1 + y2;
    let d = (x1 - x2) - (y1 - y2);
    assert(d * m <= t && -d * m <= t) by (nonlinear_arith)
        requires
            (x1 - y1) * m <= y1,
            (y1 - x1) * m <= y1,
            (x2 - y2) * m <= y2,
            (y2 - x2) * m <= y2,
            d == (x1 - x2) - (y1 - y2),
            t == y1 + y2,
    ;
    assert(d * w <= r && -d * w <= r) by (nonlinear_arith)
        requires
            d * m <= t,
            -d * m <= t,
            0 <= t <= k * r,
            k > 0,
            w > 0,
            w * k <= m,
    ;
}

/// A difference keeps nearness as far as the larger part outweighs what
/// is taken away: if `y` is at most `k` times what is left of `z`, then
/// `z - x` is near `z - y` within one part in `m / k`.
pub proof fn lemma_near_rest(x: int, y: int, z: int, m: int, k: int, w: int)
    requires
        near(x, y, m),
        0 <= y <= k * (z - y),
        k > 0,
        w > 0,
        w * k <= m,
    ensures
        near(z - x, z - y, w),
{
    let r = z - y;
    assert((y - x) * w <= r && (x - y) * w <= r) by (nonlinear_arith)
        requires
            (x - y) * m <= y,
            (y - x) * m <= y,
            0 <= y <= k * r,
            k > 0,
            w > 0,
            w * k <= m,
    ;
}

} // verus!
