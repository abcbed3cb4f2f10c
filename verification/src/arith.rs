//! What the arithmetic operations return, stated over exact values.
//!
//! Each result is the exact result of the operation on the values that the
//! operands stand for, rounded to the nearest pattern with ties to even.
//! Where the operation has no defined value the result is the one pattern
//! `NAN_BITS`.

use crate::grid::{
    grid, lemma_grid_step, magnitude_bits, scale_exponent, significand, HIDDEN_BIT,
    INFINITY_BITS, NAN_BITS, SIGN_MASK,
};
use crate::number::Real;
use crate::rounding::{lands, round, round_root, rounds_root_to, rounds_to};
use vstd::arithmetic::power2::{lemma2_to64, lemma_pow2_pos, pow2};
use vstd::prelude::*;

verus! {

/// The number with magnitude pattern `k` and the given sign.
pub open spec fn signed(negative: bool, k: u64) -> Real {
    Real {
        bits: if negative {
            (k + SIGN_MASK) as u64
        } else {
            k
        },
    }
}

/// The NaN that operations return.
pub open spec fn nan() -> Real {
    Real { bits: NAN_BITS }
}

/// The number with its sign bit flipped.
pub open spec fn negation(a: Real) -> Real {
    Real {
        bits: if a.bits >= SIGN_MASK {
            (a.bits - SIGN_MASK) as u64
        } else {
            (a.bits + SIGN_MASK) as u64
        },
    }
}

/// The sum of two numbers. Infinities of opposite sign have no sum. An
/// exact zero is negative only when both operands are negative.
pub open spec fn sum(a: Real, b: Real) -> Real {
    if a.is_nan() || b.is_nan() {
        nan()
    } else if a.is_infinite() {
        if b.is_infinite() && a.is_sign_negative() != b.is_sign_negative() {
            nan()
        } else {
            a
        }
    } else if b.is_infinite() {
        b
    } else {
        let s = a.scaled() + b.scaled();
        if s == 0 {
            signed(a.is_sign_negative() && b.is_sign_negative(), 0)
        } else if s > 0 {
            signed(false, round(s, 1))
        } else {
            signed(true, round(-s, 1))
        }
    }
}

/// The difference of two numbers: the sum with the second one negated.
pub open spec fn difference(a: Real, b: Real) -> Real {
    sum(a, negation(b))
}

/// The product of two numbers. Zero times infinity has no value. The sign
/// is negative when exactly one operand carries a negative sign.
pub open spec fn product(a: Real, b: Real) -> Real {
    let negative = a.is_sign_negative() != b.is_sign_negative();
    if a.is_nan() || b.is_nan() {
        nan()
    } else if a.is_infinite() || b.is_infinite() {
        if a.is_zero() || b.is_zero() {
            nan()
        } else {
            signed(negative, INFINITY_BITS)
        }
    } else {
        signed(negative, round((a.magnitude() * b.magnitude()) as int, pow2(1074) as int))
    }
}

/// The quotient of two numbers. Zero by zero and infinity by infinity have
/// no value; any other division by zero gives infinity.
pub open spec fn quotient(a: Real, b: Real) -> Real {
    let negative = a.is_sign_negative() != b.is_sign_negative();
    if a.is_nan() || b.is_nan() {
        nan()
    } else if a.is_infinite() {
        if b.is_infinite() {
            nan()
        } else {
            signed(negative, INFINITY_BITS)
        }
    } else if b.is_infinite() {
        signed(negative, 0)
    } else if b.is_zero() {
        if a.is_zero() {
            nan()
        } else {
            signed(negative, INFINITY_BITS)
        }
    } else {
        signed(negative, round((a.magnitude() * pow2(1074)) as int, b.magnitude() as int))
    }
}

/// The square root of a number. A zero of either sign is its own root;
/// any other number with a negative sign has none.
pub open spec fn root(a: Real) -> Real {
    if a.is_nan() {
        nan()
    } else if a.is_zero() || (a.is_infinite() && !a.is_sign_negative()) {
        a
    } else if a.is_sign_negative() {
        nan()
    } else {
        signed(false, round_root((a.magnitude() * pow2(1074)) as int))
    }
}

/// The NaN that operations return.
pub(crate) fn make_nan() -> (r: Real)
    ensures
        r == nan(),
        r.is_nan(),
{
    Real { bits: NAN_BITS }
}

/// The number with magnitude pattern `k` and the given sign.
pub(crate) fn with_sign(negative: bool, k: u64) -> (r: Real)
    requires
        k < SIGN_MASK,
    ensures
        r == signed(negative, k),
        magnitude_bits(r.bits) == k,
        r.is_sign_negative() == negative,
{
    if negative {
        Real { bits: k + SIGN_MASK }
    } else {
        Real { bits: k }
    }
}

/// The significand of a magnitude pattern and the power of two that scales it.
pub(crate) fn decompose(k: u64) -> (r: (u64, u32))
    requires
        k <= INFINITY_BITS,
    ensures
        r.0 == significand(k),
        r.1 == scale_exponent(k),
        r.0 < 2 * HIDDEN_BIT,
        r.1 <= 2046,
        k >= HIDDEN_BIT ==> r.0 >= HIDDEN_BIT,
        k > 0 ==> r.0 > 0,
        grid(k) == r.0 * pow2(r.1 as nat),
{
    if k < HIDDEN_BIT {
        (k, 0)
    } else {
        (HIDDEN_BIT + k % HIDDEN_BIT, (k / HIDDEN_BIT - 1) as u32)
    }
}

/// Zero is the nearest pattern to a zero quotient.
pub(crate) proof fn lemma_rounds_zero(d: int)
    requires
        d > 0,
    ensures
        rounds_to(0, d, 0),
{
    lemma2_to64();
    lemma_grid_step(0);
    assert(grid(0) == 0) by {
        assert(significand(0) == 0);
        assert(0 * pow2(scale_exponent(0)) == 0) by (nonlinear_arith);
    }
    assert(d * (grid(0) + grid(1)) == d) by (nonlinear_arith)
        requires
            grid(0) + grid(1) == 1,
    ;
}

/// A span that holds the quotient `n / d` and rounds to `k` makes `k` the
/// nearest pattern to the quotient.
pub(crate) proof fn lemma_lands_rounds(
    n: int,
    d: int,
    sig: int,
    sticky: bool,
    up: nat,
    down: nat,
    k: u64,
)
    requires
        d > 0,
        lands(sig, sticky, up, down, k),
        !sticky ==> n * pow2(down) == (sig * pow2(up)) * d,
        sticky ==> (sig * pow2(up)) * d < n * pow2(down) < ((sig + 1) * pow2(up)) * d,
    ensures
        rounds_to(n, d, k),
{
    let sc = pow2(down) as int;
    let lo = sig * pow2(up);
    let hi = (sig + 1) * pow2(up);
    let nn = n * sc;
    lemma_pow2_pos(down);
    if k > 0 {
        let x = (grid((k - 1) as u64) + grid(k)) as int;
        let ml = sc * x;
        let mr = d * x;
        assert(ml * d == mr * sc) by (nonlinear_arith)
            requires
                ml == sc * x,
                mr == d * x,
        ;
        assert((2 * n) * sc == 2 * nn) by (nonlinear_arith)
            requires
                nn == n * sc,
        ;
        if ml < 2 * lo || sticky {
            assert(ml * d < 2 * nn) by (nonlinear_arith)
                requires
                    ml <= 2 * lo,
                    ml < 2 * lo || lo * d < nn,
                    lo * d <= nn,
                    d > 0,
            ;
            assert(mr < 2 * n) by (nonlinear_arith)
                requires
                    mr * sc < (2 * n) * sc,
                    sc > 0,
            ;
        } else {
            assert(ml * d == 2 * nn) by (nonlinear_arith)
                requires
                    ml == 2 * lo,
                    lo * d == nn,
            ;
            assert(mr == 2 * n) by (nonlinear_arith)
                requires
                    mr * sc == (2 * n) * sc,
                    sc > 0,
            ;
        }
    }
    if k < INFINITY_BITS {
        let x = (grid(k) + grid((k + 1) as u64)) as int;
        let ml = sc * x;
        let mr = d * x;
        assert(ml * d == mr * sc) by (nonlinear_arith)
            requires
                ml == sc * x,
                mr == d * x,
        ;
        assert((2 * n) * sc == 2 * nn) by (nonlinear_arith)
            requires
                nn == n * sc,
        ;
        if sticky || 2 * lo < ml {
            assert(2 * nn < ml * d) by (nonlinear_arith)
                requires
                    sticky ==> 2 * hi <= ml && nn < hi * d,
                    !sticky ==> 2 * lo < ml && nn == lo * d,
                    d > 0,
            ;
            assert(2 * n < mr) by (nonlinear_arith)
                requires
                    (2 * n) * sc < mr * sc,
                    sc > 0,
            ;
        } else {
            assert(ml * d == 2 * nn) by (nonlinear_arith)
                requires
                    ml == 2 * lo,
                    lo * d == nn,
            ;
            assert(mr == 2 * n) by (nonlinear_arith)
                requires
                    mr * sc == (2 * n) * sc,
                    sc > 0,
            ;
        }
    }
}

/// A span that holds the square root of `v` and rounds to `k` makes `k`
/// the nearest pattern to the root.
pub(crate) proof fn lemma_lands_rounds_root(v: int, sig: int, sticky: bool, up: nat, k: u64)
    requires
        sig >= 0,
        lands(sig, sticky, up, 0, k),
        !sticky ==> v == (sig * pow2(up)) * (sig * pow2(up)),
        sticky ==> (sig * pow2(up)) * (sig * pow2(up)) < v < ((sig + 1) * pow2(up)) * ((sig + 1)
            * pow2(up)),
    ensures
        rounds_root_to(v, k),
{
    let lo = sig * pow2(up);
    let hi = (sig + 1) * pow2(up);
    lemma2_to64();
    lemma_pow2_pos(up);
    assert(0 <= lo < hi) by (nonlinear_arith)
        requires
            sig >= 0,
            pow2(up) > 0,
            lo == sig * pow2(up),
            hi == (sig + 1) * pow2(up),
    ;
    if k > 0 {
        let x = (grid((k - 1) as u64) + grid(k)) as int;
        assert(pow2(0) * x == x) by (nonlinear_arith)
            requires
                pow2(0) == 1,
        ;
        if x < 2 * lo || sticky {
            assert(x * x < 4 * v) by (nonlinear_arith)
                requires
                    0 <= x <= 2 * lo,
                    x < 2 * lo || lo * lo < v,
                    lo * lo <= v,
            ;
        } else {
            assert(x * x == 4 * v) by (nonlinear_arith)
                requires
                    x == 2 * lo,
                    v == lo * lo,
            ;
        }
    }
    if k < INFINITY_BITS {
        let x = (grid(k) + grid((k + 1) as u64)) as int;
        assert(pow2(0) * x == x) by (nonlinear_arith)
            requires
                pow2(0) == 1,
        ;
        if sticky || 2 * lo < x {
            assert(4 * v < x * x) by (nonlinear_arith)
                requires
                    sticky ==> 2 * hi <= x && v < hi * hi,
                    !sticky ==> 2 * lo < x && v == lo * lo,
                    0 <= lo < hi,
            ;
        } else {
            assert(x * x == 4 * v) by (nonlinear_arith)
                requires
                    x == 2 * lo,
                    v == lo * lo,
            ;
        }
    }
}

} // verus!
