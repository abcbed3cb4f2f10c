//! The values that binary64 bit patterns stand for.
//!
//! A pattern without its sign bit is a *magnitude pattern*. Every finite
//! magnitude is a whole multiple of 2^-1074, so the model counts in that
//! unit: `grid(k)` is the magnitude of pattern `k` in units of 2^-1074. The
//! pattern of infinity continues the same formula and lands on 2^2098, one
//! step beyond the largest finite magnitude.

use vstd::arithmetic::power2::{
    lemma2_to64, lemma_pow2_pos, lemma_pow2_strictly_increases, lemma_pow2_unfold, pow2,
};
use vstd::prelude::*;

verus! {

/// The sign bit of a pattern.
pub const SIGN_MASK: u64 = 0x8000_0000_0000_0000;

/// The magnitude pattern of infinity; every larger magnitude pattern is a NaN.
pub const INFINITY_BITS: u64 = 0x7FF0_0000_0000_0000;

/// The weight of the implicit leading bit of a normal significand, 2^52.
pub const HIDDEN_BIT: u64 = 0x0010_0000_0000_0000;

/// The pattern produced whenever an operation has no defined value.
pub const NAN_BITS: u64 = 0x7FF8_0000_0000_0000;

/// The pattern with its sign bit cleared.
pub open spec fn magnitude_bits(bits: u64) -> u64 {
    if bits >= SIGN_MASK {
        (bits - SIGN_MASK) as u64
    } else {
        bits
    }
}

/// The integer significand of a magnitude pattern: the fraction field,
/// with the hidden bit added for normal numbers.
pub open spec fn significand(k: u64) -> nat {
    if k < HIDDEN_BIT {
        k as nat
    } else {
        (HIDDEN_BIT + k % HIDDEN_BIT) as nat
    }
}

/// The power of two that scales the significand of a magnitude pattern.
pub open spec fn scale_exponent(k: u64) -> nat {
    if k < HIDDEN_BIT {
        0
    } else {
        (k / HIDDEN_BIT - 1) as nat
    }
}

/// The magnitude of pattern `k` in units of 2^-1074.
pub open spec fn grid(k: u64) -> nat {
    significand(k) * pow2(scale_exponent(k))
}

/// The distance from a magnitude to the next one is the unit in its last place.
pub proof fn lemma_grid_step(k: u64)
    requires
        k < INFINITY_BITS,
    ensures
        grid((k + 1) as u64) == grid(k) + pow2(scale_exponent(k)),
{
    let j = (k + 1) as u64;
    let e = scale_exponent(k);
    if k % HIDDEN_BIT == HIDDEN_BIT - 1 {
        if k < HIDDEN_BIT {
            assert(j == HIDDEN_BIT);
            assert(scale_exponent(j) == 0);
            assert(significand(j) == HIDDEN_BIT);
            assert(pow2(0) == 1) by {
                lemma2_to64();
            }
            assert(significand(j) * pow2(0) == significand(k) * pow2(0) + pow2(0));
        } else {
            assert(j % HIDDEN_BIT == 0 && j / HIDDEN_BIT == k / HIDDEN_BIT + 1);
            assert(scale_exponent(j) == e + 1);
            assert(pow2(e + 1) == 2 * pow2(e)) by {
                lemma_pow2_unfold(e + 1);
            }
            assert(significand(j) == HIDDEN_BIT);
            assert(significand(k) + 1 == 2 * HIDDEN_BIT);
            assert(HIDDEN_BIT * (2 * pow2(e)) == significand(k) * pow2(e) + pow2(e))
                by (nonlinear_arith)
                requires
                    significand(k) + 1 == 2 * HIDDEN_BIT,
            ;
        }
    } else {
        assert(j % HIDDEN_BIT == k % HIDDEN_BIT + 1 && j / HIDDEN_BIT == k / HIDDEN_BIT);
        assert(scale_exponent(j) == e);
        assert(significand(j) == significand(k) + 1);
        assert((significand(k) + 1) * pow2(e) == significand(k) * pow2(e) + pow2(e))
            by (nonlinear_arith);
    }
}

/// Larger magnitude patterns stand for larger magnitudes.
pub proof fn lemma_grid_increases(j: u64, k: u64)
    requires
        j < k,
    ensures
        grid(j) < grid(k),
{
    let ej = scale_exponent(j);
    let ek = scale_exponent(k);
    let sj = significand(j) as int;
    let sk = significand(k) as int;
    let pj = pow2(ej) as int;
    let pk = pow2(ek) as int;
    lemma_pow2_pos(ej);
    lemma_pow2_pos(ek);
    if j / HIDDEN_BIT == k / HIDDEN_BIT {
        assert(ej == ek);
        assert(sj < sk);
        assert(sj * pk < sk * pk) by (nonlinear_arith)
            requires
                sj < sk,
                pk > 0,
        ;
    } else if j < HIDDEN_BIT {
        assert(pj == 1) by {
            lemma2_to64();
        }
        assert(sj * 1 < sk * pk) by (nonlinear_arith)
            requires
                sj < HIDDEN_BIT,
                sk >= HIDDEN_BIT,
                pk >= 1,
        ;
    } else {
        assert(j / HIDDEN_BIT < k / HIDDEN_BIT);
        assert(ej < ek);
        assert(2 * pj <= pk) by {
            lemma_pow2_unfold(ej + 1);
            if ej + 1 < ek {
                lemma_pow2_strictly_increases(ej + 1, ek);
            }
        }
        assert(sj * pj < sk * pk) by (nonlinear_arith)
            requires
                sj < 2 * HIDDEN_BIT,
                sk >= HIDDEN_BIT,
                2 * pj <= pk,
                pj > 0,
        ;
    }
}

/// Two magnitude patterns stand for the same magnitude only if they are the same pattern.
pub proof fn lemma_grid_injective(j: u64, k: u64)
    requires
        grid(j) == grid(k),
    ensures
        j == k,
{
    if j < k {
        lemma_grid_increases(j, k);
    } else if k < j {
        lemma_grid_increases(k, j);
    }
}

/// The zero pattern stands for zero and no other magnitude pattern does.
pub proof fn lemma_grid_zero(k: u64)
    ensures
        grid(k) == 0 <==> k == 0,
{
    assert(grid(0) == 0) by {
        assert(significand(0) == 0);
        assert(0 * pow2(scale_exponent(0)) == 0) by (nonlinear_arith);
    }
    if k > 0 {
        lemma_grid_increases(0, k);
    }
}

} // verus!
