//! Powers of two in executable code, and the length of an integer in bits.

use vstd::arithmetic::power2::{
    lemma2_to64, lemma2_to64_rest, lemma_pow2_adds, lemma_pow2_pos,
    lemma_pow2_strictly_increases, lemma_pow2_unfold, pow2,
};
use vstd::prelude::*;

verus! {

/// The powers of two around the width of a machine word, as numbers.
pub(crate) proof fn lemma_pow2_wide()
    ensures
        pow2(63) == 0x8000_0000_0000_0000,
        pow2(64) == 0x1_0000_0000_0000_0000,
        pow2(127) == 0x8000_0000_0000_0000_0000_0000_0000_0000,
        pow2(128) == 0x1_0000_0000_0000_0000_0000_0000_0000_0000,
{
    lemma2_to64();
    lemma2_to64_rest();
    lemma_pow2_adds(64, 63);
    lemma_pow2_adds(64, 64);
}

/// Powers of two grow with their exponents.
pub(crate) proof fn lemma_pow2_increases(a: nat, b: nat)
    requires
        a <= b,
    ensures
        pow2(a) <= pow2(b),
        pow2(a) > 0,
{
    lemma_pow2_pos(a);
    if a < b {
        lemma_pow2_strictly_increases(a, b);
    }
}

/// Shifting one to the left by `n` places gives 2^n.
proof fn lemma_shift_is_pow2(n: u32)
    requires
        n < 128,
    ensures
        (1u128 << n) == pow2(n as nat),
    decreases n,
{
    if n == 0 {
        assert((1u128 << 0u32) == 1) by (bit_vector);
        lemma2_to64();
    } else {
        let h = (n - 1) as u32;
        assert((1u128 << n) == 2 * (1u128 << h)) by (bit_vector)
            requires
                0 < n < 128,
                h == n - 1,
        ;
        lemma_shift_is_pow2(h);
        lemma_pow2_unfold(n as nat);
    }
}

/// 2^n for an exponent below 128.
pub(crate) fn pow2_u128(n: u32) -> (r: u128)
    requires
        n < 128,
    ensures
        r == pow2(n as nat),
        r > 0,
{
    proof {
        lemma_shift_is_pow2(n);
        lemma_pow2_pos(n as nat);
    }
    1u128 << n
}

/// 2^n for an exponent below 64.
pub(crate) fn pow2_u64(n: u32) -> (r: u64)
    requires
        n < 64,
    ensures
        r == pow2(n as nat),
        r > 0,
{
    proof {
        lemma_pow2_increases(n as nat, 63);
        lemma2_to64_rest();
    }
    pow2_u128(n) as u64
}

/// The number of bits needed to write `x`: zero for zero, else the `n` with
/// 2^(n-1) <= x < 2^n.
pub(crate) fn bit_length(x: u128) -> (n: u32)
    ensures
        n <= 128,
        x < pow2(n as nat),
        n > 0 ==> pow2((n - 1) as nat) <= x,
        x == 0 <==> n == 0,
{
    let mut n: u32 = 0;
    let mut y: u128 = x;
    let mut step: u32 = 64;
    proof {
        lemma2_to64();
        lemma_pow2_wide();
    }
    // Halve the number of places in which the leading bit of `y` may stand.
    while step > 0
        invariant
            step == 64 || step == 32 || step == 16 || step == 8 || step == 4 || step == 2 || step
                == 1 || step == 0,
            n + 2 * step <= 128,
            y * pow2(n as nat) <= x,
            x < (y + 1) * pow2(n as nat),
            step > 0 ==> y < pow2((2 * step) as nat),
            step == 0 ==> y < 2,
            n > 0 ==> y >= 1,
            n == 0 ==> y == x,
        decreases step,
    {
        let p = pow2_u128(step);
        proof {
            lemma2_to64();
            lemma_pow2_adds(step as nat, step as nat);
            lemma_pow2_adds(n as nat, step as nat);
        }
        if y >= p {
            proof {
                let pn = pow2(n as nat) as int;
                let yy = y as int;
                let h = yy / (p as int);
                assert(h * p <= yy < (h + 1) * p && 1 <= h < p) by (nonlinear_arith)
                    requires
                        h == yy / (p as int),
                        p > 0,
                        p <= yy < p * p,
                ;
                assert(h * (pn * p) <= yy * pn && (yy + 1) * pn <= (h + 1) * (pn * p))
                    by (nonlinear_arith)
                    requires
                        h * p <= yy,
                        yy + 1 <= (h + 1) * p,
                        pn >= 0,
                ;
            }
            y = y / p;
            n = n + step;
        }
        step = step / 2;
    }
    if y > 0 {
        proof {
            lemma_pow2_unfold((n + 1) as nat);
            assert(1 * pow2(n as nat) == pow2(n as nat) && (1 + 1) * pow2(n as nat) == 2 * pow2(
                n as nat,
            )) by (nonlinear_arith);
        }
        n = n + 1;
    } else {
        proof {
            assert((0 + 1) * pow2(n as nat) == pow2(n as nat)) by (nonlinear_arith);
        }
    }
    n
}

} // verus!
