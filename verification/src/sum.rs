//! Addition and subtraction.

use crate::arith::{
    decompose, difference, lemma_lands_rounds, make_nan, negation, sum, with_sign,
};
use crate::grid::{
    grid, lemma_grid_increases, lemma_grid_zero, magnitude_bits, HIDDEN_BIT, INFINITY_BITS,
    SIGN_MASK,
};
use crate::number::Real;
use crate::power::{lemma_pow2_increases, lemma_pow2_wide, pow2_u128};
use crate::rounding::{lemma_round_is, round, round_pack};
use vstd::arithmetic::power2::{lemma2_to64, lemma2_to64_rest, lemma_pow2_adds, lemma_pow2_pos, pow2};
use vstd::prelude::*;

verus! {

/// The number with its sign bit flipped.
pub fn negate(a: Real) -> (r: Real)
    ensures
        r == negation(a),
        magnitude_bits(r.bits) == magnitude_bits(a.bits),
        r.is_sign_negative() != a.is_sign_negative(),
{
    if a.bits >= SIGN_MASK {
        Real { bits: a.bits - SIGN_MASK }
    } else {
        Real { bits: a.bits + SIGN_MASK }
    }
}

/// The pattern nearest to the sum (`opposed` false) or the difference
/// (`opposed` true) of two finite magnitudes, the first at least as large
/// as the second.
fn combine(kx: u64, ky: u64, opposed: bool) -> (k: u64)
    requires
        ky <= kx < INFINITY_BITS,
    ensures
        !opposed ==> k == round((grid(kx) + grid(ky)) as int, 1),
        opposed ==> k == round(grid(kx) - grid(ky), 1),
        k <= INFINITY_BITS,
{
    let (mx, ex) = decompose(kx);
    let (my, ey) = decompose(ky);
    let gap: u32 = ex - ey;
    let ghost n: int = if opposed {
        grid(kx) - grid(ky)
    } else {
        (grid(kx) + grid(ky)) as int
    };
    let ghost px = pow2(ex as nat) as int;
    let ghost py = pow2(ey as nat) as int;
    proof {
        lemma2_to64();
        lemma2_to64_rest();
        lemma_pow2_wide();
        lemma_pow2_pos(ey as nat);
        if ky < kx {
            lemma_grid_increases(ky, kx);
        }
    }
    let sig: u128;
    let sticky: bool;
    let exp: i32;
    if gap <= 66 {
        let p = pow2_u128(gap);
        proof {
            lemma_pow2_increases(gap as nat, 66);
            lemma_pow2_adds(64, 2);
            lemma_pow2_adds(gap as nat, ey as nat);
            assert(mx * p < 0x80_0000_0000_0000_0000_0000_0000_0000) by (nonlinear_arith)
                requires
                    mx < 2 * HIDDEN_BIT,
                    HIDDEN_BIT == 0x0010_0000_0000_0000,
                    p <= 0x4_0000_0000_0000_0000,
            ;
            assert(mx * px == (mx * p) * py) by (nonlinear_arith)
                requires
                    px == p * py,
            ;
            assert(((mx * p) + my) * py == mx * px + my * py && ((mx * p) - my) * py == mx * px
                - my * py) by (nonlinear_arith)
                requires
                    mx * px == (mx * p) * py,
            ;
            if opposed {
                assert(mx * p >= my) by (nonlinear_arith)
                    requires
                        ((mx * p) - my) * py >= 0,
                        py > 0,
                ;
            }
        }
        sig = if opposed {
            mx as u128 * p - my as u128
        } else {
            mx as u128 * p + my as u128
        };
        sticky = false;
        exp = ey as i32;
        assert(n * pow2(0) == (sig * py) * 1);
    } else {
        let cut: u128 = if opposed && my != 0 {
            1
        } else {
            0
        };
        sig = mx as u128 * 4096 - cut;
        sticky = my != 0;
        exp = ex as i32 - 12;
        proof {
            let pu = pow2((ex - 12) as nat) as int;
            lemma_pow2_pos((ex - 12) as nat);
            lemma_pow2_adds(12, (ex - 12) as nat);
            lemma_pow2_adds(53, ey as nat);
            lemma_pow2_increases((53 + ey) as nat, (ex - 12) as nat);
            assert(my * py < pu) by (nonlinear_arith)
                requires
                    my < 0x20_0000_0000_0000,
                    0x20_0000_0000_0000 * py <= pu,
                    py > 0,
            ;
            assert((mx * 4096) * pu == mx * px) by (nonlinear_arith)
                requires
                    px == 4096 * pu,
            ;
            assert((mx * 4096 - 1) * pu == mx * px - pu && (mx * 4096 + 1) * pu == mx * px + pu)
                by (nonlinear_arith)
                requires
                    (mx * 4096) * pu == mx * px,
            ;
            if my != 0 {
                assert(my * py > 0) by (nonlinear_arith)
                    requires
                        my > 0,
                        py > 0,
                ;
            } else {
                assert(my * py == 0) by (nonlinear_arith)
                    requires
                        my == 0,
                ;
            }
            assert(!sticky ==> n * pow2(0) == (sig * pu) * 1);
            assert(sticky ==> (sig * pu) * 1 < n * pow2(0) < ((sig + 1) * pu) * 1);
        }
    }
    let k = round_pack(sig, sticky, exp, Ghost(exp as nat), Ghost(0));
    proof {
        lemma_lands_rounds(n, 1, sig as int, sticky, exp as nat, 0, k);
        lemma_round_is(n, 1, k);
    }
    k
}

/// The sum of two numbers, correctly rounded.
pub fn plus(a: Real, b: Real) -> (r: Real)
    ensures
        r == sum(a, b),
{
    if a.is_nan() || b.is_nan() {
        return make_nan();
    }
    if a.is_infinite() {
        if b.is_infinite() && a.is_sign_negative() != b.is_sign_negative() {
            return make_nan();
        }
        return a;
    }
    if b.is_infinite() {
        return b;
    }
    let ka = a.magnitude_pattern();
    let kb = b.magnitude_pattern();
    let na = a.is_sign_negative();
    let nb = b.is_sign_negative();
    proof {
        lemma_grid_zero(ka);
        lemma_grid_zero(kb);
        if ka < kb {
            lemma_grid_increases(ka, kb);
        } else if kb < ka {
            lemma_grid_increases(kb, ka);
        }
    }
    if na != nb && ka == kb {
        return with_sign(false, 0);
    }
    if ka == 0 && kb == 0 {
        return with_sign(na, 0);
    }
    let (kx, nx, ky) = if ka >= kb {
        (ka, na, kb)
    } else {
        (kb, nb, ka)
    };
    let k = combine(kx, ky, na != nb);
    with_sign(nx, k)
}

/// The difference of two numbers, correctly rounded.
pub fn minus(a: Real, b: Real) -> (r: Real)
    ensures
        r == difference(a, b),
{
    plus(a, negate(b))
}

} // verus!
