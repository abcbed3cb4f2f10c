//! Multiplication.

use crate::arith::{decompose, lemma_lands_rounds, make_nan, product, with_sign};
use crate::grid::{HIDDEN_BIT, INFINITY_BITS};
use crate::number::Real;
use crate::rounding::{lemma_round_is, round_pack};
use vstd::arithmetic::power2::{lemma_pow2_adds, lemma_pow2_pos, pow2};
use vstd::prelude::*;

verus! {

/// The product of two numbers, correctly rounded.
pub fn multiply(a: Real, b: Real) -> (r: Real)
    ensures
        r == product(a, b),
{
    let negative = a.is_sign_negative() != b.is_sign_negative();
    if a.is_nan() || b.is_nan() {
        return make_nan();
    }
    if a.is_infinite() || b.is_infinite() {
        if a.is_zero() || b.is_zero() {
            return make_nan();
        }
        return with_sign(negative, INFINITY_BITS);
    }
    let ka = a.magnitude_pattern();
    let kb = b.magnitude_pattern();
    let (ma, ea) = decompose(ka);
    let (mb, eb) = decompose(kb);
    assert(ma * mb < 0x400_0000_0000_0000_0000_0000_0000) by (nonlinear_arith)
        requires
            ma < 2 * HIDDEN_BIT,
            mb < 2 * HIDDEN_BIT,
            HIDDEN_BIT == 0x0010_0000_0000_0000,
    ;
    let sig: u128 = ma as u128 * mb as u128;
    let exp: i32 = ea as i32 + eb as i32 - 1074;
    let ghost up = (ea + eb) as nat;
    let k = round_pack(sig, false, exp, Ghost(up), Ghost(1074));
    proof {
        let n = a.magnitude() * b.magnitude();
        let pa = pow2(ea as nat) as int;
        let pb = pow2(eb as nat) as int;
        lemma_pow2_adds(ea as nat, eb as nat);
        assert(n == (sig * pow2(up))) by (nonlinear_arith)
            requires
                n == (ma * pa) * (mb * pb),
                sig == ma * mb,
                pow2(up) == pa * pb,
        ;
        assert(n * pow2(1074) == (sig * pow2(up)) * pow2(1074));
        lemma_pow2_pos(1074);
        lemma_lands_rounds(n as int, pow2(1074) as int, sig as int, false, up, 1074, k);
        lemma_round_is(n as int, pow2(1074) as int, k);
    }
    with_sign(negative, k)
}

} // verus!
