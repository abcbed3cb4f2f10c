//! Division.

use crate::arith::{
    decompose, lemma_lands_rounds, lemma_rounds_zero, make_nan, quotient, with_sign,
};
use crate::grid::{lemma_grid_zero, HIDDEN_BIT, INFINITY_BITS};
use crate::number::Real;
use crate::power::{bit_length, lemma_pow2_increases, lemma_pow2_wide, pow2_u64};
use crate::rounding::{lemma_round_is, round_pack};
use vstd::arithmetic::power2::{lemma2_to64, lemma2_to64_rest, lemma_pow2_adds, lemma_pow2_pos, pow2};
use vstd::prelude::*;

verus! {

/// A non-zero significand moved up until its leading bit has weight 2^52,
/// with the number of places it moved.
pub(crate) fn normalize(m: u64) -> (r: (u64, u32))
    requires
        0 < m < 2 * HIDDEN_BIT,
    ensures
        r.0 == m * pow2(r.1 as nat),
        HIDDEN_BIT <= r.0 < 2 * HIDDEN_BIT,
        r.1 <= 52,
{
    let len = bit_length(m as u128);
    proof {
        lemma2_to64();
        lemma2_to64_rest();
        if len > 53 {
            lemma_pow2_increases(53, (len - 1) as nat);
        }
    }
    let s: u32 = 53 - len;
    let p = pow2_u64(s);
    proof {
        lemma_pow2_adds((len - 1) as nat, s as nat);
        lemma_pow2_adds(len as nat, s as nat);
        assert(HIDDEN_BIT <= m * p < 2 * HIDDEN_BIT) by (nonlinear_arith)
            requires
                pow2((len - 1) as nat) <= m,
                m < pow2(len as nat),
                pow2((len - 1) as nat) * p == HIDDEN_BIT,
                pow2(len as nat) * p == 2 * HIDDEN_BIT,
                p > 0,
        ;
    }
    (m * p, s)
}

/// The quotient of two numbers, correctly rounded.
pub fn divide(a: Real, b: Real) -> (r: Real)
    ensures
        r == quotient(a, b),
{
    let negative = a.is_sign_negative() != b.is_sign_negative();
    if a.is_nan() || b.is_nan() {
        return make_nan();
    }
    if a.is_infinite() {
        if b.is_infinite() {
            return make_nan();
        }
        return with_sign(negative, INFINITY_BITS);
    }
    if b.is_infinite() {
        return with_sign(negative, 0);
    }
    if b.is_zero() {
        if a.is_zero() {
            return make_nan();
        }
        return with_sign(negative, INFINITY_BITS);
    }
    let ka = a.magnitude_pattern();
    let kb = b.magnitude_pattern();
    let (ma, ea) = decompose(ka);
    let (mb, eb) = decompose(kb);
    proof {
        lemma_grid_zero(ka);
        lemma_grid_zero(kb);
        lemma_pow2_pos(1074);
    }
    if a.is_zero() {
        proof {
            assert(a.magnitude() * pow2(1074) == 0) by (nonlinear_arith)
                requires
                    a.magnitude() == 0,
            ;
            lemma_rounds_zero(b.magnitude() as int);
            lemma_round_is(0, b.magnitude() as int, 0);
        }
        return with_sign(negative, 0);
    }
    let (na, s) = normalize(ma);
    proof {
        lemma2_to64();
        lemma2_to64_rest();
        lemma_pow2_wide();
        lemma_pow2_adds(64, 11);
    }
    assert(na * pow2(75) < 0x1_0000_0000_0000_0000_0000_0000_0000_0000 && na * pow2(75)
        >= 0x8000_0000_0000_0000 * 2 * HIDDEN_BIT) by (nonlinear_arith)
        requires
            HIDDEN_BIT <= na < 2 * HIDDEN_BIT,
            HIDDEN_BIT == 0x0010_0000_0000_0000,
            pow2(75) == 0x1_0000_0000_0000_0000 * 0x800,
    ;
    let num: u128 = na as u128 * 0x8_0000_0000_0000_0000_00u128;
    let q: u128 = num / mb as u128;
    let rest: u128 = num % mb as u128;
    let sticky = rest != 0;
    let exp: i32 = ea as i32 - eb as i32 - s as i32 - 75 + 1074;
    let ghost up = (ea + 1074) as nat;
    let ghost down = (eb + s + 75) as nat;
    assert(q >= 0x8000_0000_0000_0000 && q * mb <= num < (q + 1) * mb && (rest == 0) == (num == q
        * mb)) by (nonlinear_arith)
        requires
            q == num as int / mb as int,
            rest == num as int % mb as int,
            0 < mb < 2 * HIDDEN_BIT,
            num >= 0x8000_0000_0000_0000 * 2 * HIDDEN_BIT,
    ;
    let k = round_pack(q, sticky, exp, Ghost(up), Ghost(down));
    proof {
        let n = (a.magnitude() * pow2(1074)) as int;
        let d = b.magnitude() as int;
        let pa = pow2(ea as nat) as int;
        let pb = pow2(eb as nat) as int;
        let ps = pow2(s as nat) as int;
        let pu = pow2(up) as int;
        let pd = pow2(down) as int;
        let c = pu * pb;
        lemma_pow2_pos(up);
        lemma_pow2_pos(eb as nat);
        lemma_pow2_adds(ea as nat, 1074);
        lemma_pow2_adds(eb as nat, s as nat);
        lemma_pow2_adds((eb + s) as nat, 75);
        assert(d > 0);
        assert(c > 0) by (nonlinear_arith)
            requires
                pu > 0,
                pb > 0,
                c == pu * pb,
        ;
        assert(n * pd == num * c) by (nonlinear_arith)
            requires
                n == (ma * pa) * pow2(1074),
                pu == pa * pow2(1074),
                pd == (pb * ps) * pow2(75),
                num == (ma * ps) * pow2(75),
                c == pu * pb,
        ;
        assert((q * pu) * d == (q * mb) * c && ((q + 1) * pu) * d == ((q + 1) * mb) * c)
            by (nonlinear_arith)
            requires
                d == mb * pb,
                c == pu * pb,
        ;
        assert((q * mb) * c <= num * c && num * c < ((q + 1) * mb) * c && (sticky ==> (q * mb) * c
            < num * c) && (!sticky ==> (q * mb) * c == num * c)) by (nonlinear_arith)
            requires
                q * mb <= num,
                num < (q + 1) * mb,
                sticky == (num != q * mb),
                c > 0,
        ;
        lemma_lands_rounds(n, d, q as int, sticky, up, down, k);
        lemma_round_is(n, d, k);
    }
    with_sign(negative, k)
}

} // verus!
