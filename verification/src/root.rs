//! Square root.

use crate::arith::{decompose, lemma_lands_rounds_root, make_nan, root, with_sign};
use crate::grid::HIDDEN_BIT;
use crate::number::Real;
use crate::power::{lemma_pow2_wide, pow2_u128};
use crate::quotient::normalize;
use crate::rounding::{lemma_round_root_is, round_pack};
use vstd::arithmetic::power2::{lemma2_to64, lemma2_to64_rest, lemma_pow2_adds, lemma_pow2_pos, lemma_pow2_unfold, pow2};
use vstd::prelude::*;

verus! {

/// The whole part of the square root of `n`.
pub(crate) fn integer_root(n: u128) -> (r: u64)
    ensures
        r * r <= n < (r + 1) * (r + 1),
{
    let mut r: u128 = 0;
    let mut i: u32 = 64;
    proof {
        lemma_pow2_wide();
        assert(0x1_0000_0000_0000_0000 * 0x1_0000_0000_0000_0000
            == 0x1_0000_0000_0000_0000_0000_0000_0000_0000int);
        assert(r * r == 0) by (nonlinear_arith)
            requires
                r == 0,
        ;
    }
    while i > 0
        invariant
            i <= 64,
            r * r <= n,
            n < (r + pow2(i as nat)) * (r + pow2(i as nat)),
            r + pow2(i as nat) <= 0x1_0000_0000_0000_0000,
        decreases i,
    {
        i = i - 1;
        let bit = pow2_u128(i);
        proof {
            lemma_pow2_unfold((i + 1) as nat);
        }
        let c = r + bit;
        assert(c * c < 0x1_0000_0000_0000_0000_0000_0000_0000_0000) by (nonlinear_arith)
            requires
                0 <= c < 0x1_0000_0000_0000_0000,
        ;
        if c * c <= n {
            r = c;
        }
    }
    proof {
        lemma2_to64();
    }
    r as u64
}

/// The square root of a number, correctly rounded.
pub fn square_root(a: Real) -> (r: Real)
    ensures
        r == root(a),
{
    if a.is_nan() {
        return make_nan();
    }
    if a.is_zero() || (a.is_infinite() && !a.is_sign_negative()) {
        return a;
    }
    if a.is_sign_negative() {
        return make_nan();
    }
    let ka = a.magnitude_pattern();
    let (m, e) = decompose(ka);
    let (nm, s) = normalize(m);
    let p: u32 = e + 1074 - s;
    let t: u32 = if p % 2 == 0 {
        74
    } else {
        75
    };
    let scale = pow2_u128(t);
    proof {
        lemma2_to64();
        lemma2_to64_rest();
        lemma_pow2_wide();
        lemma_pow2_adds(64, 10);
        lemma_pow2_adds(64, 11);
        assert(0x4000_0000_0000_0000_0000_0000_0000_0000 <= nm * scale
            < 0x1_0000_0000_0000_0000_0000_0000_0000_0000) by (nonlinear_arith)
            requires
                HIDDEN_BIT <= nm < 2 * HIDDEN_BIT,
                HIDDEN_BIT == 0x0010_0000_0000_0000,
                scale == 0x1_0000_0000_0000_0000 * 0x400 || scale == 0x1_0000_0000_0000_0000
                    * 0x800,
        ;
    }
    let num: u128 = nm as u128 * scale;
    let r = integer_root(num);
    assert(r >= 0x8000_0000_0000_0000) by (nonlinear_arith)
        requires
            num < (r + 1) * (r + 1),
            num >= 0x4000_0000_0000_0000_0000_0000_0000_0000,
    ;
    let sticky = r as u128 * r as u128 != num;
    let half: u32 = (p - t) / 2;
    let k = round_pack(r as u128, sticky, half as i32, Ghost(half as nat), Ghost(0));
    proof {
        let v = (a.magnitude() * pow2(1074)) as int;
        let ph = pow2(half as nat) as int;
        let pe = pow2(e as nat) as int;
        let ps = pow2(s as nat) as int;
        let lo = r * ph;
        let hi = (r + 1) * ph;
        lemma_pow2_pos(half as nat);
        lemma_pow2_adds(half as nat, half as nat);
        lemma_pow2_adds(t as nat, (half + half) as nat);
        lemma_pow2_adds(s as nat, p as nat);
        lemma_pow2_adds(e as nat, 1074);
        assert(v * ps == (num * (ph * ph)) * ps) by (nonlinear_arith)
            requires
                v == (m * pe) * pow2(1074),
                pe * pow2(1074) == ps * pow2(p as nat),
                pow2(p as nat) == scale * (ph * ph),
                num == (m * ps) * scale,
        ;
        lemma_pow2_pos(s as nat);
        assert(v == num * (ph * ph)) by (nonlinear_arith)
            requires
                v * ps == (num * (ph * ph)) * ps,
                ps > 0,
        ;
        assert(lo * lo == (r * r) * (ph * ph) && hi * hi == ((r + 1) * (r + 1)) * (ph * ph))
            by (nonlinear_arith)
            requires
                lo == r * ph,
                hi == (r + 1) * ph,
        ;
        assert(ph * ph > 0) by (nonlinear_arith)
            requires
                ph > 0,
        ;
        assert(lo * lo <= v && v < hi * hi && (sticky ==> lo * lo < v) && (!sticky ==> lo * lo
            == v)) by (nonlinear_arith)
            requires
                v == num * (ph * ph),
                lo * lo == (r * r) * (ph * ph),
                hi * hi == ((r + 1) * (r + 1)) * (ph * ph),
                r * r <= num,
                num < (r + 1) * (r + 1),
                sticky == (r * r != num),
                ph * ph > 0,
        ;
        lemma_lands_rounds_root(v, r as int, sticky, half as nat, k);
        lemma_round_root_is(v, k);
    }
    with_sign(false, k)
}

} // verus!
