//! Rounding to nearest, ties to even.
//!
//! `rounds_to` states which magnitude pattern is nearest to an exact
//! quotient; `round_pack` finds it for a magnitude that is known as an
//! integer, a power of two and a flag that says whether anything was cut off.

use crate::grid::{
    grid, lemma_grid_increases, lemma_grid_step, scale_exponent, significand, HIDDEN_BIT,
    INFINITY_BITS,
};
use crate::power::{bit_length, lemma_pow2_increases, lemma_pow2_wide, pow2_u128, pow2_u64};
use vstd::arithmetic::power2::{lemma2_to64, lemma_pow2_adds, lemma_pow2_pos, pow2};
use vstd::prelude::*;

verus! {

/// Magnitude pattern `k` is nearest to the quotient `n / d`, counted in
/// units of 2^-1074: the quotient lies between the midpoints on either side
/// of `grid(k)`, and on a midpoint only if `k` is even. Whatever lies at or
/// beyond the last midpoint goes to infinity.
pub open spec fn rounds_to(n: int, d: int, k: u64) -> bool {
    &&& k <= INFINITY_BITS
    &&& k > 0 ==> {
        let mid = d * (grid((k - 1) as u64) + grid(k));
        mid < 2 * n || (mid == 2 * n && k % 2 == 0)
    }
    &&& k < INFINITY_BITS ==> {
        let mid = d * (grid(k) + grid((k + 1) as u64));
        2 * n < mid || (2 * n == mid && k % 2 == 0)
    }
}

/// The magnitude pattern nearest to `n / d`; see `rounds_to`.
pub open spec fn round(n: int, d: int) -> u64 {
    choose|k: u64| rounds_to(n, d, k)
}

/// Magnitude pattern `k` is nearest to the square root of `v`, both counted
/// in units of 2^-1074; the midpoints are compared by their squares.
pub open spec fn rounds_root_to(v: int, k: u64) -> bool {
    &&& k <= INFINITY_BITS
    &&& k > 0 ==> {
        let mid = grid((k - 1) as u64) + grid(k);
        mid * mid < 4 * v || (mid * mid == 4 * v && k % 2 == 0)
    }
    &&& k < INFINITY_BITS ==> {
        let mid = grid(k) + grid((k + 1) as u64);
        4 * v < mid * mid || (4 * v == mid * mid && k % 2 == 0)
    }
}

/// The magnitude pattern nearest to the square root of `v`; see `rounds_root_to`.
pub open spec fn round_root(v: int) -> u64 {
    choose|k: u64| rounds_root_to(v, k)
}

/// Neighbouring midpoints are ordered as their patterns are.
proof fn lemma_midpoints_ordered(j: u64, k: u64)
    requires
        j < k,
        k <= INFINITY_BITS,
    ensures
        grid(j) + grid((j + 1) as u64) <= grid((k - 1) as u64) + grid(k),
        j + 1 < k ==> grid(j) + grid((j + 1) as u64) < grid((k - 1) as u64) + grid(k),
{
    if j + 1 < k {
        lemma_grid_increases(j, (k - 1) as u64);
        lemma_grid_increases((j + 1) as u64, k);
    }
}

/// At most one pattern is nearest to a quotient.
pub proof fn lemma_rounds_to_unique(n: int, d: int, j: u64, k: u64)
    requires
        d > 0,
        rounds_to(n, d, j),
        rounds_to(n, d, k),
    ensures
        j == k,
{
    if j != k {
        let (a, b) = if j < k {
            (j, k)
        } else {
            (k, j)
        };
        lemma_midpoints_ordered(a, b);
        let ma = grid(a) + grid((a + 1) as u64);
        let mb = grid((b - 1) as u64) + grid(b);
        assert(d * ma <= d * mb) by (nonlinear_arith)
            requires
                d > 0,
                ma <= mb,
        ;
        if a + 1 < b {
            assert(d * ma < d * mb) by (nonlinear_arith)
                requires
                    d > 0,
                    ma < mb,
            ;
        }
    }
}

/// The nearest pattern, once found, is the value of `round`.
pub proof fn lemma_round_is(n: int, d: int, k: u64)
    requires
        d > 0,
        rounds_to(n, d, k),
    ensures
        round(n, d) == k,
{
    lemma_rounds_to_unique(n, d, round(n, d), k);
}

/// At most one pattern is nearest to a square root.
pub proof fn lemma_rounds_root_to_unique(v: int, j: u64, k: u64)
    requires
        rounds_root_to(v, j),
        rounds_root_to(v, k),
    ensures
        j == k,
{
    if j != k {
        let (a, b) = if j < k {
            (j, k)
        } else {
            (k, j)
        };
        lemma_midpoints_ordered(a, b);
        let ma = (grid(a) + grid((a + 1) as u64)) as int;
        let mb = (grid((b - 1) as u64) + grid(b)) as int;
        assert(ma * ma <= mb * mb) by (nonlinear_arith)
            requires
                0 <= ma <= mb,
        ;
        if a + 1 < b {
            assert(ma * ma < mb * mb) by (nonlinear_arith)
                requires
                    0 <= ma < mb,
            ;
        }
    }
}

/// The nearest pattern to a square root, once found, is the value of `round_root`.
pub proof fn lemma_round_root_is(v: int, k: u64)
    requires
        rounds_root_to(v, k),
    ensures
        round_root(v) == k,
{
    lemma_rounds_root_to_unique(v, round_root(v), k);
}

/// Searching upwards from `k`, past which every midpoint lies below the
/// quotient, finds the pattern nearest to it.
proof fn lemma_rounds_to_from(n: int, d: int, k: u64) -> (r: u64)
    requires
        d > 0,
        k <= INFINITY_BITS,
        k > 0 ==> {
            let mid = d * (grid((k - 1) as u64) + grid(k));
            mid < 2 * n || (mid == 2 * n && k % 2 == 0)
        },
    ensures
        rounds_to(n, d, r),
    decreases INFINITY_BITS - k,
{
    if k == INFINITY_BITS {
        k
    } else {
        let mid = d * (grid(k) + grid((k + 1) as u64));
        if 2 * n < mid || (2 * n == mid && k % 2 == 0) {
            k
        } else {
            lemma_rounds_to_from(n, d, (k + 1) as u64)
        }
    }
}

/// Every quotient that is not negative has a nearest pattern.
pub proof fn lemma_round_exists(n: int, d: int)
    requires
        n >= 0,
        d > 0,
    ensures
        rounds_to(n, d, round(n, d)),
        round(n, d) <= INFINITY_BITS,
{
    let k = lemma_rounds_to_from(n, d, 0);
}

/// Searching upwards from `k`, past which every midpoint lies below the
/// root, finds the pattern nearest to it.
proof fn lemma_rounds_root_to_from(v: int, k: u64) -> (r: u64)
    requires
        k <= INFINITY_BITS,
        k > 0 ==> {
            let mid = grid((k - 1) as u64) + grid(k);
            mid * mid < 4 * v || (mid * mid == 4 * v && k % 2 == 0)
        },
    ensures
        rounds_root_to(v, r),
    decreases INFINITY_BITS - k,
{
    if k == INFINITY_BITS {
        k
    } else {
        let mid = grid(k) + grid((k + 1) as u64);
        if 4 * v < mid * mid || (4 * v == mid * mid && k % 2 == 0) {
            k
        } else {
            lemma_rounds_root_to_from(v, (k + 1) as u64)
        }
    }
}

/// Every square root has a nearest pattern.
pub proof fn lemma_round_root_exists(v: int)
    ensures
        rounds_root_to(v, round_root(v)),
        round_root(v) <= INFINITY_BITS,
{
    let k = lemma_rounds_root_to_from(v, 0);
}

/// Every magnitude in a span rounds to pattern `k`. The span is the single
/// point `lo` when `sticky` is false and the open interval from `lo` to `hi`
/// when it is true; both are counted in units in which `grid` is multiplied
/// by `scale`.
pub(crate) open spec fn lands_raw(lo: int, hi: int, sticky: bool, scale: int, k: u64) -> bool {
    &&& k <= INFINITY_BITS
    &&& k > 0 ==> {
        let mid = scale * (grid((k - 1) as u64) + grid(k));
        mid < 2 * lo || (mid == 2 * lo && (sticky || k % 2 == 0))
    }
    &&& k < INFINITY_BITS ==> {
        let mid = scale * (grid(k) + grid((k + 1) as u64));
        if sticky {
            2 * hi <= mid
        } else {
            2 * lo < mid || (2 * lo == mid && k % 2 == 0)
        }
    }
}

/// `lands_raw` for the span that starts at `sig * 2^up` and is `2^up` wide,
/// in units of 2^-(1074 + down).
pub(crate) open spec fn lands(sig: int, sticky: bool, up: nat, down: nat, k: u64) -> bool {
    lands_raw(sig * pow2(up), (sig + 1) * pow2(up), sticky, pow2(down) as int, k)
}

/// Whether the cut-off part lifts the kept part to the next pattern: it
/// does above one half, and at one half when more was cut off before or
/// the kept part is odd.
pub(crate) open spec fn rounds_up(rest: int, sticky: bool, kept: int) -> bool {
    rest > 1024 || (rest == 1024 && (sticky || kept % 2 == 1))
}

/// Cutting low bits off a span leaves a wider span around it.
proof fn lemma_lands_shift_right(
    sig: int,
    sticky: bool,
    up: nat,
    down: nat,
    s: nat,
    q: int,
    st: bool,
    k: u64,
)
    requires
        q * pow2(s) <= sig < (q + 1) * pow2(s),
        st == (sticky || sig != q * pow2(s)),
        lands(q, st, up + s, down, k),
    ensures
        lands(sig, sticky, up, down, k),
{
    let u = pow2(up) as int;
    let c = pow2(s) as int;
    lemma_pow2_pos(up);
    lemma_pow2_adds(up, s);
    let a = q * c;
    let b = (q + 1) * c;
    assert(q * pow2(up + s) == a * u) by (nonlinear_arith)
        requires
            pow2(up + s) == u * c,
            a == q * c,
    ;
    assert((q + 1) * pow2(up + s) == b * u) by (nonlinear_arith)
        requires
            pow2(up + s) == u * c,
            b == (q + 1) * c,
    ;
    assert(a * u <= sig * u) by (nonlinear_arith)
        requires
            a <= sig,
            u > 0,
    ;
    assert((sig + 1) * u <= b * u) by (nonlinear_arith)
        requires
            sig + 1 <= b,
            u > 0,
    ;
    assert(sig * u < (sig + 1) * u) by (nonlinear_arith)
        requires
            u > 0,
    ;
    if a < sig {
        assert(a * u < sig * u) by (nonlinear_arith)
            requires
                a < sig,
                u > 0,
        ;
    }
}

/// An exact magnitude may be written with more low bits.
proof fn lemma_lands_shift_left(sig: int, up: nat, down: nat, s: nat, k: u64)
    requires
        lands(sig * pow2(s), false, up, down + s, k),
    ensures
        lands(sig, false, up, down, k),
{
    let u = pow2(up) as int;
    let c = pow2(s) as int;
    let dn = pow2(down) as int;
    lemma_pow2_pos(s);
    lemma_pow2_adds(down, s);
    let lo = sig * u;
    assert((sig * c) * u == c * lo) by (nonlinear_arith)
        requires
            lo == sig * u,
    ;
    if k > 0 {
        let x = (grid((k - 1) as u64) + grid(k)) as int;
        let m = dn * x;
        assert(pow2(down + s) * x == c * m) by (nonlinear_arith)
            requires
                pow2(down + s) == dn * c,
                m == dn * x,
        ;
        assert((c * m < 2 * (c * lo)) == (m < 2 * lo) && (c * m == 2 * (c * lo)) == (m == 2 * lo))
            by (nonlinear_arith)
            requires
                c > 0,
        ;
    }
    if k < INFINITY_BITS {
        let x = (grid(k) + grid((k + 1) as u64)) as int;
        let m = dn * x;
        assert(pow2(down + s) * x == c * m) by (nonlinear_arith)
            requires
                pow2(down + s) == dn * c,
                m == dn * x,
        ;
        assert((2 * (c * lo) < c * m) == (2 * lo < m) && (c * m == 2 * (c * lo)) == (m == 2 * lo))
            by (nonlinear_arith)
            requires
                c > 0,
        ;
    }
}

/// A magnitude of at least 2^1024 rounds to infinity.
proof fn lemma_lands_overflow(t: int, st: bool, up: nat, down: nat)
    requires
        t >= 0x8000_0000_0000_0000,
        up >= down + 2035,
    ensures
        lands(t, st, up, down, INFINITY_BITS),
{
    let k = INFINITY_BITS;
    let u = pow2(up) as int;
    let dn = pow2(down) as int;
    let top = pow2(2046) as int;
    lemma2_to64();
    lemma_pow2_wide();
    lemma_pow2_pos(down);
    assert(grid(k) == HIDDEN_BIT * top) by {
        assert(significand(k) == HIDDEN_BIT);
        assert(scale_exponent(k) == 2046);
    }
    lemma_grid_increases((k - 1) as u64, k);
    // 2^63 * 2^up >= 2^52 * 2^2046 * 2^down
    lemma_pow2_increases(down + 2035, up);
    lemma_pow2_adds(down, 2035);
    lemma_pow2_adds(2035, 11);
    let mid_part = pow2(2035) as int;
    assert(top == mid_part * 2048);
    assert(dn * (HIDDEN_BIT * top) <= t * u) by (nonlinear_arith)
        requires
            top == mid_part * 2048,
            u >= dn * mid_part,
            t >= 0x8000_0000_0000_0000,
            HIDDEN_BIT == 0x0010_0000_0000_0000,
            dn > 0,
            mid_part > 0,
    ;
    let g1 = grid((k - 1) as u64) as int;
    let g2 = grid(k) as int;
    assert(dn * (g1 + g2) < 2 * (dn * g2)) by (nonlinear_arith)
        requires
            g1 < g2,
            dn > 0,
    ;
}

/// The last step of rounding: the low eleven bits of `t` are cut off and
/// decide between the pattern of the kept bits and the next one.
proof fn lemma_lands_tail(t: int, st: bool, field: int, up: nat, down: nat, k: u64)
    requires
        1 <= field <= 2046,
        up + 11 == down + field - 1,
        0 <= t < 0x1_0000_0000_0000_0000,
        field > 1 ==> t >= 0x8000_0000_0000_0000,
        k == (field - 1) * HIDDEN_BIT + t / 2048 + if rounds_up(t % 2048, st, t / 2048) {
            1int
        } else {
            0int
        },
    ensures
        lands(t, st, up, down, k),
{
    let m0 = t / 2048;
    let rb = t % 2048;
    let k0 = ((field - 1) * HIDDEN_BIT + m0) as u64;
    let k1 = (k0 + 1) as u64;
    let e = (field - 1) as nat;
    let u = pow2(up) as int;
    let dn = pow2(down) as int;
    let p = pow2(e) as int;
    let w = 2048 * u;
    lemma2_to64();
    lemma_pow2_pos(up);
    lemma_pow2_pos(down);
    lemma_pow2_pos(e);
    assert(p * dn == w) by {
        lemma_pow2_adds(e, down);
        lemma_pow2_adds(11, up);
    }
    assert(k0 < INFINITY_BITS);
    assert(scale_exponent(k0) == e && significand(k0) == m0) by {
        if m0 >= HIDDEN_BIT {
            assert(k0 == field * HIDDEN_BIT + (m0 - HIDDEN_BIT));
        }
    }
    let g0 = grid(k0) as int;
    let g1 = grid(k1) as int;
    lemma_grid_step(k0);
    assert(g0 == m0 * p);
    assert(g1 == g0 + p);
    let a = m0 * w;
    let x = rb * u;
    assert(dn * g0 == a) by (nonlinear_arith)
        requires
            g0 == m0 * p,
            p * dn == w,
            a == m0 * w,
    ;
    assert(dn * g1 == a + w) by (nonlinear_arith)
        requires
            g1 == g0 + p,
            dn * g0 == a,
            p * dn == w,
    ;
    assert(dn * (g0 + g1) == 2 * a + w) by (nonlinear_arith)
        requires
            dn * g0 == a,
            dn * g1 == a + w,
    ;
    assert(t * u == a + x) by (nonlinear_arith)
        requires
            t == 2048 * m0 + rb,
            a == m0 * w,
            w == 2048 * u,
            x == rb * u,
    ;
    assert((t + 1) * u == a + x + u) by (nonlinear_arith)
        requires
            t * u == a + x,
    ;
    assert(0 <= x && x + u <= w) by (nonlinear_arith)
        requires
            0 <= rb <= 2047,
            x == rb * u,
            w == 2048 * u,
            u > 0,
    ;
    assert(rb < 1024 ==> 2 * x + 2 * u <= w) by (nonlinear_arith)
        requires
            0 <= rb,
            x == rb * u,
            w == 2048 * u,
            u > 0,
    ;
    assert(rb == 1024 ==> 2 * x == w) by (nonlinear_arith)
        requires
            x == rb * u,
            w == 2048 * u,
    ;
    assert(rb > 1024 ==> 2 * x > w) by (nonlinear_arith)
        requires
            x == rb * u,
            w == 2048 * u,
            u > 0,
    ;
    assert(k0 % 2 == m0 % 2);
    if rounds_up(rb, st, m0) {
        assert(k == k1);
        if k1 < INFINITY_BITS {
            let k2 = (k1 + 1) as u64;
            let g2 = grid(k2) as int;
            lemma_grid_increases(k1, k2);
            assert(dn * (g1 + g2) > 2 * (dn * g1)) by (nonlinear_arith)
                requires
                    g1 < g2,
                    dn > 0,
            ;
        }
    } else {
        assert(k == k0);
        if k0 > 0 {
            let kp = (k0 - 1) as u64;
            let gp = grid(kp) as int;
            lemma_grid_increases(kp, k0);
            assert(dn * (gp + g0) < 2 * (dn * g0)) by (nonlinear_arith)
                requires
                    gp < g0,
                    dn > 0,
            ;
        }
    }
}

/// The magnitude pattern to which a span rounds. The span starts at
/// `sig * 2^exp` units of 2^-1074 and is the single point there when
/// `sticky` is false, or the open interval of width `2^exp` above it when
/// `sticky` is true. The exponent is given as `up - down`.
pub(crate) fn round_pack(
    sig: u128,
    sticky: bool,
    exp: i32,
    Ghost(up): Ghost<nat>,
    Ghost(down): Ghost<nat>,
) -> (k: u64)
    requires
        exp == up - down,
        -4000 <= exp <= 4000,
        sticky ==> sig >= 0x8000_0000_0000_0000,
    ensures
        lands(sig as int, sticky, up, down, k),
{
    if sig == 0 {
        proof {
            lemma2_to64();
            lemma_pow2_pos(down);
            lemma_grid_step(0);
            assert(grid(0) == 0) by {
                assert(significand(0) == 0);
                assert(0 * pow2(scale_exponent(0)) == 0) by (nonlinear_arith);
            }
            assert(grid(1) == 1);
            assert(0 * pow2(up) == 0) by (nonlinear_arith);
            assert(pow2(down) * (grid(0) + grid(1)) == pow2(down)) by (nonlinear_arith)
                requires
                    grid(0) + grid(1) == 1,
            ;
        }
        return 0;
    }
    let len = bit_length(sig);
    let t: u64;
    let st: bool;
    let e: i32;
    let ghost up1: nat;
    let ghost down1: nat;
    proof {
        lemma_pow2_wide();
        lemma2_to64();
    }
    if len >= 64 {
        let s = len - 64;
        let p = pow2_u128(s);
        proof {
            lemma_pow2_adds(64, s as nat);
            lemma_pow2_adds(63, s as nat);
            let q = (sig / p) as int;
            assert(q * p <= sig < (q + 1) * p && q < 0x1_0000_0000_0000_0000 && q
                >= 0x8000_0000_0000_0000) by (nonlinear_arith)
                requires
                    q == sig as int / p as int,
                    p > 0,
                    0x8000_0000_0000_0000 * p <= sig,
                    sig < 0x1_0000_0000_0000_0000 * p,
            ;
            assert((sig % p != 0) == (sig != q * p)) by (nonlinear_arith)
                requires
                    q == sig as int / p as int,
                    p > 0,
            ;
        }
        t = (sig / p) as u64;
        st = sticky || sig % p != 0;
        e = exp + s as i32;
        proof {
            up1 = up + s as nat;
            down1 = down;
        }
    } else {
        let s = 64 - len;
        let p = pow2_u128(s);
        proof {
            lemma_pow2_adds((len - 1) as nat, s as nat);
            lemma_pow2_adds(len as nat, s as nat);
            assert(0x8000_0000_0000_0000 <= sig * p < 0x1_0000_0000_0000_0000)
                by (nonlinear_arith)
                requires
                    pow2((len - 1) as nat) <= sig,
                    sig < pow2(len as nat),
                    pow2((len - 1) as nat) * p == 0x8000_0000_0000_0000,
                    pow2(len as nat) * p == 0x1_0000_0000_0000_0000,
                    p > 0,
            ;
        }
        t = (sig * p) as u64;
        st = false;
        e = exp - s as i32;
        proof {
            up1 = up;
            down1 = down + s as nat;
        }
    }
    assert(t >= 0x8000_0000_0000_0000);
    assert(e == up1 - down1);
    let field: i32 = e + 12;
    let k: u64;
    if field >= 2047 {
        k = INFINITY_BITS;
        proof {
            lemma_lands_overflow(t as int, st, up1, down1);
        }
    } else {
        let t2: u64;
        let st2: bool;
        let field2: i32;
        let ghost up2: nat;
        if field >= 1 {
            t2 = t;
            st2 = st;
            field2 = field;
            proof {
                up2 = up1;
            }
        } else {
            let s2: i32 = 1 - field;
            if s2 >= 64 {
                t2 = 0;
                st2 = true;
                proof {
                    lemma_pow2_increases(64, s2 as nat);
                    assert(0 * pow2(s2 as nat) == 0 && (0 + 1) * pow2(s2 as nat) == pow2(s2 as nat))
                        by (nonlinear_arith);
                }
            } else {
                let cut = pow2_u64(s2 as u32);
                proof {
                    let q = (t / cut) as int;
                    assert(q * cut <= t < (q + 1) * cut) by (nonlinear_arith)
                        requires
                            q == t as int / cut as int,
                            cut > 0,
                    ;
                    assert((t % cut != 0) == (t != q * cut)) by (nonlinear_arith)
                        requires
                            q == t as int / cut as int,
                            cut > 0,
                    ;
                }
                t2 = t / cut;
                st2 = st || t % cut != 0;
            }
            field2 = 1;
            proof {
                up2 = up1 + s2 as nat;
            }
        }
        let kept: u64 = t2 / 2048;
        let rest: u64 = t2 % 2048;
        let k0: u64 = (field2 - 1) as u64 * HIDDEN_BIT + kept;
        k = if rest > 1024 || (rest == 1024 && (st2 || kept % 2 == 1)) {
            k0 + 1
        } else {
            k0
        };
        proof {
            lemma_lands_tail(t2 as int, st2, field2 as int, up2, down1, k);
            if field < 1 {
                lemma_lands_shift_right(
                    t as int,
                    st,
                    up1,
                    down1,
                    (1 - field) as nat,
                    t2 as int,
                    st2,
                    k,
                );
            }
        }
    }
    proof {
        if len >= 64 {
            lemma_lands_shift_right(
                sig as int,
                sticky,
                up,
                down,
                (len - 64) as nat,
                t as int,
                st,
                k,
            );
        } else {
            let s = (64 - len) as nat;
            lemma_pow2_increases(len as nat, 63);
            assert(t as int == sig as int * pow2(s));
            lemma_lands_shift_left(sig as int, up, down, s, k);
        }
    }
    k
}

} // verus!
