//! Laws of the arithmetic: what holds of sums, products, quotients and
//! roots whatever the operands are.

use crate::arith::{difference, product, quotient, root, signed, sum};
use crate::grid::{
    grid, lemma_grid_increases, lemma_grid_step, lemma_grid_zero, magnitude_bits,
    scale_exponent, significand, HIDDEN_BIT, INFINITY_BITS,
};
use crate::nearness::{lemma_near_self, near};
use crate::number::{Real, ONE_BITS, PRECISION, THOUSAND_BITS, TWO_BITS};
use crate::power::lemma_pow2_increases;
use crate::rounding::{
    lemma_round_exists, lemma_round_is, lemma_round_root_exists, lemma_round_root_is, round,
    round_root, rounds_root_to, rounds_to,
};
use vstd::arithmetic::power2::{lemma2_to64, lemma2_to64_rest, lemma_pow2_adds, lemma_pow2_pos, lemma_pow2_unfold, pow2};
use vstd::prelude::*;

verus! {

/// A quotient that is exactly a magnitude rounds to that magnitude.
pub proof fn lemma_round_exact(k: u64, c: int)
    requires
        k <= INFINITY_BITS,
        c > 0,
    ensures
        round(grid(k) * c, c) == k,
{
    let g = grid(k) as int;
    if k > 0 {
        let below = grid((k - 1) as u64) as int;
        lemma_grid_increases((k - 1) as u64, k);
        assert(c * (below + g) < 2 * (g * c)) by (nonlinear_arith)
            requires
                below < g,
                c > 0,
        ;
    }
    if k < INFINITY_BITS {
        let above = grid((k + 1) as u64) as int;
        lemma_grid_increases(k, (k + 1) as u64);
        assert(2 * (g * c) < c * (g + above)) by (nonlinear_arith)
            requires
                g < above,
                c > 0,
        ;
    }
    assert(rounds_to(g * c, c, k));
    lemma_round_is(g * c, c, k);
}

/// The root of the square of a magnitude rounds to that magnitude.
pub proof fn lemma_round_root_exact(k: u64)
    requires
        k <= INFINITY_BITS,
    ensures
        round_root((grid(k) * grid(k)) as int) == k,
{
    let g = grid(k) as int;
    if k > 0 {
        let below = grid((k - 1) as u64) as int;
        lemma_grid_increases((k - 1) as u64, k);
        assert((below + g) * (below + g) < 4 * (g * g)) by (nonlinear_arith)
            requires
                0 <= below < g,
        ;
    }
    if k < INFINITY_BITS {
        let above = grid((k + 1) as u64) as int;
        lemma_grid_increases(k, (k + 1) as u64);
        assert(4 * (g * g) < (g + above) * (g + above)) by (nonlinear_arith)
            requires
                0 <= g < above,
        ;
    }
    assert(rounds_root_to(g * g, k));
    lemma_round_root_is(g * g, k);
}

/// Rounding to a normal number moves a quotient by at most one part in
/// 2^53 of the result.
pub proof fn lemma_round_error(n: int, d: int, k: u64)
    requires
        d > 0,
        rounds_to(n, d, k),
        HIDDEN_BIT <= k < INFINITY_BITS,
    ensures
        near(n, d * grid(k), PRECISION as int),
{
    let g = grid(k) as int;
    let below = grid((k - 1) as u64) as int;
    let above = grid((k + 1) as u64) as int;
    let ulp = pow2(scale_exponent(k)) as int;
    let ulp_below = pow2(scale_exponent((k - 1) as u64)) as int;
    lemma_grid_step(k);
    lemma_grid_step((k - 1) as u64);
    lemma_pow2_increases(scale_exponent((k - 1) as u64), scale_exponent(k));
    assert(ulp * 0x10_0000_0000_0000 <= g) by (nonlinear_arith)
        requires
            g == significand(k) * ulp,
            significand(k) >= 0x10_0000_0000_0000,
            ulp > 0,
    ;
    assert(d * (g + above) == 2 * (d * g) + d * ulp && d * (below + g) == 2 * (d * g) - d
        * ulp_below) by (nonlinear_arith)
        requires
            above == g + ulp,
            g == below + ulp_below,
    ;
    assert(d * ulp_below <= d * ulp && (d * ulp) * 0x10_0000_0000_0000 <= d * g)
        by (nonlinear_arith)
        requires
            d > 0,
            ulp_below <= ulp,
            ulp * 0x10_0000_0000_0000 <= g,
    ;
}

/// Rounding a whole number of units moves it by at most one part in 2^53
/// of the result, whether the result is normal or not.
pub proof fn lemma_round_error_whole(n: int, k: u64)
    requires
        n >= 0,
        rounds_to(n, 1, k),
        k < INFINITY_BITS,
    ensures
        near(n, grid(k) as int, PRECISION as int),
{
    if k >= HIDDEN_BIT {
        lemma_round_error(n, 1, k);
        assert(1 * grid(k) == grid(k)) by (nonlinear_arith);
    } else {
        lemma2_to64();
        lemma_grid_step(k);
        assert(grid(k) == k) by {
            assert(k * pow2(0) == k) by (nonlinear_arith)
                requires
                    pow2(0) == 1,
            ;
        }
        if k > 0 {
            let j = (k - 1) as u64;
            assert(grid(j) == j) by {
                assert(j * pow2(0) == j) by (nonlinear_arith)
                    requires
                        pow2(0) == 1,
                ;
            }
        }
        let below = if k > 0 {
            grid((k - 1) as u64) as int
        } else {
            0
        };
        let above = grid((k + 1) as u64) as int;
        assert(1 * (grid(k) + above) == 2 * k + 1) by (nonlinear_arith)
            requires
                grid(k) == k,
                above == k + 1,
        ;
        if k > 0 {
            assert(1 * (below + grid(k)) == 2 * k - 1) by (nonlinear_arith)
                requires
                    grid(k) == k,
                    below == k - 1,
            ;
        } else {
            lemma_grid_zero(0);
        }
        assert(n == k);
        lemma_near_self(n, PRECISION as int);
    }
}

/// A finite sum differs from the exact sum by at most one part in 2^53,
/// and has its sign.
pub proof fn lemma_sum_error(a: Real, b: Real)
    requires
        a.is_finite(),
        b.is_finite(),
        sum(a, b).is_finite(),
    ensures
        a.scaled() + b.scaled() >= 0 ==> near(
            a.scaled() + b.scaled(),
            sum(a, b).magnitude() as int,
            PRECISION as int,
        ),
        a.scaled() + b.scaled() <= 0 ==> near(
            -(a.scaled() + b.scaled()),
            sum(a, b).magnitude() as int,
            PRECISION as int,
        ),
        a.scaled() + b.scaled() > 0 ==> !sum(a, b).is_sign_negative(),
        a.scaled() + b.scaled() < 0 ==> sum(a, b).is_sign_negative(),
{
    let s = a.scaled() + b.scaled();
    lemma_grid_zero(0);
    if s > 0 {
        lemma_round_exists(s, 1);
        lemma_round_error_whole(s, round(s, 1));
    } else if s < 0 {
        lemma_round_exists(-s, 1);
        lemma_round_error_whole(-s, round(-s, 1));
    } else {
        lemma_near_self(0, PRECISION as int);
    }
}

/// A normal product differs from the exact product by at most one part
/// in 2^53.
pub proof fn lemma_product_error(a: Real, b: Real)
    requires
        a.is_finite(),
        b.is_finite(),
        product(a, b).is_normal(),
    ensures
        near(
            (a.magnitude() * b.magnitude()) as int,
            (product(a, b).magnitude() * pow2(1074)) as int,
            PRECISION as int,
        ),
{
    let n = (a.magnitude() * b.magnitude()) as int;
    let c = pow2(1074) as int;
    lemma_pow2_pos(1074);
    assert(n >= 0) by (nonlinear_arith)
        requires
            n == a.magnitude() * b.magnitude(),
    ;
    lemma_round_exists(n, c);
    let k = round(n, c);
    lemma_round_error(n, c, k);
    assert(c * grid(k) == grid(k) * c) by (nonlinear_arith);
}

/// A normal quotient times the divisor differs from the dividend by at
/// most one part in 2^53.
pub proof fn lemma_quotient_error(a: Real, b: Real)
    requires
        a.is_finite(),
        b.is_finite(),
        !b.is_zero(),
        quotient(a, b).is_normal(),
    ensures
        near(
            (a.magnitude() * pow2(1074)) as int,
            (quotient(a, b).magnitude() * b.magnitude()) as int,
            PRECISION as int,
        ),
{
    let c = pow2(1074) as int;
    let n = (a.magnitude() * c) as int;
    let d = b.magnitude() as int;
    lemma_pow2_pos(1074);
    lemma_grid_zero(magnitude_bits(b.bits));
    assert(n >= 0) by (nonlinear_arith)
        requires
            n == a.magnitude() * c,
            c > 0,
    ;
    lemma_round_exists(n, d);
    let k = round(n, d);
    lemma_round_error(n, d, k);
    assert(d * grid(k) == grid(k) * d) by (nonlinear_arith);
}

/// The square of a normal root differs from the number by at most one
/// part in 2^51.
pub proof fn lemma_root_error(a: Real)
    requires
        a.is_finite(),
        !a.is_zero(),
        !a.is_sign_negative(),
        root(a).is_normal(),
    ensures
        near(
            (a.magnitude() * pow2(1074)) as int,
            (root(a).magnitude() * root(a).magnitude()) as int,
            0x8_0000_0000_0000,
        ),
{
    let v = (a.magnitude() * pow2(1074)) as int;
    lemma_round_root_exists(v);
    let k = round_root(v);
    let g = grid(k) as int;
    let below = grid((k - 1) as u64) as int;
    let above = grid((k + 1) as u64) as int;
    let ulp = pow2(scale_exponent(k)) as int;
    let ulp_below = pow2(scale_exponent((k - 1) as u64)) as int;
    lemma_grid_step(k);
    lemma_grid_step((k - 1) as u64);
    lemma_pow2_increases(scale_exponent((k - 1) as u64), scale_exponent(k));
    assert(ulp * 0x10_0000_0000_0000 <= g) by (nonlinear_arith)
        requires
            g == significand(k) * ulp,
            significand(k) >= 0x10_0000_0000_0000,
            ulp > 0,
    ;
    let up = (g + above) * (g + above);
    let down = (below + g) * (below + g);
    assert(up == 4 * (g * g) + 4 * (g * ulp) + ulp * ulp && down == 4 * (g * g) - 4 * (g
        * ulp_below) + ulp_below * ulp_below) by (nonlinear_arith)
        requires
            above == g + ulp,
            g == below + ulp_below,
            up == (g + above) * (g + above),
            down == (below + g) * (below + g),
    ;
    assert((g * ulp) * 0x10_0000_0000_0000 <= g * g && ulp * ulp <= g * ulp && g * ulp_below
        <= g * ulp && 0 <= ulp_below * ulp_below) by (nonlinear_arith)
        requires
            ulp * 0x10_0000_0000_0000 <= g,
            0 < ulp_below <= ulp,
            g > 0,
    ;
    assert(down <= 4 * v <= up);
}

/// What the named numbers stand for: one is 2^1074 units of 2^-1074, two
/// is twice and one thousand a thousand times that.
pub proof fn lemma_named_numbers()
    ensures
        Real::one().magnitude() == pow2(1074),
        Real::two().magnitude() == 2 * pow2(1074),
        Real::thousand().magnitude() == 1000 * pow2(1074),
        Real::one().scaled() == pow2(1074),
        Real::two().scaled() == 2 * pow2(1074),
        Real::thousand().scaled() == 1000 * pow2(1074),
        pow2(1074) > 0,
{
    lemma2_to64();
    lemma2_to64_rest();
    lemma_pow2_pos(1074);
    lemma_pow2_adds(52, 1022);
    lemma_pow2_adds(43, 1031);
    lemma_pow2_unfold(1023);
    assert(significand(ONE_BITS) == HIDDEN_BIT && scale_exponent(ONE_BITS) == 1022);
    assert(significand(TWO_BITS) == HIDDEN_BIT && scale_exponent(TWO_BITS) == 1023);
    assert(significand(THOUSAND_BITS) == 1000 * 0x800_0000_0000 && scale_exponent(THOUSAND_BITS)
        == 1031);
    assert(HIDDEN_BIT * (2 * pow2(1022)) == 2 * (HIDDEN_BIT * pow2(1022))) by (nonlinear_arith);
    assert((1000 * 0x800_0000_0000) * pow2(1031) == 1000 * (0x800_0000_0000 * pow2(1031)))
        by (nonlinear_arith);
}

/// A number is made of its sign and its magnitude pattern.
pub proof fn lemma_signed_parts(a: Real)
    ensures
        signed(a.is_sign_negative(), magnitude_bits(a.bits)) == a,
{
}

/// Sums do not depend on the order of the operands.
pub proof fn lemma_sum_commutes(a: Real, b: Real)
    ensures
        sum(a, b) == sum(b, a),
{
    if a.is_infinite() && b.is_infinite() && a.is_sign_negative() == b.is_sign_negative() {
        assert(a.bits == b.bits);
    }
}

/// Products do not depend on the order of the operands.
pub proof fn lemma_product_commutes(a: Real, b: Real)
    ensures
        product(a, b) == product(b, a),
{
    assert(a.magnitude() * b.magnitude() == b.magnitude() * a.magnitude()) by (nonlinear_arith);
}

/// Adding a zero to a finite number that is not zero leaves it as it is.
pub proof fn lemma_sum_with_zero(a: Real, z: Real)
    requires
        a.is_finite(),
        !a.is_zero(),
        z.is_zero(),
    ensures
        sum(a, z) == a,
        sum(z, a) == a,
{
    let k = magnitude_bits(a.bits);
    lemma_grid_zero(k);
    lemma_grid_zero(0);
    lemma_round_exact(k, 1);
    assert(grid(k) * 1 == grid(k)) by (nonlinear_arith);
    lemma_signed_parts(a);
    lemma_sum_commutes(a, z);
}

/// A finite number less itself is positive zero.
pub proof fn lemma_difference_with_self(a: Real)
    requires
        a.is_finite(),
    ensures
        difference(a, a) == Real::zero(),
{
}

/// Multiplying a finite number by one leaves it as it is.
pub proof fn lemma_product_with_one(a: Real)
    requires
        a.is_finite(),
    ensures
        product(a, Real::one()) == a,
        product(Real::one(), a) == a,
{
    let k = magnitude_bits(a.bits);
    lemma_named_numbers();
    lemma_round_exact(k, pow2(1074) as int);
    lemma_signed_parts(a);
    lemma_product_commutes(a, Real::one());
}

/// Multiplying a finite number by a zero gives a zero.
pub proof fn lemma_product_with_zero(a: Real, z: Real)
    requires
        a.is_finite(),
        z.is_zero(),
    ensures
        product(a, z).is_zero(),
        product(z, a).is_zero(),
{
    let c = pow2(1074) as int;
    lemma_pow2_pos(1074);
    lemma_grid_zero(0);
    lemma_round_exact(0, c);
    assert(grid(0) * c == 0 && a.magnitude() * 0 == 0) by (nonlinear_arith)
        requires
            grid(0) == 0,
    ;
    lemma_product_commutes(a, z);
}

/// Dividing a finite number by one leaves it as it is.
pub proof fn lemma_quotient_by_one(a: Real)
    requires
        a.is_finite(),
    ensures
        quotient(a, Real::one()) == a,
{
    let k = magnitude_bits(a.bits);
    lemma_named_numbers();
    lemma_round_exact(k, pow2(1074) as int);
    lemma_signed_parts(a);
}

/// Dividing a number above zero by positive zero gives positive infinity.
pub proof fn lemma_quotient_by_zero(a: Real)
    requires
        !a.is_nan(),
        !a.is_zero(),
        !a.is_sign_negative(),
    ensures
        quotient(a, Real::zero()) == Real::infinity(),
{
}

/// A product whose factors multiply exactly to a magnitude is the number of
/// that magnitude: `a * b == c` as numbers whenever the values do.
pub proof fn lemma_product_exact(a: Real, b: Real, c: Real)
    requires
        a.is_finite(),
        b.is_finite(),
        !c.is_nan(),
        a.magnitude() * b.magnitude() == c.magnitude() * pow2(1074),
        c.is_sign_negative() == (a.is_sign_negative() != b.is_sign_negative()),
    ensures
        product(a, b) == c,
{
    lemma_pow2_pos(1074);
    lemma_round_exact(magnitude_bits(c.bits), pow2(1074) as int);
    lemma_signed_parts(c);
}

/// Dividing a zero by a finite number that is not zero gives a zero.
pub proof fn lemma_quotient_of_zero(z: Real, b: Real)
    requires
        z.is_zero(),
        b.is_finite(),
        !b.is_zero(),
    ensures
        quotient(z, b).is_zero(),
{
    let d = b.magnitude() as int;
    lemma_grid_zero(0);
    lemma_grid_zero(magnitude_bits(b.bits));
    lemma_round_exact(0, d);
    assert(grid(0) * d == 0 && z.magnitude() * pow2(1074) == 0) by (nonlinear_arith)
        requires
            grid(0) == 0,
            z.magnitude() == 0,
    ;
}

/// A NaN comes only from a NaN or from an operation without a value:
/// infinity less infinity, zero times infinity, zero by zero, infinity by
/// infinity, and the root of a number below zero.
pub proof fn lemma_nan_sources(a: Real, b: Real)
    ensures
        sum(a, b).is_nan() <==> a.is_nan() || b.is_nan() || (a.is_infinite() && b.is_infinite()
            && a.is_sign_negative() != b.is_sign_negative()),
        product(a, b).is_nan() <==> a.is_nan() || b.is_nan() || (a.is_infinite() && b.is_zero())
            || (a.is_zero() && b.is_infinite()),
        quotient(a, b).is_nan() <==> a.is_nan() || b.is_nan() || (a.is_infinite()
            && b.is_infinite()) || (a.is_zero() && b.is_zero()),
        root(a).is_nan() <==> a.is_nan() || (a.is_sign_negative() && !a.is_zero()),
{
    lemma_pow2_pos(1074);
    if a.is_finite() && b.is_finite() {
        let s = a.scaled() + b.scaled();
        if s > 0 {
            lemma_round_exists(s, 1);
        } else if s < 0 {
            lemma_round_exists(-s, 1);
        }
        assert(a.magnitude() * b.magnitude() >= 0) by (nonlinear_arith);
        lemma_round_exists((a.magnitude() * b.magnitude()) as int, pow2(1074) as int);
        if !b.is_zero() {
            lemma_grid_zero(magnitude_bits(b.bits));
            assert(a.magnitude() * pow2(1074) >= 0) by (nonlinear_arith);
            lemma_round_exists((a.magnitude() * pow2(1074)) as int, b.magnitude() as int);
        }
    }
    lemma_round_root_exists((a.magnitude() * pow2(1074)) as int);
}

/// The sign of a product or a quotient that is no NaN is negative exactly
/// when one operand has a negative sign and the other has not.
pub proof fn lemma_result_signs(a: Real, b: Real)
    ensures
        !product(a, b).is_nan() ==> product(a, b).is_sign_negative() == (a.is_sign_negative()
            != b.is_sign_negative()),
        !quotient(a, b).is_nan() ==> quotient(a, b).is_sign_negative() == (a.is_sign_negative()
            != b.is_sign_negative()),
{
    lemma_pow2_pos(1074);
    if a.is_finite() && b.is_finite() {
        assert(a.magnitude() * b.magnitude() >= 0) by (nonlinear_arith);
        lemma_round_exists((a.magnitude() * b.magnitude()) as int, pow2(1074) as int);
        if !b.is_zero() {
            lemma_grid_zero(magnitude_bits(b.bits));
            assert(a.magnitude() * pow2(1074) >= 0) by (nonlinear_arith);
            lemma_round_exists((a.magnitude() * pow2(1074)) as int, b.magnitude() as int);
        }
    }
}

/// A quotient whose divisor and result multiply exactly to the dividend is
/// the number of that result: `a / b == q` as numbers whenever the values do.
pub proof fn lemma_quotient_exact(a: Real, b: Real, q: Real)
    requires
        a.is_finite(),
        b.is_finite(),
        !b.is_zero(),
        !q.is_nan(),
        a.magnitude() * pow2(1074) == q.magnitude() * b.magnitude(),
        q.is_sign_negative() == (a.is_sign_negative() != b.is_sign_negative()),
    ensures
        quotient(a, b) == q,
{
    lemma_grid_zero(magnitude_bits(b.bits));
    lemma_round_exact(magnitude_bits(q.bits), b.magnitude() as int);
    lemma_signed_parts(q);
}

/// The square root of one is one.
pub proof fn lemma_root_of_one()
    ensures
        root(Real::one()) == Real::one(),
{
    lemma_named_numbers();
    lemma_round_root_exact(ONE_BITS);
}

/// One and one are two.
pub proof fn lemma_one_plus_one()
    ensures
        sum(Real::one(), Real::one()) == Real::two(),
{
    lemma_named_numbers();
    lemma_round_exact(TWO_BITS, 1);
    assert(grid(TWO_BITS) * 1 == grid(TWO_BITS)) by (nonlinear_arith);
}

} // verus!
