//! `Real`: a binary64 number held as its bit pattern.

use crate::arith::{difference, negation, product, quotient, root, sum};
use crate::grid::{
    grid, lemma_grid_increases, lemma_grid_zero, magnitude_bits, HIDDEN_BIT, INFINITY_BITS,
    NAN_BITS, SIGN_MASK,
};
use crate::product::multiply;
use crate::quotient::divide;
use crate::root::square_root;
use crate::sum::{minus, negate, plus};
use core::cmp::Ordering;
use core::ops::{Add, Div, Mul, Neg, Sub};
use vstd::prelude::*;
use vstd::std_specs::cmp::{PartialEqSpecImpl, PartialOrdSpecImpl};
use vstd::std_specs::ops::{AddSpecImpl, DivSpecImpl, MulSpecImpl, NegSpecImpl, SubSpecImpl};

verus! {

/// The pattern of positive zero.
pub const ZERO_BITS: u64 = 0;

/// The pattern of one: significand 2^52 at scale 2^1022, in units of 2^-1074.
pub const ONE_BITS: u64 = 0x3FF0_0000_0000_0000;

/// The pattern of two.
pub const TWO_BITS: u64 = 0x4000_0000_0000_0000;

/// The pattern of one thousand: 1.953125 times 2^9.
pub const THOUSAND_BITS: u64 = 0x408F_4000_0000_0000;

/// Rounding moves a value by at most one part in this many: 2^53.
pub const PRECISION: u64 = 0x20_0000_0000_0000;

/// An IEEE 754 binary64 number, held as the 64 bits that encode it.
#[derive(Clone, Copy, Debug)]
pub struct Real {
    pub bits: u64,
}

impl Real {
    /// The pattern is a NaN: its magnitude pattern lies beyond infinity.
    pub open spec fn spec_is_nan(&self) -> bool {
        magnitude_bits(self.bits) > INFINITY_BITS
    }

    /// The pattern is positive or negative infinity.
    pub open spec fn spec_is_infinite(&self) -> bool {
        magnitude_bits(self.bits) == INFINITY_BITS
    }

    /// The pattern is neither infinite nor a NaN.
    pub open spec fn spec_is_finite(&self) -> bool {
        magnitude_bits(self.bits) < INFINITY_BITS
    }

    /// The number is finite and has a full significand: it is neither zero
    /// nor subnormal.
    pub open spec fn is_normal(&self) -> bool {
        HIDDEN_BIT <= magnitude_bits(self.bits) < INFINITY_BITS
    }

    /// The sign bit is set. This holds of negative zero and of some NaNs too.
    pub open spec fn spec_is_sign_negative(&self) -> bool {
        self.bits >= SIGN_MASK
    }

    /// The pattern is positive or negative zero.
    pub open spec fn spec_is_zero(&self) -> bool {
        magnitude_bits(self.bits) == 0
    }

    /// The number is less than zero: it is no NaN and its value is negative.
    /// Negative zero is not below zero.
    pub open spec fn below_zero(&self) -> bool {
        !self.spec_is_nan() && self.scaled() < 0
    }

    /// The magnitude of the number in units of 2^-1074. Infinity counts as
    /// 2^2098, beyond every finite magnitude. Meaningless for a NaN.
    pub open spec fn magnitude(&self) -> nat {
        grid(magnitude_bits(self.bits))
    }

    /// The signed value of the number in units of 2^-1074; see `magnitude`.
    pub open spec fn scaled(&self) -> int {
        if self.spec_is_sign_negative() {
            -(self.magnitude() as int)
        } else {
            self.magnitude() as int
        }
    }

    /// Positive zero.
    pub open spec fn spec_zero() -> Real {
        Real { bits: ZERO_BITS }
    }

    /// Positive zero.
    #[verifier::when_used_as_spec(spec_zero)]
    pub fn zero() -> (r: Real)
        ensures
            r == Real::spec_zero(),
    {
        Real { bits: ZERO_BITS }
    }

    /// One.
    pub open spec fn spec_one() -> Real {
        Real { bits: ONE_BITS }
    }

    /// One.
    #[verifier::when_used_as_spec(spec_one)]
    pub fn one() -> (r: Real)
        ensures
            r == Real::spec_one(),
    {
        Real { bits: ONE_BITS }
    }

    /// Two.
    pub open spec fn spec_two() -> Real {
        Real { bits: TWO_BITS }
    }

    /// Two.
    #[verifier::when_used_as_spec(spec_two)]
    pub fn two() -> (r: Real)
        ensures
            r == Real::spec_two(),
    {
        Real { bits: TWO_BITS }
    }

    /// One thousand.
    pub open spec fn spec_thousand() -> Real {
        Real { bits: THOUSAND_BITS }
    }

    /// One thousand.
    #[verifier::when_used_as_spec(spec_thousand)]
    pub fn thousand() -> (r: Real)
        ensures
            r == Real::spec_thousand(),
    {
        Real { bits: THOUSAND_BITS }
    }

    /// Positive infinity.
    pub open spec fn spec_infinity() -> Real {
        Real { bits: INFINITY_BITS }
    }

    /// Positive infinity.
    #[verifier::when_used_as_spec(spec_infinity)]
    pub fn infinity() -> (r: Real)
        ensures
            r == Real::spec_infinity(),
    {
        Real { bits: INFINITY_BITS }
    }

    /// The NaN that operations return.
    pub open spec fn spec_nan() -> Real {
        Real { bits: NAN_BITS }
    }

    /// The NaN that operations return.
    #[verifier::when_used_as_spec(spec_nan)]
    pub fn nan() -> (r: Real)
        ensures
            r == Real::spec_nan(),
    {
        Real { bits: NAN_BITS }
    }

    /// The square root of the number, correctly rounded.
    pub fn sqrt(self) -> (r: Real)
        ensures
            r == root(self),
    {
        square_root(self)
    }

    /// The number with the given bit pattern.
    pub fn from_bits(bits: u64) -> (r: Real)
        ensures
            r.bits == bits,
    {
        Real { bits }
    }

    /// The bit pattern of the number.
    pub fn to_bits(self) -> (bits: u64)
        ensures
            bits == self.bits,
    {
        self.bits
    }

    /// The magnitude pattern: the bits without the sign.
    pub fn magnitude_pattern(&self) -> (k: u64)
        ensures
            k == magnitude_bits(self.bits),
    {
        if self.bits >= SIGN_MASK {
            self.bits - SIGN_MASK
        } else {
            self.bits
        }
    }

    /// Whether the number is a NaN.
    #[verifier::when_used_as_spec(spec_is_nan)]
    pub fn is_nan(&self) -> (r: bool)
        ensures
            r == self.spec_is_nan(),
    {
        self.magnitude_pattern() > INFINITY_BITS
    }

    /// Whether the number is positive or negative infinity.
    #[verifier::when_used_as_spec(spec_is_infinite)]
    pub fn is_infinite(&self) -> (r: bool)
        ensures
            r == self.spec_is_infinite(),
    {
        self.magnitude_pattern() == INFINITY_BITS
    }

    /// Whether the number is neither infinite nor a NaN.
    #[verifier::when_used_as_spec(spec_is_finite)]
    pub fn is_finite(&self) -> (r: bool)
        ensures
            r == self.spec_is_finite(),
    {
        self.magnitude_pattern() < INFINITY_BITS
    }

    /// Whether the sign bit is set, as it is for negative zero too.
    #[verifier::when_used_as_spec(spec_is_sign_negative)]
    pub fn is_sign_negative(&self) -> (r: bool)
        ensures
            r == self.spec_is_sign_negative(),
    {
        self.bits >= SIGN_MASK
    }

    /// Whether the number is positive or negative zero.
    #[verifier::when_used_as_spec(spec_is_zero)]
    pub fn is_zero(&self) -> (r: bool)
        ensures
            r == self.spec_is_zero(),
    {
        self.magnitude_pattern() == 0
    }

    /// How two numbers compare: by their values, with no answer when either is a NaN.
    pub open spec fn compare(&self, other: &Real) -> Option<Ordering> {
        if self.is_nan() || other.is_nan() {
            None
        } else if self.scaled() < other.scaled() {
            Some(Ordering::Less)
        } else if self.scaled() == other.scaled() {
            Some(Ordering::Equal)
        } else {
            Some(Ordering::Greater)
        }
    }
}

/// Values order as their patterns do: by magnitude pattern, mirrored for negative signs.
pub proof fn lemma_scaled_order(a: Real, b: Real)
    ensures
        a.scaled() == b.scaled() <==> (a.is_zero() && b.is_zero()) || a.bits == b.bits,
        a.scaled() < b.scaled() <==> !(a.is_zero() && b.is_zero()) && if a.is_sign_negative() {
            !b.is_sign_negative() || magnitude_bits(b.bits) < magnitude_bits(a.bits)
        } else {
            !b.is_sign_negative() && magnitude_bits(a.bits) < magnitude_bits(b.bits)
        },
{
    let ka = magnitude_bits(a.bits);
    let kb = magnitude_bits(b.bits);
    lemma_grid_zero(ka);
    lemma_grid_zero(kb);
    if ka < kb {
        lemma_grid_increases(ka, kb);
    } else if kb < ka {
        lemma_grid_increases(kb, ka);
    }
}

impl PartialEq for Real {
    /// Equality of values: a NaN equals nothing, and the two zeros are equal.
    fn eq(&self, other: &Real) -> (r: bool) {
        proof {
            lemma_scaled_order(*self, *other);
        }
        if self.is_nan() || other.is_nan() {
            false
        } else {
            (self.is_zero() && other.is_zero()) || self.bits == other.bits
        }
    }
}

impl PartialEqSpecImpl for Real {
    open spec fn obeys_eq_spec() -> bool {
        true
    }

    open spec fn eq_spec(&self, other: &Real) -> bool {
        self.compare(other) == Some(Ordering::Equal)
    }
}

impl PartialOrd for Real {
    /// The order of values: none with a NaN, negative zero equal to positive zero.
    fn partial_cmp(&self, other: &Real) -> (r: Option<Ordering>) {
        proof {
            lemma_scaled_order(*self, *other);
            lemma_scaled_order(*other, *self);
        }
        if self.is_nan() || other.is_nan() {
            None
        } else if self.is_zero() && other.is_zero() {
            Some(Ordering::Equal)
        } else if self.is_sign_negative() != other.is_sign_negative() {
            if self.is_sign_negative() {
                Some(Ordering::Less)
            } else {
                Some(Ordering::Greater)
            }
        } else if self.bits == other.bits {
            Some(Ordering::Equal)
        } else if (self.bits < other.bits) != self.is_sign_negative() {
            Some(Ordering::Less)
        } else {
            Some(Ordering::Greater)
        }
    }
}

impl PartialOrdSpecImpl for Real {
    open spec fn obeys_partial_cmp_spec() -> bool {
        true
    }

    open spec fn partial_cmp_spec(&self, other: &Real) -> Option<Ordering> {
        self.compare(other)
    }
}

impl Add for Real {
    type Output = Real;

    /// The sum, correctly rounded.
    fn add(self, rhs: Real) -> (r: Real) {
        plus(self, rhs)
    }
}

impl AddSpecImpl for Real {
    open spec fn obeys_add_spec() -> bool {
        true
    }

    open spec fn add_req(self, rhs: Real) -> bool {
        true
    }

    open spec fn add_spec(self, rhs: Real) -> Real {
        sum(self, rhs)
    }
}

impl Sub for Real {
    type Output = Real;

    /// The difference, correctly rounded.
    fn sub(self, rhs: Real) -> (r: Real) {
        minus(self, rhs)
    }
}

impl SubSpecImpl for Real {
    open spec fn obeys_sub_spec() -> bool {
        true
    }

    open spec fn sub_req(self, rhs: Real) -> bool {
        true
    }

    open spec fn sub_spec(self, rhs: Real) -> Real {
        difference(self, rhs)
    }
}

impl Mul for Real {
    type Output = Real;

    /// The product, correctly rounded.
    fn mul(self, rhs: Real) -> (r: Real) {
        multiply(self, rhs)
    }
}

impl MulSpecImpl for Real {
    open spec fn obeys_mul_spec() -> bool {
        true
    }

    open spec fn mul_req(self, rhs: Real) -> bool {
        true
    }

    open spec fn mul_spec(self, rhs: Real) -> Real {
        product(self, rhs)
    }
}

impl Div for Real {
    type Output = Real;

    /// The quotient, correctly rounded.
    fn div(self, rhs: Real) -> (r: Real) {
        divide(self, rhs)
    }
}

impl DivSpecImpl for Real {
    open spec fn obeys_div_spec() -> bool {
        true
    }

    open spec fn div_req(self, rhs: Real) -> bool {
        true
    }

    open spec fn div_spec(self, rhs: Real) -> Real {
        quotient(self, rhs)
    }
}

impl Neg for Real {
    type Output = Real;

    /// The number with the opposite sign.
    fn neg(self) -> (r: Real) {
        negate(self)
    }
}

impl NegSpecImpl for Real {
    open spec fn obeys_neg_spec() -> bool {
        true
    }

    open spec fn neg_req(self) -> bool {
        true
    }

    open spec fn neg_spec(self) -> Real {
        negation(self)
    }
}

} // verus!
