//! Lengths, areas and volumes that cannot be mixed up, and the eccentricity.
//!
//! Each quantity wraps one number. The operators follow the dimensions: two
//! lengths add to a length and multiply to an area, a length times an area
//! is a volume, an area over a length is a length, and two lengths divide to
//! a plain number. No operation checks a range: a division by zero gives an
//! infinity or a NaN as the arithmetic of numbers says.

use crate::arith::{difference, product, quotient, sum};
use crate::grid::lemma_grid_zero;
use crate::laws::{lemma_named_numbers, lemma_quotient_exact};
pub use crate::number::Real;
use core::cmp::Ordering;
use core::ops::{Add, Div, Mul, Sub};
use vstd::arithmetic::power2::pow2;
use vstd::prelude::*;
use vstd::std_specs::cmp::{PartialEqSpecImpl, PartialOrdSpecImpl};
use vstd::std_specs::ops::{AddSpecImpl, DivSpecImpl, MulSpecImpl, SubSpecImpl};

verus! {

/// The pattern of Archimedes' constant π.
pub const PI: u64 = 0x4009_21FB_5444_2D18;

/// The pattern of the full circle constant τ, equal to 2π.
pub const TAU: u64 = 0x4019_21FB_5444_2D18;

/// The pattern of Euler's number e.
pub const E: u64 = 0x4005_BF0A_8B14_5769;

/// A length in metres.
#[derive(Copy, Clone, Debug)]
pub struct Meters(pub Real);

/// A length in kilometres; one kilometre is a thousand metres.
#[derive(Copy, Clone, Debug)]
pub struct Kilometers(pub Real);

/// An area in square metres.
#[derive(Copy, Clone, Debug)]
pub struct MetersSquared(pub Real);

/// A volume in cubic metres.
#[derive(Copy, Clone, Debug)]
pub struct MetersCubed(pub Real);

impl Meters {
    /// The length zero.
    pub open spec fn spec_zero() -> Meters {
        Meters(Real::zero())
    }

    /// The length zero.
    #[verifier::when_used_as_spec(spec_zero)]
    pub fn zero() -> (r: Meters)
        ensures
            r == Meters::spec_zero(),
    {
        Meters(Real::zero())
    }

    /// The same length in kilometres: the magnitude divided by one thousand.
    pub fn to_km(&self) -> (r: Kilometers)
        ensures
            r == Kilometers(quotient(self.0, Real::thousand())),
    {
        Kilometers(self.value() / Real::thousand())
    }

    /// The magnitude in metres.
    pub fn value(&self) -> (r: Real)
        ensures
            r == self.0,
    {
        self.0
    }
}

/// A length of a whole thousand times some number of metres is that number
/// of kilometres, with nothing rounded.
pub proof fn lemma_whole_kilometers(length: Meters, km: Kilometers)
    requires
        length.0.is_finite(),
        km.0.is_finite(),
        length.0.magnitude() == 1000 * km.0.magnitude(),
        length.0.is_sign_negative() == km.0.is_sign_negative(),
    ensures
        Kilometers(quotient(length.0, Real::thousand())) == km,
{
    lemma_named_numbers();
    assert(length.0.magnitude() * pow2(1074) == km.0.magnitude() * (1000 * pow2(1074)))
        by (nonlinear_arith)
        requires
            length.0.magnitude() == 1000 * km.0.magnitude(),
    ;
    lemma_quotient_exact(length.0, Real::thousand(), km.0);
}

impl MetersSquared {
    /// The magnitude in square metres.
    pub fn value(self) -> (r: Real)
        ensures
            r == self.0,
    {
        self.0
    }
}

impl MetersCubed {
    /// The magnitude in cubic metres.
    pub fn value(self) -> (r: Real)
        ensures
            r == self.0,
    {
        self.0
    }
}

impl Add for Meters {
    type Output = Meters;

    /// The sum of two lengths.
    fn add(self, rhs: Meters) -> (r: Meters) {
        Meters(self.0 + rhs.0)
    }
}

impl AddSpecImpl for Meters {
    open spec fn obeys_add_spec() -> bool {
        true
    }

    open spec fn add_req(self, rhs: Meters) -> bool {
        true
    }

    open spec fn add_spec(self, rhs: Meters) -> Meters {
        Meters(sum(self.0, rhs.0))
    }
}

impl Sub for Meters {
    type Output = Meters;

    /// The difference of two lengths.
    fn sub(self, rhs: Meters) -> (r: Meters) {
        Meters(self.0 - rhs.0)
    }
}

impl SubSpecImpl for Meters {
    open spec fn obeys_sub_spec() -> bool {
        true
    }

    open spec fn sub_req(self, rhs: Meters) -> bool {
        true
    }

    open spec fn sub_spec(self, rhs: Meters) -> Meters {
        Meters(difference(self.0, rhs.0))
    }
}

impl Div for Meters {
    type Output = Real;

    /// The ratio of two lengths, a plain number.
    fn div(self, rhs: Meters) -> (r: Real) {
        self.0 / rhs.0
    }
}

impl DivSpecImpl for Meters {
    open spec fn obeys_div_spec() -> bool {
        true
    }

    open spec fn div_req(self, rhs: Meters) -> bool {
        true
    }

    open spec fn div_spec(self, rhs: Meters) -> Real {
        quotient(self.0, rhs.0)
    }
}

impl Mul<Real> for Meters {
    type Output = Meters;

    /// The length scaled by a plain number.
    fn mul(self, rhs: Real) -> (r: Meters) {
        Meters(self.0 * rhs)
    }
}

impl MulSpecImpl<Real> for Meters {
    open spec fn obeys_mul_spec() -> bool {
        true
    }

    open spec fn mul_req(self, rhs: Real) -> bool {
        true
    }

    open spec fn mul_spec(self, rhs: Real) -> Meters {
        Meters(product(self.0, rhs))
    }
}

impl Div<Real> for Meters {
    type Output = Meters;

    /// The length divided by a plain number.
    fn div(self, rhs: Real) -> (r: Meters) {
        Meters(self.0 / rhs)
    }
}

impl DivSpecImpl<Real> for Meters {
    open spec fn obeys_div_spec() -> bool {
        true
    }

    open spec fn div_req(self, rhs: Real) -> bool {
        true
    }

    open spec fn div_spec(self, rhs: Real) -> Meters {
        Meters(quotient(self.0, rhs))
    }
}

impl Mul for Meters {
    type Output = MetersSquared;

    /// The area that two lengths span.
    fn mul(self, rhs: Meters) -> (r: MetersSquared) {
        MetersSquared(self.0 * rhs.0)
    }
}

impl MulSpecImpl for Meters {
    open spec fn obeys_mul_spec() -> bool {
        true
    }

    open spec fn mul_req(self, rhs: Meters) -> bool {
        true
    }

    open spec fn mul_spec(self, rhs: Meters) -> MetersSquared {
        MetersSquared(product(self.0, rhs.0))
    }
}

impl Mul<MetersSquared> for Meters {
    type Output = MetersCubed;

    /// The volume over an area.
    fn mul(self, rhs: MetersSquared) -> (r: MetersCubed) {
        MetersCubed(self.0 * rhs.0)
    }
}

impl MulSpecImpl<MetersSquared> for Meters {
    open spec fn obeys_mul_spec() -> bool {
        true
    }

    open spec fn mul_req(self, rhs: MetersSquared) -> bool {
        true
    }

    open spec fn mul_spec(self, rhs: MetersSquared) -> MetersCubed {
        MetersCubed(product(self.0, rhs.0))
    }
}

impl Mul<Meters> for Real {
    type Output = Meters;

    /// The length scaled by a plain number, the number first.
    fn mul(self, rhs: Meters) -> (r: Meters) {
        Meters(self * rhs.0)
    }
}

impl MulSpecImpl<Meters> for Real {
    open spec fn obeys_mul_spec() -> bool {
        true
    }

    open spec fn mul_req(self, rhs: Meters) -> bool {
        true
    }

    open spec fn mul_spec(self, rhs: Meters) -> Meters {
        Meters(product(self, rhs.0))
    }
}

impl Add for MetersSquared {
    type Output = MetersSquared;

    /// The sum of two areas.
    fn add(self, rhs: MetersSquared) -> (r: MetersSquared) {
        MetersSquared(self.0 + rhs.0)
    }
}

impl AddSpecImpl for MetersSquared {
    open spec fn obeys_add_spec() -> bool {
        true
    }

    open spec fn add_req(self, rhs: MetersSquared) -> bool {
        true
    }

    open spec fn add_spec(self, rhs: MetersSquared) -> MetersSquared {
        MetersSquared(sum(self.0, rhs.0))
    }
}

impl Sub for MetersSquared {
    type Output = MetersSquared;

    /// The difference of two areas.
    fn sub(self, rhs: MetersSquared) -> (r: MetersSquared) {
        MetersSquared(self.0 - rhs.0)
    }
}

impl SubSpecImpl for MetersSquared {
    open spec fn obeys_sub_spec() -> bool {
        true
    }

    open spec fn sub_req(self, rhs: MetersSquared) -> bool {
        true
    }

    open spec fn sub_spec(self, rhs: MetersSquared) -> MetersSquared {
        MetersSquared(difference(self.0, rhs.0))
    }
}

impl Mul<Real> for MetersSquared {
    type Output = MetersSquared;

    /// The area scaled by a plain number.
    fn mul(self, rhs: Real) -> (r: MetersSquared) {
        MetersSquared(self.0 * rhs)
    }
}

impl MulSpecImpl<Real> for MetersSquared {
    open spec fn obeys_mul_spec() -> bool {
        true
    }

    open spec fn mul_req(self, rhs: Real) -> bool {
        true
    }

    open spec fn mul_spec(self, rhs: Real) -> MetersSquared {
        MetersSquared(product(self.0, rhs))
    }
}

impl Div<Real> for MetersSquared {
    type Output = MetersSquared;

    /// The area divided by a plain number.
    fn div(self, rhs: Real) -> (r: MetersSquared) {
        MetersSquared(self.0 / rhs)
    }
}

impl DivSpecImpl<Real> for MetersSquared {
    open spec fn obeys_div_spec() -> bool {
        true
    }

    open spec fn div_req(self, rhs: Real) -> bool {
        true
    }

    open spec fn div_spec(self, rhs: Real) -> MetersSquared {
        MetersSquared(quotient(self.0, rhs))
    }
}

impl Div<Meters> for MetersSquared {
    type Output = Meters;

    /// The length that spans the area with another.
    fn div(self, rhs: Meters) -> (r: Meters) {
        Meters(self.0 / rhs.0)
    }
}

impl DivSpecImpl<Meters> for MetersSquared {
    open spec fn obeys_div_spec() -> bool {
        true
    }

    open spec fn div_req(self, rhs: Meters) -> bool {
        true
    }

    open spec fn div_spec(self, rhs: Meters) -> Meters {
        Meters(quotient(self.0, rhs.0))
    }
}

impl PartialEq for Meters {
    /// Equality of the magnitudes as numbers: a NaN equals nothing.
    fn eq(&self, other: &Meters) -> (r: bool) {
        self.0 == other.0
    }
}

impl PartialEqSpecImpl for Meters {
    open spec fn obeys_eq_spec() -> bool {
        true
    }

    open spec fn eq_spec(&self, other: &Meters) -> bool {
        self.0.compare(&other.0) == Some(Ordering::Equal)
    }
}

impl PartialOrd for Meters {
    /// The order of the magnitudes as numbers: none with a NaN.
    fn partial_cmp(&self, other: &Meters) -> (r: Option<Ordering>) {
        self.0.partial_cmp(&other.0)
    }
}

impl PartialOrdSpecImpl for Meters {
    open spec fn obeys_partial_cmp_spec() -> bool {
        true
    }

    open spec fn partial_cmp_spec(&self, other: &Meters) -> Option<Ordering> {
        self.0.compare(&other.0)
    }
}

impl PartialEq for Kilometers {
    /// Equality of the magnitudes as numbers: a NaN equals nothing.
    fn eq(&self, other: &Kilometers) -> (r: bool) {
        self.0 == other.0
    }
}

impl PartialEqSpecImpl for Kilometers {
    open spec fn obeys_eq_spec() -> bool {
        true
    }

    open spec fn eq_spec(&self, other: &Kilometers) -> bool {
        self.0.compare(&other.0) == Some(Ordering::Equal)
    }
}

impl PartialOrd for Kilometers {
    /// The order of the magnitudes as numbers: none with a NaN.
    fn partial_cmp(&self, other: &Kilometers) -> (r: Option<Ordering>) {
        self.0.partial_cmp(&other.0)
    }
}

impl PartialOrdSpecImpl for Kilometers {
    open spec fn obeys_partial_cmp_spec() -> bool {
        true
    }

    open spec fn partial_cmp_spec(&self, other: &Kilometers) -> Option<Ordering> {
        self.0.compare(&other.0)
    }
}

impl PartialEq for MetersSquared {
    /// Equality of the magnitudes as numbers: a NaN equals nothing.
    fn eq(&self, other: &MetersSquared) -> (r: bool) {
        self.0 == other.0
    }
}

impl PartialEqSpecImpl for MetersSquared {
    open spec fn obeys_eq_spec() -> bool {
        true
    }

    open spec fn eq_spec(&self, other: &MetersSquared) -> bool {
        self.0.compare(&other.0) == Some(Ordering::Equal)
    }
}

impl PartialOrd for MetersSquared {
    /// The order of the magnitudes as numbers: none with a NaN.
    fn partial_cmp(&self, other: &MetersSquared) -> (r: Option<Ordering>) {
        self.0.partial_cmp(&other.0)
    }
}

impl PartialOrdSpecImpl for MetersSquared {
    open spec fn obeys_partial_cmp_spec() -> bool {
        true
    }

    open spec fn partial_cmp_spec(&self, other: &MetersSquared) -> Option<Ordering> {
        self.0.compare(&other.0)
    }
}

impl PartialEq for MetersCubed {
    /// Equality of the magnitudes as numbers: a NaN equals nothing.
    fn eq(&self, other: &MetersCubed) -> (r: bool) {
        self.0 == other.0
    }
}

impl PartialEqSpecImpl for MetersCubed {
    open spec fn obeys_eq_spec() -> bool {
        true
    }

    open spec fn eq_spec(&self, other: &MetersCubed) -> bool {
        self.0.compare(&other.0) == Some(Ordering::Equal)
    }
}

impl PartialOrd for MetersCubed {
    /// The order of the magnitudes as numbers: none with a NaN.
    fn partial_cmp(&self, other: &MetersCubed) -> (r: Option<Ordering>) {
        self.0.partial_cmp(&other.0)
    }
}

impl PartialOrdSpecImpl for MetersCubed {
    open spec fn obeys_partial_cmp_spec() -> bool {
        true
    }

    open spec fn partial_cmp_spec(&self, other: &MetersCubed) -> Option<Ordering> {
        self.0.compare(&other.0)
    }
}

/// The eccentricity of a conic section: a number that is not below zero.
/// Nothing bounds it from above, so parabolas and hyperbolas have one too.
#[derive(Copy, Clone, Debug)]
pub struct Eccentricity(Real);

impl Eccentricity {
    #[verifier::type_invariant]
    spec fn not_negative(self) -> bool {
        !self.0.below_zero()
    }

    /// The number that the eccentricity holds.
    pub closed spec fn spec_value(&self) -> Real {
        self.0
    }

    /// An eccentricity of the given value, or the reason why there is none:
    /// a value below zero is refused, every other is taken as it is.
    pub fn new(value: Real) -> (r: Result<Eccentricity, &'static str>)
        ensures
            match r {
                Ok(e) => !value.below_zero() && e.value() == value,
                Err(reason) => value.below_zero() && reason@
                    == "Eccentricity cannot be negative"@,
            },
    {
        proof {
            lemma_grid_zero(0);
        }
        if value < Real::zero() {
            Err("Eccentricity cannot be negative")
        } else {
            Ok(Eccentricity(value))
        }
    }

    /// The number that the eccentricity holds; it is never below zero.
    #[verifier::when_used_as_spec(spec_value)]
    pub fn value(&self) -> (r: Real)
        ensures
            r == self.spec_value(),
            !r.below_zero(),
    {
        proof {
            use_type_invariant(self);
        }
        self.0
    }
}

impl PartialEq for Eccentricity {
    /// Equality of the magnitudes as numbers: a NaN equals nothing.
    fn eq(&self, other: &Eccentricity) -> (r: bool) {
        self.0 == other.0
    }
}

impl PartialEqSpecImpl for Eccentricity {
    open spec fn obeys_eq_spec() -> bool {
        true
    }

    open spec fn eq_spec(&self, other: &Eccentricity) -> bool {
        self.value().compare(&other.value()) == Some(Ordering::Equal)
    }
}

} // verus!
