//! The shape of a conic-section orbit.
//!
//! An ellipse is given by its eccentricity, its primary focus and its
//! periapsis. Every other measure is derived from these three on each call.
//! Nothing is checked beyond what `Eccentricity` checks: at eccentricity one
//! the axis is infinite, and beyond one the measures follow the same
//! formulas.

use crate::arith::{difference, negation, product, quotient, root, signed, sum};
use crate::grid::{lemma_grid_zero, magnitude_bits};
use crate::laws::{
    lemma_difference_with_self, lemma_nan_sources, lemma_named_numbers, lemma_one_plus_one,
    lemma_product_commutes, lemma_product_exact, lemma_product_with_one,
    lemma_product_with_zero, lemma_quotient_by_one, lemma_quotient_by_zero,
    lemma_quotient_of_zero, lemma_result_signs, lemma_root_of_one, lemma_sum_with_zero,
};
use crate::number::{lemma_scaled_order, Real};
use crate::rounding::{lemma_round_exists, round};
use crate::utils::{Eccentricity, Meters};
use core::cmp::Ordering;
use vstd::arithmetic::power2::pow2;
use vstd::prelude::*;
use vstd::std_specs::cmp::PartialEqSpecImpl;

verus! {

/// A position in the plane, which marks a focus.
#[derive(Clone, Copy, Debug)]
pub struct Point {
    pub x: Meters,
    pub y: Meters,
}

impl PartialEq for Point {
    /// Two points are equal when both coordinates are equal as lengths.
    fn eq(&self, other: &Point) -> (r: bool) {
        self.x == other.x && self.y == other.y
    }
}

impl PartialEqSpecImpl for Point {
    open spec fn obeys_eq_spec() -> bool {
        true
    }

    open spec fn eq_spec(&self, other: &Point) -> bool {
        self.x.0.compare(&other.x.0) == Some(Ordering::Equal) && self.y.0.compare(&other.y.0)
            == Some(Ordering::Equal)
    }
}

/// A conic section, held as eccentricity, primary focus and periapsis.
pub struct Ellipse {
    e: Eccentricity,
    f: Point,
    r_p: Meters,
}

/// The semi-major axis that belongs to a periapsis and an eccentricity:
/// `periapsis / (1 - e)`.
pub open spec fn major_axis(periapsis: Real, e: Real) -> Real {
    quotient(periapsis, difference(Real::one(), e))
}

/// The semi-minor axis: `a * sqrt(1 - e * e)`.
pub open spec fn minor_axis(periapsis: Real, e: Real) -> Real {
    product(major_axis(periapsis, e), root(difference(Real::one(), product(e, e))))
}

/// The apoapsis: `a * (1 + e)`.
pub open spec fn far_apsis(periapsis: Real, e: Real) -> Real {
    product(major_axis(periapsis, e), sum(Real::one(), e))
}

/// The distance from the centre to a focus: `e * a`.
pub open spec fn focal_length(periapsis: Real, e: Real) -> Real {
    product(e, major_axis(periapsis, e))
}

/// The flattening: `(a - b) / a`.
pub open spec fn flatness(periapsis: Real, e: Real) -> Real {
    quotient(
        difference(major_axis(periapsis, e), minor_axis(periapsis, e)),
        major_axis(periapsis, e),
    )
}

/// The eccentricity that belongs to a periapsis and an apoapsis:
/// `(apoapsis - periapsis) / (apoapsis + periapsis)`.
pub open spec fn apsis_ratio(periapsis: Real, apoapsis: Real) -> Real {
    quotient(difference(apoapsis, periapsis), sum(apoapsis, periapsis))
}

/// The distance between two focal radii, the smaller taken from the
/// larger. Where neither is larger, the first is taken from the second.
pub open spec fn radii_gap(r_f: Real, r_f_p: Real) -> Real {
    if r_f.compare(&r_f_p) == Some(Ordering::Greater) {
        difference(r_f, r_f_p)
    } else {
        difference(r_f_p, r_f)
    }
}

/// The eccentricity that two focal radii give: half their gap over half
/// their sum.
pub open spec fn radii_ratio(r_f: Real, r_f_p: Real) -> Real {
    quotient(
        quotient(radii_gap(r_f, r_f_p), Real::two()),
        quotient(sum(r_f, r_f_p), Real::two()),
    )
}

impl Ellipse {
    /// The eccentricity that the ellipse holds.
    pub closed spec fn spec_eccentricity(&self) -> Eccentricity {
        self.e
    }

    /// The primary focus that the ellipse holds.
    pub closed spec fn spec_primary_focus(&self) -> Point {
        self.f
    }

    /// The periapsis that the ellipse holds.
    pub closed spec fn spec_periapsis(&self) -> Meters {
        self.r_p
    }

    /// The semi-major axis as a length.
    pub open spec fn spec_semi_major_axis(&self) -> Meters {
        Meters(major_axis(self.periapsis().0, self.eccentricity().value()))
    }

    /// The semi-minor axis as a length.
    pub open spec fn spec_semi_minor_axis(&self) -> Meters {
        Meters(minor_axis(self.periapsis().0, self.eccentricity().value()))
    }

    /// The flattening as a plain number.
    pub open spec fn spec_flattening(&self) -> Real {
        flatness(self.periapsis().0, self.eccentricity().value())
    }

    /// The apoapsis as a length.
    pub open spec fn spec_apoapsis(&self) -> Meters {
        Meters(far_apsis(self.periapsis().0, self.eccentricity().value()))
    }

    /// The focal distance as a length.
    pub open spec fn spec_focal_distance(&self) -> Meters {
        Meters(focal_length(self.periapsis().0, self.eccentricity().value()))
    }

    /// The ellipse with the given eccentricity, primary focus and periapsis.
    pub fn new(e: Eccentricity, f: Point, r_p: Meters) -> (r: Ellipse)
        ensures
            r.eccentricity() == e,
            r.primary_focus() == f,
            r.periapsis() == r_p,
    {
        Ellipse { e, f, r_p }
    }

    /// The ellipse with the given periapsis and apoapsis around a focus. Its
    /// eccentricity is `(r_a - r_p) / (r_a + r_p)`; where that is below
    /// zero there is no ellipse, for the reason that `Eccentricity::new` gives.
    pub fn from_periapsis_apoapsis(r_p: Meters, r_a: Meters, f: Point) -> (r: Result<
        Ellipse,
        &'static str,
    >)
        ensures
            match r {
                Ok(ellipse) => {
                    &&& !apsis_ratio(r_p.0, r_a.0).below_zero()
                    &&& ellipse.eccentricity().value() == apsis_ratio(r_p.0, r_a.0)
                    &&& ellipse.primary_focus() == f
                    &&& ellipse.periapsis() == r_p
                },
                Err(reason) => apsis_ratio(r_p.0, r_a.0).below_zero() && reason@
                    == "Eccentricity cannot be negative"@,
            },
    {
        let e = (r_a.value() - r_p.value()) / (r_a.value() + r_p.value());
        match Eccentricity::new(e) {
            Ok(e) => Ok(Ellipse { e, f, r_p }),
            Err(reason) => Err(reason),
        }
    }

    /// The eccentricity.
    #[verifier::when_used_as_spec(spec_eccentricity)]
    pub fn eccentricity(&self) -> (r: Eccentricity)
        ensures
            r == self.spec_eccentricity(),
    {
        self.e
    }

    /// The gravitational centre of attraction.
    #[verifier::when_used_as_spec(spec_primary_focus)]
    pub fn primary_focus(&self) -> (r: Point)
        ensures
            r == self.spec_primary_focus(),
    {
        self.f
    }

    /// The distance from the primary focus to the nearest point of the
    /// ellipse, along the major axis.
    #[verifier::when_used_as_spec(spec_periapsis)]
    pub fn periapsis(&self) -> (r: Meters)
        ensures
            r == self.spec_periapsis(),
    {
        self.r_p
    }

    /// Half of the long axis of the ellipse, `a`.
    #[verifier::when_used_as_spec(spec_semi_major_axis)]
    pub fn semi_major_axis(&self) -> (r: Meters)
        ensures
            r == self.spec_semi_major_axis(),
    {
        self.periapsis() / (Real::one() - self.eccentricity().value())
    }

    /// Half of the short axis of the ellipse, `b`.
    #[verifier::when_used_as_spec(spec_semi_minor_axis)]
    pub fn semi_minor_axis(&self) -> (r: Meters)
        ensures
            r == self.spec_semi_minor_axis(),
    {
        let e = self.eccentricity().value();
        Meters(self.semi_major_axis().value() * (Real::one() - e * e).sqrt())
    }

    /// The flattening, which describes the shape as the eccentricity does.
    #[verifier::when_used_as_spec(spec_flattening)]
    pub fn flattening(&self) -> (r: Real)
        ensures
            r == self.spec_flattening(),
    {
        let a = self.semi_major_axis() - self.semi_minor_axis();
        a / self.semi_major_axis()
    }

    /// The distance from the primary focus to the far point of the ellipse,
    /// along the major axis.
    #[verifier::when_used_as_spec(spec_apoapsis)]
    pub fn apoapsis(&self) -> (r: Meters)
        ensures
            r == self.spec_apoapsis(),
    {
        Meters(self.semi_major_axis().value() * (Real::one() + self.eccentricity().value()))
    }

    /// The distance from the centre of the ellipse to either focus, `c`.
    #[verifier::when_used_as_spec(spec_focal_distance)]
    pub fn focal_distance(&self) -> (r: Meters)
        ensures
            r == self.spec_focal_distance(),
    {
        Meters(self.eccentricity().value() * self.semi_major_axis().value())
    }
}

/// Twice the semi-major axis, from the distances of one point of the orbit
/// to the primary and to the secondary focus: their sum.
pub fn calc_2a(r_f: Meters, r_f_p: Meters) -> (r: Meters)
    ensures
        r == Meters(sum(r_f.0, r_f_p.0)),
{
    r_f + r_f_p
}

/// The distance between the two foci, from the distances of one point of
/// the orbit to each: the smaller taken from the larger.
pub fn calc_2c(r_f: Meters, r_f_p: Meters) -> (r: Meters)
    ensures
        r == Meters(radii_gap(r_f.0, r_f_p.0)),
{
    if r_f.value() > r_f_p.value() {
        r_f - r_f_p
    } else {
        r_f_p - r_f
    }
}

/// The eccentricity of an orbit, from the distances of one point of the
/// orbit to each focus; where the ratio is below zero there is none, for
/// the reason that `Eccentricity::new` gives.
pub fn calc_ecc(r_f: Meters, r_f_p: Meters) -> (r: Result<Eccentricity, &'static str>)
    ensures
        match r {
            Ok(e) => !radii_ratio(r_f.0, r_f_p.0).below_zero() && e.value() == radii_ratio(
                r_f.0,
                r_f_p.0,
            ),
            Err(reason) => radii_ratio(r_f.0, r_f_p.0).below_zero() && reason@
                == "Eccentricity cannot be negative"@,
        },
{
    let two_a = calc_2a(r_f, r_f_p);
    let two_c = calc_2c(r_f, r_f_p);
    let a = two_a.value() / Real::two();
    let c = two_c.value() / Real::two();
    Eccentricity::new(c / a)
}

/// The gap of two focal radii is the same number in either order, up to
/// the sign of a zero, and is never below zero: between finite radii it is
/// the distance of their values, rounded.
pub proof fn lemma_gap_is_distance(r_f: Real, r_f_p: Real)
    ensures
        radii_gap(r_f, r_f_p).is_nan() == radii_gap(r_f_p, r_f).is_nan(),
        !radii_gap(r_f, r_f_p).is_nan() ==> radii_gap(r_f, r_f_p).scaled() == radii_gap(
            r_f_p,
            r_f,
        ).scaled(),
        !radii_gap(r_f, r_f_p).below_zero(),
        radii_gap(r_f, r_f_p).is_sign_negative() ==> radii_gap(r_f, r_f_p).is_zero(),
        r_f.is_finite() && r_f_p.is_finite() && r_f.scaled() > r_f_p.scaled() ==> radii_gap(
            r_f,
            r_f_p,
        ) == signed(false, round(r_f.scaled() - r_f_p.scaled(), 1)),
        r_f.is_finite() && r_f_p.is_finite() && r_f.scaled() == r_f_p.scaled() ==> radii_gap(
            r_f,
            r_f_p,
        ).is_zero(),
{
    lemma_grid_zero(0);
    lemma_grid_zero(magnitude_bits(r_f.bits));
    lemma_grid_zero(magnitude_bits(r_f_p.bits));
    lemma_scaled_order(r_f, r_f_p);
    if r_f.is_finite() && r_f_p.is_finite() {
        let s = r_f.scaled() - r_f_p.scaled();
        if s > 0 {
            lemma_round_exists(s, 1);
        } else if s < 0 {
            lemma_round_exists(-s, 1);
        }
    }
}

/// Focal radii that are not below zero always give an eccentricity: the
/// ratio of their gap to their sum is not below zero.
pub proof fn lemma_ratio_of_radii(r_f: Real, r_f_p: Real)
    requires
        !r_f.below_zero(),
        !r_f_p.below_zero(),
    ensures
        !radii_ratio(r_f, r_f_p).below_zero(),
{
    let gap = radii_gap(r_f, r_f_p);
    let total = sum(r_f, r_f_p);
    let two = Real::two();
    let half_gap = quotient(gap, two);
    let half_total = quotient(total, two);
    let ratio = quotient(half_gap, half_total);
    lemma_gap_is_distance(r_f, r_f_p);
    lemma_named_numbers();
    lemma_grid_zero(0);
    lemma_grid_zero(magnitude_bits(r_f.bits));
    lemma_grid_zero(magnitude_bits(r_f_p.bits));
    lemma_grid_zero(magnitude_bits(ratio.bits));
    if !ratio.is_nan() {
        lemma_nan_sources(half_gap, half_total);
        lemma_nan_sources(gap, two);
        lemma_nan_sources(total, two);
        lemma_nan_sources(r_f, r_f_p);
        lemma_result_signs(half_gap, half_total);
        lemma_result_signs(gap, two);
        lemma_result_signs(total, two);
        // The sum of radii that are not below zero carries a negative sign
        // only where both radii are zero, and then their gap is zero too.
        if r_f.is_finite() && r_f_p.is_finite() {
            let s = r_f.scaled() + r_f_p.scaled();
            if s > 0 {
                lemma_round_exists(s, 1);
            }
        }
        if gap.is_zero() {
            lemma_quotient_of_zero(gap, two);
            if half_total.is_finite() && !half_total.is_zero() {
                lemma_quotient_of_zero(half_gap, half_total);
            }
        }
    }
}

/// The focal distance is the semi-major axis times the eccentricity.
pub proof fn lemma_focal_distance(ellipse: Ellipse)
    ensures
        ellipse.focal_distance().0 == product(
            ellipse.semi_major_axis().0,
            ellipse.eccentricity().value(),
        ),
{
    lemma_product_commutes(ellipse.semi_major_axis().0, ellipse.eccentricity().value());
}

/// The apoapsis is the semi-major axis times one plus the eccentricity.
pub proof fn lemma_apoapsis(ellipse: Ellipse)
    ensures
        ellipse.apoapsis().0 == product(
            ellipse.semi_major_axis().0,
            sum(Real::one(), ellipse.eccentricity().value()),
        ),
{
}

/// Where the semi-major axis times one less the eccentricity is the
/// periapsis exactly, with nothing to round, the product of the two numbers
/// is the periapsis.
pub proof fn lemma_periapsis(ellipse: Ellipse)
    requires
        ellipse.semi_major_axis().0.is_finite(),
        ellipse.periapsis().0.is_finite(),
        difference(Real::one(), ellipse.eccentricity().value()).is_finite(),
        !difference(Real::one(), ellipse.eccentricity().value()).is_sign_negative(),
        ellipse.semi_major_axis().0.magnitude() * difference(
            Real::one(),
            ellipse.eccentricity().value(),
        ).magnitude() == ellipse.periapsis().0.magnitude() * pow2(1074),
    ensures
        product(
            ellipse.semi_major_axis().0,
            difference(Real::one(), ellipse.eccentricity().value()),
        ) == ellipse.periapsis().0,
{
    let a = ellipse.semi_major_axis().0;
    let t = difference(Real::one(), ellipse.eccentricity().value());
    let p = ellipse.periapsis().0;
    lemma_result_signs(p, t);
    lemma_product_exact(a, t, p);
}

/// A circle: with eccentricity zero and a finite periapsis, the periapsis,
/// the apoapsis and both semi-axes are the same length, and the focal
/// distance is zero. The squares of the focal distance and of the
/// semi-minor axis add up to the square of the semi-major axis exactly.
/// Unless the periapsis is zero, the flattening is zero.
pub proof fn lemma_circle(ellipse: Ellipse)
    requires
        ellipse.eccentricity().value().is_zero(),
        ellipse.periapsis().0.is_finite(),
    ensures
        ellipse.semi_major_axis() == ellipse.periapsis(),
        ellipse.semi_minor_axis() == ellipse.periapsis(),
        ellipse.apoapsis() == ellipse.periapsis(),
        ellipse.focal_distance().0.is_zero(),
        sum(
            product(ellipse.focal_distance().0, ellipse.focal_distance().0),
            product(ellipse.semi_minor_axis().0, ellipse.semi_minor_axis().0),
        ) == product(ellipse.semi_major_axis().0, ellipse.semi_major_axis().0),
        !ellipse.periapsis().0.is_zero() ==> ellipse.flattening().is_zero(),
{
    let e = ellipse.eccentricity().value();
    let p = ellipse.periapsis().0;
    let one = Real::one();
    lemma_named_numbers();
    lemma_sum_with_zero(one, e);
    lemma_sum_with_zero(one, negation(e));
    assert(difference(one, e) == one);
    assert(sum(one, e) == one);
    lemma_quotient_by_one(p);
    assert(major_axis(p, e) == p);
    lemma_product_with_zero(e, e);
    let ee = product(e, e);
    lemma_sum_with_zero(one, negation(ee));
    assert(difference(one, ee) == one);
    lemma_root_of_one();
    lemma_product_with_one(p);
    assert(minor_axis(p, e) == p);
    assert(far_apsis(p, e) == p);
    lemma_product_with_zero(p, e);
    assert(focal_length(p, e).is_zero());
    lemma_difference_with_self(p);
    if !p.is_zero() {
        lemma_quotient_of_zero(Real::zero(), p);
    }
    let f = focal_length(p, e);
    let ff = product(f, f);
    let pp = product(p, p);
    lemma_product_with_zero(f, f);
    lemma_result_signs(f, f);
    lemma_result_signs(p, p);
    lemma_nan_sources(p, p);
    assert(ff == Real::zero());
    lemma_grid_zero(0);
    if pp.is_finite() && !pp.is_zero() {
        lemma_sum_with_zero(pp, ff);
    }
}

/// A parabola: with eccentricity one and a periapsis above zero, the
/// semi-major axis and the apoapsis are positive infinity.
pub proof fn lemma_parabola(ellipse: Ellipse)
    requires
        ellipse.eccentricity().value() == Real::one(),
        !ellipse.periapsis().0.is_nan(),
        !ellipse.periapsis().0.is_zero(),
        !ellipse.periapsis().0.is_sign_negative(),
    ensures
        ellipse.semi_major_axis().0 == Real::infinity(),
        ellipse.apoapsis().0 == Real::infinity(),
{
    let p = ellipse.periapsis().0;
    let one = Real::one();
    lemma_named_numbers();
    lemma_difference_with_self(one);
    lemma_quotient_by_zero(p);
    lemma_one_plus_one();
}

} // verus!
