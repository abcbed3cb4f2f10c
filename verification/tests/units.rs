//! Quantities: arithmetic, dimensions, conversion, comparison.

use almagest::utils::{
    Eccentricity, Kilometers, Meters, MetersCubed, MetersSquared, Real, E, PI, TAU,
};
use approx::RelativeEq;

fn r(x: f64) -> Real {
    Real::from_bits(x.to_bits())
}

fn f(x: Real) -> f64 {
    f64::from_bits(x.to_bits())
}

fn m(x: f64) -> Meters {
    Meters(r(x))
}

fn m2(x: f64) -> MetersSquared {
    MetersSquared(r(x))
}

fn close(a: f64, b: f64, epsilon: f64) -> bool {
    a.relative_eq(&b, epsilon, f64::default_max_relative())
}

// === Basic Arithmetic Operations ===

#[test]
fn meters_addition() {
    let a = m(10.0);
    let b = m(5.0);
    assert_eq!(a + b, m(15.0));
}

#[test]
fn meters_subtraction() {
    let a = m(10.0);
    let b = m(3.0);
    assert_eq!(a - b, m(7.0));
}

#[test]
fn meters_scalar_multiplication() {
    let x = m(5.0);
    assert_eq!(x * r(3.0), m(15.0));
}

#[test]
fn meters_scalar_division() {
    let x = m(15.0);
    assert_eq!(x / r(3.0), m(5.0));
}

#[test]
fn meters_ratio_division() {
    let a = m(15.0);
    let b = m(3.0);
    assert!(close(f(a / b), 5.0, 1e-10));
}

// === Dimensional Analysis Tests ===

#[test]
fn meters_multiplication_creates_area() {
    let length = m(4.0);
    let width = m(3.0);
    let area: MetersSquared = length * width;
    assert_eq!(area.value(), r(12.0));
}

#[test]
fn area_division_by_meters_gives_meters() {
    let area = m2(20.0);
    let width = m(4.0);
    let length: Meters = area / width;
    assert_eq!(length, m(5.0));
}

#[test]
fn meters_times_area_gives_volume() {
    let height = m(2.0);
    let area = m2(10.0);
    let volume: MetersCubed = height * area;
    assert_eq!(volume.value(), r(20.0));
}

#[test]
fn area_arithmetic() {
    let a1 = m2(10.0);
    let a2 = m2(5.0);
    assert_eq!(a1 + a2, m2(15.0));
    assert_eq!(a1 - a2, m2(5.0));
    assert_eq!(a1 * r(2.0), m2(20.0));
    assert_eq!(a1 / r(2.0), m2(5.0));
}

// === Unit Conversion Tests ===

#[test]
fn meters_convert_to_km() {
    let x = m(1_000.0);
    let km = Kilometers(r(1.0));
    assert_eq!(x.to_km(), km);
}

#[test]
fn meters_convert_precision() {
    let x = m(1_234.567);
    let km = x.to_km();
    assert!(close(f(km.0), 1.234567, 1e-10));
}

// === Constants and Special Values ===

#[test]
fn meters_zero_constant() {
    assert_eq!(Meters::zero(), m(0.0));
    assert_eq!(Meters::zero() + m(5.0), m(5.0));
}

#[test]
fn meters_value_accessor() {
    let x = m(42.0);
    assert_eq!(x.value(), r(42.0));
}

// === Edge Cases and Error Conditions ===

#[test]
fn meters_with_infinity() {
    let inf = m(f64::INFINITY);
    let finite = m(10.0);
    assert!(inf.value().is_infinite());
    assert!((inf + finite).value().is_infinite());
}

#[test]
fn meters_with_nan() {
    let nan = m(f64::NAN);
    assert!(nan.value().is_nan());
    // NaN propagates through operations
    assert!((nan + m(5.0)).value().is_nan());
}

#[test]
fn meters_division_by_zero() {
    let x = m(10.0);
    let result = x / r(0.0);
    assert!(result.value().is_infinite());
}

#[test]
fn zero_divided_by_meters() {
    let zero = m(0.0);
    let divisor = m(5.0);
    assert_eq!(zero / divisor, r(0.0));
}

// === Eccentricity Validation Tests ===

#[test]
fn eccentricity_valid_values() {
    assert!(Eccentricity::new(r(0.0)).is_ok());
    assert!(Eccentricity::new(r(0.5)).is_ok());
    assert!(Eccentricity::new(r(0.999)).is_ok());
    assert!(Eccentricity::new(r(1.0)).is_ok());
}

#[test]
fn eccentricity_invalid_negative() {
    assert!(Eccentricity::new(r(-0.1)).is_err());
    assert!(Eccentricity::new(r(-1.0)).is_err());
}

#[test]
fn eccentricity_value_accessor() {
    let e = Eccentricity::new(r(0.5)).unwrap();
    assert_eq!(e.value(), r(0.5));
}

// === Comparison and Ordering Tests ===

#[test]
fn meters_comparison() {
    let a = m(5.0);
    let b = m(10.0);
    let c = m(5.0);

    assert!(a < b);
    assert!(b > a);
    assert_eq!(a, c);
    assert!(a <= c);
    assert!(a >= c);
}

#[test]
fn area_comparison() {
    let small = m2(5.0);
    let large = m2(10.0);

    assert!(small < large);
    assert!(large > small);
}

// === Mathematical Properties ===

#[test]
fn meters_associativity() {
    let a = m(2.0);
    let b = m(3.0);
    let c = m(4.0);

    // Addition associativity: (a + b) + c = a + (b + c)
    assert_eq!((a + b) + c, a + (b + c));
}

#[test]
fn meters_commutativity() {
    let a = m(7.0);
    let b = m(11.0);

    // Addition commutativity: a + b = b + a
    assert_eq!(a + b, b + a);

    // Multiplication commutativity with dimensionality
    let area1: MetersSquared = a * b;
    let area2: MetersSquared = b * a;
    assert_eq!(area1, area2);
}

#[test]
fn meters_distributivity() {
    let a = m(3.0);
    let b = m(4.0);
    let scalar = r(2.0);

    // Scalar distributivity: k(a + b) = ka + kb
    assert_eq!(scalar * (a + b), scalar * a + scalar * b);
}

// === Real-world Scale Tests ===

#[test]
fn orbital_scale_calculations() {
    // Earth's radius
    let earth_radius = m(6_371_000.0);
    // ISS altitude
    let iss_altitude = m(408_000.0);
    let iss_orbit_radius = earth_radius + iss_altitude;

    assert!(close(f(iss_orbit_radius.value()), 6_779_000.0, 1.0));

    // Check that we can compute orbital circumference (2πr)
    let circumference = iss_orbit_radius * (r(2.0) * Real::from_bits(PI));
    assert!(circumference.value() > r(42_000_000.0)); // ~42.6M meters
}

#[test]
fn astronomical_scale_precision() {
    // Earth-Sun distance (1 AU)
    let au = m(149_597_870_700.0);
    let half_au = au / r(2.0);

    assert!(close(f(half_au.value()), 74_798_935_350.0, 1.0));
}

// === Further cases ===

#[test]
fn constants_are_the_nearest_patterns() {
    assert_eq!(f(Real::from_bits(PI)), std::f64::consts::PI);
    assert_eq!(f(Real::from_bits(TAU)), std::f64::consts::TAU);
    assert_eq!(f(Real::from_bits(E)), std::f64::consts::E);
    assert_eq!(f(Real::zero()), 0.0);
    assert_eq!(f(Real::one()), 1.0);
    assert_eq!(f(Real::two()), 2.0);
    assert_eq!(f(Real::thousand()), 1000.0);
    assert_eq!(f(Real::infinity()), f64::INFINITY);
    assert!(f(Real::nan()).is_nan());
    assert!(Real::nan().is_nan());
}

#[test]
fn classification_follows_the_pattern() {
    for x in [0.0, -0.0, 1.5, -2.5, 5e-324, f64::MAX, f64::INFINITY, f64::NEG_INFINITY, f64::NAN]
    {
        let v = r(x);
        assert_eq!(v.is_nan(), x.is_nan());
        assert_eq!(v.is_infinite(), x.is_infinite());
        assert_eq!(v.is_finite(), x.is_finite());
        assert_eq!(v.is_sign_negative(), x.is_sign_negative());
        assert_eq!(v.is_zero(), x == 0.0);
        assert_eq!(f(-v).to_bits(), (-x).to_bits());
    }
}

#[test]
fn eccentricity_refuses_exactly_what_is_below_zero() {
    for x in [-5e-324, -0.1, -1.0, -1e300, f64::NEG_INFINITY] {
        assert_eq!(Eccentricity::new(r(x)).unwrap_err(), "Eccentricity cannot be negative");
    }
    for x in [0.0, -0.0, 5e-324, 0.5, 1.0, 2.5, 1e300, f64::INFINITY] {
        let e = Eccentricity::new(r(x)).unwrap();
        assert_eq!(e.value().to_bits(), x.to_bits());
    }
    // A NaN is not below zero, so it is taken as it is.
    let e = Eccentricity::new(r(f64::NAN)).unwrap();
    assert!(e.value().is_nan());
    assert_ne!(e, e);
    assert_eq!(Eccentricity::new(r(0.0)).unwrap(), Eccentricity::new(r(-0.0)).unwrap());
}

#[test]
fn dimensional_algebra_on_exact_values() {
    assert_eq!(f((m(4.0) * m(3.0)).value()), 12.0);
    assert_eq!(f((m2(20.0) / m(4.0)).value()), 5.0);
    assert_eq!(f((m(2.0) * m2(10.0)).value()), 20.0);
    assert_eq!(f((r(3.0) * m(2.5)).value()), 7.5);
    assert_eq!(f(m(7.0) / m(2.0)), 3.5);
}

#[test]
fn conversion_to_kilometres_divides_by_a_thousand() {
    assert_eq!(f(m(1000.0).to_km().0), 1.0);
    assert_eq!(f(m(1.0).to_km().0), 0.001);
    assert_eq!(f(m(-2500.0).to_km().0), -2.5);
    assert!(f(m(f64::NAN).to_km().0).is_nan());
}

#[test]
fn comparisons_leave_a_nan_unordered() {
    let nan = m(f64::NAN);
    let one = m(1.0);
    assert!(!(nan < one) && !(nan > one) && !(nan <= one) && !(nan >= one));
    assert!(nan != nan);
    assert!(m(0.0) == m(-0.0));
    assert!(m(f64::NEG_INFINITY) < m(f64::MIN));
    assert!(m(f64::MAX) < m(f64::INFINITY));
    assert!(Kilometers(r(1.0)) < Kilometers(r(2.0)));
    assert!(MetersCubed(r(-1.0)) < MetersCubed(r(-0.5)));
}

#[test]
fn division_by_zero_keeps_the_sign() {
    assert_eq!(f((m(10.0) / r(0.0)).value()), f64::INFINITY);
    assert_eq!(f((m(-10.0) / r(0.0)).value()), f64::NEG_INFINITY);
    assert_eq!(f((m(10.0) / r(-0.0)).value()), f64::NEG_INFINITY);
    assert!(f((m(0.0) / r(0.0)).value()).is_nan());
}
