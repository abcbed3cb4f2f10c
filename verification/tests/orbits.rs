//! The geometry of ellipses.

use almagest::kepler::{calc_2a, calc_2c, calc_ecc, Ellipse, Point};
use almagest::utils::{Eccentricity, Meters, Real};
use approx::RelativeEq;

fn real_of(x: f64) -> Real {
    Real::from_bits(x.to_bits())
}

fn float_of(x: Real) -> f64 {
    f64::from_bits(x.to_bits())
}

fn meters(x: f64) -> Meters {
    Meters(real_of(x))
}

fn ecc(x: f64) -> Eccentricity {
    Eccentricity::new(real_of(x)).unwrap()
}

fn origin() -> Point {
    Point { x: meters(0.0), y: meters(0.0) }
}

fn near(a: f64, b: f64, epsilon: f64) -> bool {
    a.relative_eq(&b, epsilon, f64::default_max_relative())
}

fn alike(a: f64, b: f64) -> bool {
    (a.is_nan() && b.is_nan()) || a.to_bits() == b.to_bits()
}

fn axis(ellipse: &Ellipse) -> f64 {
    float_of(ellipse.semi_major_axis().0)
}

fn minor(ellipse: &Ellipse) -> f64 {
    float_of(ellipse.semi_minor_axis().0)
}

fn apo(ellipse: &Ellipse) -> f64 {
    float_of(ellipse.apoapsis().0)
}

fn focal(ellipse: &Ellipse) -> f64 {
    float_of(ellipse.focal_distance().0)
}

#[test]
fn has_focus() {
    let f = Point { x: meters(1.0), y: meters(1.0) };
    let e = Ellipse::new(ecc(1.0), f, meters(1.0));
    assert_eq!(e.primary_focus(), f);
}

#[test]
fn calcs_semi_major_axis() {
    let f = Point { x: meters(1.0), y: meters(1.0) };
    let e = Ellipse::new(ecc(0.5), f, meters(1.0));
    let expected = meters(2.0);
    assert_eq!(e.semi_major_axis(), expected);
}

// Circle (e = 0)
#[test]
fn test_circle() {
    let ellipse = Ellipse::new(ecc(0.0), origin(), meters(1000.0));

    // For a circle: r_p = r_a = a = b
    assert!(near(axis(&ellipse), 1000.0, 1e-10));
    assert!(near(minor(&ellipse), 1000.0, 1e-10));
    assert!(near(apo(&ellipse), 1000.0, 1e-10));
    assert!(near(focal(&ellipse), 0.0, 1e-10));
}

// Earth's orbit (approximately)
#[test]
fn test_earth_orbit() {
    let e_val = 0.0167; // Earth's orbital eccentricity
    let r_p_val = 147_097_000_000.0; // Perihelion in meters

    let ellipse = Ellipse::new(ecc(e_val), origin(), meters(r_p_val));

    let expected_a = 149_595_240_516.6277;
    let expected_r_a = 152_093_481_033.25537;

    assert!(near(axis(&ellipse), expected_a, 1e-6));
    assert!(near(apo(&ellipse), expected_r_a, 1e-6));
}

// Highly eccentric orbit (comet-like)
#[test]
fn test_highly_eccentric_orbit() {
    let ellipse = Ellipse::new(ecc(0.9), origin(), meters(1000.0));

    // For e = 0.9, r_p = 1000:
    // a = r_p / (1 - e) = 1000 / 0.1 = 10000
    // r_a = a(1 + e) = 10000 * 1.9 = 19000
    // b = a * sqrt(1 - e²) = 10000 * sqrt(0.19) ≈ 4358.9
    // c = a * e = 9000

    assert!(near(axis(&ellipse), 10000.0, 1e-10));
    assert!(near(apo(&ellipse), 19000.0, 1e-10));
    assert!(near(minor(&ellipse), 4358.898943540674, 1e-6));
    assert!(near(focal(&ellipse), 9000.0, 1e-6));
}

// Low Earth Orbit (ISS-like)
#[test]
fn test_low_earth_orbit() {
    let earth_radius = 6_371_000.0; // Earth radius in meters
    let ellipse = Ellipse::new(ecc(0.0002), origin(), meters(earth_radius + 408_000.0));

    // For nearly circular LEO
    let expected_a = (earth_radius + 408_000.0) / (1.0 - 0.0002);
    let expected_r_a = expected_a * (1.0 + 0.0002);

    assert!(near(axis(&ellipse), expected_a, 1.0));
    assert!(near(apo(&ellipse), expected_r_a, 1.0));
}

// Geostationary Transfer Orbit (GTO)
#[test]
fn test_geostationary_transfer_orbit() {
    let earth_radius = 6_371_000.0;
    let ellipse = Ellipse::new(ecc(0.7308), origin(), meters(earth_radius + 200_000.0));

    // Calculate expected values using orbital mechanics formulas
    let r_p = float_of(ellipse.periapsis().0);
    let expected_a = r_p / (1.0 - float_of(ellipse.eccentricity().value()));
    let expected_r_a = 2.0 * expected_a - r_p;

    assert!(near(axis(&ellipse), expected_a, 1e3));
    assert!(near(apo(&ellipse), expected_r_a, 1e5));
}

// Parabolic trajectory (e = 1.0)
#[test]
fn test_parabolic_trajectory() {
    let ellipse = Ellipse::new(ecc(1.0), origin(), meters(1000.0));

    // For parabolic orbit: a approaches infinity, r_a approaches infinity
    assert!(ellipse.semi_major_axis().0.is_infinite());
    assert!(ellipse.apoapsis().0.is_infinite());
}

// Ellipse constructor from periapsis and apoapsis
#[test]
fn test_from_periapsis_apoapsis_constructor() {
    let r_p = meters(6_571_000.0); // Example: 200 km above Earth's surface
    let r_a = meters(42_157_000.0); // Example: geostationary altitude
    let f = origin();

    let ellipse = Ellipse::from_periapsis_apoapsis(r_p, r_a, f).unwrap();

    let expected_a = (float_of(r_p.0) + float_of(r_a.0)) / 2.0;
    let expected_e = (float_of(r_a.0) - float_of(r_p.0)) / (float_of(r_a.0) + float_of(r_p.0));

    assert!(near(axis(&ellipse), expected_a, 1e-6));
    assert!(near(float_of(ellipse.eccentricity().value()), expected_e, 1e-6));
    assert!(near(apo(&ellipse), float_of(r_a.0), 1e-6));
    assert!(near(float_of(ellipse.periapsis().0), float_of(r_p.0), 1e-6));
}

// Edge case - very small periapsis
#[test]
fn test_small_periapsis() {
    let ellipse = Ellipse::new(ecc(0.5), origin(), meters(1.0));

    // a = r_p / (1 - e) = 1 / 0.5 = 2
    // r_a = a(1 + e) = 2 * 1.5 = 3
    assert!(near(axis(&ellipse), 2.0, 1e-10));
    assert!(near(apo(&ellipse), 3.0, 1e-10));
}

// Mathematical precision test
#[test]
fn test_mathematical_relationships() {
    let ellipse = Ellipse::new(ecc(0.3), origin(), meters(7000.0));

    let a = axis(&ellipse);
    let b = minor(&ellipse);
    let c = focal(&ellipse);
    let r_a = apo(&ellipse);
    let e = float_of(ellipse.eccentricity().value());

    // Test fundamental ellipse relationships
    assert!(near(c * c + b * b, a * a, 1e-6)); // c² + b² = a²
    assert!(near(c, a * e, 1e-10)); // c = ae
    assert!(near(float_of(ellipse.periapsis().0), a * (1.0 - e), 1e-10)); // r_p = a(1-e)
    assert!(near(r_a, a * (1.0 + e), 1e-10)); // r_a = a(1+e)
    assert!(near(b, a * (1.0 - e * e).sqrt(), 1e-10)); // b = a√(1-e²)
}

// Property-based test helper
#[test]
fn test_eccentricity_bounds() {
    // Test that calculations work for valid eccentricity range [0, 1)
    // First, for a circle:
    let ellipse = Ellipse::new(ecc(0.0), origin(), meters(1000.0));

    // All calculated values should be positive and finite
    assert!(axis(&ellipse) > 0.0);
    assert!(axis(&ellipse).is_finite());
    assert!(minor(&ellipse) > 0.0);
    assert!(minor(&ellipse).is_finite());
    assert!(apo(&ellipse) == float_of(ellipse.periapsis().0));

    // Then, for the other ranges:
    for e_val in [0.1, 0.25, 0.5, 0.75, 0.9, 0.95, 0.99, 0.999] {
        let ellipse = Ellipse::new(ecc(e_val), origin(), meters(1000.0));

        // All calculated values should be positive and finite
        assert!(ellipse.semi_major_axis().0 > real_of(0.0));
        assert!(ellipse.semi_major_axis().0.is_finite());
        assert!(ellipse.semi_minor_axis().0 > real_of(0.0));
        assert!(ellipse.semi_minor_axis().0.is_finite());
        assert!(ellipse.apoapsis().0 > ellipse.periapsis().0);

        if e_val < 1.0 {
            assert!(ellipse.apoapsis().0.is_finite());
        }
    }
}

// === Further cases ===

#[test]
fn derived_measures_follow_their_formulas() {
    for (e, p) in [(0.0167, 147_097_000_000.0), (0.9, 1000.0), (0.3, 7000.0), (2.5, 10.0), (1.0, 3.0)]
    {
        let ellipse = Ellipse::new(ecc(e), origin(), meters(p));
        let a = p / (1.0 - e);
        let b = a * libm::sqrt(1.0 - e * e);
        assert!(alike(axis(&ellipse), a));
        assert!(alike(minor(&ellipse), b));
        assert!(alike(apo(&ellipse), a * (1.0 + e)));
        assert!(alike(focal(&ellipse), e * a));
        assert!(alike(float_of(ellipse.flattening()), (a - b) / a));
    }
}

#[test]
fn earth_orbit_to_the_last_bit() {
    let ellipse = Ellipse::new(ecc(0.0167), origin(), meters(147_097_000_000.0));
    assert_eq!(axis(&ellipse), 149_595_240_516.6277);
    assert_eq!(apo(&ellipse), 152_093_481_033.25537);
}

#[test]
fn focal_distance_is_axis_times_eccentricity() {
    for (e, p) in [(0.0167, 147_097_000_000.0), (0.9, 1000.0), (0.3, 7000.0), (0.999, 1e-3)] {
        let ellipse = Ellipse::new(ecc(e), origin(), meters(p));
        let product = ellipse.semi_major_axis().0 * ellipse.eccentricity().value();
        assert_eq!(ellipse.focal_distance().0.to_bits(), product.to_bits());
        let far = ellipse.semi_major_axis().0 * (Real::one() + ellipse.eccentricity().value());
        assert_eq!(ellipse.apoapsis().0.to_bits(), far.to_bits());
    }
}

#[test]
fn periapsis_is_recovered_where_nothing_is_rounded() {
    // a = 1 / 0.5 = 2 and 2 * 0.5 = 1, all exact.
    let ellipse = Ellipse::new(ecc(0.5), origin(), meters(1.0));
    let back = ellipse.semi_major_axis().0 * (Real::one() - ellipse.eccentricity().value());
    assert_eq!(back.to_bits(), ellipse.periapsis().0.to_bits());
}

#[test]
fn circle_measures_coincide() {
    for p in [1000.0, 1.0, 5e-324, 1.7976931348623157e308, -3.0, 0.1] {
        for zero in [0.0, -0.0] {
            let ellipse = Ellipse::new(ecc(zero), origin(), meters(p));
            assert_eq!(axis(&ellipse).to_bits(), p.to_bits());
            assert_eq!(minor(&ellipse).to_bits(), p.to_bits());
            assert_eq!(apo(&ellipse).to_bits(), p.to_bits());
            assert_eq!(focal(&ellipse), 0.0);
            assert_eq!(float_of(ellipse.flattening()), 0.0);
        }
    }
}

#[test]
fn parabola_has_infinite_axis() {
    for p in [1000.0, 5e-324, 1e308, f64::INFINITY] {
        let ellipse = Ellipse::new(ecc(1.0), origin(), meters(p));
        assert_eq!(axis(&ellipse), f64::INFINITY);
        assert_eq!(apo(&ellipse), f64::INFINITY);
    }
}

#[test]
fn round_trip_through_the_apsides() {
    for (p, a) in [(6_571_000.0, 42_157_000.0), (1.0, 3.0), (147_097_000_000.0, 152_093_481_033.0)]
    {
        let ellipse = Ellipse::from_periapsis_apoapsis(meters(p), meters(a), origin()).unwrap();
        assert_eq!(float_of(ellipse.periapsis().0), p);
        assert!(near(apo(&ellipse), a, 1e-6));
        assert_eq!(ellipse.primary_focus(), origin());
    }
}

#[test]
fn apsides_in_the_wrong_order_are_refused() {
    let r = Ellipse::from_periapsis_apoapsis(meters(3.0), meters(1.0), origin());
    assert_eq!(r.err(), Some("Eccentricity cannot be negative"));
    // Equal apsides give the circle.
    let circle = Ellipse::from_periapsis_apoapsis(meters(2.0), meters(2.0), origin()).unwrap();
    assert_eq!(float_of(circle.eccentricity().value()), 0.0);
}

#[test]
fn focal_radii_give_axis_gap_and_eccentricity() {
    assert_eq!(float_of(calc_2a(meters(3.0), meters(5.0)).0), 8.0);
    assert_eq!(float_of(calc_2c(meters(3.0), meters(5.0)).0), 2.0);
    assert_eq!(float_of(calc_2c(meters(5.0), meters(3.0)).0), 2.0);
    assert_eq!(float_of(calc_2c(meters(4.0), meters(4.0)).0), 0.0);
    assert_eq!(float_of(calc_ecc(meters(3.0), meters(5.0)).unwrap().value()), 0.25);
    assert_eq!(float_of(calc_ecc(meters(5.0), meters(3.0)).unwrap().value()), 0.25);
    assert_eq!(float_of(calc_ecc(meters(4.0), meters(4.0)).unwrap().value()), 0.0);
    // The focal radii of the apsides of an ellipse with a = 2 and e = 0.5.
    assert_eq!(float_of(calc_ecc(meters(1.0), meters(3.0)).unwrap().value()), 0.5);
}

#[test]
fn focal_radii_with_a_negative_sum_are_refused() {
    let r = calc_ecc(meters(-3.0), meters(1.0));
    assert_eq!(r.err(), Some("Eccentricity cannot be negative"));
    // Without an order between the radii the second is taken from the first.
    assert!(calc_2c(meters(f64::NAN), meters(1.0)).0.is_nan());
    assert!(calc_ecc(meters(f64::NAN), meters(1.0)).unwrap().value().is_nan());
}

#[test]
fn points_compare_by_coordinates() {
    let a = Point { x: meters(1.0), y: meters(2.0) };
    let b = Point { x: meters(1.0), y: meters(2.0) };
    let c = Point { x: meters(1.0), y: meters(2.5) };
    let n = Point { x: meters(f64::NAN), y: meters(2.0) };
    assert_eq!(a, b);
    assert_ne!(a, c);
    assert_ne!(n, n);
    assert_eq!(Point { x: meters(0.0), y: meters(-0.0) }, origin());
}

#[test]
fn periapsis_is_recovered_to_within_rounding() {
    // Here the quotient and the product both round, and the product misses by one unit
    // in the last place.
    let ellipse = Ellipse::new(ecc(0.1), origin(), meters(30095.0));
    let back = ellipse.semi_major_axis().0 * (Real::one() - ellipse.eccentricity().value());
    assert_eq!(float_of(back), 30095.000000000004);
    for (e, p) in [(0.1, 30095.0), (0.99, 56724.0), (0.7, 32711.0), (0.0167, 147_097_000_000.0)] {
        let ellipse = Ellipse::new(ecc(e), origin(), meters(p));
        let back = ellipse.semi_major_axis().0 * (Real::one() - ellipse.eccentricity().value());
        assert!((float_of(back) - p).abs() * 2f64.powi(51) <= p);
    }
}

#[test]
fn squares_of_axes_add_up_where_in_range() {
    for (e, p) in [(0.3, 7000.0), (0.9, 1000.0), (0.0167, 147_097_000_000.0), (0.999, 1e-3)] {
        let ellipse = Ellipse::new(ecc(e), origin(), meters(p));
        let a = ellipse.semi_major_axis().0;
        let b = ellipse.semi_minor_axis().0;
        let c = ellipse.focal_distance().0;
        let total = float_of(c * c + b * b);
        let square = float_of(a * a);
        assert!((total - square).abs() * 2f64.powi(42) <= square);
    }
}

#[test]
fn squares_of_axes_part_where_they_underflow() {
    let ellipse = Ellipse::new(ecc(0.1), origin(), meters(1.6774418433318737e-161));
    let a = ellipse.semi_major_axis().0;
    let b = ellipse.semi_minor_axis().0;
    let c = ellipse.focal_distance().0;
    assert_eq!(float_of(c * c + b * b), 3.5e-322);
    assert_eq!(float_of(a * a), 3.46e-322);
}

#[test]
fn round_trip_keeps_the_apoapsis_for_moderate_ratios() {
    for (p, a) in [(6_571_000.0, 42_157_000.0), (1.0, 3.0), (1.0, 1_000_000.0), (3.5, 3.6)] {
        let ellipse = Ellipse::from_periapsis_apoapsis(meters(p), meters(a), origin()).unwrap();
        assert_eq!(float_of(ellipse.periapsis().0), p);
        assert!((apo(&ellipse) - a).abs() * 2f64.powi(28) <= a);
    }
}

#[test]
fn round_trip_loses_the_apoapsis_for_an_extreme_ratio() {
    // The periapsis vanishes beside the apoapsis, so the eccentricity rounds to one.
    let ellipse = Ellipse::from_periapsis_apoapsis(meters(1.0), meters(1e17), origin()).unwrap();
    assert_eq!(float_of(ellipse.eccentricity().value()), 1.0);
    assert_eq!(float_of(ellipse.periapsis().0), 1.0);
    assert_eq!(apo(&ellipse), f64::INFINITY);
}

#[test]
fn circle_with_infinite_periapsis_has_no_focal_distance() {
    let ellipse = Ellipse::new(ecc(0.0), origin(), meters(f64::INFINITY));
    assert_eq!(axis(&ellipse), f64::INFINITY);
    assert!(focal(&ellipse).is_nan());
}

#[test]
fn parabola_below_zero_or_at_zero() {
    let ellipse = Ellipse::new(ecc(1.0), origin(), meters(-2.0));
    assert_eq!(axis(&ellipse), f64::NEG_INFINITY);
    let ellipse = Ellipse::new(ecc(1.0), origin(), meters(0.0));
    assert!(axis(&ellipse).is_nan());
}

#[test]
fn focal_radii_of_the_apsides_give_the_ellipse_back() {
    for (e, p) in [(0.0167, 147_097_000_000.0), (0.9, 1000.0), (0.3, 7000.0), (0.5, 1.0)] {
        let ellipse = Ellipse::new(ecc(e), origin(), meters(p));
        let near_apsis = ellipse.periapsis();
        let far_apsis = ellipse.apoapsis();
        let twice_a = float_of(calc_2a(near_apsis, far_apsis).0);
        let twice_c = float_of(calc_2c(near_apsis, far_apsis).0);
        let found = float_of(calc_ecc(near_apsis, far_apsis).unwrap().value());
        assert!((twice_a - 2.0 * axis(&ellipse)).abs() * 2f64.powi(49) <= 2.0 * axis(&ellipse));
        assert!((twice_c - 2.0 * focal(&ellipse)).abs() * 2f64.powi(35) <= 2.0 * focal(&ellipse));
        assert!((found - e).abs() * 2f64.powi(27) <= e);
        // The order of the radii does not matter.
        assert_eq!(float_of(calc_2c(far_apsis, near_apsis).0), twice_c);
        assert_eq!(float_of(calc_2a(far_apsis, near_apsis).0), twice_a);
    }
}

#[test]
fn gap_of_radii_is_their_distance() {
    let values = [0.0, -0.0, 1.0, 3.5, -2.0, 1e300, -1e300, 5e-324, f64::INFINITY, f64::NAN];
    for &a in &values {
        for &b in &values {
            let want = if a > b { a - b } else { b - a };
            let got = float_of(calc_2c(meters(a), meters(b)).0);
            assert!(alike(got, want), "{:e} {:e}", a, b);
            assert!(!(got < 0.0));
            let back = float_of(calc_2c(meters(b), meters(a)).0);
            assert!((got.is_nan() && back.is_nan()) || got == back);
        }
    }
    // Only the sign of a zero tells the orders apart.
    assert!(float_of(calc_2c(meters(0.0), meters(-0.0)).0).is_sign_negative());
    assert!(float_of(calc_2c(meters(-0.0), meters(0.0)).0).is_sign_positive());
}

#[test]
fn radii_that_are_not_below_zero_always_give_an_eccentricity() {
    let values = [0.0, -0.0, 1.0, 3.5, 1e300, 5e-324, f64::INFINITY, f64::NAN];
    for &a in &values {
        for &b in &values {
            let want = {
                let gap = if a > b { a - b } else { b - a };
                (gap / 2.0) / ((a + b) / 2.0)
            };
            let got = calc_ecc(meters(a), meters(b)).unwrap();
            assert!(alike(float_of(got.value()), want), "{:e} {:e}", a, b);
        }
    }
}
