//! Laws of the ellipse that hold within a tolerance.
//!
//! Every operation rounds, so what holds exactly of the formulas holds of
//! the computed measures only nearly, and only where no step overflows or
//! underflows. Each law names its range and its tolerance.

use crate::arith::{difference, negation, product, quotient, root, sum};
use crate::grid::{lemma_grid_zero, magnitude_bits};
use crate::kepler::{
    apsis_ratio, far_apsis, focal_length, major_axis, minor_axis, radii_gap, radii_ratio,
    Ellipse,
};
use crate::laws::{
    lemma_named_numbers, lemma_product_error, lemma_quotient_error, lemma_result_signs,
    lemma_root_error, lemma_round_error, lemma_sum_error,
};
use crate::nearness::{
    lemma_near_chain, lemma_near_difference, lemma_near_flip, lemma_near_product,
    lemma_near_rest, lemma_near_scale, lemma_near_self, lemma_near_sum, lemma_near_unscale,
    lemma_near_weaken, near,
};
use crate::number::{Real, PRECISION};
use crate::rounding::lemma_round_exists;
use crate::utils::Meters;
use vstd::arithmetic::power2::pow2;
use vstd::prelude::*;

verus! {

/// Where nothing overflows or underflows, the semi-major axis times one
/// less the eccentricity is the periapsis to within one part in 2^51.
pub proof fn lemma_periapsis_within(ellipse: Ellipse)
    requires
        ellipse.periapsis().0.is_finite(),
        difference(Real::one(), ellipse.eccentricity().value()).is_finite(),
        !difference(Real::one(), ellipse.eccentricity().value()).is_zero(),
        ellipse.semi_major_axis().0.is_normal(),
        product(
            ellipse.semi_major_axis().0,
            difference(Real::one(), ellipse.eccentricity().value()),
        ).is_normal(),
    ensures
        ({
            let back = product(
                ellipse.semi_major_axis().0,
                difference(Real::one(), ellipse.eccentricity().value()),
            );
            let p = ellipse.periapsis().0;
            &&& (back.magnitude() - p.magnitude()) * 0x8_0000_0000_0000 <= p.magnitude()
            &&& (p.magnitude() - back.magnitude()) * 0x8_0000_0000_0000 <= p.magnitude()
        }),
{
    let p = ellipse.periapsis().0;
    let t = difference(Real::one(), ellipse.eccentricity().value());
    let a = ellipse.semi_major_axis().0;
    let back = product(a, t);
    let c = pow2(1074) as int;
    let pm = p.magnitude() as int;
    let tm = t.magnitude() as int;
    let am = a.magnitude() as int;
    let bm = back.magnitude() as int;
    lemma_named_numbers();
    lemma_grid_zero(magnitude_bits(t.bits));
    assert(pm * c >= 0 && am * tm >= 0) by (nonlinear_arith)
        requires
            pm >= 0,
            c > 0,
            am >= 0,
            tm >= 0,
    ;
    lemma_round_exists(pm * c, tm);
    lemma_round_exists(am * tm, c);
    lemma_round_error(pm * c, tm, magnitude_bits(a.bits));
    lemma_round_error(am * tm, c, magnitude_bits(back.bits));
    let x = tm * am;
    let y = c * bm;
    let z = pm * c;
    assert(am * tm == x) by (nonlinear_arith)
        requires
            x == tm * am,
    ;
    assert((y - z) * 0x8_0000_0000_0000 <= z && (z - y) * 0x8_0000_0000_0000 <= z) by {
        assert(near(z, x, PRECISION as int));
        assert(near(x, y, PRECISION as int));
    }
    assert((bm - pm) * 0x8_0000_0000_0000 <= pm && (pm - bm) * 0x8_0000_0000_0000 <= pm)
        by (nonlinear_arith)
        requires
            (c * bm - pm * c) * 0x8_0000_0000_0000 <= pm * c,
            (pm * c - c * bm) * 0x8_0000_0000_0000 <= pm * c,
            c > 0,
    ;
}

/// Every step on the way to the squares of both semi-axes and of the focal
/// distance is a normal number: nothing overflows and nothing underflows.
pub open spec fn squares_in_range(periapsis: Real, e: Real) -> bool {
    let a = major_axis(periapsis, e);
    let b = minor_axis(periapsis, e);
    let f = focal_length(periapsis, e);
    let rest = difference(Real::one(), product(e, e));
    &&& e.is_normal()
    &&& a.is_normal()
    &&& f.is_normal()
    &&& product(e, e).is_normal()
    &&& rest.is_normal()
    &&& root(rest).is_normal()
    &&& b.is_normal()
    &&& product(f, f).is_normal()
    &&& product(b, b).is_normal()
    &&& product(a, a).is_normal()
    &&& sum(product(f, f), product(b, b)).is_finite()
}

/// Where nothing overflows or underflows, the squares of the focal
/// distance and of the semi-minor axis add up to the square of the
/// semi-major axis to within one part in 2^42.
pub proof fn lemma_squares_of_axes(ellipse: Ellipse)
    requires
        squares_in_range(ellipse.periapsis().0, ellipse.eccentricity().value()),
    ensures
        ({
            let a = ellipse.semi_major_axis().0;
            let b = ellipse.semi_minor_axis().0;
            let f = ellipse.focal_distance().0;
            let total = sum(product(f, f), product(b, b));
            &&& near(
                total.magnitude() as int,
                product(a, a).magnitude() as int,
                0x400_0000_0000,
            )
            &&& !total.is_sign_negative()
        }),
{
    let e = ellipse.eccentricity().value();
    let one = Real::one();
    let a = ellipse.semi_major_axis().0;
    let b = ellipse.semi_minor_axis().0;
    let f = ellipse.focal_distance().0;
    let s = product(e, e);
    let w = difference(one, s);
    let q = root(w);
    let ff = product(f, f);
    let bb = product(b, b);
    let aa = product(a, a);
    let total = sum(ff, bb);
    let c = pow2(1074) as int;
    let m = PRECISION as int;
    let am = a.magnitude() as int;
    let em = e.magnitude() as int;
    let fm = f.magnitude() as int;
    let sm = s.magnitude() as int;
    let wm = w.magnitude() as int;
    let qm = q.magnitude() as int;
    let bm = b.magnitude() as int;
    let ffm = ff.magnitude() as int;
    let bbm = bb.magnitude() as int;
    let aam = aa.magnitude() as int;
    let tm = total.magnitude() as int;
    lemma_named_numbers();
    // What each rounding gives.
    lemma_product_error(e, a);
    lemma_product_error(e, e);
    lemma_result_signs(e, e);
    lemma_sum_error(one, negation(s));
    lemma_root_error(w);
    lemma_product_error(a, q);
    lemma_product_error(f, f);
    lemma_product_error(b, b);
    lemma_result_signs(f, f);
    lemma_result_signs(b, b);
    lemma_sum_error(ff, bb);
    lemma_product_error(a, a);
    assert(near(em * am, fm * c, m));
    assert(near(em * em, sm * c, m));
    assert(near(c - sm, wm, m));
    assert(near(wm * c, qm * qm, 0x8_0000_0000_0000));
    assert(near(am * qm, bm * c, m));
    assert(near(fm * fm, ffm * c, m));
    assert(near(bm * bm, bbm * c, m));
    assert(near(ffm + bbm, tm, m));
    assert(near(am * am, aam * c, m));
    let a2 = am * am;
    let c2 = c * c;
    let squares = fm * fm + bm * bm;
    assert(a2 >= 0 && c2 > 0 && a2 * c >= 0) by (nonlinear_arith)
        requires
            a2 == am * am,
            c2 == c * c,
            c > 0,
    ;
    // The squares as computed are near the squares of what was computed.
    lemma_near_sum(fm * fm, ffm * c, bm * bm, bbm * c, m);
    lemma_near_scale(ffm + bbm, tm, m, c);
    assert(c * (ffm + bbm) == ffm * c + bbm * c) by (nonlinear_arith);
    lemma_near_chain(squares, c * (ffm + bbm), c * tm, m, 0x8_0000_0000_0000);
    assert(near(squares, c * tm, 0x8_0000_0000_0000));
    // The square of the focal distance.
    let fc = fm * c;
    let ea = em * am;
    lemma_near_flip(ea, fc, m);
    lemma_near_weaken(fc, ea, m - 1, 0x10_0000_0000_0000);
    assert(fc >= 0) by (nonlinear_arith)
        requires
            fc == fm * c,
            fm >= 0,
            c > 0,
    ;
    lemma_near_product(fc, ea, fc, ea, 0x10_0000_0000_0000, 0x4_0000_0000_0000);
    lemma_near_scale(em * em, sm * c, m, a2);
    lemma_near_weaken(a2 * (em * em), a2 * (sm * c), m, 0x4_0000_0000_0000);
    assert(ea * ea == a2 * (em * em)) by (nonlinear_arith)
        requires
            ea == em * am,
            a2 == am * am,
    ;
    lemma_near_chain(fc * fc, ea * ea, a2 * (sm * c), 0x4_0000_0000_0000, 0x1_0000_0000_0000);
    assert(near(fc * fc, a2 * (sm * c), 0x1_0000_0000_0000));
    // The square of the semi-minor axis.
    let bc = bm * c;
    let aq = am * qm;
    lemma_near_flip(aq, bc, m);
    lemma_near_weaken(bc, aq, m - 1, 0x10_0000_0000_0000);
    assert(bc >= 0) by (nonlinear_arith)
        requires
            bc == bm * c,
            bm >= 0,
            c > 0,
    ;
    lemma_near_product(bc, aq, bc, aq, 0x10_0000_0000_0000, 0x4_0000_0000_0000);
    lemma_near_flip(wm * c, qm * qm, 0x8_0000_0000_0000);
    lemma_near_weaken(qm * qm, wm * c, 0x8_0000_0000_0000 - 1, 0x4_0000_0000_0000);
    lemma_near_scale(qm * qm, wm * c, 0x4_0000_0000_0000, a2);
    assert(aq * aq == a2 * (qm * qm)) by (nonlinear_arith)
        requires
            aq == am * qm,
            a2 == am * am,
    ;
    lemma_near_chain(bc * bc, aq * aq, a2 * (wm * c), 0x4_0000_0000_0000, 0x1_0000_0000_0000);
    lemma_near_flip(c - sm, wm, m);
    lemma_near_weaken(wm, c - sm, m - 1, 0x1_0000_0000_0000);
    lemma_near_scale(wm, c - sm, 0x1_0000_0000_0000, a2 * c);
    assert((a2 * c) * wm == a2 * (wm * c)) by (nonlinear_arith);
    lemma_near_chain(
        bc * bc,
        a2 * (wm * c),
        (a2 * c) * (c - sm),
        0x1_0000_0000_0000,
        0x4000_0000_0000,
    );
    assert(near(bc * bc, (a2 * c) * (c - sm), 0x4000_0000_0000));
    // Both squares together.
    lemma_near_weaken(fc * fc, a2 * (sm * c), 0x1_0000_0000_0000, 0x4000_0000_0000);
    lemma_near_sum(fc * fc, a2 * (sm * c), bc * bc, (a2 * c) * (c - sm), 0x4000_0000_0000);
    assert(a2 * (sm * c) + (a2 * c) * (c - sm) == c2 * a2) by (nonlinear_arith)
        requires
            c2 == c * c,
    ;
    assert(fc * fc + bc * bc == c2 * squares) by (nonlinear_arith)
        requires
            fc == fm * c,
            bc == bm * c,
            c2 == c * c,
            squares == fm * fm + bm * bm,
    ;
    lemma_near_unscale(squares, a2, 0x4000_0000_0000, c2);
    assert(near(squares, a2, 0x4000_0000_0000));
    // From the sum as computed to the square of the semi-major axis.
    lemma_near_flip(squares, c * tm, 0x8_0000_0000_0000);
    lemma_near_weaken(c * tm, squares, 0x8_0000_0000_0000 - 1, 0x4000_0000_0000);
    lemma_near_chain(c * tm, squares, a2, 0x4000_0000_0000, 0x1000_0000_0000);
    lemma_near_weaken(a2, aam * c, m, 0x1000_0000_0000);
    lemma_near_chain(c * tm, a2, aam * c, 0x1000_0000_0000, 0x400_0000_0000);
    assert(aam * c == c * aam) by (nonlinear_arith);
    lemma_near_unscale(tm, aam, 0x400_0000_0000, c);
}

/// The apsides lie above zero in the right order, the apoapsis at most
/// 2^20 times the periapsis, and every step from them to the eccentricity
/// and back to the apoapsis stays in range: nothing overflows, nothing
/// underflows, and the eccentricity stays below one.
pub open spec fn apsides_in_range(periapsis: Real, apoapsis: Real) -> bool {
    let e = apsis_ratio(periapsis, apoapsis);
    let rest = difference(Real::one(), e);
    &&& periapsis.is_finite() && !periapsis.is_sign_negative()
    &&& apoapsis.is_finite() && !apoapsis.is_sign_negative()
    &&& 0 < periapsis.magnitude() < apoapsis.magnitude()
    &&& apoapsis.magnitude() <= 0x10_0000 * periapsis.magnitude()
    &&& difference(apoapsis, periapsis).is_finite()
    &&& sum(apoapsis, periapsis).is_finite()
    &&& e.is_normal()
    &&& rest.is_normal() && !rest.is_sign_negative()
    &&& major_axis(periapsis, e).is_normal()
    &&& sum(Real::one(), e).is_finite()
    &&& far_apsis(periapsis, e).is_normal()
}

/// The way from two apsides to an ellipse and back: the ellipse has the
/// periapsis that it was given, and, where the apsides are in range, an
/// apoapsis within one part in 2^28 of the one that it was given.
pub proof fn lemma_round_trip(r_p: Meters, r_a: Meters, ellipse: Ellipse)
    requires
        ellipse.periapsis() == r_p,
        ellipse.eccentricity().value() == apsis_ratio(r_p.0, r_a.0),
        apsides_in_range(r_p.0, r_a.0),
    ensures
        ellipse.periapsis() == r_p,
        near(
            ellipse.apoapsis().0.magnitude() as int,
            r_a.0.magnitude() as int,
            0x1000_0000,
        ),
        !ellipse.apoapsis().0.is_sign_negative(),
{
    let p = r_p.0;
    let a = r_a.0;
    let one = Real::one();
    let x = difference(a, p);
    let y = sum(a, p);
    let e = apsis_ratio(p, a);
    let t = difference(one, e);
    let axis = major_axis(p, e);
    let u = sum(one, e);
    let far = far_apsis(p, e);
    let c = pow2(1074) as int;
    let m = PRECISION as int;
    let pm = p.magnitude() as int;
    let am = a.magnitude() as int;
    let xm = x.magnitude() as int;
    let ym = y.magnitude() as int;
    let em = e.magnitude() as int;
    let tm = t.magnitude() as int;
    let gm = axis.magnitude() as int;
    let um = u.magnitude() as int;
    let rm = far.magnitude() as int;
    lemma_named_numbers();
    // What each rounding gives.
    lemma_sum_error(a, negation(p));
    lemma_sum_error(a, p);
    assert(near(am - pm, xm, m));
    assert(near(am + pm, ym, m));
    assert(ym > 0 && xm > 0);
    lemma_grid_zero(magnitude_bits(y.bits));
    lemma_quotient_error(x, y);
    lemma_result_signs(x, y);
    lemma_sum_error(one, negation(e));
    lemma_grid_zero(magnitude_bits(t.bits));
    lemma_quotient_error(p, t);
    lemma_result_signs(p, t);
    lemma_sum_error(one, e);
    lemma_product_error(axis, u);
    lemma_result_signs(axis, u);
    assert(near(xm * c, em * ym, m));
    assert(near(c - em, tm, m));
    assert(near(pm * c, gm * tm, m));
    assert(near(c + em, um, m));
    assert(near(gm * um, rm * c, m));
    let v = em * ym;
    let cy = c * ym;
    let xc = xm * c;
    let gap = ym - xm;
    let both = ym + xm;
    // The sum and the difference of the rounded sum and difference.
    assert(near(gap, 2 * pm, 0x8000_0000) && near(both, 2 * am, m - 1) && 0 <= xm <= 0x20_0000
        * gap);
    // From the apoapsis as computed to the eccentricity.
    lemma_near_flip(gm * um, rm * c, m);
    lemma_near_scale(rm * c, gm * um, m - 1, tm);
    lemma_near_flip(pm * c, gm * tm, m);
    lemma_near_scale(gm * tm, pm * c, m - 1, um);
    assert(tm * (gm * um) == um * (gm * tm)) by (nonlinear_arith);
    lemma_near_chain(tm * (rm * c), tm * (gm * um), um * (pm * c), m - 1, 0x8_0000_0000_0000);
    assert(tm * (rm * c) == c * (rm * tm) && um * (pm * c) == c * (pm * um))
        by (nonlinear_arith);
    lemma_near_unscale(rm * tm, pm * um, 0x8_0000_0000_0000, c);
    lemma_near_scale(c - em, tm, m, rm);
    lemma_near_weaken(rm * (c - em), rm * tm, m, 0x8_0000_0000_0000);
    lemma_near_flip(c + em, um, m);
    lemma_near_scale(um, c + em, m - 1, pm);
    lemma_near_weaken(pm * um, pm * (c + em), m - 1, 0x2_0000_0000_0000);
    lemma_near_chain(
        rm * (c - em),
        rm * tm,
        pm * um,
        0x8_0000_0000_0000,
        0x2_0000_0000_0000,
    );
    lemma_near_chain(
        rm * (c - em),
        pm * um,
        pm * (c + em),
        0x2_0000_0000_0000,
        0x8000_0000_0000,
    );
    lemma_near_scale(rm * (c - em), pm * (c + em), 0x8000_0000_0000, ym);
    let n3 = rm * (cy - v);
    let n4 = pm * (cy + v);
    assert(ym * (rm * (c - em)) == n3 && ym * (pm * (c + em)) == n4) by (nonlinear_arith)
        requires
            n3 == rm * (cy - v),
            n4 == pm * (cy + v),
            cy == c * ym,
            v == em * ym,
    ;
    assert(near(n3, n4, 0x8000_0000_0000));
    // From the eccentricity to the apsides.
    lemma_near_flip(xc, v, m);
    assert(cy >= 0) by (nonlinear_arith)
        requires
            cy == c * ym,
            c > 0,
            ym > 0,
    ;
    lemma_near_self(cy, m - 1);
    lemma_near_sum(cy, cy, v, xc, m - 1);
    lemma_near_scale(cy + v, cy + xc, m - 1, pm);
    let n5 = (pm * c) * both;
    assert(pm * (cy + xc) == n5) by (nonlinear_arith)
        requires
            n5 == (pm * c) * both,
            cy == c * ym,
            xc == xm * c,
            both == ym + xm,
    ;
    assert(pm * c >= 0) by (nonlinear_arith)
        requires
            pm > 0,
            c > 0,
    ;
    lemma_near_scale(both, 2 * am, m - 1, pm * c);
    let n6 = (pm * c) * (2 * am);
    lemma_near_weaken(n3, n4, 0x8000_0000_0000, 0x4000_0000_0000);
    lemma_near_weaken(n4, n5, m - 1, 0x4000_0000_0000);
    lemma_near_chain(n3, n4, n5, 0x4000_0000_0000, 0x1000_0000_0000);
    lemma_near_weaken(n5, n6, m - 1, 0x1000_0000_0000);
    lemma_near_chain(n3, n5, n6, 0x1000_0000_0000, 0x400_0000_0000);
    assert(near(n3, n6, 0x400_0000_0000));
    // Where the difference of the apsides loses what their ratio costs.
    assert(0 <= xc <= 0x20_0000 * (cy - xc)) by (nonlinear_arith)
        requires
            0 <= xm <= 0x20_0000 * gap,
            gap == ym - xm,
            xc == xm * c,
            cy == c * ym,
            c > 0,
    ;
    lemma_near_rest(v, xc, cy, m - 1, 0x20_0000, 0x8000_0000);
    lemma_near_flip(cy - v, cy - xc, 0x8000_0000);
    lemma_near_scale(cy - xc, cy - v, 0x8000_0000 - 1, rm);
    lemma_near_flip(gap, 2 * pm, 0x8000_0000);
    assert(rm * c >= 0) by (nonlinear_arith)
        requires
            rm >= 0,
            c > 0,
    ;
    lemma_near_scale(2 * pm, gap, 0x8000_0000 - 1, rm * c);
    let n1 = (rm * c) * (2 * pm);
    let n2 = (rm * c) * gap;
    assert(rm * (cy - xc) == n2) by (nonlinear_arith)
        requires
            n2 == (rm * c) * gap,
            gap == ym - xm,
            xc == xm * c,
            cy == c * ym,
    ;
    lemma_near_chain(n1, n2, n3, 0x8000_0000 - 1, 0x4000_0000 - 2);
    lemma_near_weaken(n3, n6, 0x400_0000_0000, 0x4000_0000 - 2);
    lemma_near_chain(n1, n3, n6, 0x4000_0000 - 2, 0x1000_0000);
    let base = 2 * (pm * c);
    assert(n1 == base * rm && n6 == base * am && base > 0) by (nonlinear_arith)
        requires
            n1 == (rm * c) * (2 * pm),
            n6 == (pm * c) * (2 * am),
            base == 2 * (pm * c),
            pm > 0,
            c > 0,
    ;
    lemma_near_unscale(rm, am, 0x1000_0000, base);
}

/// The periapsis lies above zero, the eccentricity below one, and every
/// step from them to the sum of periapsis and apoapsis stays in range.
pub open spec fn apsides_sum_in_range(periapsis: Real, e: Real) -> bool {
    let rest = difference(Real::one(), e);
    let far = far_apsis(periapsis, e);
    &&& periapsis.is_finite() && !periapsis.is_sign_negative() && !periapsis.is_zero()
    &&& e.is_finite() && !e.is_sign_negative()
    &&& rest.is_normal() && !rest.is_sign_negative()
    &&& major_axis(periapsis, e).is_normal()
    &&& sum(Real::one(), e).is_finite()
    &&& far.is_normal()
    &&& sum(periapsis, far).is_finite()
}

/// The focal radii of an apsis are the periapsis and the apoapsis. Where
/// they are in range, their sum is twice the semi-major axis to within
/// one part in 2^49.
pub proof fn lemma_sum_of_apsides(ellipse: Ellipse)
    requires
        apsides_sum_in_range(ellipse.periapsis().0, ellipse.eccentricity().value()),
    ensures
        near(
            sum(ellipse.periapsis().0, ellipse.apoapsis().0).magnitude() as int,
            2 * (ellipse.semi_major_axis().0.magnitude() as int),
            0x2_0000_0000_0000,
        ),
        !ellipse.semi_major_axis().0.is_sign_negative(),
        !ellipse.apoapsis().0.is_sign_negative(),
{
    let p = ellipse.periapsis().0;
    let e = ellipse.eccentricity().value();
    let one = Real::one();
    let t = difference(one, e);
    let axis = major_axis(p, e);
    let u = sum(one, e);
    let far = far_apsis(p, e);
    let z = sum(p, far);
    let c = pow2(1074) as int;
    let m = PRECISION as int;
    let pm = p.magnitude() as int;
    let em = e.magnitude() as int;
    let tm = t.magnitude() as int;
    let gm = axis.magnitude() as int;
    let um = u.magnitude() as int;
    let rm = far.magnitude() as int;
    let zm = z.magnitude() as int;
    lemma_named_numbers();
    lemma_sum_error(one, negation(e));
    lemma_grid_zero(magnitude_bits(t.bits));
    lemma_quotient_error(p, t);
    lemma_result_signs(p, t);
    lemma_sum_error(one, e);
    lemma_product_error(axis, u);
    lemma_result_signs(axis, u);
    lemma_sum_error(p, far);
    assert(near(c - em, tm, m));
    assert(near(pm * c, gm * tm, m));
    assert(near(c + em, um, m));
    assert(near(gm * um, rm * c, m));
    assert(near(pm + rm, zm, m));
    // Periapsis and apoapsis are the axis times what adds up to two.
    lemma_near_weaken(pm * c, gm * tm, m, m - 1);
    lemma_near_flip(gm * um, rm * c, m);
    lemma_near_sum(pm * c, gm * tm, rm * c, gm * um, m - 1);
    lemma_near_flip(c - em, tm, m);
    lemma_near_flip(c + em, um, m);
    lemma_near_sum(tm, c - em, um, c + em, m - 1);
    lemma_near_scale(tm + um, 2 * c, m - 1, gm);
    assert(gm * tm + gm * um == gm * (tm + um)) by (nonlinear_arith);
    lemma_near_chain(pm * c + rm * c, gm * (tm + um), gm * (2 * c), m - 1, 0x8_0000_0000_0000);
    // Their sum as computed.
    lemma_near_flip(pm + rm, zm, m);
    lemma_near_scale(zm, pm + rm, m - 1, c);
    lemma_near_weaken(c * zm, c * (pm + rm), m - 1, 0x8_0000_0000_0000);
    assert(c * (pm + rm) == pm * c + rm * c) by (nonlinear_arith);
    lemma_near_chain(
        c * zm,
        pm * c + rm * c,
        gm * (2 * c),
        0x8_0000_0000_0000,
        0x2_0000_0000_0000,
    );
    assert(gm * (2 * c) == c * (2 * gm)) by (nonlinear_arith);
    lemma_near_unscale(zm, 2 * gm, 0x2_0000_0000_0000, c);
}

/// The focal radii of an apsis are in range for their sum, the
/// eccentricity is normal and at least 2^-10, and every step from them to
/// the eccentricity that they give stays in range.
pub open spec fn focal_radii_in_range(periapsis: Real, e: Real) -> bool {
    let far = far_apsis(periapsis, e);
    &&& apsides_sum_in_range(periapsis, e)
    &&& e.is_normal()
    &&& pow2(1074) <= 1024 * e.magnitude()
    &&& focal_length(periapsis, e).is_normal()
    &&& radii_gap(periapsis, far).is_finite()
    &&& quotient(sum(periapsis, far), Real::two()).is_normal()
    &&& quotient(radii_gap(periapsis, far), Real::two()).is_normal()
    &&& radii_ratio(periapsis, far).is_normal()
}

/// Where the focal radii of an apsis are in range, their gap is twice the
/// focal distance to within one part in 2^35, and it is the periapsis that
/// is taken from the apoapsis.
pub proof fn lemma_gap_of_apsides(ellipse: Ellipse)
    requires
        focal_radii_in_range(ellipse.periapsis().0, ellipse.eccentricity().value()),
    ensures
        radii_gap(ellipse.periapsis().0, ellipse.apoapsis().0) == difference(
            ellipse.apoapsis().0,
            ellipse.periapsis().0,
        ),
        near(
            radii_gap(ellipse.periapsis().0, ellipse.apoapsis().0).magnitude() as int,
            2 * (ellipse.focal_distance().0.magnitude() as int),
            0x8_0000_0000,
        ),
        !radii_gap(ellipse.periapsis().0, ellipse.apoapsis().0).is_sign_negative(),
{
    let p = ellipse.periapsis().0;
    let e = ellipse.eccentricity().value();
    let one = Real::one();
    let t = difference(one, e);
    let axis = major_axis(p, e);
    let u = sum(one, e);
    let far = far_apsis(p, e);
    let f = focal_length(p, e);
    let c = pow2(1074) as int;
    let m = PRECISION as int;
    let pm = p.magnitude() as int;
    let em = e.magnitude() as int;
    let tm = t.magnitude() as int;
    let gm = axis.magnitude() as int;
    let um = u.magnitude() as int;
    let rm = far.magnitude() as int;
    let fm = f.magnitude() as int;
    lemma_named_numbers();
    lemma_sum_error(one, negation(e));
    lemma_grid_zero(magnitude_bits(t.bits));
    lemma_quotient_error(p, t);
    lemma_result_signs(p, t);
    lemma_sum_error(one, e);
    lemma_product_error(axis, u);
    lemma_result_signs(axis, u);
    lemma_product_error(e, axis);
    assert(near(c - em, tm, m));
    assert(near(pm * c, gm * tm, m));
    assert(near(c + em, um, m));
    assert(near(gm * um, rm * c, m));
    assert(near(em * gm, fm * c, m));
    // The parts of two that make the apsides differ by twice the eccentricity.
    assert(0 <= um + tm <= 2048 * (um - tm) && 0 <= (c + em) + (c - em) <= 1024 * ((c + em) - (c
        - em)));
    lemma_near_flip(c - em, tm, m);
    lemma_near_flip(c + em, um, m);
    lemma_near_difference(um, c + em, tm, c - em, m - 1, 1024, 0x400_0000_0000);
    assert(near(um - tm, 2 * em, 0x400_0000_0000));
    lemma_near_weaken(um - tm, 2 * em, 0x400_0000_0000, 0x200_0000_0000);
    lemma_near_scale(um - tm, 2 * em, 0x200_0000_0000, gm);
    // The apsides themselves.
    lemma_near_flip(gm * um, rm * c, m);
    lemma_near_flip(pm * c, gm * tm, m);
    lemma_near_flip(gm * tm, pm * c, m - 1);
    lemma_near_weaken(rm * c, gm * um, m - 1, m - 2);
    assert(0 <= gm * um + gm * tm <= 2048 * (gm * um - gm * tm)) by (nonlinear_arith)
        requires
            0 <= um + tm <= 2048 * (um - tm),
            gm >= 0,
    ;
    lemma_near_difference(rm * c, gm * um, pm * c, gm * tm, m - 2, 2048, 0x200_0000_0000);
    assert(gm * um - gm * tm == gm * (um - tm)) by (nonlinear_arith);
    lemma_near_chain(
        rm * c - pm * c,
        gm * (um - tm),
        gm * (2 * em),
        0x200_0000_0000,
        0x80_0000_0000,
    );
    lemma_near_scale(em * gm, fm * c, m, 2);
    lemma_near_weaken(2 * (em * gm), 2 * (fm * c), m, 0x80_0000_0000);
    assert(gm * (2 * em) == 2 * (em * gm)) by (nonlinear_arith);
    lemma_near_chain(
        rm * c - pm * c,
        2 * (em * gm),
        2 * (fm * c),
        0x80_0000_0000,
        0x20_0000_0000,
    );
    // The apoapsis is the larger, so the periapsis is taken from it.
    assert(fm * c >= 0) by (nonlinear_arith)
        requires
            fm >= 0,
            c > 0,
    ;
    assert(rm >= pm) by (nonlinear_arith)
        requires
            (2 * (fm * c) - (rm * c - pm * c)) * 0x20_0000_0000 <= 2 * (fm * c),
            fm * c >= 0,
            c > 0,
    ;
    let d = difference(far, p);
    let dm = d.magnitude() as int;
    assert(radii_gap(p, far) == d);
    lemma_sum_error(far, negation(p));
    assert(near(rm - pm, dm, m));
    lemma_near_flip(rm - pm, dm, m);
    lemma_near_scale(dm, rm - pm, m - 1, c);
    lemma_near_weaken(c * dm, c * (rm - pm), m - 1, 0x20_0000_0000);
    assert(c * (rm - pm) == rm * c - pm * c) by (nonlinear_arith);
    lemma_near_chain(c * dm, rm * c - pm * c, 2 * (fm * c), 0x20_0000_0000, 0x8_0000_0000);
    assert(2 * (fm * c) == c * (2 * fm)) by (nonlinear_arith);
    lemma_near_unscale(dm, 2 * fm, 0x8_0000_0000, c);
}

/// Where the focal radii of an apsis are in range, the eccentricity that
/// they give is no error and is the eccentricity of the ellipse to within
/// one part in 2^27.
pub proof fn lemma_eccentricity_of_apsides(ellipse: Ellipse)
    requires
        focal_radii_in_range(ellipse.periapsis().0, ellipse.eccentricity().value()),
    ensures
        !radii_ratio(ellipse.periapsis().0, ellipse.apoapsis().0).below_zero(),
        near(
            radii_ratio(ellipse.periapsis().0, ellipse.apoapsis().0).magnitude() as int,
            ellipse.eccentricity().value().magnitude() as int,
            0x800_0000,
        ),
{
    let p = ellipse.periapsis().0;
    let e = ellipse.eccentricity().value();
    let axis = major_axis(p, e);
    let far = far_apsis(p, e);
    let f = focal_length(p, e);
    let z = sum(p, far);
    let d = radii_gap(p, far);
    let two = Real::two();
    let half_z = quotient(z, two);
    let half_d = quotient(d, two);
    let ratio = radii_ratio(p, far);
    let c = pow2(1074) as int;
    let m = PRECISION as int;
    let em = e.magnitude() as int;
    let gm = axis.magnitude() as int;
    let fm = f.magnitude() as int;
    let zm = z.magnitude() as int;
    let dm = d.magnitude() as int;
    let hz = half_z.magnitude() as int;
    let hd = half_d.magnitude() as int;
    let qm = ratio.magnitude() as int;
    lemma_named_numbers();
    lemma_sum_of_apsides(ellipse);
    lemma_gap_of_apsides(ellipse);
    lemma_sum_error(p, far);
    lemma_quotient_error(z, two);
    lemma_quotient_error(d, two);
    lemma_result_signs(z, two);
    lemma_result_signs(d, two);
    lemma_grid_zero(magnitude_bits(half_z.bits));
    lemma_quotient_error(half_d, half_z);
    lemma_result_signs(half_d, half_z);
    lemma_product_error(e, axis);
    assert(near(zm * c, hz * (2 * c), m));
    assert(near(dm * c, hd * (2 * c), m));
    assert(near(hd * c, qm * hz, m));
    assert(near(em * gm, fm * c, m));
    let cc = 2 * c;
    // Half the sum is the semi-major axis, nearly.
    lemma_near_flip(zm * c, hz * cc, m);
    lemma_near_weaken(hz * cc, zm * c, m - 1, 0x2_0000_0000_0000);
    lemma_near_scale(zm, 2 * gm, 0x2_0000_0000_0000, c);
    assert(c * zm == zm * c && c * (2 * gm) == cc * gm && hz * cc == cc * hz)
        by (nonlinear_arith)
        requires
            cc == 2 * c,
    ;
    lemma_near_chain(cc * hz, c * zm, cc * gm, 0x2_0000_0000_0000, 0x8000_0000_0000);
    lemma_near_unscale(hz, gm, 0x8000_0000_0000, cc);
    // Half the gap is the focal distance, nearly.
    lemma_near_flip(dm * c, hd * cc, m);
    lemma_near_weaken(hd * cc, dm * c, m - 1, 0x8_0000_0000);
    lemma_near_scale(dm, 2 * fm, 0x8_0000_0000, c);
    assert(c * dm == dm * c && c * (2 * fm) == cc * fm && hd * cc == cc * hd)
        by (nonlinear_arith)
        requires
            cc == 2 * c,
    ;
    lemma_near_chain(cc * hd, c * dm, cc * fm, 0x8_0000_0000, 0x2_0000_0000);
    lemma_near_unscale(hd, fm, 0x2_0000_0000, cc);
    // Their ratio.
    lemma_near_flip(hd * c, qm * hz, m);
    lemma_near_weaken(qm * hz, hd * c, m - 1, 0x2_0000_0000);
    lemma_near_scale(hd, fm, 0x2_0000_0000, c);
    assert(c * hd == hd * c && c * fm == fm * c) by (nonlinear_arith);
    lemma_near_chain(qm * hz, hd * c, fm * c, 0x2_0000_0000, 0x8000_0000);
    lemma_near_flip(em * gm, fm * c, m);
    lemma_near_weaken(fm * c, em * gm, m - 1, 0x8000_0000);
    lemma_near_chain(qm * hz, fm * c, em * gm, 0x8000_0000, 0x2000_0000);
    lemma_near_flip(hz, gm, 0x8000_0000_0000);
    lemma_near_scale(gm, hz, 0x8000_0000_0000 - 1, em);
    lemma_near_weaken(em * gm, em * hz, 0x8000_0000_0000 - 1, 0x2000_0000);
    lemma_near_chain(qm * hz, em * gm, em * hz, 0x2000_0000, 0x800_0000);
    assert(qm * hz == hz * qm && em * hz == hz * em) by (nonlinear_arith);
    lemma_near_unscale(qm, em, 0x800_0000, hz);
}

} // verus!
