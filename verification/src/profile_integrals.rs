//! The closed forms of a profile are integrals: of the absorption over the excitation band, and of the
//! emission over the emission band.

use crate::fluor::FluorProfile;
use crate::fluor_laws::{law_absorption_range, law_emission_shape, law_excite_pdf_band};
use crate::formula::{exact, exact_holds, Formula};
use crate::integral::{
    is_integral, law_lorentzian_integral, lemma_area_above, lemma_area_below, lemma_split, lies_within,
    lorentzian, lorentzian_area,
};
use crate::model::roots_exist;
use crate::params_laws::lemma_unit_values;
use crate::profile_results::{emission_start, is_fluorophore, law_profile_in_order};
use crate::trig::{arc_tangent_exists, lemma_arc_sign};
use vstd::prelude::*;

verus! {

impl FluorProfile<real> {
    /// The absorption at a wavelength.
    pub open spec fn absorption_at(self, l: real) -> real {
        exact(self.absorption_formula::<real>(Formula::Val(l)))
    }

    /// The excitation density at a wavelength.
    pub open spec fn excite_pdf_at(self, l: real) -> real {
        exact(self.excite_pdf_formula::<real>(Formula::Val(l)))
    }

    /// The emission density at a wavelength.
    pub open spec fn emitted_at(self, l: real) -> real {
        exact(self.emission_formula::<real>(Formula::Val(l)))
    }
}

/// A multiplication by a reciprocal is a division.
proof fn lemma_over(d: real, inv: real, g: real)
    requires
        inv * g == 1real,
        g > 0real,
    ensures
        d * inv == d / g,
{
    assert(d * inv == d / g) by (nonlinear_arith)
        requires
            inv * g == 1real,
            g > 0real,
    ;
}

/// The absorption is a Lorentzian.
proof fn lemma_absorption(q: FluorProfile<real>, l: real)
    requires
        q.inv_gamma_a * q.gamma_a == 1real,
        q.gamma_a > 0real,
    ensures
        q.absorption_at(l) == lorentzian(q.mu_a, q.gamma_a, l),
{
    lemma_unit_values();
    lemma_over(l - q.mu_a, q.inv_gamma_a, q.gamma_a);
    reveal_with_fuel(exact, 6);
}

/// The emission is a Lorentzian on either flank, and cut off at the absorption centre.
proof fn lemma_emission(q: FluorProfile<real>, l: real)
    requires
        q.inv_gamma_b * q.gamma_b == 1real,
        q.inv_gamma_r * q.gamma_r == 1real,
        q.gamma_b > 0real,
        q.gamma_r > 0real,
    ensures
        l <= q.mu_a ==> q.emitted_at(l) == 0real,
        l > q.mu_a && l < q.lambda_e ==> q.emitted_at(l) == q.e_norm_rcp * lorentzian(q.lambda_e, q.gamma_b, l),
        l > q.mu_a && l >= q.lambda_e ==> q.emitted_at(l) == q.e_norm_rcp * lorentzian(q.lambda_e, q.gamma_r, l),
        lorentzian(q.lambda_e, q.gamma_b, q.lambda_e) == 1real,
        lorentzian(q.lambda_e, q.gamma_r, q.lambda_e) == 1real,
{
    lemma_unit_values();
    let d = l - q.lambda_e;
    lemma_over(d, q.inv_gamma_b, q.gamma_b);
    lemma_over(d, q.inv_gamma_r, q.gamma_r);
    let n = q.e_norm_rcp;
    let inv = if l >= q.lambda_e {
        q.inv_gamma_r
    } else {
        q.inv_gamma_b
    };
    let z = d * inv;
    let k = z * z + 1real;
    assert(n / k == n * (1real / k)) by (nonlinear_arith)
        requires
            k == z * z + 1real,
    ;
    reveal_with_fuel(exact, 6);
    reveal_with_fuel(exact_holds, 2);
    let gb = q.gamma_b;
    let gr = q.gamma_r;
    assert((q.lambda_e - q.lambda_e) / gb == 0real && (q.lambda_e - q.lambda_e) / gr == 0real) by (nonlinear_arith)
        requires
            gb > 0real,
            gr > 0real,
    ;
    assert(1real / (1real + 0real * 0real) == 1real) by (nonlinear_arith);
}

/// What [`FluorProfile::excite_integral`] gives is the integral of the absorption over the excitation
/// band.
pub proof fn law_absorption_integral(p: FluorProfile<real>, lambda_e: real, s: real, r: real)
    requires
        arc_tangent_exists(),
        roots_exist(),
        is_fluorophore(lambda_e, s, r),
        p.is_profile(lambda_e, s, r),
    ensures
        is_integral(
            |l: real| p.absorption_at(l),
            |l: real| lorentzian_area(p.mu_a, p.gamma_a, l),
            340real,
            780real,
        ),
        lorentzian_area(p.mu_a, p.gamma_a, 780real) - lorentzian_area(p.mu_a, p.gamma_a, 340real) == p.excite_int,
{
    law_profile_in_order(p, lambda_e, s, r);
    let f = |l: real| p.absorption_at(l);
    let h = |l: real| lorentzian(p.mu_a, p.gamma_a, l);
    assert forall|l: real| #[trigger] f(l) == h(l) by {
        lemma_absorption(p, l);
    }
    assert(f =~= h);
    law_lorentzian_integral(p.mu_a, p.gamma_a, 340real, 780real);
    let g = p.gamma_a;
    let a = p.excite_a_lo;
    let d = p.excite_da;
    assert(g * (a + d) - g * a == g * d) by (nonlinear_arith);
}

/// The excitation density is one: it is never negative, its share below a wavelength of the excitation
/// band is its integral up to there, and over the whole band it integrates to one.
pub proof fn law_excitation_is_density(p: FluorProfile<real>, lambda_e: real, s: real, r: real)
    requires
        arc_tangent_exists(),
        roots_exist(),
        is_fluorophore(lambda_e, s, r),
        p.is_profile(lambda_e, s, r),
    ensures
        forall|l: real| #[trigger] p.excite_pdf_at(l) >= 0real,
        is_integral(|l: real| p.excite_pdf_at(l), |l: real| p.excitation_share(l), 340real, 780real),
        p.excitation_share(340real) == 0real,
        p.excitation_share(780real) == 1real,
{
    law_profile_in_order(p, lambda_e, s, r);
    law_absorption_integral(p, lambda_e, s, r);
    let c = p.excite_rcp;
    let f = |l: real| p.excite_pdf_at(l);
    let t = |l: real| p.excitation_share(l);
    let area = |l: real| lorentzian_area(p.mu_a, p.gamma_a, l);
    let absorbed = |l: real| p.absorption_at(l);
    assert forall|l: real| #[trigger] p.excite_pdf_at(l) >= 0real by {
        law_excite_pdf_band(p, l);
        law_absorption_range(p, l);
        let a = p.absorption_at(l);
        assert(a * c >= 0real) by (nonlinear_arith)
            requires
                a >= 0real,
                c > 0real,
        ;
    }
    assert forall|a: real, b: real, lo: real, hi: real|
        340real <= a <= b <= 780real && #[trigger] lies_within(f, a, b, lo, hi) implies lo * (b - a) <= t(b) - t(a)
        <= hi * (b - a) by {
        let i = p.excite_int;
        let low = lo * i;
        let high = hi * i;
        assert forall|x: real| a <= x <= b implies low <= #[trigger] absorbed(x) <= high by {
            law_excite_pdf_band(p, x);
            assert(lo <= f(x) <= hi);
            let y = absorbed(x);
            assert(lo * i <= y <= hi * i) by (nonlinear_arith)
                requires
                    lo <= y * c <= hi,
                    i * c == 1real,
                    i > 0real,
            ;
        }
        assert(lies_within(absorbed, a, b, low, high));
        let d = area(b) - area(a);
        let w = b - a;
        assert(low * w <= d <= high * w);
        assert(lo * w <= c * d <= hi * w) by (nonlinear_arith)
            requires
                (lo * i) * w <= d <= (hi * i) * w,
                i * c == 1real,
                c > 0real,
        ;
        let k = p.gamma_a * p.excite_a_lo;
        let ab = area(b);
        let aa = area(a);
        assert(c * (ab - k) - c * (aa - k) == c * (ab - aa)) by (nonlinear_arith);
    }
    let i = p.excite_int;
    assert(c * 0real == 0real && c * i == 1real) by (nonlinear_arith)
        requires
            i * c == 1real,
    ;
}

/// The area under the emission shape, at its ends and at the emission centre.
proof fn lemma_area_ends(p: FluorProfile<real>)
    requires
        arc_tangent_exists(),
        p.has_ends(),
        p.gamma_b > 0real,
        p.gamma_r > 0real,
        p.mu_a < p.lambda_e < 780real,
        381real <= p.lambda_e,
    ensures
        lorentzian_area(p.lambda_e, p.gamma_b, emission_start(p.mu_a)) == p.gamma_b * p.emis_a_blo,
        lorentzian_area(p.lambda_e, p.gamma_b, p.lambda_e) == 0real,
        lorentzian_area(p.lambda_e, p.gamma_r, p.lambda_e) == 0real,
        p.emission_area_below(780real) == p.emission_area(),
{
    let gb = p.gamma_b;
    let gr = p.gamma_r;
    lemma_arc_sign(0real);
    assert((p.lambda_e - p.lambda_e) / gb == 0real && (p.lambda_e - p.lambda_e) / gr == 0real) by (nonlinear_arith)
        requires
            gb > 0real,
            gr > 0real,
    ;
    assert(gb * 0real == 0real && gr * 0real == 0real) by (nonlinear_arith);
}

/// The growth of the share on the blue flank.
proof fn lemma_blue_growth(p: FluorProfile<real>, a: real, b: real, lo: real, hi: real)
    requires
        arc_tangent_exists(),
        p.has_ends(),
        p.inv_gamma_b * p.gamma_b == 1real,
        p.inv_gamma_r * p.gamma_r == 1real,
        p.gamma_b > 0real,
        p.gamma_r > 0real,
        p.e_norm_rcp > 0real,
        p.mu_a < p.lambda_e < 780real,
        381real <= p.lambda_e,
        emission_start(p.mu_a) <= a <= b <= p.lambda_e,
        lies_within(|l: real| p.emitted_at(l), a, b, lo, hi),
    ensures
        lo * (b - a) <= p.emission_share(b) - p.emission_share(a) <= hi * (b - a),
{
    let f = |l: real| p.emitted_at(l);
    assert(lo <= f(a) <= hi && lo <= f(b) <= hi);
    lemma_area_ends(p);
    lemma_emission(p, a);
    lemma_emission(p, b);
    lemma_area_below(p.lambda_e, p.gamma_b, a, b);
    let c = p.e_norm_rcp;
    let k = p.gamma_b * p.emis_a_blo;
    let sa = lorentzian_area(p.lambda_e, p.gamma_b, a);
    let sb = lorentzian_area(p.lambda_e, p.gamma_b, b);
    assert(p.emission_area_below(a) == sa - k);
    assert(p.emission_area_below(b) == sb - k);
    assert(c * (sb - k) - c * (sa - k) == c * (sb - sa)) by (nonlinear_arith);
    let w = b - a;
    if w > 0real {
        let d = sb - sa;
        let la = lorentzian(p.lambda_e, p.gamma_b, a);
        let lb = lorentzian(p.lambda_e, p.gamma_b, b);
        assert(f(b) == c * lb);
        assert(c * d <= hi * w) by (nonlinear_arith)
            requires
                d <= lb * w,
                c * lb <= hi,
                c > 0real,
                w > 0real,
        ;
        lemma_lorentzian_positive(p.lambda_e, p.gamma_b, a);
        assert(lo <= c * la) by {
            if a > p.mu_a {
                assert(a < p.lambda_e);
                assert(f(a) == c * la);
            } else {
                assert(c * la >= 0real) by (nonlinear_arith)
                    requires
                        c > 0real,
                        la > 0real,
                ;
            }
        }
        assert(lo * w <= c * d) by (nonlinear_arith)
            requires
                la * w <= d,
                lo <= c * la,
                c > 0real,
                w > 0real,
        ;
    } else {
        assert(lo * w == 0real && hi * w == 0real) by (nonlinear_arith)
            requires
                w == 0real,
        ;
        assert(c * (sb - sa) == 0real) by (nonlinear_arith)
            requires
                sb == sa,
        ;
    }
}

/// A Lorentzian is positive.
proof fn lemma_lorentzian_positive(c: real, g: real, x: real)
    ensures
        lorentzian(c, g, x) > 0real,
{
    let z = (x - c) / g;
    assert(1real / (1real + z * z) > 0real) by (nonlinear_arith);
}

/// The growth of the share on the red flank.
proof fn lemma_red_growth(p: FluorProfile<real>, a: real, b: real, lo: real, hi: real)
    requires
        arc_tangent_exists(),
        p.has_ends(),
        p.inv_gamma_b * p.gamma_b == 1real,
        p.inv_gamma_r * p.gamma_r == 1real,
        p.gamma_b > 0real,
        p.gamma_r > 0real,
        p.e_norm_rcp > 0real,
        p.mu_a < p.lambda_e < 780real,
        381real <= p.lambda_e,
        p.lambda_e <= a <= b,
        lies_within(|l: real| p.emitted_at(l), a, b, lo, hi),
    ensures
        lo * (b - a) <= p.emission_share(b) - p.emission_share(a) <= hi * (b - a),
{
    let f = |l: real| p.emitted_at(l);
    assert(lo <= f(a) <= hi && lo <= f(b) <= hi);
    lemma_emission(p, a);
    lemma_emission(p, b);
    lemma_area_above(p.lambda_e, p.gamma_r, a, b);
    let c = p.e_norm_rcp;
    let k = p.gamma_b * p.emis_a_blo;
    let sa = lorentzian_area(p.lambda_e, p.gamma_r, a);
    let sb = lorentzian_area(p.lambda_e, p.gamma_r, b);
    assert(c * (sb - k) - c * (sa - k) == c * (sb - sa)) by (nonlinear_arith);
    let w = b - a;
    let d = sb - sa;
    let la = lorentzian(p.lambda_e, p.gamma_r, a);
    let lb = lorentzian(p.lambda_e, p.gamma_r, b);
    assert(lo * w <= c * d <= hi * w) by (nonlinear_arith)
        requires
            lb * w <= d <= la * w,
            lo <= c * lb,
            c * la <= hi,
            c > 0real,
            w >= 0real,
    ;
}

/// The growth of the share below the start of the emission.
proof fn lemma_dark_growth(p: FluorProfile<real>, a: real, b: real, lo: real, hi: real)
    requires
        p.inv_gamma_b * p.gamma_b == 1real,
        p.inv_gamma_r * p.gamma_r == 1real,
        p.gamma_b > 0real,
        p.gamma_r > 0real,
        380real <= a <= b <= emission_start(p.mu_a),
        lies_within(|l: real| p.emitted_at(l), a, b, lo, hi),
    ensures
        lo * (b - a) <= p.emission_share(b) - p.emission_share(a) <= hi * (b - a),
{
    let f = |l: real| p.emitted_at(l);
    let w = b - a;
    let c = p.e_norm_rcp;
    assert(c * 0real == 0real) by (nonlinear_arith);
    assert(lo <= f(a) <= hi);
    lemma_emission(p, a);
    if a <= p.mu_a {
        assert(lo * w <= 0real <= hi * w) by (nonlinear_arith)
            requires
                lo <= 0real <= hi,
                w >= 0real,
        ;
    } else {
        assert(lo * w == 0real && hi * w == 0real) by (nonlinear_arith)
            requires
                w == 0real,
        ;
    }
}

/// The emission is a density: it is never negative, its share below a wavelength of the emission band is
/// its integral up to there, and over the whole band it integrates to one.
pub proof fn law_emission_is_density(p: FluorProfile<real>, lambda_e: real, s: real, r: real)
    requires
        arc_tangent_exists(),
        roots_exist(),
        is_fluorophore(lambda_e, s, r),
        p.is_profile(lambda_e, s, r),
    ensures
        forall|l: real| #[trigger] p.emitted_at(l) >= 0real,
        is_integral(|l: real| p.emitted_at(l), |l: real| p.emission_share(l), 380real, 780real),
        p.emission_share(380real) == 0real,
        p.emission_share(780real) == 1real,
{
    law_profile_in_order(p, lambda_e, s, r);
    lemma_area_ends(p);
    let c = p.e_norm_rcp;
    assert(c * 0real == 0real) by (nonlinear_arith);
    assert forall|l: real| #[trigger] p.emitted_at(l) >= 0real by {
        law_emission_shape(p, l);
    }
    let f = |l: real| p.emitted_at(l);
    let t = |l: real| p.emission_share(l);
    let start = emission_start(p.mu_a);
    let le = p.lambda_e;
    assert forall|a: real, b: real, lo: real, hi: real|
        380real <= a <= b <= 780real && #[trigger] lies_within(f, a, b, lo, hi) implies lo * (b - a) <= t(b) - t(a)
        <= hi * (b - a) by {
        // the parts below the start, on the blue flank and on the red flank
        let m = if a < start {
            if b < start {
                b
            } else {
                start
            }
        } else {
            a
        };
        let n = if m < le {
            if b < le {
                b
            } else {
                le
            }
        } else {
            m
        };
        assert(lies_within(f, a, m, lo, hi) && lies_within(f, m, n, lo, hi) && lies_within(f, n, b, lo, hi)) by {
            assert forall|x: real| a <= x <= b implies lo <= #[trigger] f(x) <= hi by {}
        }
        lemma_nothing(lo, hi, a);
        lemma_nothing(lo, hi, m);
        lemma_nothing(lo, hi, n);
        if a < m {
            lemma_dark_growth(p, a, m, lo, hi);
        }
        if m < n {
            lemma_blue_growth(p, m, n, lo, hi);
        }
        if n < b {
            lemma_red_growth(p, n, b, lo, hi);
        }
        lemma_split(lo, a, m, b);
        lemma_split(lo, m, n, b);
        lemma_split(hi, a, m, b);
        lemma_split(hi, m, n, b);
    }
}

/// An interval without width.
proof fn lemma_nothing(lo: real, hi: real, a: real)
    ensures
        lo * (a - a) == 0real,
        hi * (a - a) == 0real,
{
    assert(lo * (a - a) == 0real && hi * (a - a) == 0real) by (nonlinear_arith);
}

} // verus!
