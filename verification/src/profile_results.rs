//! Laws of the profile that [`FluorProfile::new`] derives and of the wavelengths that are drawn from it,
//! where the arithmetic is exact.

use crate::fluor::{
    at_hand, flank_angles, half_width_formula, skew_formula, FluorProfile, DEN_FLOOR, EMISSION_HI,
    EMISSION_LO, EXCITATION_HI, EXCITATION_LO, NORM_FLOOR, TWO,
};
use crate::fluor_laws::{
    law_emission_shape, law_excite_pdf_band, law_half_width_floor, law_red_skew, law_red_skew_monotone,
};
use crate::fluor_results::{law_emission_result, read_profile};
use crate::formula::{defined, defined_condition, evals, exact, exact_holds, Formula, Lanes, NnVector, Scalar};
use crate::ieee::{f32_value, lemma_f32_value, HALF, ONE};
use crate::integral::lorentzian_area;
use crate::lanes::{is_constant, vector_of};
use crate::model::{law_evals_exact, lemma_lane_of, reads_lanes, reads_numbers, roots_exist, Model};
use crate::params::UpliftParams;
use crate::params_laws::lemma_unit_values;
use crate::params_results::law_params_in_range;
use crate::trig::{
    arc_tangent, arc_tangent_exists, half_turn, is_angle, lemma_arc_below_quarter, lemma_arc_bounds,
    lemma_arc_difference, lemma_arc_increases, lemma_arc_sign, lemma_tangent_between,
    lemma_tangent_of_arc, tangent,
};
use vstd::arithmetic::power2::{lemma2_to64, lemma_pow2_adds, pow2};
use vstd::prelude::*;

verus! {

/// A fluorophore that emits within the visible band, with a shift and a width that keep its normalizers
/// above their floor. Those of the network lie well within.
pub open spec fn is_fluorophore(lambda_e: real, s: real, r: real) -> bool {
    &&& 381real <= lambda_e <= 779real
    &&& 1real <= s <= 300real
    &&& 1real / 10real <= r <= 10real
}

/// The bandwidth of the absorption.
pub open spec fn bandwidth(lambda_e: real, s: real) -> real {
    lambda_e * s / (2real * lambda_e - s)
}

/// The larger of two numbers.
pub open spec fn larger(a: real, b: real) -> real {
    if a < b {
        b
    } else {
        a
    }
}

/// The lower end of the emission: the absorption centre or the lower end of the emission band.
pub open spec fn emission_start(mu_a: real) -> real {
    larger(mu_a, 380real)
}

impl FluorProfile<real> {
    /// The area under the two flanks of the emission shape.
    pub open spec fn emission_area(self) -> real {
        self.gamma_r * self.emis_a_rhi - self.gamma_b * self.emis_a_blo
    }

    /// The share of the excitation density that lies below a wavelength of the excitation band.
    pub open spec fn excitation_share(self, l: real) -> real {
        self.excite_rcp * (lorentzian_area(self.mu_a, self.gamma_a, l) - self.gamma_a * self.excite_a_lo)
    }

    /// The area under the emission shape below a wavelength of the emission band.
    pub open spec fn emission_area_below(self, l: real) -> real {
        if l <= emission_start(self.mu_a) {
            0real
        } else if l < self.lambda_e {
            lorentzian_area(self.lambda_e, self.gamma_b, l) - self.gamma_b * self.emis_a_blo
        } else {
            lorentzian_area(self.lambda_e, self.gamma_r, l) - self.gamma_b * self.emis_a_blo
        }
    }

    /// The share of the emission that lies below a wavelength of the emission band.
    pub open spec fn emission_share(self, l: real) -> real {
        self.e_norm_rcp * self.emission_area_below(l)
    }

    /// The centres and half-widths of the fluorophore, and the reciprocals of the half-widths.
    pub open spec fn has_widths(self, lambda_e: real, s: real, r: real) -> bool {
        &&& self.lambda_e == lambda_e
        &&& self.mu_a == lambda_e - s
        &&& self.gamma_a == larger(bandwidth(lambda_e, s) / 2real, 2real)
        &&& self.gamma_b == self.gamma_a * r
        &&& self.gamma_r == self.gamma_b * exact(skew_formula::<real, real>(Formula::Val(lambda_e)))
        &&& self.inv_gamma_a * self.gamma_a == 1real
        &&& self.inv_gamma_b * self.gamma_b == 1real
        &&& self.inv_gamma_r * self.gamma_r == 1real
    }

    /// The angles at the ends of the emission flanks and of the excitation band.
    pub open spec fn has_ends(self) -> bool {
        &&& self.emis_a_blo == arc_tangent((emission_start(self.mu_a) - self.lambda_e) / self.gamma_b)
        &&& self.emis_a_rhi == arc_tangent((780real - self.lambda_e) / self.gamma_r)
        &&& self.excite_a_lo == arc_tangent((340real - self.mu_a) / self.gamma_a)
        &&& self.excite_a_lo + self.excite_da == arc_tangent((780real - self.mu_a) / self.gamma_a)
    }

    /// The normalizers undo the areas.
    pub open spec fn is_normalized(self) -> bool {
        &&& self.e_norm_rcp * self.emission_area() == 1real
        &&& self.emis_blue_frac * self.emission_area() == 0real - self.gamma_b * self.emis_a_blo
        &&& self.excite_int == self.gamma_a * self.excite_da
        &&& self.excite_int * self.excite_rcp == 1real
    }

    /// This is the profile of a fluorophore.
    pub open spec fn is_profile(self, lambda_e: real, s: real, r: real) -> bool {
        &&& self.has_widths(lambda_e, s, r)
        &&& self.has_ends()
        &&& self.is_normalized()
    }
}

// ----------------------------------------------------------------------------
// Bounds
// ----------------------------------------------------------------------------

/// The constants of the profile.
proof fn lemma_profile_values()
    ensures
        f32_value(TWO) == 2real,
        f32_value(HALF) == 1real / 2real,
        0real < f32_value(DEN_FLOOR) < 1real,
        0real < f32_value(NORM_FLOOR) < 1real / 1000000real,
        f32_value(EMISSION_LO) == 380real,
        f32_value(EMISSION_HI) == 780real,
        f32_value(EXCITATION_LO) == 340real,
        f32_value(EXCITATION_HI) == 780real,
{
    lemma2_to64();
    lemma_pow2_adds(32, 1);
    lemma_pow2_adds(32, 31);
    assert(pow2(33) == 8589934592 && pow2(63) == 9223372036854775808);
    lemma_unit_values();
    lemma_f32_value(TWO);
    lemma_f32_value(DEN_FLOOR);
    lemma_f32_value(NORM_FLOOR);
    lemma_f32_value(EMISSION_LO);
    lemma_f32_value(EMISSION_HI);
    lemma_f32_value(EXCITATION_LO);
    assert(f32_value(TWO) == 8388608real / 4194304real);
    assert(f32_value(DEN_FLOOR) == 8589935real / 8589934592real);
    assert(f32_value(NORM_FLOOR) == 9223372real / 9223372036854775808real);
    assert(f32_value(EMISSION_LO) == 12451840real / 32768real);
    assert(f32_value(EMISSION_HI) == 12779520real / 16384real);
    assert(f32_value(EXCITATION_LO) == 11141120real / 32768real);
}

/// The absorption half-width.
proof fn lemma_half_width(lambda_e: real, s: real)
    requires
        381real <= lambda_e <= 779real,
        1real <= s <= 300real,
    ensures
        ({
            let e = half_width_formula::<real, real>(Formula::Val(lambda_e), Formula::Val(s));
            &&& defined(e)
            &&& exact(e) == larger(bandwidth(lambda_e, s) / 2real, 2real)
            &&& 2real <= exact(e) <= 150real
        }),
{
    lemma_profile_values();
    reveal_with_fuel(exact, 7);
    reveal_with_fuel(defined, 7);
    let den = 2real * lambda_e - s;
    let b = lambda_e * s / den;
    assert(0real < b <= 300real) by (nonlinear_arith)
        requires
            b == lambda_e * s / den,
            den >= lambda_e,
            lambda_e >= 381real,
            1real <= s <= 300real,
    ;
    assert((1real / 2real) * b == b / 2real) by (nonlinear_arith);
}

/// The slope of an end that is not too close and not too far has an angle of a minimal size.
proof fn lemma_angle_floor(z: real)
    requires
        arc_tangent_exists(),
        1real / 16000real <= z <= 2000real,
    ensures
        arc_tangent(z) >= 1real / 32000real,
{
    lemma_arc_bounds(z);
    let q = 1real + z * z;
    if z <= 1real {
        assert(z / q >= 1real / 32000real) by (nonlinear_arith)
            requires
                q == 1real + z * z,
                1real / 16000real <= z <= 1real,
        ;
    } else {
        assert(z / q >= 1real / 32000real) by (nonlinear_arith)
            requires
                q == 1real + z * z,
                1real <= z <= 2000real,
        ;
    }
}

/// The two flanks of the emission: the blue one lies below its centre and the red one above, and the
/// normalizer undoes their area.
proof fn lemma_flanks(start: real, lambda_e: real, gb: real, gr: real)
    requires
        arc_tangent_exists(),
        start < lambda_e <= 779real,
        381real <= lambda_e,
        gb > 0real,
        1real / 5real <= gr <= 2200real,
    ensures
        ({
            let lo = arc_tangent((start - lambda_e) / gb);
            let hi = arc_tangent((780real - lambda_e) / gr);
            &&& lo < 0real < hi
            &&& gb * lo < 0real
            &&& gr * hi > 0real
            &&& gr * hi - gb * lo > f32_value(NORM_FLOOR) > 0real
        }),
{
    lemma_profile_values();
    let a = start - lambda_e;
    let x = a / gb;
    assert(x < 0real) by (nonlinear_arith)
        requires
            x == a / gb,
            a < 0real,
            gb > 0real,
    ;
    let b = 780real - lambda_e;
    let z = b / gr;
    assert(1real / 2200real <= z <= 2000real) by (nonlinear_arith)
        requires
            z == b / gr,
            1real <= b <= 399real,
            1real / 5real <= gr <= 2200real,
    ;
    lemma_arc_sign(x);
    lemma_angle_floor(z);
    let lo = arc_tangent(x);
    let hi = arc_tangent(z);
    assert(gb * lo < 0real && gr * hi >= 1real / 160000real) by (nonlinear_arith)
        requires
            gb > 0real,
            lo < 0real,
            gr >= 1real / 5real,
            hi >= 1real / 32000real,
    ;
}

/// The excitation band spans a positive angle, and the normalizer undoes the absorption integral.
proof fn lemma_band_angle(mu: real, g: real)
    requires
        arc_tangent_exists(),
        81real <= mu <= 778real,
        2real <= g <= 150real,
    ensures
        ({
            let da = arc_tangent((780real - mu) / g) - arc_tangent((340real - mu) / g);
            &&& da > 0real
            &&& g * da > f32_value(NORM_FLOOR) > 0real
        }),
{
    lemma_profile_values();
    let a = 780real - mu;
    let b = 340real - mu;
    let h = a / g;
    let l = b / g;
    assert(h * g == a && l * g == b && 2real / 150real <= h <= 350real) by (nonlinear_arith)
        requires
            h == a / g,
            l == b / g,
            2real <= a <= 699real,
            2real <= g <= 150real,
    ;
    let da = arc_tangent(h) - arc_tangent(l);
    if mu >= 340real {
        assert(l <= 0real) by (nonlinear_arith)
            requires
                l * g == b,
                b <= 0real,
                g > 0real,
        ;
        lemma_angle_floor(h);
        lemma_arc_sign(l);
    } else {
        assert(0real < l <= 130real) by (nonlinear_arith)
            requires
                l * g == b,
                0real < b <= 259real,
                g >= 2real,
        ;
        let k = h * l;
        assert(0real < k <= 45500real) by (nonlinear_arith)
            requires
                k == h * l,
                0real < h <= 350real,
                0real < l <= 130real,
        ;
        let w = h - l;
        assert(w * g == 440real) by (nonlinear_arith)
            requires
                w == h - l,
                h * g == a,
                l * g == b,
                a - b == 440real,
        ;
        assert(44real / 15real <= w <= 220real) by (nonlinear_arith)
            requires
                w * g == 440real,
                2real <= g <= 150real,
        ;
        lemma_arc_difference(h, l);
        let t = w / (1real + k);
        assert(1real / 16000real <= t <= 220real) by (nonlinear_arith)
            requires
                t == w / (1real + k),
                44real / 15real <= w <= 220real,
                0real < k <= 45500real,
        ;
        lemma_angle_floor(t);
    }
    assert(g * da >= 1real / 16000real) by (nonlinear_arith)
        requires
            g >= 2real,
            da >= 1real / 32000real,
    ;
}

// ----------------------------------------------------------------------------
// The profile
// ----------------------------------------------------------------------------

/// A lane of the vector pass for the reciprocal half-widths and the angles.
proof fn lemma_flank_lane<F: Scalar, V: Lanes<4, Element = F>>(
    s: Model<F>,
    v: spec_fn(int) -> Model<V>,
    bounds: Seq<F>,
    centres: Seq<F>,
    widths: Seq<F>,
    invs: [F; 4],
    angles: [F; 4],
    l: int,
)
    requires
        reads_lanes::<F, V, 4>(s, v),
        flank_angles::<F, V>(bounds, centres, widths, invs, angles),
        0 <= l < 4,
        (s.elem)(widths[l]) > 0real,
    ensures
        (s.elem)(invs[l]) * (s.elem)(widths[l]) == 1real,
        (s.elem)(angles[l]) == arc_tangent(
            ((s.elem)(bounds[l]) - (s.elem)(centres[l])) / (s.elem)(widths[l]),
        ),
{
    let (bound, centre, width, inv, angle) = choose|bound: V, centre: V, width: V, inv: V, angle: V|
        {
            &&& #[trigger] vector_of::<V, 4>(bound, bounds)
            &&& #[trigger] vector_of::<V, 4>(centre, centres)
            &&& #[trigger] vector_of::<V, 4>(width, widths)
            &&& evals(Formula::Val(width).reciprocal(), inv)
            &&& evals(Formula::Val(bound).sub(Formula::Val(centre)).mul(Formula::Val(inv)).atan(), angle)
            &&& #[trigger] call_ensures(V::into_array, (inv,), invs)
            &&& #[trigger] call_ensures(V::into_array, (angle,), angles)
        };
    let m = v(l);
    assert(m.is_exact());
    lemma_lane_of::<F, V, 4>(s, v, bound, bounds, l);
    lemma_lane_of::<F, V, 4>(s, v, centre, centres, l);
    lemma_lane_of::<F, V, 4>(s, v, width, widths, l);
    reveal_with_fuel(Model::denote, 5);
    reveal_with_fuel(exact, 5);
    reveal_with_fuel(defined, 5);
    law_evals_exact(m, Formula::Val(width).reciprocal(), inv);
    law_evals_exact(m, Formula::Val(bound).sub(Formula::Val(centre)).mul(Formula::Val(inv)).atan(), angle);
    let d = (m.lane)(bound) - (m.lane)(centre);
    let g = (m.lane)(width);
    let i = (m.lane)(inv);
    assert(i * g == 1real && d * i == d / g) by (nonlinear_arith)
        requires
            i == 1real / g,
            g > 0real,
    ;
    assert((m.elem)(invs[l]) == (m.lane)(inv));
    assert((m.elem)(angles[l]) == (m.lane)(angle));
}

/// The centres and the half-widths of a profile.
proof fn lemma_widths<F: Scalar, V: Lanes<4, Element = F>>(
    s: Model<F>,
    p: FluorProfile<F>,
    c: F,
    lambda_e: F,
    shift: F,
    r: F,
)
    requires
        reads_numbers(s),
        is_fluorophore((s.elem)(lambda_e), (s.elem)(shift), (s.elem)(r)),
        p.is_of::<V>(c, lambda_e, shift, r),
    ensures
        ({
            let q = read_profile(s.elem, p);
            let le = (s.elem)(lambda_e);
            let sh = (s.elem)(shift);
            &&& q.lambda_e == le
            &&& q.mu_a == le - sh
            &&& q.gamma_a == larger(bandwidth(le, sh) / 2real, 2real)
            &&& q.gamma_b == q.gamma_a * (s.elem)(r)
            &&& q.gamma_r == q.gamma_b * exact(skew_formula::<real, real>(Formula::Val(le)))
            &&& 2real <= q.gamma_a <= 150real
            &&& 1real / 5real <= q.gamma_b < q.gamma_r <= 2200real
        }),
{
    let le = (s.elem)(lambda_e);
    let sh = (s.elem)(shift);
    let rr = (s.elem)(r);
    lemma_half_width(le, sh);
    law_red_skew(le);
    let half = half_width_formula(at_hand(lambda_e), at_hand(shift));
    assert(s.denote(half) == half_width_formula::<real, real>(Formula::Val(le), Formula::Val(sh))) by {
        reveal_with_fuel(Model::denote, 8);
    }
    law_evals_exact(s, half, p.gamma_a);
    let skew = skew_formula(at_hand(lambda_e));
    assert(s.denote(skew) == skew_formula::<real, real>(Formula::Val(le))) by {
        reveal_with_fuel(Model::denote, 8);
    }
    assert(defined(skew_formula::<real, real>(Formula::Val(le)))) by {
        reveal_with_fuel(defined, 6);
    }
    reveal_with_fuel(Model::denote, 3);
    reveal_with_fuel(exact, 3);
    reveal_with_fuel(defined, 3);
    law_evals_exact(s, at_hand(lambda_e).sub(at_hand(shift)), p.mu_a);
    law_evals_exact(s, at_hand(p.gamma_a).mul(at_hand(r)), p.gamma_b);
    law_evals_exact(s, at_hand(p.gamma_b).mul(skew), p.gamma_r);
    let g = (s.elem)(p.gamma_a);
    let k = exact(skew_formula::<real, real>(Formula::Val(le)));
    assert(1real / 5real <= g * rr < (g * rr) * k <= 2200real) by (nonlinear_arith)
        requires
            2real <= g <= 150real,
            1real / 10real <= rr <= 10real,
            119real / 100real <= k <= 141real / 100real,
    ;
}

/// The red flank of a profile is wider than its blue flank by the widening of its emission peak, and by
/// nothing else of the fluorophore: 1.2 for a peak of up to 450 nm, 1.4 from 500 nm on, and linear
/// between the two, up to the rounding of the constants.
pub proof fn law_profile_skew<F: Scalar, V: Lanes<4, Element = F>>(
    s: Model<F>,
    p: FluorProfile<F>,
    c: F,
    lambda_e: F,
    shift: F,
    r: F,
)
    requires
        reads_numbers(s),
        (s.elem)(r) > 0real,
        p.is_of::<V>(c, lambda_e, shift, r),
    ensures
        ({
            let le = (s.elem)(lambda_e);
            let skew = (s.elem)(p.gamma_r) / (s.elem)(p.gamma_b);
            let e = 1real / 10000000real;
            &&& (s.elem)(p.gamma_a) >= 2real
            &&& (s.elem)(p.gamma_b) > 0real
            &&& skew == exact(skew_formula::<real, real>(Formula::Val(le)))
            &&& le <= 450real ==> 6real / 5real - e < skew < 6real / 5real + e
            &&& 500real <= le ==> 7real / 5real - e < skew < 7real / 5real + e
            &&& 450real <= le <= 500real ==> {
                let ramp = 6real / 5real + (le - 450real) / 250real;
                ramp - e < skew < ramp + e
            }
        }),
{
    let le = (s.elem)(lambda_e);
    let sh = (s.elem)(shift);
    let rr = (s.elem)(r);
    let half = half_width_formula(at_hand(lambda_e), at_hand(shift));
    let q_half = half_width_formula::<real, real>(Formula::Val(le), Formula::Val(sh));
    assert(s.denote(half) == q_half) by {
        reveal_with_fuel(Model::denote, 8);
    }
    lemma_profile_values();
    assert(defined(q_half)) by {
        reveal_with_fuel(exact, 7);
        reveal_with_fuel(defined, 7);
    }
    law_evals_exact(s, half, p.gamma_a);
    law_half_width_floor(Formula::Val(le), Formula::Val(sh));
    let skew = skew_formula(at_hand(lambda_e));
    assert(s.denote(skew) == skew_formula::<real, real>(Formula::Val(le))) by {
        reveal_with_fuel(Model::denote, 8);
    }
    assert(defined(skew_formula::<real, real>(Formula::Val(le)))) by {
        reveal_with_fuel(defined, 6);
    }
    assert((s.elem)(p.gamma_b) == (s.elem)(p.gamma_a) * rr && (s.elem)(p.gamma_r) == (s.elem)(p.gamma_b) * exact(
        skew_formula::<real, real>(Formula::Val(le)),
    )) by {
        reveal_with_fuel(Model::denote, 3);
        reveal_with_fuel(exact, 3);
        reveal_with_fuel(defined, 3);
        law_evals_exact(s, at_hand(p.gamma_a).mul(at_hand(r)), p.gamma_b);
        law_evals_exact(s, at_hand(p.gamma_b).mul(skew), p.gamma_r);
    }
    let g = (s.elem)(p.gamma_a);
    let b = (s.elem)(p.gamma_b);
    let k = exact(skew_formula::<real, real>(Formula::Val(le)));
    assert(b > 0real) by (nonlinear_arith)
        requires
            b == g * rr,
            g >= 2real,
            rr > 0real,
    ;
    assert((b * k) / b == k) by (nonlinear_arith)
        requires
            b > 0real,
    ;
    law_red_skew(le);
}

/// Of two profiles, the one with the longer emission peak has a red flank that is no less wide against
/// its blue flank, whatever their concentrations, shifts and width ratios.
pub proof fn law_profile_skew_monotone<F: Scalar, V: Lanes<4, Element = F>>(
    s: Model<F>,
    p1: FluorProfile<F>,
    c1: F,
    lambda_e1: F,
    shift1: F,
    r1: F,
    p2: FluorProfile<F>,
    c2: F,
    lambda_e2: F,
    shift2: F,
    r2: F,
)
    requires
        reads_numbers(s),
        (s.elem)(r1) > 0real,
        (s.elem)(r2) > 0real,
        (s.elem)(lambda_e1) <= (s.elem)(lambda_e2),
        p1.is_of::<V>(c1, lambda_e1, shift1, r1),
        p2.is_of::<V>(c2, lambda_e2, shift2, r2),
    ensures
        (s.elem)(p1.gamma_r) / (s.elem)(p1.gamma_b) <= (s.elem)(p2.gamma_r) / (s.elem)(p2.gamma_b),
{
    law_profile_skew::<F, V>(s, p1, c1, lambda_e1, shift1, r1);
    law_profile_skew::<F, V>(s, p2, c2, lambda_e2, shift2, r2);
    law_red_skew_monotone((s.elem)(lambda_e1), (s.elem)(lambda_e2));
}

/// The angles of a profile and the reciprocals of its half-widths.
proof fn lemma_ends<F: Scalar, V: Lanes<4, Element = F>>(
    s: Model<F>,
    v: spec_fn(int) -> Model<V>,
    p: FluorProfile<F>,
)
    requires
        reads_numbers(s),
        reads_lanes::<F, V, 4>(s, v),
        (s.elem)(p.gamma_a) > 0real,
        (s.elem)(p.gamma_b) > 0real,
        (s.elem)(p.gamma_r) > 0real,
        p.has_bounds::<V>(),
    ensures
        ({
            let q = read_profile(s.elem, p);
            &&& q.has_ends()
            &&& q.inv_gamma_a * q.gamma_a == 1real
            &&& q.inv_gamma_b * q.gamma_b == 1real
            &&& q.inv_gamma_r * q.gamma_r == 1real
        }),
{
    lemma_profile_values();
    let (blue, red, lo, hi) = choose|blue: F, red: F, lo: F, hi: F|
        {
            &&& #[trigger] evals(at_hand(p.mu_a).max(Formula::Const(EMISSION_LO)), blue)
            &&& #[trigger] is_constant(EMISSION_HI, red)
            &&& #[trigger] is_constant(EXCITATION_LO, lo)
            &&& #[trigger] is_constant(EXCITATION_HI, hi)
            &&& p.has_angles::<V>(seq![blue, red, lo, hi])
        };
    let bounds = seq![blue, red, lo, hi];
    let centres = seq![p.lambda_e, p.lambda_e, p.mu_a, p.mu_a];
    let widths = seq![p.gamma_b, p.gamma_r, p.gamma_a, p.gamma_a];
    let (invs, angles) = choose|invs: [F; 4], angles: [F; 4]|
        {
            &&& #[trigger] flank_angles::<F, V>(bounds, centres, widths, invs, angles)
            &&& p.inv_gamma_b == invs[0]
            &&& p.inv_gamma_r == invs[1]
            &&& p.inv_gamma_a == invs[2]
            &&& p.emis_a_blo == angles[0]
            &&& p.emis_a_rhi == angles[1]
            &&& p.excite_a_lo == angles[2]
            &&& evals(at_hand(angles[3]).sub(at_hand(angles[2])), p.excite_da)
        };
    lemma_flank_lane::<F, V>(s, v, bounds, centres, widths, invs, angles, 0);
    lemma_flank_lane::<F, V>(s, v, bounds, centres, widths, invs, angles, 1);
    lemma_flank_lane::<F, V>(s, v, bounds, centres, widths, invs, angles, 2);
    lemma_flank_lane::<F, V>(s, v, bounds, centres, widths, invs, angles, 3);
    reveal_with_fuel(Model::denote, 3);
    reveal_with_fuel(exact, 3);
    reveal_with_fuel(defined, 3);
    law_evals_exact(s, at_hand(p.mu_a).max(Formula::Const(EMISSION_LO)), blue);
    law_evals_exact(s, at_hand(angles[3]).sub(at_hand(angles[2])), p.excite_da);
}

/// The normalizers of a profile whose areas are above the floor.
proof fn lemma_normalizers<F: Scalar>(s: Model<F>, p: FluorProfile<F>)
    requires
        reads_numbers(s),
        p.has_normalizers(),
        read_profile(s.elem, p).emission_area() > f32_value(NORM_FLOOR) > 0real,
        (s.elem)(p.gamma_a) * (s.elem)(p.excite_da) > f32_value(NORM_FLOOR),
    ensures
        read_profile(s.elem, p).is_normalized(),
{
    let q = read_profile(s.elem, p);
    let blue = at_hand(p.gamma_b).neg().mul(at_hand(p.emis_a_blo));
    let red = at_hand(p.gamma_r).mul(at_hand(p.emis_a_rhi));
    let norm = blue.add(red).max(Formula::Const(NORM_FLOOR));
    let q_blue = Formula::<real, real>::Val(q.gamma_b).neg().mul(Formula::Val(q.emis_a_blo));
    let q_red = Formula::<real, real>::Val(q.gamma_r).mul(Formula::Val(q.emis_a_rhi));
    let q_norm = q_blue.add(q_red).max(Formula::Const(NORM_FLOOR));
    assert(s.denote(blue) == q_blue && s.denote(norm) == q_norm) by {
        reveal_with_fuel(Model::denote, 6);
    }
    lemma_area(q);
    assert(s.denote(Formula::Const(ONE).div(norm)) == Formula::<real, real>::Const(ONE).div(q_norm)) by {
        reveal_with_fuel(Model::denote, 2);
    }
    assert(s.denote(blue.div(norm)) == q_blue.div(q_norm)) by {
        reveal_with_fuel(Model::denote, 1);
    }
    law_evals_exact(s, Formula::Const(ONE).div(norm), p.e_norm_rcp);
    law_evals_exact(s, blue.div(norm), p.emis_blue_frac);
    lemma_integral(s, p);
}

/// One over the area of the emission, and the share of the blue flank.
proof fn lemma_area(q: FluorProfile<real>)
    requires
        q.emission_area() > f32_value(NORM_FLOOR) > 0real,
    ensures
        ({
            let blue = Formula::<real, real>::Val(q.gamma_b).neg().mul(Formula::Val(q.emis_a_blo));
            let red = Formula::<real, real>::Val(q.gamma_r).mul(Formula::Val(q.emis_a_rhi));
            let norm = blue.add(red).max(Formula::Const(NORM_FLOOR));
            let rcp = Formula::<real, real>::Const(ONE).div(norm);
            let share = blue.div(norm);
            &&& defined(rcp) && defined(share)
            &&& exact(rcp) * q.emission_area() == 1real
            &&& exact(share) * q.emission_area() == 0real - q.gamma_b * q.emis_a_blo
        }),
{
    lemma_unit_values();
    let blue = Formula::<real, real>::Val(q.gamma_b).neg().mul(Formula::Val(q.emis_a_blo));
    let red = Formula::<real, real>::Val(q.gamma_r).mul(Formula::Val(q.emis_a_rhi));
    let norm = blue.add(red).max(Formula::Const(NORM_FLOOR));
    let g = q.gamma_b;
    let lo = q.emis_a_blo;
    let n = q.emission_area();
    assert((0real - g) * lo == 0real - g * lo) by (nonlinear_arith);
    assert(defined(blue) && exact(blue) == 0real - g * lo) by {
        reveal_with_fuel(exact, 3);
        reveal_with_fuel(defined, 3);
    }
    assert(defined(norm) && exact(norm) == n) by {
        reveal_with_fuel(exact, 4);
        reveal_with_fuel(defined, 4);
    }
    reveal_with_fuel(exact, 2);
    reveal_with_fuel(defined, 2);
    let b = 0real - g * lo;
    assert((1real / n) * n == 1real && (b / n) * n == b) by (nonlinear_arith)
        requires
            n > 0real,
    ;
}

/// The absorption integral and one over it.
proof fn lemma_integral<F: Scalar>(s: Model<F>, p: FluorProfile<F>)
    requires
        reads_numbers(s),
        p.has_normalizers(),
        f32_value(NORM_FLOOR) > 0real,
        (s.elem)(p.gamma_a) * (s.elem)(p.excite_da) > f32_value(NORM_FLOOR),
    ensures
        (s.elem)(p.excite_int) == (s.elem)(p.gamma_a) * (s.elem)(p.excite_da),
        (s.elem)(p.excite_int) * (s.elem)(p.excite_rcp) == 1real,
{
    lemma_unit_values();
    reveal_with_fuel(Model::denote, 4);
    reveal_with_fuel(exact, 4);
    reveal_with_fuel(defined, 4);
    law_evals_exact(s, at_hand(p.gamma_a).mul(at_hand(p.excite_da)), p.excite_int);
    law_evals_exact(
        s,
        Formula::Const(ONE).div(at_hand(p.excite_int).max(Formula::Const(NORM_FLOOR))),
        p.excite_rcp,
    );
    let i = (s.elem)(p.excite_int);
    assert(i * (1real / i) == 1real) by (nonlinear_arith)
        requires
            i > 0real,
    ;
}

/// The profile that the constructor returns is the profile of the fluorophore, number for number.
pub proof fn law_profile_result<F: Scalar, V: Lanes<4, Element = F>>(
    s: Model<F>,
    v: spec_fn(int) -> Model<V>,
    p: FluorProfile<F>,
    c: F,
    lambda_e: F,
    shift: F,
    r: F,
)
    requires
        reads_numbers(s),
        reads_lanes::<F, V, 4>(s, v),
        arc_tangent_exists(),
        is_fluorophore((s.elem)(lambda_e), (s.elem)(shift), (s.elem)(r)),
        p.is_of::<V>(c, lambda_e, shift, r),
    ensures
        read_profile(s.elem, p).is_profile((s.elem)(lambda_e), (s.elem)(shift), (s.elem)(r)),
{
    let q = read_profile(s.elem, p);
    lemma_widths::<F, V>(s, p, c, lambda_e, shift, r);
    lemma_ends::<F, V>(s, v, p);
    lemma_flanks(emission_start(q.mu_a), q.lambda_e, q.gamma_b, q.gamma_r);
    lemma_band_angle(q.mu_a, q.gamma_a);
    lemma_normalizers(s, p);
}

/// A profile is in order: its half-widths are positive and the red flank is the wider one, the flanks
/// lie on either side of the emission centre and each holds a share of the emission, and the excitation
/// band spans a positive angle below half a turn.
pub proof fn law_profile_in_order(p: FluorProfile<real>, lambda_e: real, s: real, r: real)
    requires
        arc_tangent_exists(),
        roots_exist(),
        is_fluorophore(lambda_e, s, r),
        p.is_profile(lambda_e, s, r),
    ensures
        p.gamma_a >= 2real,
        0real < p.gamma_b < p.gamma_r,
        p.emis_a_blo < 0real < p.emis_a_rhi,
        p.emission_area() > 0real,
        p.e_norm_rcp > 0real,
        0real < p.emis_blue_frac < 1real,
        (1real - p.emis_blue_frac) * p.emission_area() == p.gamma_r * p.emis_a_rhi,
        0real < p.excite_da < half_turn(),
        p.excite_int > 0real,
        p.excite_rcp > 0real,
{
    lemma_half_width(lambda_e, s);
    law_red_skew(lambda_e);
    let g = p.gamma_a;
    let k = exact(skew_formula::<real, real>(Formula::Val(lambda_e)));
    assert(1real / 5real <= g * r < (g * r) * k <= 2200real) by (nonlinear_arith)
        requires
            2real <= g <= 150real,
            1real / 10real <= r <= 10real,
            119real / 100real <= k <= 141real / 100real,
    ;
    lemma_flanks(emission_start(p.mu_a), p.lambda_e, p.gamma_b, p.gamma_r);
    lemma_band_angle(p.mu_a, p.gamma_a);
    lemma_arc_below_quarter((780real - p.mu_a) / p.gamma_a);
    lemma_arc_below_quarter((340real - p.mu_a) / p.gamma_a);
    let n = p.emission_area();
    let f = p.emis_blue_frac;
    let b = 0real - p.gamma_b * p.emis_a_blo;
    let e = p.e_norm_rcp;
    let red = p.gamma_r * p.emis_a_rhi;
    assert(e > 0real && 0real < f < 1real && (1real - f) * n == red) by (nonlinear_arith)
        requires
            n > 0real,
            e * n == 1real,
            f * n == b,
            0real < b < n,
            n == red + b,
    ;
    let i = p.excite_int;
    let c = p.excite_rcp;
    assert(c > 0real) by (nonlinear_arith)
        requires
            i > 0real,
            i * c == 1real,
    ;
}

/// Whatever the network puts out, its fluorophore has a profile.
pub proof fn law_material_profile<F: Scalar, V4: Lanes<4, Element = F>, V8: Lanes<8, Element = F>>(
    s: Model<F>,
    v4: spec_fn(int) -> Model<V4>,
    v8: spec_fn(int) -> Model<V8>,
    o: Seq<F>,
    u: UpliftParams<F>,
    p: FluorProfile<F>,
)
    requires
        reads_numbers(s),
        reads_lanes::<F, V4, 4>(s, v4),
        reads_lanes::<F, V8, 8>(s, v8),
        roots_exist(),
        arc_tangent_exists(),
        o.len() == 16,
        u.bounds::<V8>(o),
        p.is_of::<V4>(u.c, u.lambda_e, u.s, u.r),
    ensures
        is_fluorophore((s.elem)(u.lambda_e), (s.elem)(u.s), (s.elem)(u.r)),
        read_profile(s.elem, p).is_profile((s.elem)(u.lambda_e), (s.elem)(u.s), (s.elem)(u.r)),
{
    let scale = law_params_in_range::<F, V8>(s, v8, o, u);
    law_profile_result::<F, V4>(s, v4, p, u.c, u.lambda_e, u.s, u.r);
}

/// The emission that the kernel returns is a density with its peak at the emission centre: nothing is
/// emitted at or below the absorption centre, and elsewhere something, but no more than at the peak.
pub proof fn law_profile_emission<V: NnVector>(
    m: Model<V>,
    p: FluorProfile<V::Element>,
    lambda_e: real,
    s: real,
    r: real,
    lambda: V,
    emitted: V,
)
    requires
        m.is_exact(),
        arc_tangent_exists(),
        roots_exist(),
        is_fluorophore(lambda_e, s, r),
        read_profile(m.elem, p).is_profile(lambda_e, s, r),
        evals(p.emission_formula(Formula::Val(lambda)), emitted),
    ensures
        ({
            let q = read_profile(m.elem, p);
            &&& (m.lane)(lambda) <= q.mu_a ==> (m.lane)(emitted) == 0real
            &&& (m.lane)(lambda) > q.mu_a ==> (m.lane)(emitted) > 0real
            &&& 0real <= (m.lane)(emitted) <= q.e_norm_rcp
            &&& (m.lane)(lambda) == q.lambda_e ==> (m.lane)(emitted) == q.e_norm_rcp
        }),
{
    let q = read_profile(m.elem, p);
    law_profile_in_order(q, lambda_e, s, r);
    law_emission_result(m, p, lambda, emitted);
    law_emission_shape(q, (m.lane)(lambda));
}

// ----------------------------------------------------------------------------
// Sampling
// ----------------------------------------------------------------------------

/// The excitation sampler inverts the distribution of the absorption over the excitation band: the
/// share `u` of the absorption integral lies between 340 nm and the wavelength that `u` draws. Zero
/// draws the lower end of the band and one the upper end, and the density that comes with the
/// wavelength is the one that [`FluorProfile::excite_pdf`] gives for it.
pub proof fn law_excitation_sampled<V: NnVector>(
    m: Model<V>,
    p: FluorProfile<V::Element>,
    lambda_e: real,
    s: real,
    r: real,
    u: V,
    drawn: (V, V),
)
    requires
        m.is_exact(),
        arc_tangent_exists(),
        is_fluorophore(lambda_e, s, r),
        read_profile(m.elem, p).is_profile(lambda_e, s, r),
        0real <= (m.lane)(u) <= 1real,
        exists|z: V|
            {
                &&& #[trigger] evals(p.excitation_angle(Formula::Val(u)).tan(), z)
                &&& evals(p.excitation_at(Formula::Val(z)), drawn.0)
                &&& evals(p.excitation_density(Formula::Val(z)), drawn.1)
            },
    ensures
        ({
            let q = read_profile(m.elem, p);
            let x = (m.lane)(u);
            let l = (m.lane)(drawn.0);
            &&& 340real <= l <= 780real
            &&& x == 0real ==> l == 340real
            &&& x == 1real ==> l == 780real
            &&& q.gamma_a * (arc_tangent((l - q.mu_a) / q.gamma_a) - q.excite_a_lo) == x * q.excite_int
            &&& q.excitation_share(l) == x
            &&& (m.lane)(drawn.1) == exact(q.excite_pdf_formula::<real>(Formula::Val(l)))
        }),
{
    let q = read_profile(m.elem, p);
    let x = (m.lane)(u);
    let z = choose|z: V|
        {
            &&& #[trigger] evals(p.excitation_angle(Formula::Val(u)).tan(), z)
            &&& evals(p.excitation_at(Formula::Val(z)), drawn.0)
            &&& evals(p.excitation_density(Formula::Val(z)), drawn.1)
        };
    lemma_half_width(lambda_e, s);
    lemma_band_angle(q.mu_a, q.gamma_a);
    lemma_excitation_tangent(q, x);
    let y = x * q.excite_da + q.excite_a_lo;
    assert((m.lane)(z) == tangent(y)) by {
        reveal_with_fuel(Model::denote, 4);
        reveal_with_fuel(exact, 4);
        reveal_with_fuel(defined, 4);
        law_evals_exact(m, p.excitation_angle(Formula::Val(u)).tan(), z);
    }
    let t = (m.lane)(z);
    let l = (m.lane)(drawn.0);
    assert(l == t * q.gamma_a + q.mu_a) by {
        reveal_with_fuel(Model::denote, 3);
        reveal_with_fuel(exact, 3);
        reveal_with_fuel(defined, 3);
        law_evals_exact(m, p.excitation_at(Formula::Val(z)), drawn.0);
    }
    let g = q.gamma_a;
    let d = l - q.mu_a;
    assert(d / g == t) by (nonlinear_arith)
        requires
            d == t * g,
            g >= 2real,
    ;
    let da = q.excite_da;
    assert(g * (x * da) == x * (g * da)) by (nonlinear_arith);
    let at = arc_tangent(d / g);
    let lo = q.excite_a_lo;
    let i = q.excite_int;
    let c = q.excite_rcp;
    assert(c * (g * at - g * lo) == x) by (nonlinear_arith)
        requires
            g * (at - lo) == x * i,
            i * c == 1real,
    ;
    lemma_excitation_density(m, p, z, drawn.1, l);
}

/// The tangent that a uniform number selects lies between those of the ends of the excitation band.
proof fn lemma_excitation_tangent(q: FluorProfile<real>, x: real)
    requires
        arc_tangent_exists(),
        q.has_ends(),
        q.gamma_a >= 2real,
        q.excite_da > 0real,
        0real <= x <= 1real,
    ensures
        ({
            let y = x * q.excite_da + q.excite_a_lo;
            let l = tangent(y) * q.gamma_a + q.mu_a;
            &&& is_angle(y)
            &&& arc_tangent(tangent(y)) == y
            &&& 340real <= l <= 780real
            &&& x == 0real ==> l == 340real
            &&& x == 1real ==> l == 780real
        }),
{
    let g = q.gamma_a;
    let da = q.excite_da;
    let a = 340real - q.mu_a;
    let b = 780real - q.mu_a;
    let y = x * da + q.excite_a_lo;
    assert(0real <= x * da <= da && (x == 0real ==> x * da == 0real) && (x == 1real ==> x * da == da))
        by (nonlinear_arith)
        requires
            0real <= x <= 1real,
            da > 0real,
    ;
    lemma_tangent_between(a / g, b / g, y);
    lemma_tangent_of_arc(a / g);
    lemma_tangent_of_arc(b / g);
    let t = tangent(y);
    assert((a / g) * g == a && (b / g) * g == b && a <= t * g <= b) by (nonlinear_arith)
        requires
            a / g <= t <= b / g,
            g >= 2real,
    ;
}

/// The density that the excitation sampler returns.
proof fn lemma_excitation_density<V: NnVector>(m: Model<V>, p: FluorProfile<V::Element>, z: V, pdf: V, l: real)
    requires
        m.is_exact(),
        evals(p.excitation_density(Formula::Val(z)), pdf),
        340real <= l <= 780real,
        ({
            let q = read_profile(m.elem, p);
            &&& l == (m.lane)(z) * q.gamma_a + q.mu_a
            &&& q.inv_gamma_a * q.gamma_a == 1real
            &&& q.excite_int > 0real
            &&& q.excite_int * q.excite_rcp == 1real
        }),
    ensures
        (m.lane)(pdf) == exact(read_profile(m.elem, p).excite_pdf_formula::<real>(Formula::Val(l))),
{
    lemma_unit_values();
    let q = read_profile(m.elem, p);
    let t = (m.lane)(z);
    let n = q.excite_int;
    let d = t * t + 1real;
    assert(d >= 1real) by (nonlinear_arith)
        requires
            d == t * t + 1real,
    ;
    assert(d * n > 0real) by (nonlinear_arith)
        requires
            d >= 1real,
            n > 0real,
    ;
    assert((m.lane)(pdf) == 1real / (d * n)) by {
        reveal_with_fuel(Model::denote, 5);
        reveal_with_fuel(exact, 5);
        reveal_with_fuel(defined, 5);
        law_evals_exact(m, p.excitation_density(Formula::Val(z)), pdf);
    }
    law_excite_pdf_band(q, l);
    let h = q.inv_gamma_a;
    let g = q.gamma_a;
    assert((l - q.mu_a) * h == t) by (nonlinear_arith)
        requires
            l - q.mu_a == t * g,
            h * g == 1real,
    ;
    assert(exact(q.absorption_formula::<real>(Formula::Val(l))) == 1real / d) by {
        reveal_with_fuel(exact, 6);
    }
    let c = q.excite_rcp;
    assert(1real / (d * n) == (1real / d) * c) by (nonlinear_arith)
        requires
            d >= 1real,
            n > 0real,
            n * c == 1real,
    ;
}

/// The emission sampler inverts the distribution of the emission over its band: the share `u` of the
/// area under the flanks lies below the wavelength that `u` draws. Zero draws the lower end of the
/// emission, the share of the blue flank draws the emission centre and one the upper end of the band,
/// and the density that comes with the wavelength is the emission at it.
pub proof fn law_emission_sampled<V: NnVector>(
    m: Model<V>,
    p: FluorProfile<V::Element>,
    lambda_e: real,
    s: real,
    r: real,
    u: V,
    drawn: (V, V),
)
    requires
        m.is_exact(),
        arc_tangent_exists(),
        roots_exist(),
        is_fluorophore(lambda_e, s, r),
        read_profile(m.elem, p).is_profile(lambda_e, s, r),
        0real <= (m.lane)(u) <= 1real,
        evals(p.emission_at(Formula::Val(u)), drawn.0),
        evals(p.emission_formula(Formula::Val(drawn.0)), drawn.1),
    ensures
        ({
            let q = read_profile(m.elem, p);
            let x = (m.lane)(u);
            let l = (m.lane)(drawn.0);
            &&& emission_start(q.mu_a) <= l <= 780real
            &&& x == 0real ==> l == emission_start(q.mu_a)
            &&& x == q.emis_blue_frac ==> l == q.lambda_e
            &&& x == 1real ==> l == 780real
            &&& x < q.emis_blue_frac <==> l < q.lambda_e
            &&& l < q.lambda_e ==> q.gamma_b * (arc_tangent((l - q.lambda_e) / q.gamma_b) - q.emis_a_blo) == x
                * q.emission_area()
            &&& l >= q.lambda_e ==> q.gamma_r * arc_tangent((l - q.lambda_e) / q.gamma_r) - q.gamma_b
                * q.emis_a_blo == x * q.emission_area()
            &&& q.emission_share(l) == x
            &&& (m.lane)(drawn.1) == exact(q.emission_formula::<real>(Formula::Val(l)))
        }),
{
    let q = read_profile(m.elem, p);
    let x = (m.lane)(u);
    law_profile_in_order(q, lambda_e, s, r);
    lemma_emission_drawn(q, x);
    let e = q.emission_at::<real>(Formula::Val(x));
    assert(m.denote(p.emission_at(Formula::Val(u))) == e) by {
        reveal_with_fuel(Model::denote, 8);
        reveal_with_fuel(Model::denote_condition, 3);
    }
    law_evals_exact(m, p.emission_at(Formula::Val(u)), drawn.0);
    law_emission_result(m, p, drawn.0, drawn.1);
    lemma_share_drawn(q, x, (m.lane)(drawn.0));
}

/// The share of the emission below a wavelength that was drawn is the uniform number that drew it.
proof fn lemma_share_drawn(q: FluorProfile<real>, x: real, l: real)
    requires
        arc_tangent_exists(),
        q.has_ends(),
        q.is_normalized(),
        q.gamma_b > 0real,
        q.mu_a < q.lambda_e,
        381real <= q.lambda_e,
        emission_start(q.mu_a) <= l,
        l < q.lambda_e ==> q.gamma_b * (arc_tangent((l - q.lambda_e) / q.gamma_b) - q.emis_a_blo) == x
            * q.emission_area(),
        l >= q.lambda_e ==> q.gamma_r * arc_tangent((l - q.lambda_e) / q.gamma_r) - q.gamma_b * q.emis_a_blo == x
            * q.emission_area(),
    ensures
        q.emission_share(l) == x,
{
    let n = q.emission_area();
    let c = q.e_norm_rcp;
    let g = q.gamma_b;
    let lo = q.emis_a_blo;
    let at = arc_tangent((l - q.lambda_e) / g);
    assert(g * (at - lo) == g * at - g * lo) by (nonlinear_arith);
    if l == emission_start(q.mu_a) {
        assert(x * n == 0real) by (nonlinear_arith)
            requires
                g * (at - lo) == x * n,
                at == lo,
        ;
    }
    assert(q.emission_area_below(l) == x * n);
    assert(c * (x * n) == x) by (nonlinear_arith)
        requires
            c * n == 1real,
    ;
}

/// A larger uniform number draws a longer excitation wavelength. The two draws may be lanes of one call.
pub proof fn law_excitation_draws_increase<V: NnVector>(
    m1: Model<V>,
    m2: Model<V>,
    p: FluorProfile<V::Element>,
    lambda_e: real,
    s: real,
    r: real,
    u1: V,
    drawn1: (V, V),
    u2: V,
    drawn2: (V, V),
)
    requires
        m1.is_exact(),
        m2.is_exact(),
        m1.elem == m2.elem,
        arc_tangent_exists(),
        is_fluorophore(lambda_e, s, r),
        read_profile(m1.elem, p).is_profile(lambda_e, s, r),
        0real <= (m1.lane)(u1) < (m2.lane)(u2) <= 1real,
        exists|z: V|
            {
                &&& #[trigger] evals(p.excitation_angle(Formula::Val(u1)).tan(), z)
                &&& evals(p.excitation_at(Formula::Val(z)), drawn1.0)
                &&& evals(p.excitation_density(Formula::Val(z)), drawn1.1)
            },
        exists|z: V|
            {
                &&& #[trigger] evals(p.excitation_angle(Formula::Val(u2)).tan(), z)
                &&& evals(p.excitation_at(Formula::Val(z)), drawn2.0)
                &&& evals(p.excitation_density(Formula::Val(z)), drawn2.1)
            },
    ensures
        (m1.lane)(drawn1.0) < (m2.lane)(drawn2.0),
{
    law_excitation_sampled(m1, p, lambda_e, s, r, u1, drawn1);
    law_excitation_sampled(m2, p, lambda_e, s, r, u2, drawn2);
    let q = read_profile(m1.elem, p);
    lemma_half_width(lambda_e, s);
    lemma_band_angle(q.mu_a, q.gamma_a);
    let x = (m1.lane)(u1);
    let y = (m2.lane)(u2);
    let i = q.excite_int;
    assert(x * i < y * i) by (nonlinear_arith)
        requires
            x < y,
            i > 0real,
    ;
    let a = (m1.lane)(drawn1.0);
    let b = (m2.lane)(drawn2.0);
    if b <= a {
        lemma_area_order(q.mu_a, q.gamma_a, b, a);
        let g = q.gamma_a;
        let lo = q.excite_a_lo;
        let s1 = arc_tangent((a - q.mu_a) / g);
        let s2 = arc_tangent((b - q.mu_a) / g);
        assert(g * (s1 - lo) == g * s1 - g * lo && g * (s2 - lo) == g * s2 - g * lo) by (nonlinear_arith);
    }
}

/// A larger uniform number draws a longer emission wavelength. The two draws may be lanes of one call.
pub proof fn law_emission_draws_increase<V: NnVector>(
    m1: Model<V>,
    m2: Model<V>,
    p: FluorProfile<V::Element>,
    lambda_e: real,
    s: real,
    r: real,
    u1: V,
    drawn1: (V, V),
    u2: V,
    drawn2: (V, V),
)
    requires
        m1.is_exact(),
        m2.is_exact(),
        m1.elem == m2.elem,
        arc_tangent_exists(),
        roots_exist(),
        is_fluorophore(lambda_e, s, r),
        read_profile(m1.elem, p).is_profile(lambda_e, s, r),
        0real <= (m1.lane)(u1) < (m2.lane)(u2) <= 1real,
        evals(p.emission_at(Formula::Val(u1)), drawn1.0),
        evals(p.emission_formula(Formula::Val(drawn1.0)), drawn1.1),
        evals(p.emission_at(Formula::Val(u2)), drawn2.0),
        evals(p.emission_formula(Formula::Val(drawn2.0)), drawn2.1),
    ensures
        (m1.lane)(drawn1.0) < (m2.lane)(drawn2.0),
{
    law_emission_sampled(m1, p, lambda_e, s, r, u1, drawn1);
    law_emission_sampled(m2, p, lambda_e, s, r, u2, drawn2);
    let q = read_profile(m1.elem, p);
    law_profile_in_order(q, lambda_e, s, r);
    let x = (m1.lane)(u1);
    let y = (m2.lane)(u2);
    let n = q.emission_area();
    assert(x * n < y * n) by (nonlinear_arith)
        requires
            x < y,
            n > 0real,
    ;
    let a = (m1.lane)(drawn1.0);
    let b = (m2.lane)(drawn2.0);
    if b <= a {
        if a < q.lambda_e {
            lemma_area_order(q.lambda_e, q.gamma_b, b, a);
            let g = q.gamma_b;
            let lo = q.emis_a_blo;
            let s1 = arc_tangent((a - q.lambda_e) / g);
            let s2 = arc_tangent((b - q.lambda_e) / g);
            assert(g * (s1 - lo) == g * s1 - g * lo && g * (s2 - lo) == g * s2 - g * lo) by (nonlinear_arith);
        } else if b >= q.lambda_e {
            lemma_area_order(q.lambda_e, q.gamma_r, b, a);
        }
    }
}

/// The area under a Lorentzian never decreases with its upper end.
proof fn lemma_area_order(c: real, g: real, a: real, b: real)
    requires
        arc_tangent_exists(),
        g > 0real,
        a <= b,
    ensures
        lorentzian_area(c, g, a) <= lorentzian_area(c, g, b),
{
    let l = (a - c) / g;
    let h = (b - c) / g;
    assert(l <= h) by (nonlinear_arith)
        requires
            l == (a - c) / g,
            h == (b - c) / g,
            g > 0real,
            a <= b,
    ;
    lemma_arc_increases(l, h);
    let p = arc_tangent(l);
    let q = arc_tangent(h);
    assert(g * p <= g * q) by (nonlinear_arith)
        requires
            p <= q,
            g > 0real,
    ;
}

/// The emission wavelength that a uniform number selects.
proof fn lemma_emission_drawn(q: FluorProfile<real>, x: real)
    requires
        arc_tangent_exists(),
        q.has_ends(),
        q.is_normalized(),
        q.mu_a < q.lambda_e <= 779real,
        381real <= q.lambda_e,
        0real < q.gamma_b,
        0real < q.gamma_r,
        q.emis_a_blo < 0real < q.emis_a_rhi,
        q.emission_area() > 0real,
        0real < q.emis_blue_frac < 1real,
        (1real - q.emis_blue_frac) * q.emission_area() == q.gamma_r * q.emis_a_rhi,
        0real <= x <= 1real,
    ensures
        ({
            let e = q.emission_at::<real>(Formula::Val(x));
            let l = exact(e);
            &&& defined(e)
            &&& emission_start(q.mu_a) <= l <= 780real
            &&& x == 0real ==> l == emission_start(q.mu_a)
            &&& x == q.emis_blue_frac ==> l == q.lambda_e
            &&& x == 1real ==> l == 780real
            &&& x < q.emis_blue_frac <==> l < q.lambda_e
            &&& l < q.lambda_e ==> q.gamma_b * (arc_tangent((l - q.lambda_e) / q.gamma_b) - q.emis_a_blo) == x
                * q.emission_area()
            &&& l >= q.lambda_e ==> q.gamma_r * arc_tangent((l - q.lambda_e) / q.gamma_r) - q.gamma_b
                * q.emis_a_blo == x * q.emission_area()
        }),
{
    lemma_unit_values();
    let f = q.emis_blue_frac;
    let lo = q.emis_a_blo;
    let e = q.emission_at::<real>(Formula::Val(x));
    if x < f {
        let y = (x / f) * (0real - lo) + lo;
        lemma_blue_drawn(q, x, y);
        assert(defined(e) && exact(e) == tangent(y) * q.gamma_b + q.lambda_e) by {
            reveal_with_fuel(exact, 7);
            reveal_with_fuel(exact_holds, 2);
            reveal_with_fuel(defined, 7);
            reveal_with_fuel(defined_condition, 2);
        }
    } else {
        let y = ((x - f) / (1real - f)) * q.emis_a_rhi;
        lemma_red_drawn(q, x, y);
        assert(defined(e) && exact(e) == tangent(y) * q.gamma_r + q.lambda_e) by {
            reveal_with_fuel(exact, 7);
            reveal_with_fuel(exact_holds, 2);
            reveal_with_fuel(defined, 7);
            reveal_with_fuel(defined_condition, 2);
        }
    }
}

/// A wavelength that is drawn on the blue flank.
proof fn lemma_blue_drawn(q: FluorProfile<real>, x: real, y: real)
    requires
        arc_tangent_exists(),
        q.has_ends(),
        q.is_normalized(),
        q.gamma_b > 0real,
        q.emis_a_blo < 0real,
        0real <= x < q.emis_blue_frac,
        y == (x / q.emis_blue_frac) * (0real - q.emis_a_blo) + q.emis_a_blo,
    ensures
        ({
            let l = tangent(y) * q.gamma_b + q.lambda_e;
            &&& is_angle(y)
            &&& emission_start(q.mu_a) <= l < q.lambda_e
            &&& x == 0real ==> l == emission_start(q.mu_a)
            &&& q.gamma_b * (arc_tangent((l - q.lambda_e) / q.gamma_b) - q.emis_a_blo) == x * q.emission_area()
        }),
{
    let f = q.emis_blue_frac;
    let lo = q.emis_a_blo;
    let g = q.gamma_b;
    let n = q.emission_area();
    let k = x / f;
    assert(0real <= k < 1real && k * f == x && (x == 0real ==> k == 0real)) by (nonlinear_arith)
        requires
            0real <= x < f,
            k == x / f,
    ;
    assert(lo <= y < 0real && (k == 0real ==> y == lo) && g * (y - lo) == x * n) by (nonlinear_arith)
        requires
            0real <= k < 1real,
            k * f == x,
            lo < 0real,
            y == k * (0real - lo) + lo,
            f * n == 0real - g * lo,
    ;
    let a = emission_start(q.mu_a) - q.lambda_e;
    lemma_arc_sign(0real);
    lemma_tangent_between(a / g, 0real, y);
    lemma_tangent_of_arc(a / g);
    let t = tangent(y);
    lemma_arc_increases(t, 0real);
    let d = t * g;
    assert((a / g) * g == a && a <= d < 0real && d / g == t) by (nonlinear_arith)
        requires
            a / g <= t < 0real,
            g > 0real,
            d == t * g,
    ;
}

/// A wavelength that is drawn on the red flank.
proof fn lemma_red_drawn(q: FluorProfile<real>, x: real, y: real)
    requires
        arc_tangent_exists(),
        q.has_ends(),
        q.is_normalized(),
        q.gamma_r > 0real,
        q.emis_a_rhi > 0real,
        q.emis_blue_frac < 1real,
        (1real - q.emis_blue_frac) * q.emission_area() == q.gamma_r * q.emis_a_rhi,
        q.emis_blue_frac <= x <= 1real,
        y == ((x - q.emis_blue_frac) / (1real - q.emis_blue_frac)) * q.emis_a_rhi,
    ensures
        ({
            let l = tangent(y) * q.gamma_r + q.lambda_e;
            &&& is_angle(y)
            &&& q.lambda_e <= l <= 780real
            &&& x == q.emis_blue_frac ==> l == q.lambda_e
            &&& x == 1real ==> l == 780real
            &&& q.gamma_r * arc_tangent((l - q.lambda_e) / q.gamma_r) - q.gamma_b * q.emis_a_blo == x
                * q.emission_area()
        }),
{
    let f = q.emis_blue_frac;
    let hi = q.emis_a_rhi;
    let g = q.gamma_r;
    let n = q.emission_area();
    let w = 1real - f;
    let k = (x - f) / w;
    assert(0real <= k <= 1real && k * w == x - f && (x == f ==> k == 0real) && (x == 1real ==> k == 1real))
        by (nonlinear_arith)
        requires
            f <= x <= 1real,
            w == 1real - f,
            w > 0real,
            k == (x - f) / w,
    ;
    assert(0real <= y <= hi && (k == 0real ==> y == 0real) && (k == 1real ==> y == hi) && g * y == (x - f) * n)
        by (nonlinear_arith)
        requires
            0real <= k <= 1real,
            k * w == x - f,
            hi > 0real,
            y == k * hi,
            w * n == g * hi,
    ;
    assert((x - f) * n == x * n - f * n) by (nonlinear_arith);
    let b = 780real - q.lambda_e;
    lemma_arc_sign(0real);
    lemma_tangent_between(0real, b / g, y);
    lemma_tangent_of_arc(b / g);
    lemma_tangent_of_arc(0real);
    let t = tangent(y);
    let d = t * g;
    assert((b / g) * g == b && 0real <= d <= b && d / g == t && (t == 0real ==> d == 0real)) by (nonlinear_arith)
        requires
            0real <= t <= b / g,
            g > 0real,
            d == t * g,
    ;
}

} // verus!
