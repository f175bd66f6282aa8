//! What the fluorescence profile answers, in plain numbers.
//!
//! Each law takes what the functions returned and says, as arithmetic on the arguments, what numbers these
//! are, where the vector arithmetic is exact.

use crate::fluor::{
    at_hand, flank_angles, half_width_formula, skew_formula, FluorProfile, DEN_FLOOR, EMISSION_HI,
    EMISSION_LO, EXCITATION_HI, EXCITATION_LO, NORM_FLOOR, Q, SKEW_BLUE, SKEW_LE0, SKEW_RAMP, SKEW_SPAN,
    TWO,
};
use crate::fluor_results::{
    law_absorption_result, law_elastic_result, law_emission_result, law_excite_pdf_result,
    law_reradiation_result, read_profile,
};
use crate::formula::{defined, defined_condition, evals, exact, exact_holds, Formula, Lanes, NnVector, Scalar};
use crate::ieee::{f32_value, lemma_f32_value, HALF, ONE, ZERO};
use crate::lanes::{is_constant, vector_of};
use crate::model::{law_evals_exact, lemma_lane_of, reads_lanes, reads_numbers, Model};
use crate::params::UpliftParams;
use crate::params_laws::lemma_unit_values;
use crate::trig::{
    arc_tangent, arc_tangent_exists, arc_tangent_function, is_angle, lemma_arc_increases, takes, tangent,
};
use vstd::arithmetic::power2::{lemma2_to64, lemma_pow2_adds, pow2};
use vstd::prelude::*;

verus! {

/// The constants of the profile.
proof fn lemma_profile_constants()
    ensures
        f32_value(Q) == 16106127real / 16777216real,
        f32_value(TWO) == 2real,
        f32_value(DEN_FLOOR) == 8589935real / 8589934592real,
        f32_value(NORM_FLOOR) == 9223372real / 9223372036854775808real,
        f32_value(SKEW_BLUE) == 10066330real / 8388608real,
        f32_value(SKEW_LE0) == 450real,
        f32_value(SKEW_RAMP) == 8589932real / 2147483648real,
        f32_value(SKEW_SPAN) == 13421768real / 67108864real,
        f32_value(EMISSION_LO) == 380real,
        f32_value(EMISSION_HI) == 780real,
        f32_value(EXCITATION_LO) == 340real,
        f32_value(EXCITATION_HI) == 780real,
{
    lemma2_to64();
    lemma_pow2_adds(32, 1);
    lemma_pow2_adds(32, 31);
    assert(pow2(33) == 8589934592 && pow2(63) == 9223372036854775808);
    lemma_f32_value(Q);
    lemma_f32_value(TWO);
    lemma_f32_value(DEN_FLOOR);
    lemma_f32_value(NORM_FLOOR);
    lemma_f32_value(SKEW_BLUE);
    lemma_f32_value(SKEW_LE0);
    lemma_f32_value(SKEW_RAMP);
    lemma_f32_value(SKEW_SPAN);
    lemma_f32_value(EMISSION_LO);
    lemma_f32_value(EMISSION_HI);
    lemma_f32_value(EXCITATION_LO);
    assert(f32_value(Q) == 16106127real / 16777216real);
    assert(f32_value(TWO) == 8388608real / 4194304real);
    assert(f32_value(DEN_FLOOR) == 8589935real / 8589934592real);
    assert(f32_value(NORM_FLOOR) == 9223372real / 9223372036854775808real);
    assert(f32_value(SKEW_BLUE) == 10066330real / 8388608real);
    assert(f32_value(SKEW_LE0) == 14745600real / 32768real);
    assert(f32_value(SKEW_RAMP) == 8589932real / 2147483648real);
    assert(f32_value(SKEW_SPAN) == 13421768real / 67108864real);
    assert(f32_value(EMISSION_LO) == 12451840real / 32768real);
    assert(f32_value(EMISSION_HI) == 12779520real / 16384real);
    assert(f32_value(EXCITATION_LO) == 11141120real / 32768real);
}

/// The larger of two numbers.
pub open spec fn larger_of(a: real, b: real) -> real {
    if a < b {
        b
    } else {
        a
    }
}

/// The half-width of the absorption: half of `lambda_e s / (2 lambda_e - s)`, and at least 2 nm. The
/// denominator is kept at a thousandth or more.
pub open spec fn absorption_half_width(lambda_e: real, s: real) -> real {
    larger_of((lambda_e * s / larger_of(2real * lambda_e - s, 8589935real / 8589934592real)) / 2real, 2real)
}

/// The widening of the red flank: 1.2, and from 450 nm on 0.004 more per nm, up to 0.2 more.
pub open spec fn red_widening(lambda_e: real) -> real {
    let grown = (lambda_e - 450real) * (8589932real / 2147483648real);
    let span = 13421768real / 67108864real;
    10066330real / 8388608real + if grown < 0real {
        0real
    } else if span < grown {
        span
    } else {
        grown
    }
}

/// The centres and half-widths of the fluorophore `c, lambda_e, s, r`, and what is re-emitted.
pub open spec fn has_shape(p: FluorProfile<real>, c: real, lambda_e: real, s: real, r: real) -> bool {
    &&& p.c == c
    &&& p.qc == (16106127real / 16777216real) * c
    &&& p.lambda_e == lambda_e
    &&& p.mu_a == lambda_e - s
    &&& p.gamma_a == absorption_half_width(lambda_e, s)
    &&& p.gamma_b == p.gamma_a * r
    &&& p.gamma_r == p.gamma_b * red_widening(lambda_e)
    &&& p.inv_gamma_a == 1real / p.gamma_a
    &&& p.inv_gamma_b == 1real / p.gamma_b
    &&& p.inv_gamma_r == 1real / p.gamma_r
}

/// The angles of a profile, at the ends of its flanks and of the band `340..=780` nm.
pub open spec fn has_angles_of(p: FluorProfile<real>) -> bool {
    &&& p.emis_a_blo == arc_tangent((larger_of(p.mu_a, 380real) - p.lambda_e) / p.gamma_b)
    &&& p.emis_a_rhi == arc_tangent((780real - p.lambda_e) / p.gamma_r)
    &&& p.excite_a_lo == arc_tangent((340real - p.mu_a) / p.gamma_a)
    &&& p.excite_da == arc_tangent((780real - p.mu_a) / p.gamma_a) - arc_tangent((340real - p.mu_a) / p.gamma_a)
}

/// The normalizers of a profile: one over each area, which is kept at `1e-12` or more.
pub open spec fn has_areas(p: FluorProfile<real>) -> bool {
    let floor = 9223372real / 9223372036854775808real;
    let blue = 0real - p.gamma_b * p.emis_a_blo;
    let area = larger_of(blue + p.gamma_r * p.emis_a_rhi, floor);
    &&& p.e_norm_rcp == 1real / area
    &&& p.emis_blue_frac == blue / area
    &&& p.excite_int == p.gamma_a * p.excite_da
    &&& p.excite_rcp == 1real / larger_of(p.excite_int, floor)
}

/// The half-width of the absorption.
proof fn lemma_half(lambda_e: real, s: real)
    ensures
        ({
            let e = half_width_formula::<real, real>(Formula::Val(lambda_e), Formula::Val(s));
            defined(e) && exact(e) == absorption_half_width(lambda_e, s)
        }),
        absorption_half_width(lambda_e, s) >= 2real,
{
    lemma_profile_constants();
    lemma_unit_values();
    reveal_with_fuel(exact, 7);
    reveal_with_fuel(defined, 7);
    let den = larger_of(2real * lambda_e - s, 8589935real / 8589934592real);
    let b = lambda_e * s / den;
    let h = f32_value(HALF);
    assert(h * b == b / 2real) by (nonlinear_arith)
        requires
            h == 1real / 2real,
    ;
    let t = f32_value(TWO);
    assert(t * lambda_e == 2real * lambda_e) by (nonlinear_arith)
        requires
            t == 2real,
    ;
}

/// The widening of the red flank.
proof fn lemma_widening(lambda_e: real)
    ensures
        ({
            let e = skew_formula::<real, real>(Formula::Val(lambda_e));
            defined(e) && exact(e) == red_widening(lambda_e)
        }),
        red_widening(lambda_e) > 1real,
{
    lemma_profile_constants();
    lemma_unit_values();
    reveal_with_fuel(exact, 6);
    reveal_with_fuel(defined, 6);
    let d = lambda_e - 450real;
    let k = f32_value(SKEW_RAMP);
    assert(d * k == d * (8589932real / 2147483648real)) by (nonlinear_arith)
        requires
            k == 8589932real / 2147483648real,
    ;
}

/// The shape of a profile that was derived.
proof fn lemma_shape<F: Scalar, V: Lanes<4, Element = F>>(
    s: Model<F>,
    p: FluorProfile<F>,
    c: F,
    lambda_e: F,
    shift: F,
    r: F,
)
    requires
        reads_numbers(s),
        p.is_of::<V>(c, lambda_e, shift, r),
    ensures
        ({
            let q = read_profile(s.elem, p);
            let le = (s.elem)(lambda_e);
            let sh = (s.elem)(shift);
            &&& q.c == (s.elem)(c)
            &&& q.qc == (16106127real / 16777216real) * (s.elem)(c)
            &&& q.lambda_e == le
            &&& q.mu_a == le - sh
            &&& q.gamma_a == absorption_half_width(le, sh)
            &&& q.gamma_b == q.gamma_a * (s.elem)(r)
            &&& q.gamma_r == q.gamma_b * red_widening(le)
        }),
{
    let le = (s.elem)(lambda_e);
    let sh = (s.elem)(shift);
    lemma_half(le, sh);
    lemma_widening(le);
    lemma_profile_constants();
    let half = half_width_formula(at_hand(lambda_e), at_hand(shift));
    assert(s.denote(half) == half_width_formula::<real, real>(Formula::Val(le), Formula::Val(sh))) by {
        reveal_with_fuel(Model::denote, 8);
    }
    law_evals_exact(s, half, p.gamma_a);
    let skew = skew_formula(at_hand(lambda_e));
    assert(s.denote(skew) == skew_formula::<real, real>(Formula::Val(le))) by {
        reveal_with_fuel(Model::denote, 8);
    }
    reveal_with_fuel(Model::denote, 3);
    reveal_with_fuel(exact, 3);
    reveal_with_fuel(defined, 3);
    law_evals_exact(s, at_hand(lambda_e).sub(at_hand(shift)), p.mu_a);
    law_evals_exact(s, at_hand(p.gamma_a).mul(at_hand(r)), p.gamma_b);
    law_evals_exact(s, at_hand(p.gamma_b).mul(skew), p.gamma_r);
    law_evals_exact(s, Formula::<F, F>::Const(Q).mul(at_hand(c)), p.qc);
    let k = f32_value(Q);
    let rc = (s.elem)(c);
    assert(k * rc == (16106127real / 16777216real) * rc) by (nonlinear_arith)
        requires
            k == 16106127real / 16777216real,
    ;
}

/// A lane of the vector pass for the reciprocal half-widths and the angles.
proof fn lemma_pass<F: Scalar, V: Lanes<4, Element = F>>(
    s: Model<F>,
    v: spec_fn(int) -> Model<V>,
    bounds: Seq<F>,
    centres: Seq<F>,
    widths: Seq<F>,
    invs: [F; 4],
    angles: [F; 4],
    l: int,
)
    requires
        reads_lanes::<F, V, 4>(s, v),
        flank_angles::<F, V>(bounds, centres, widths, invs, angles),
        0 <= l < 4,
        (s.elem)(widths[l]) != 0real,
    ensures
        (s.elem)(invs[l]) == 1real / (s.elem)(widths[l]),
        (s.elem)(angles[l]) == arc_tangent(
            ((s.elem)(bounds[l]) - (s.elem)(centres[l])) / (s.elem)(widths[l]),
        ),
{
    let (bound, centre, width, inv, angle) = choose|bound: V, centre: V, width: V, inv: V, angle: V|
        {
            &&& #[trigger] vector_of::<V, 4>(bound, bounds)
            &&& #[trigger] vector_of::<V, 4>(centre, centres)
            &&& #[trigger] vector_of::<V, 4>(width, widths)
            &&& evals(Formula::Val(width).reciprocal(), inv)
            &&& evals(Formula::Val(bound).sub(Formula::Val(centre)).mul(Formula::Val(inv)).atan(), angle)
            &&& #[trigger] call_ensures(V::into_array, (inv,), invs)
            &&& #[trigger] call_ensures(V::into_array, (angle,), angles)
        };
    let m = v(l);
    assert(m.is_exact());
    lemma_lane_of::<F, V, 4>(s, v, bound, bounds, l);
    lemma_lane_of::<F, V, 4>(s, v, centre, centres, l);
    lemma_lane_of::<F, V, 4>(s, v, width, widths, l);
    reveal_with_fuel(Model::denote, 5);
    reveal_with_fuel(exact, 5);
    reveal_with_fuel(defined, 5);
    law_evals_exact(m, Formula::Val(width).reciprocal(), inv);
    law_evals_exact(m, Formula::Val(bound).sub(Formula::Val(centre)).mul(Formula::Val(inv)).atan(), angle);
    let d = (m.lane)(bound) - (m.lane)(centre);
    let g = (m.lane)(width);
    let i = (m.lane)(inv);
    assert(d * i == d / g) by (nonlinear_arith)
        requires
            i == 1real / g,
            g != 0real,
    ;
    assert((m.elem)(invs[l]) == (m.lane)(inv));
    assert((m.elem)(angles[l]) == (m.lane)(angle));
}

/// The angles of a profile that was derived.
proof fn lemma_angles<F: Scalar, V: Lanes<4, Element = F>>(
    s: Model<F>,
    v: spec_fn(int) -> Model<V>,
    p: FluorProfile<F>,
)
    requires
        reads_numbers(s),
        reads_lanes::<F, V, 4>(s, v),
        (s.elem)(p.gamma_a) != 0real,
        (s.elem)(p.gamma_b) != 0real,
        (s.elem)(p.gamma_r) != 0real,
        p.has_bounds::<V>(),
    ensures
        ({
            let q = read_profile(s.elem, p);
            &&& has_angles_of(q)
            &&& q.inv_gamma_a == 1real / q.gamma_a
            &&& q.inv_gamma_b == 1real / q.gamma_b
            &&& q.inv_gamma_r == 1real / q.gamma_r
        }),
{
    lemma_profile_constants();
    let (blue, red, lo, hi) = choose|blue: F, red: F, lo: F, hi: F|
        {
            &&& #[trigger] evals(at_hand(p.mu_a).max(Formula::Const(EMISSION_LO)), blue)
            &&& #[trigger] is_constant(EMISSION_HI, red)
            &&& #[trigger] is_constant(EXCITATION_LO, lo)
            &&& #[trigger] is_constant(EXCITATION_HI, hi)
            &&& p.has_angles::<V>(seq![blue, red, lo, hi])
        };
    let bounds = seq![blue, red, lo, hi];
    let centres = seq![p.lambda_e, p.lambda_e, p.mu_a, p.mu_a];
    let widths = seq![p.gamma_b, p.gamma_r, p.gamma_a, p.gamma_a];
    let (invs, angles) = choose|invs: [F; 4], angles: [F; 4]|
        {
            &&& #[trigger] flank_angles::<F, V>(bounds, centres, widths, invs, angles)
            &&& p.inv_gamma_b == invs[0]
            &&& p.inv_gamma_r == invs[1]
            &&& p.inv_gamma_a == invs[2]
            &&& p.emis_a_blo == angles[0]
            &&& p.emis_a_rhi == angles[1]
            &&& p.excite_a_lo == angles[2]
            &&& evals(at_hand(angles[3]).sub(at_hand(angles[2])), p.excite_da)
        };
    lemma_pass::<F, V>(s, v, bounds, centres, widths, invs, angles, 0);
    lemma_pass::<F, V>(s, v, bounds, centres, widths, invs, angles, 1);
    lemma_pass::<F, V>(s, v, bounds, centres, widths, invs, angles, 2);
    lemma_pass::<F, V>(s, v, bounds, centres, widths, invs, angles, 3);
    reveal_with_fuel(Model::denote, 3);
    reveal_with_fuel(exact, 3);
    reveal_with_fuel(defined, 3);
    law_evals_exact(s, at_hand(p.mu_a).max(Formula::Const(EMISSION_LO)), blue);
    law_evals_exact(s, at_hand(angles[3]).sub(at_hand(angles[2])), p.excite_da);
}

/// The area of the emission, in real numbers.
proof fn lemma_area_value(q: FluorProfile<real>)
    ensures
        ({
            let blue = Formula::<real, real>::Val(q.gamma_b).neg().mul(Formula::Val(q.emis_a_blo));
            let red = Formula::<real, real>::Val(q.gamma_r).mul(Formula::Val(q.emis_a_rhi));
            let norm = blue.add(red).max(Formula::Const(NORM_FLOOR));
            let b = 0real - q.gamma_b * q.emis_a_blo;
            &&& defined(blue) && defined(norm)
            &&& exact(blue) == b
            &&& exact(norm) == larger_of(
                b + q.gamma_r * q.emis_a_rhi,
                9223372real / 9223372036854775808real,
            )
            &&& exact(norm) > 0real
        }),
{
    lemma_profile_constants();
    let blue = Formula::<real, real>::Val(q.gamma_b).neg().mul(Formula::Val(q.emis_a_blo));
    let g = q.gamma_b;
    let lo = q.emis_a_blo;
    assert((0real - g) * lo == 0real - g * lo) by (nonlinear_arith);
    assert(defined(blue) && exact(blue) == 0real - g * lo) by {
        reveal_with_fuel(exact, 3);
        reveal_with_fuel(defined, 3);
    }
    reveal_with_fuel(exact, 4);
    reveal_with_fuel(defined, 4);
}

/// The normalizers of a profile that was derived.
proof fn lemma_areas<F: Scalar>(s: Model<F>, p: FluorProfile<F>)
    requires
        reads_numbers(s),
        p.has_normalizers(),
    ensures
        has_areas(read_profile(s.elem, p)),
{
    let q = read_profile(s.elem, p);
    lemma_profile_constants();
    lemma_unit_values();
    lemma_area_value(q);
    let blue = at_hand(p.gamma_b).neg().mul(at_hand(p.emis_a_blo));
    let red = at_hand(p.gamma_r).mul(at_hand(p.emis_a_rhi));
    let norm = blue.add(red).max(Formula::Const(NORM_FLOOR));
    let q_blue = Formula::<real, real>::Val(q.gamma_b).neg().mul(Formula::Val(q.emis_a_blo));
    let q_red = Formula::<real, real>::Val(q.gamma_r).mul(Formula::Val(q.emis_a_rhi));
    let q_norm = q_blue.add(q_red).max(Formula::Const(NORM_FLOOR));
    assert(s.denote(blue) == q_blue && s.denote(norm) == q_norm) by {
        reveal_with_fuel(Model::denote, 6);
    }
    assert(s.denote(Formula::Const(ONE).div(norm)) == Formula::<real, real>::Const(ONE).div(q_norm)) by {
        reveal_with_fuel(Model::denote, 2);
    }
    assert(s.denote(blue.div(norm)) == q_blue.div(q_norm)) by {
        reveal_with_fuel(Model::denote, 1);
    }
    assert(q.e_norm_rcp == 1real / exact(q_norm) && q.emis_blue_frac == exact(q_blue) / exact(q_norm)) by {
        reveal_with_fuel(exact, 2);
        reveal_with_fuel(defined, 2);
        law_evals_exact(s, Formula::Const(ONE).div(norm), p.e_norm_rcp);
        law_evals_exact(s, blue.div(norm), p.emis_blue_frac);
    }
    lemma_integrals(s, p);
}

/// The absorption integral of a profile that was derived, and one over it.
proof fn lemma_integrals<F: Scalar>(s: Model<F>, p: FluorProfile<F>)
    requires
        reads_numbers(s),
        p.has_normalizers(),
    ensures
        ({
            let q = read_profile(s.elem, p);
            &&& q.excite_int == q.gamma_a * q.excite_da
            &&& q.excite_rcp == 1real / larger_of(q.excite_int, 9223372real / 9223372036854775808real)
        }),
{
    lemma_profile_constants();
    lemma_unit_values();
    reveal_with_fuel(Model::denote, 4);
    reveal_with_fuel(exact, 4);
    reveal_with_fuel(defined, 4);
    law_evals_exact(s, at_hand(p.gamma_a).mul(at_hand(p.excite_da)), p.excite_int);
    law_evals_exact(
        s,
        Formula::Const(ONE).div(at_hand(p.excite_int).max(Formula::Const(NORM_FLOOR))),
        p.excite_rcp,
    );
}

/// [`FluorProfile::new`] derives the profile of any fluorophore whose width ratio is not zero, and
/// [`FluorProfile::from_uplift`] that of the fluorophore of a material.
pub proof fn law_profile_answer<F: Scalar, V: Lanes<4, Element = F>>(
    s: Model<F>,
    v: spec_fn(int) -> Model<V>,
    u: UpliftParams<F>,
    p: FluorProfile<F>,
)
    requires
        reads_numbers(s),
        reads_lanes::<F, V, 4>(s, v),
        (s.elem)(u.r) != 0real,
        call_ensures(FluorProfile::<F>::new::<V>, (u.c, u.lambda_e, u.s, u.r), p) || call_ensures(
            FluorProfile::<F>::from_uplift::<V>,
            (&u,),
            p,
        ),
    ensures
        ({
            let q = read_profile(s.elem, p);
            &&& has_shape(q, (s.elem)(u.c), (s.elem)(u.lambda_e), (s.elem)(u.s), (s.elem)(u.r))
            &&& has_angles_of(q)
            &&& has_areas(q)
        }),
{
    let q = read_profile(s.elem, p);
    lemma_shape::<F, V>(s, p, u.c, u.lambda_e, u.s, u.r);
    let le = (s.elem)(u.lambda_e);
    lemma_half(le, (s.elem)(u.s));
    lemma_widening(le);
    let g = q.gamma_a;
    let r = (s.elem)(u.r);
    let k = red_widening(le);
    assert(g * r != 0real && (g * r) * k != 0real) by (nonlinear_arith)
        requires
            g >= 2real,
            r != 0real,
            k > 1real,
    ;
    lemma_angles::<F, V>(s, v, p);
    lemma_areas(s, p);
}

// ----------------------------------------------------------------------------
// Evaluation
// ----------------------------------------------------------------------------

/// The absorption at a wavelength: `1 / (1 + z^2)`, `z` half-widths from the absorption centre.
pub open spec fn absorbed(p: FluorProfile<real>, l: real) -> real {
    let z = (l - p.mu_a) * p.inv_gamma_a;
    1real / (1real + z * z)
}

/// The emission at a wavelength: nothing up to the absorption centre, and else `1 / (1 + z^2)` over the
/// area, `z` half-widths of its flank from the emission centre.
pub open spec fn emitted(p: FluorProfile<real>, l: real) -> real {
    let z = (l - p.lambda_e) * if l < p.lambda_e {
        p.inv_gamma_b
    } else {
        p.inv_gamma_r
    };
    if l <= p.mu_a {
        0real
    } else {
        p.e_norm_rcp / (1real + z * z)
    }
}

/// [`FluorProfile::absorption`] returns the absorption, [`FluorProfile::emission`] the emission,
/// [`FluorProfile::elastic_attenuation`] `1 - c a`, and [`FluorProfile::excite_pdf`] the absorption over its
/// integral within `340..=780` nm and nothing outside, at the wavelength in each lane.
pub proof fn law_evaluation_answer<F: Scalar, V: NnVector<Element = F>>(
    m: Model<V>,
    p: FluorProfile<F>,
    lambda: V,
    a: V,
    e: V,
    rest: V,
    pdf: V,
)
    requires
        m.is_exact(),
        call_ensures(FluorProfile::<F>::absorption::<V>, (&p, lambda), a),
        call_ensures(FluorProfile::<F>::emission::<V>, (&p, lambda), e),
        call_ensures(FluorProfile::<F>::elastic_attenuation::<V>, (&p, lambda), rest),
        call_ensures(FluorProfile::<F>::excite_pdf::<V>, (&p, lambda), pdf),
    ensures
        ({
            let q = read_profile(m.elem, p);
            let l = (m.lane)(lambda);
            &&& (m.lane)(a) == absorbed(q, l)
            &&& (m.lane)(e) == emitted(q, l)
            &&& (m.lane)(rest) == 1real - q.c * absorbed(q, l)
            &&& 340real <= l <= 780real ==> (m.lane)(pdf) == absorbed(q, l) * q.excite_rcp
            &&& l < 340real || 780real < l ==> (m.lane)(pdf) == 0real
        }),
{
    let q = read_profile(m.elem, p);
    let l = (m.lane)(lambda);
    law_absorption_result(m, p, lambda, a);
    law_emission_result(m, p, lambda, e);
    law_elastic_result(m, p, lambda, rest);
    law_excite_pdf_result(m, p, lambda, pdf);
    lemma_values(q, l);
}

/// The absorption, the emission and what comes of them, in real numbers.
proof fn lemma_values(q: FluorProfile<real>, l: real)
    ensures
        exact(q.absorption_formula::<real>(Formula::Val(l))) == absorbed(q, l),
        exact(q.emission_formula::<real>(Formula::Val(l))) == emitted(q, l),
        exact(q.elastic_formula::<real>(Formula::Val(l))) == 1real - q.c * absorbed(q, l),
        340real <= l <= 780real ==> exact(q.excite_pdf_formula::<real>(Formula::Val(l))) == absorbed(q, l)
            * q.excite_rcp,
        l < 340real || 780real < l ==> exact(q.excite_pdf_formula::<real>(Formula::Val(l))) == 0real,
{
    lemma_unit_values();
    lemma_profile_constants();
    assert(exact(q.absorption_formula::<real>(Formula::Val(l))) == absorbed(q, l)) by {
        reveal_with_fuel(exact, 6);
    }
    assert(exact(q.emission_formula::<real>(Formula::Val(l))) == emitted(q, l)) by {
        reveal_with_fuel(exact, 6);
        reveal_with_fuel(exact_holds, 3);
    }
    let a = absorbed(q, l);
    let c = q.c;
    assert(a * c == c * a) by (nonlinear_arith);
    assert(exact(q.elastic_formula::<real>(Formula::Val(l))) == 1real - c * a) by {
        reveal_with_fuel(exact, 3);
    }
    let kept = q.absorption_formula::<real>(Formula::Val(l)).mul(Formula::Splat(q.excite_rcp));
    assert(exact(kept) == a * q.excite_rcp) by {
        reveal_with_fuel(exact, 2);
    }
    let inside = Formula::<real, real>::Val(l).ge(Formula::Const(EXCITATION_LO)).and(
        Formula::Val(l).le(Formula::Const(EXCITATION_HI)),
    );
    assert(exact_holds(inside) == (340real <= l <= 780real)) by {
        reveal_with_fuel(exact_holds, 4);
        reveal_with_fuel(exact, 4);
    }
    assert(q.excite_pdf_formula::<real>(Formula::Val(l)) == kept.zz(inside));
    reveal_with_fuel(exact, 2);
}

/// [`FluorProfile::reradiation`] returns `Q c a(lambda_i) e(lambda_o)` in each lane, and
/// [`FluorProfile::excite_integral`] and [`FluorProfile::excite_pdf_norm`] what the profile holds.
pub proof fn law_reradiation_answer<F: Scalar, V: NnVector<Element = F>>(
    m: Model<V>,
    p: FluorProfile<F>,
    lambda_i: V,
    lambda_o: V,
    a: V,
    e: V,
    r: V,
    integral: F,
    norm: F,
)
    requires
        m.is_exact(),
        call_ensures(FluorProfile::<F>::absorption::<V>, (&p, lambda_i), a),
        call_ensures(FluorProfile::<F>::emission::<V>, (&p, lambda_o), e),
        call_ensures(FluorProfile::<F>::reradiation::<V>, (&p, lambda_i, lambda_o), r),
        call_ensures(FluorProfile::<F>::excite_integral, (&p,), integral),
        call_ensures(FluorProfile::<F>::excite_pdf_norm, (&p,), norm),
    ensures
        ({
            let q = read_profile(m.elem, p);
            (m.lane)(r) == q.qc * absorbed(q, (m.lane)(lambda_i)) * emitted(q, (m.lane)(lambda_o))
        }),
        integral == p.excite_int,
        norm == p.excite_rcp,
{
    let q = read_profile(m.elem, p);
    law_reradiation_result(m, p, lambda_i, lambda_o, a, e, r);
    law_absorption_result(m, p, lambda_i, a);
    law_emission_result(m, p, lambda_o, e);
    lemma_values(q, (m.lane)(lambda_i));
    lemma_values(q, (m.lane)(lambda_o));
}

// ----------------------------------------------------------------------------
// Drawing
// ----------------------------------------------------------------------------

/// The tangent of an angle is the number whose angle it is.
proof fn lemma_tangent_of(z: real, y: real)
    requires
        arc_tangent_exists(),
        arc_tangent(z) == y,
    ensures
        is_angle(y),
        tangent(y) == z,
{
    assert(takes(arc_tangent_function(), z, y));
    lemma_arc_increases(tangent(y), z);
}

/// [`FluorProfile::sample_excitation`] draws the wavelength `z` half-widths from the absorption centre,
/// where the angle of `z` is the uniform number's share of the way through the excitation band, and its
/// density `1 / ((1 + z^2) I)`, `I` the absorption integral.
pub proof fn law_excitation_answer<F: Scalar, V: NnVector<Element = F>>(
    m: Model<V>,
    p: FluorProfile<F>,
    u: V,
    z: real,
    r: (V, V),
)
    requires
        m.is_exact(),
        arc_tangent_exists(),
        call_ensures(FluorProfile::<F>::sample_excitation::<V>, (&p, u), r),
        arc_tangent(z) == (m.elem)(p.excite_a_lo) + (m.lane)(u) * (m.elem)(p.excite_da),
    ensures
        (m.lane)(r.0) == (m.elem)(p.mu_a) + (m.elem)(p.gamma_a) * z,
        (m.elem)(p.excite_int) != 0real ==> (m.lane)(r.1) == 1real / ((1real + z * z) * (m.elem)(p.excite_int)),
{
    let q = read_profile(m.elem, p);
    let x = (m.lane)(u);
    let t = choose|t: V|
        {
            &&& #[trigger] evals(p.excitation_angle(Formula::Val(u)).tan(), t)
            &&& evals(p.excitation_at(Formula::Val(t)), r.0)
            &&& evals(p.excitation_density(Formula::Val(t)), r.1)
        };
    lemma_tangent_of(z, x * q.excite_da + q.excite_a_lo);
    assert((m.lane)(t) == z) by {
        reveal_with_fuel(Model::denote, 4);
        reveal_with_fuel(exact, 4);
        reveal_with_fuel(defined, 4);
        law_evals_exact(m, p.excitation_angle(Formula::Val(u)).tan(), t);
    }
    let g = q.gamma_a;
    assert(z * g == g * z) by (nonlinear_arith);
    assert((m.lane)(r.0) == z * g + q.mu_a) by {
        reveal_with_fuel(Model::denote, 3);
        reveal_with_fuel(exact, 3);
        reveal_with_fuel(defined, 3);
        law_evals_exact(m, p.excitation_at(Formula::Val(t)), r.0);
    }
    let n = q.excite_int;
    if n != 0real {
        lemma_unit_values();
        assert(z * z >= 0real) by (nonlinear_arith);
        let k = 1real + z * z;
        assert(k * n != 0real) by (nonlinear_arith)
            requires
                k >= 1real,
                n != 0real,
        ;
        reveal_with_fuel(Model::denote, 5);
        reveal_with_fuel(exact, 5);
        reveal_with_fuel(defined, 5);
        law_evals_exact(m, p.excitation_density(Formula::Val(t)), r.1);
    }
}

/// The angle that a uniform number draws on the emission: on the blue flank, its share of the way from the
/// start of the flank, and on the red one, its share of the way to the end.
pub open spec fn emission_angle(p: FluorProfile<real>, u: real) -> real {
    if u < p.emis_blue_frac {
        p.emis_a_blo - (u / p.emis_blue_frac) * p.emis_a_blo
    } else {
        ((u - p.emis_blue_frac) / (1real - p.emis_blue_frac)) * p.emis_a_rhi
    }
}

/// The half-width of the flank that a uniform number draws on.
pub open spec fn flank_width(p: FluorProfile<real>, u: real) -> real {
    if u < p.emis_blue_frac {
        p.gamma_b
    } else {
        p.gamma_r
    }
}

/// What the emission draws, in real numbers.
proof fn lemma_emission_at(q: FluorProfile<real>, x: real, z: real)
    requires
        arc_tangent_exists(),
        q.emis_blue_frac != 0real,
        q.emis_blue_frac != 1real,
        arc_tangent(z) == emission_angle(q, x),
    ensures
        ({
            let e = q.emission_at::<real>(Formula::Val(x));
            &&& defined(e)
            &&& exact(e) == q.lambda_e + flank_width(q, x) * z
        }),
{
    lemma_unit_values();
    let y = emission_angle(q, x);
    lemma_tangent_of(z, y);
    let f = q.emis_blue_frac;
    let lo = q.emis_a_blo;
    let k = x / f;
    assert(k * (0real - lo) + lo == lo - k * lo) by (nonlinear_arith);
    let frac = Formula::<real, real>::Splat(f);
    let rl = Formula::<real, real>::Splat(lo);
    let u = Formula::<real, real>::Val(x);
    let is_blue = u.lt(frac);
    assert(exact_holds(is_blue) == (x < f)) by {
        reveal_with_fuel(exact_holds, 2);
        reveal_with_fuel(exact, 2);
    }
    let on_blue = u.div(frac).mul_adde(Formula::Const(ZERO).sub(rl), rl);
    let on_red = u.sub(frac).div(Formula::Const(ONE).sub(frac)).mul(Formula::Splat(q.emis_a_rhi));
    assert(defined(on_blue) && exact(on_blue) == lo - k * lo) by {
        reveal_with_fuel(exact, 4);
        reveal_with_fuel(defined, 4);
    }
    assert(defined(on_red) && exact(on_red) == ((x - f) / (1real - f)) * q.emis_a_rhi) by {
        reveal_with_fuel(exact, 5);
        reveal_with_fuel(defined, 5);
    }
    let angle = is_blue.select(on_blue, on_red);
    assert(defined_condition(is_blue)) by {
        reveal_with_fuel(defined, 3);
        reveal_with_fuel(defined_condition, 3);
    }
    assert(defined(angle) && exact(angle) == y) by {
        reveal_with_fuel(exact, 1);
        reveal_with_fuel(defined, 1);
    }
    let width = is_blue.select(Formula::Splat(q.gamma_b), Formula::Splat(q.gamma_r));
    let g = flank_width(q, x);
    assert(defined(width) && exact(width) == g) by {
        reveal_with_fuel(exact, 2);
        reveal_with_fuel(defined, 2);
    }
    assert(z * g == g * z) by (nonlinear_arith);
    let e = angle.tan().mul_adde(width, Formula::Splat(q.lambda_e));
    assert(defined(e) && exact(e) == z * g + q.lambda_e) by {
        reveal_with_fuel(exact, 3);
        reveal_with_fuel(defined, 3);
    }
    assert(q.emission_at::<real>(Formula::Val(x)) == e);
}

/// [`FluorProfile::sample_emission`] draws the wavelength `z` half-widths of its flank from the emission
/// centre, where the angle of `z` is the one that the uniform number draws, and its density, which is the
/// emission there.
pub proof fn law_emission_answer<F: Scalar, V: NnVector<Element = F>>(
    m: Model<V>,
    p: FluorProfile<F>,
    u: V,
    z: real,
    r: (V, V),
)
    requires
        m.is_exact(),
        arc_tangent_exists(),
        call_ensures(FluorProfile::<F>::sample_emission::<V>, (&p, u), r),
        (m.elem)(p.emis_blue_frac) != 0real,
        (m.elem)(p.emis_blue_frac) != 1real,
        arc_tangent(z) == emission_angle(read_profile(m.elem, p), (m.lane)(u)),
    ensures
        ({
            let q = read_profile(m.elem, p);
            &&& (m.lane)(r.0) == q.lambda_e + flank_width(q, (m.lane)(u)) * z
            &&& (m.lane)(r.1) == emitted(q, (m.lane)(r.0))
        }),
{
    let q = read_profile(m.elem, p);
    let x = (m.lane)(u);
    lemma_emission_at(q, x, z);
    assert(m.denote(p.emission_at(Formula::Val(u))) == q.emission_at::<real>(Formula::Val(x))) by {
        reveal_with_fuel(Model::denote, 8);
        reveal_with_fuel(Model::denote_condition, 3);
    }
    law_evals_exact(m, p.emission_at(Formula::Val(u)), r.0);
    law_emission_result(m, p, r.0, r.1);
    lemma_values(q, (m.lane)(r.0));
}

} // verus!
