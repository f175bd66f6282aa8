//! Laws of the fluorescence model, in exact arithmetic.

use crate::fluor::{
    half_width_formula, skew_formula, FluorProfile, EXCITATION_HI, EXCITATION_LO, NORM_FLOOR, Q,
    SKEW_BLUE, SKEW_LE0, SKEW_RAMP, SKEW_SPAN, TWO,
};
use crate::formula::{defined, defined_condition, exact, exact_holds, Formula};
use crate::ieee::{f32_exponent, f32_mantissa, f32_value, lemma_f32_value, ONE};
use crate::params_laws::lemma_unit_values;
use vstd::arithmetic::power2::{lemma2_to64, lemma_pow2_pos, pow2};
use vstd::prelude::*;

verus! {

/// The quantum yield is below one.
pub proof fn lemma_quantum_yield()
    ensures
        0real < f32_value(Q) < 1real,
{
    lemma2_to64();
    lemma_f32_value(Q);
    assert(f32_value(Q) == 16106127real / 16777216real);
}

/// `1 / (1 + z^2)` lies in `0..=1`.
proof fn lemma_lorentzian(z: real)
    ensures
        z * z + 1real >= 1real,
        0real < 1real / (z * z + 1real) <= 1real,
{
    let d = z * z + 1real;
    assert(d >= 1real) by (nonlinear_arith)
        requires
            d == z * z + 1real,
    ;
    assert(0real < 1real / d <= 1real) by (nonlinear_arith)
        requires
            d >= 1real,
    ;
}

/// The absorption is defined at every wavelength and lies in `0..=1`.
pub proof fn law_absorption_range(p: FluorProfile<real>, lambda: real)
    ensures
        defined(p.absorption_formula(Formula::Val(lambda))),
        0real < exact(p.absorption_formula(Formula::Val(lambda))) <= 1real,
{
    reveal_with_fuel(exact, 6);
    reveal_with_fuel(defined, 6);
    lemma_unit_values();
    lemma_lorentzian((lambda - p.mu_a) * p.inv_gamma_a);
}

/// The absorption peaks at its centre, with the value one, and is symmetric about it.
pub proof fn law_absorption_peak(p: FluorProfile<real>, d: real)
    ensures
        exact(p.absorption_formula(Formula::Val(p.mu_a))) == 1real,
        exact(p.absorption_formula(Formula::Val(p.mu_a + d))) == exact(
            p.absorption_formula(Formula::Val(p.mu_a - d)),
        ),
{
    reveal_with_fuel(exact, 6);
    lemma_unit_values();
    let g = p.inv_gamma_a;
    let c = (p.mu_a - p.mu_a) * g;
    assert(1real / (c * c + 1real) == 1real) by (nonlinear_arith)
        requires
            c == (p.mu_a - p.mu_a) * g,
    ;
    let x = (p.mu_a + d - p.mu_a) * g;
    let y = (p.mu_a - d - p.mu_a) * g;
    assert(x * x == y * y) by (nonlinear_arith)
        requires
            x == d * g,
            y == (0real - d) * g,
    ;
}

/// The elastic attenuation lies in `0..=1` for a concentration of `0..=1`.
pub proof fn law_attenuation_range(p: FluorProfile<real>, lambda: real)
    requires
        0real <= p.c <= 1real,
    ensures
        0real <= exact(p.elastic_formula(Formula::Val(lambda))) <= 1real,
{
    law_absorption_range(p, lambda);
    reveal_with_fuel(exact, 2);
    lemma_unit_values();
    let a = exact(p.absorption_formula(Formula::Val(lambda)));
    let c = p.c;
    assert(0real <= a * c <= 1real) by (nonlinear_arith)
        requires
            0real <= a <= 1real,
            0real <= c <= 1real,
    ;
}

/// Energy is conserved: of the light that arrives at a wavelength, what is reflected elastically
/// and what is re-emitted add up to at most all of it, for any reflectance of `0..=1` and any
/// concentration of `0..=1`. The elastic part reuses the absorption that drives the re-emission.
pub proof fn law_energy_conserved(p: FluorProfile<real>, rho: real, lambda: real)
    requires
        0real <= p.c <= 1real,
        p.qc == exact(Formula::Const(Q).mul(Formula::Val(p.c))),
        0real <= rho <= 1real,
    ensures
        exact(p.elastic_formula(Formula::Val(lambda))) * rho + p.qc * exact(
            p.absorption_formula(Formula::Val(lambda)),
        ) <= 1real,
{
    law_absorption_range(p, lambda);
    law_attenuation_range(p, lambda);
    lemma_quantum_yield();
    reveal_with_fuel(exact, 2);
    lemma_unit_values();
    let a = exact(p.absorption_formula(Formula::Val(lambda)));
    let e = exact(p.elastic_formula(Formula::Val(lambda)));
    let c = p.c;
    let q = f32_value(Q);
    assert(e * rho <= e) by (nonlinear_arith)
        requires
            e >= 0real,
            rho <= 1real,
    ;
    assert((q * c) * a <= a * c) by (nonlinear_arith)
        requires
            0real <= q <= 1real,
            0real <= c,
            0real <= a,
    ;
}

/// A material without fluorophore is not fluorescent: nothing is attenuated and nothing re-emitted.
pub proof fn law_non_fluorescent(p: FluorProfile<real>, lambda_i: real, lambda_o: real)
    requires
        p.c == 0real,
        p.qc == exact(Formula::Const(Q).mul(Formula::Val(p.c))),
    ensures
        exact(p.elastic_formula(Formula::Val(lambda_i))) == 1real,
        exact(p.reradiation_formula(Formula::Val(lambda_i), Formula::Val(lambda_o))) == 0real,
{
    reveal_with_fuel(exact, 3);
    lemma_unit_values();
    let a = exact(p.absorption_formula(Formula::Val(lambda_i)));
    let e = exact(p.emission_formula(Formula::Val(lambda_o)));
    assert(a * 0real == 0real && (f32_value(Q) * 0real) * a * e == 0real) by (nonlinear_arith);
}

/// The emission is defined at every wavelength.
pub proof fn law_emission_defined(p: FluorProfile<real>, lambda: real)
    ensures
        defined(p.emission_formula(Formula::Val(lambda))),
{
    reveal_with_fuel(exact, 6);
    reveal_with_fuel(exact_holds, 2);
    reveal_with_fuel(defined, 6);
    reveal_with_fuel(defined_condition, 2);
    lemma_unit_values();
    let inv = if lambda >= p.lambda_e {
        p.inv_gamma_r
    } else {
        p.inv_gamma_b
    };
    lemma_lorentzian((lambda - p.lambda_e) * inv);
}

/// Nothing is emitted at or below the absorption centre, and elsewhere the emission is positive, where
/// its normalizer is, and at most its value at the emission centre.
pub proof fn law_emission_shape(p: FluorProfile<real>, lambda: real)
    requires
        p.e_norm_rcp >= 0real,
        p.mu_a < p.lambda_e,
    ensures
        lambda <= p.mu_a ==> exact(p.emission_formula(Formula::Val(lambda))) == 0real,
        lambda > p.mu_a && p.e_norm_rcp > 0real ==> exact(p.emission_formula(Formula::Val(lambda))) > 0real,
        0real <= exact(p.emission_formula(Formula::Val(lambda))) <= exact(
            p.emission_formula(Formula::Val(p.lambda_e)),
        ),
        exact(p.emission_formula(Formula::Val(p.lambda_e))) == p.e_norm_rcp,
{
    reveal_with_fuel(exact, 6);
    reveal_with_fuel(exact_holds, 2);
    lemma_unit_values();
    let inv = if lambda >= p.lambda_e {
        p.inv_gamma_r
    } else {
        p.inv_gamma_b
    };
    let z = (lambda - p.lambda_e) * inv;
    lemma_lorentzian(z);
    let n = p.e_norm_rcp;
    let d = z * z + 1real;
    assert(0real <= n / d <= n && (n > 0real ==> n / d > 0real)) by (nonlinear_arith)
        requires
            n >= 0real,
            d >= 1real,
    ;
    let c = (p.lambda_e - p.lambda_e) * p.inv_gamma_r;
    assert(n / (c * c + 1real) == n) by (nonlinear_arith)
        requires
            c == (p.lambda_e - p.lambda_e) * p.inv_gamma_r,
    ;
}

/// The fluorescent reradiation is of rank one: any two rows of the matrix are proportional.
pub proof fn law_reradiation_separable(p: FluorProfile<real>, i: real, j: real, o: real, q: real)
    ensures
        exact(p.reradiation_formula(Formula::Val(i), Formula::Val(o))) * exact(
            p.reradiation_formula(Formula::Val(j), Formula::Val(q)),
        ) == exact(p.reradiation_formula(Formula::Val(i), Formula::Val(q))) * exact(
            p.reradiation_formula(Formula::Val(j), Formula::Val(o)),
        ),
{
    reveal_with_fuel(exact, 3);
    let k = p.qc;
    let ai = exact(p.absorption_formula(Formula::Val(i)));
    let aj = exact(p.absorption_formula(Formula::Val(j)));
    let eo = exact(p.emission_formula(Formula::Val(o)));
    let eq = exact(p.emission_formula(Formula::Val(q)));
    assert((k * ai * eo) * (k * aj * eq) == (k * ai * eq) * (k * aj * eo)) by (nonlinear_arith);
}

/// The density of an excitation wavelength is zero outside the excitation band, and within it the
/// absorption over the absorption integral.
pub proof fn law_excite_pdf_band(p: FluorProfile<real>, lambda: real)
    ensures
        lambda < 340real || lambda > 780real ==> exact(p.excite_pdf_formula(Formula::Val(lambda))) == 0real,
        340real <= lambda <= 780real ==> exact(p.excite_pdf_formula(Formula::Val(lambda))) == exact(
            p.absorption_formula(Formula::Val(lambda)),
        ) * p.excite_rcp,
{
    reveal_with_fuel(exact, 5);
    reveal_with_fuel(exact_holds, 5);
    lemma_band();
}

/// The ends of the excitation band.
proof fn lemma_band()
    ensures
        f32_value(EXCITATION_LO) == 340real,
        f32_value(EXCITATION_HI) == 780real,
{
    lemma2_to64();
    lemma_f32_value(EXCITATION_LO);
    lemma_f32_value(EXCITATION_HI);
    assert(f32_value(EXCITATION_LO) == 11141120real / 32768real);
    assert(f32_value(EXCITATION_HI) == 12779520real / 16384real);
}

/// The two ways to the density of an excitation wavelength agree: what the sampler returns with a
/// wavelength of the band is what [`FluorProfile::excite_pdf`] gives for that wavelength. `z` is the
/// tangent that the sampler drew.
pub proof fn law_sampled_density(p: FluorProfile<real>, z: real)
    requires
        p.gamma_a >= 2real,
        p.inv_gamma_a == exact(Formula::Val(p.gamma_a).reciprocal()),
        p.excite_int >= f32_value(NORM_FLOOR),
        p.excite_rcp == exact(
            Formula::Const(ONE).div(Formula::Val(p.excite_int).max(Formula::Const(NORM_FLOOR))),
        ),
        340real <= exact(p.excitation_at(Formula::Val(z))) <= 780real,
    ensures
        exact(p.excitation_density(Formula::Val(z))) == exact(
            p.excite_pdf_formula(p.excitation_at(Formula::Val(z))),
        ),
{
    reveal_with_fuel(exact, 7);
    reveal_with_fuel(exact_holds, 3);
    lemma_unit_values();
    lemma_band();
    lemma2_to64();
    lemma_f32_value(NORM_FLOOR);
    let g = p.gamma_a;
    let h = p.inv_gamma_a;
    assert(h * g == 1real) by (nonlinear_arith)
        requires
            h == 1real / g,
            g >= 2real,
    ;
    let lambda = z * g + p.mu_a;
    assert((lambda - p.mu_a) * h == z) by (nonlinear_arith)
        requires
            lambda - p.mu_a == z * g,
            h * g == 1real,
    ;
    lemma_lorentzian(z);
    let d = z * z + 1real;
    let n = p.excite_int;
    let r = p.excite_rcp;
    assert(f32_exponent(NORM_FLOOR) == 87);
    vstd::arithmetic::power2::lemma_pow2_pos(63);
    lemma_positive_quotient(0x80_0000 + f32_mantissa(NORM_FLOOR), vstd::arithmetic::power2::pow2(63));
    assert(r * n == 1real) by (nonlinear_arith)
        requires
            r == 1real / n,
            n > 0real,
    ;
    assert(1real / (d * n) == (1real / d) * r) by (nonlinear_arith)
        requires
            d >= 1real,
            r * n == 1real,
    ;
}

/// A quotient of positive integers is positive.
proof fn lemma_positive_quotient(a: nat, b: nat)
    requires
        a > 0,
        b > 0,
    ensures
        (a as real) / (b as real) > 0real,
{
    let x = a as real;
    let y = b as real;
    assert(x / y > 0real) by (nonlinear_arith)
        requires
            x > 0real,
            y > 0real,
    ;
}

/// The absorption half-width never falls below two nanometres.
pub proof fn law_half_width_floor(lambda_e: Formula<real, real>, s: Formula<real, real>)
    ensures
        exact(half_width_formula(lambda_e, s)) >= 2real,
{
    reveal_with_fuel(exact, 2);
    lemma2_to64();
    lemma_f32_value(TWO);
    assert(f32_value(TWO) == 8388608real / 4194304real);
}

/// The constants of the widening.
proof fn lemma_skew_values()
    ensures
        f32_value(SKEW_BLUE) == 10066330real / 8388608real,
        f32_value(SKEW_SPAN) == 13421768real / 67108864real,
        f32_value(SKEW_RAMP) == 8589932real / 2147483648real,
        f32_value(SKEW_LE0) == 450real,
{
    lemma2_to64();
    lemma_f32_value(SKEW_BLUE);
    lemma_f32_value(SKEW_SPAN);
    lemma_f32_value(SKEW_RAMP);
    lemma_f32_value(SKEW_LE0);
    assert(f32_value(SKEW_RAMP) == 8589932real / 2147483648real);
    assert(f32_value(SKEW_LE0) == 14745600real / 32768real);
}

/// The widening in exact arithmetic: its growth per nm from 450 nm on, confined to its span.
proof fn lemma_skew(lambda_e: real)
    ensures
        ({
            let grown = (lambda_e - 450real) * (8589932real / 2147483648real);
            let span = 13421768real / 67108864real;
            let confined = if grown < 0real {
                0real
            } else if span < grown {
                span
            } else {
                grown
            };
            exact(skew_formula(Formula::Val(lambda_e))) == 10066330real / 8388608real + confined
        }),
{
    reveal_with_fuel(exact, 5);
    lemma_unit_values();
    lemma_skew_values();
    let d = lambda_e - 450real;
    let r = f32_value(SKEW_RAMP);
    assert(d * r == d * (8589932real / 2147483648real)) by (nonlinear_arith)
        requires
            r == 8589932real / 2147483648real,
    ;
}

/// The red flank of the emission is the wider one: by a factor of 1.2 for an emission peak of up to
/// 450 nm, of 1.4 from 500 nm on, and linear in the peak between the two, all up to the rounding of
/// the constants.
pub proof fn law_red_skew(lambda_e: real)
    ensures
        lambda_e <= 450real ==> exact(skew_formula(Formula::Val(lambda_e))) == f32_value(SKEW_BLUE),
        500real <= lambda_e ==> exact(skew_formula(Formula::Val(lambda_e))) == f32_value(SKEW_BLUE) + f32_value(
            SKEW_SPAN,
        ),
        450real <= lambda_e <= 500real ==> {
            let d = exact(skew_formula(Formula::Val(lambda_e))) - (6real / 5real + (lambda_e - 450real) / 250real);
            -1real / 10000000real < d < 1real / 10000000real
        },
        -1real / 10000000real < f32_value(SKEW_BLUE) - 6real / 5real < 1real / 10000000real,
        -1real / 10000000real < f32_value(SKEW_BLUE) + f32_value(SKEW_SPAN) - 7real / 5real < 1real / 10000000real,
        119real / 100real <= exact(skew_formula(Formula::Val(lambda_e))) <= 141real / 100real,
{
    lemma_skew(lambda_e);
    lemma_skew_values();
}

/// The widening never decreases with the emission peak.
pub proof fn law_red_skew_monotone(a: real, b: real)
    requires
        a <= b,
    ensures
        exact(skew_formula(Formula::Val(a))) <= exact(skew_formula(Formula::Val(b))),
{
    lemma_skew(a);
    lemma_skew(b);
}

/// The flanks make up all of the emission: where the area of the two flanks is above the floor, the
/// normalizer takes it to one, and the shares of the two flanks add up to one.
pub proof fn law_emission_normalized(blue: real, red: real)
    requires
        blue >= 0real,
        red >= 0real,
        blue + red >= f32_value(NORM_FLOOR),
    ensures
        ({
            let norm = Formula::Val(blue).add(Formula::Val(red)).max(Formula::Const(NORM_FLOOR));
            let rcp = exact(Formula::Const(ONE).div(norm));
            let share = exact(Formula::Val(blue).div(norm));
            &&& (blue + red) * rcp == 1real
            &&& 0real <= share <= 1real
            &&& 1real - share == red * rcp
        }),
{
    reveal_with_fuel(exact, 4);
    lemma_unit_values();
    lemma_norm_floor();
    let n = blue + red;
    let rcp = 1real / n;
    let share = blue / n;
    assert(n * rcp == 1real && 0real <= share <= 1real && 1real - share == red * rcp) by (nonlinear_arith)
        requires
            n > 0real,
            n == blue + red,
            blue >= 0real,
            red >= 0real,
            rcp == 1real / n,
            share == blue / n,
    ;
}

/// The excitation density is normalized: its normalizer is one over the absorption integral, where
/// that is above the floor.
pub proof fn law_excitation_normalized(integral: real)
    requires
        integral >= f32_value(NORM_FLOOR),
    ensures
        integral * exact(Formula::Const(ONE).div(Formula::Val(integral).max(Formula::Const(NORM_FLOOR)))) == 1real,
{
    reveal_with_fuel(exact, 4);
    lemma_unit_values();
    lemma_norm_floor();
    assert(integral * (1real / integral) == 1real) by (nonlinear_arith)
        requires
            integral > 0real,
    ;
}

/// The floor of a normalizer is positive.
proof fn lemma_norm_floor()
    ensures
        f32_value(NORM_FLOOR) > 0real,
{
    assert(f32_exponent(NORM_FLOOR) == 87 && f32_mantissa(NORM_FLOOR) == 834764);
    lemma_f32_value(NORM_FLOOR);
    lemma_pow2_pos(63);
    let p = pow2(63) as real;
    assert(9223372real / p > 0real) by (nonlinear_arith)
        requires
            p > 0real,
    ;
}

} // verus!
