//! Energy-conserving rank-1 fluorescence.
//!
//! Light absorbed at an excitation wavelength is re-emitted at a longer emission wavelength. The
//! shape of the emission does not depend on which wavelength excited it, so the fluorescent part of
//! the reradiation matrix is separable:
//!
//! ```text
//! L_out(o) = (1 - c a(o)) rho(o) L_in(o)  +  Q c e(o) * integral of a(i) L_in(i) over i
//! ```
//!
//! * `a` is a Lorentzian of peak 1 centred at `mu_a = lambda_e - s`.
//! * `e` is a split Lorentzian of unit integral centred at `lambda_e`, cut off at and below `mu_a`,
//!   with half-width `gamma * r` on the blue flank and `gamma * r * skew` on the red one.
//! * `gamma = max(0.5 * beta, 2)` with the bandwidth `beta = lambda_e * s / (2 * lambda_e - s)`.
//! * `Q = 0.96` is the quantum yield.
//!
//! Excitation reaches into the UV ([`EXCITATION_LO`]`..=`[`EXCITATION_HI`]); emission is visible
//! ([`EMISSION_LO`]`..=`[`EMISSION_HI`]).
//!
//! A path tracer shifts the wavelength of each lane independently: it draws an excitation
//! wavelength with [`FluorProfile::sample_excitation`] on the camera side or an emission wavelength
//! with [`FluorProfile::sample_emission`] on the light side, and weighs strategies against each
//! other with the returned densities, [`FluorProfile::excite_pdf`] and [`FluorProfile::emission`].

use crate::formula::{evals, Formula, Lanes, NnVector, Scalar};
use crate::ieee::{HALF, ONE, ZERO};
use crate::lanes::{is_constant, vector_of};
use crate::params::UpliftParams;
use crate::term::Term;
use vstd::prelude::*;

verus! {

/// `0.96`, the quantum yield.
pub const Q: u32 = 0x3F75_C28F;

/// `2.0`
pub const TWO: u32 = 0x4000_0000;

/// `1.0e-3`, the floor of the denominator of the bandwidth.
pub const DEN_FLOOR: u32 = 0x3A83_126F;

/// `1.0e-12`, the floor of a normalizer.
pub const NORM_FLOOR: u32 = 0x2B8C_BCCC;

/// `1.2`, the red-flank widening at short emission peaks.
pub const SKEW_BLUE: u32 = 0x3F99_999A;

/// `450.0`, the emission peak (nm) at which the widening starts to grow.
pub const SKEW_LE0: u32 = 0x43E1_0000;

/// `(1.4 - 1.2) / (500 - 450)`, the growth of the widening per nm.
pub const SKEW_RAMP: u32 = 0x3B83_126C;

/// `1.4 - 1.2`, the largest growth of the widening.
pub const SKEW_SPAN: u32 = 0x3E4C_CCC8;

/// `380.0`, the lower end of the emission band (nm).
pub const EMISSION_LO: u32 = 0x43BE_0000;

/// `780.0`, the upper end of the emission band (nm).
pub const EMISSION_HI: u32 = 0x4443_0000;

/// `340.0`, the lower end of the excitation band (nm), in the UV.
pub const EXCITATION_LO: u32 = 0x43AA_0000;

/// `780.0`, the upper end of the excitation band (nm).
pub const EXCITATION_HI: u32 = 0x4443_0000;

/// The absorption half-width `max(0.5 * lambda_e * s / (2 * lambda_e - s), 2)`.
pub open spec fn half_width_formula<T, S>(lambda_e: Formula<T, S>, s: Formula<T, S>) -> Formula<T, S> {
    let den = Formula::Const(TWO).mul(lambda_e).sub(s).max(Formula::Const(DEN_FLOOR));
    let beta = lambda_e.mul(s).div(den);
    Formula::Const(HALF).mul(beta).max(Formula::Const(TWO))
}

/// The red-flank widening: 1.2 up to 450 nm, growing linearly to 1.4 at 500 nm.
pub open spec fn skew_formula<T, S>(lambda_e: Formula<T, S>) -> Formula<T, S> {
    let grown = lambda_e.sub(Formula::Const(SKEW_LE0)).mul(Formula::Const(SKEW_RAMP));
    Formula::Const(SKEW_BLUE).add(grown.clamp(Formula::Const(ZERO), Formula::Const(SKEW_SPAN)))
}

/// Analytic fluorophore profile for one material. What does not depend on the wavelength is
/// computed once: centres, half-widths and their reciprocals, normalizers, and the angles that the
/// samplers start from.
#[derive(Clone, Copy, Debug)]
pub struct FluorProfile<F> {
    /// Fluorophore concentration, in `0..=1`. Zero is non-fluorescent.
    pub c: F,
    /// Absorption centre (nm).
    pub mu_a: F,
    /// Absorption half-width (nm).
    pub gamma_a: F,
    /// `1 / gamma_a`
    pub inv_gamma_a: F,
    /// `Q * c`
    pub qc: F,
    /// Emission centre (nm).
    pub lambda_e: F,
    /// Emission half-width on the blue flank (nm).
    pub gamma_b: F,
    /// Emission half-width on the red flank (nm).
    pub gamma_r: F,
    /// `1 / gamma_b`
    pub inv_gamma_b: F,
    /// `1 / gamma_r`
    pub inv_gamma_r: F,
    /// One over the integral of the emission shape over the emission band.
    pub e_norm_rcp: F,
    /// Angle of the lower end of the blue flank.
    pub emis_a_blo: F,
    /// Angle of the upper end of the red flank.
    pub emis_a_rhi: F,
    /// Share of the blue flank in the emission.
    pub emis_blue_frac: F,
    /// Angle of the lower end of the excitation band.
    pub excite_a_lo: F,
    /// Angle that the excitation band spans.
    pub excite_da: F,
    /// Integral of the absorption over the excitation band.
    pub excite_int: F,
    /// `1 / excite_int`
    pub excite_rcp: F,
}

impl<S> FluorProfile<S> {
    /// `1 / (1 + ((lambda - mu_a) / gamma)^2)`
    pub open spec fn absorption_formula<T>(self, lambda: Formula<T, S>) -> Formula<T, S> {
        let z = lambda.sub(Formula::Splat(self.mu_a)).mul(Formula::Splat(self.inv_gamma_a));
        z.mul_adde(z, Formula::Const(ONE)).reciprocal()
    }

    /// `(1 / norm) / (1 + ((lambda - lambda_e) / gamma)^2)` with the half-width of the flank, and
    /// zero at and below the absorption centre.
    pub open spec fn emission_formula<T>(self, lambda: Formula<T, S>) -> Formula<T, S> {
        let red = lambda.ge(Formula::Splat(self.lambda_e));
        let inv = red.select(Formula::Splat(self.inv_gamma_r), Formula::Splat(self.inv_gamma_b));
        let z = lambda.sub(Formula::Splat(self.lambda_e)).mul(inv);
        let raw = Formula::Splat(self.e_norm_rcp).div(z.mul_adde(z, Formula::Const(ONE)));
        raw.zz(lambda.gt(Formula::Splat(self.mu_a)))
    }

    /// `1 - c a(lambda)`
    pub open spec fn elastic_formula<T>(self, lambda: Formula<T, S>) -> Formula<T, S> {
        self.absorption_formula(lambda).nmul_adde(Formula::Splat(self.c), Formula::Const(ONE))
    }

    /// `Q c a(lambda_i) e(lambda_o)`
    pub open spec fn reradiation_formula<T>(self, lambda_i: Formula<T, S>, lambda_o: Formula<T, S>) -> Formula<T, S> {
        Formula::Splat(self.qc).mul(self.absorption_formula(lambda_i)).mul(self.emission_formula(lambda_o))
    }

    /// `a(lambda) / integral of a` within the excitation band, and zero outside.
    pub open spec fn excite_pdf_formula<T>(self, lambda: Formula<T, S>) -> Formula<T, S> {
        let inside = lambda.ge(Formula::Const(EXCITATION_LO)).and(lambda.le(Formula::Const(EXCITATION_HI)));
        self.absorption_formula(lambda).mul(Formula::Splat(self.excite_rcp)).zz(inside)
    }

    /// The angle that a uniform number selects in the excitation band.
    pub open spec fn excitation_angle<T>(self, u: Formula<T, S>) -> Formula<T, S> {
        u.mul_adde(Formula::Splat(self.excite_da), Formula::Splat(self.excite_a_lo))
    }

    /// The wavelength at `z` half-widths from the absorption centre.
    pub open spec fn excitation_at<T>(self, z: Formula<T, S>) -> Formula<T, S> {
        z.mul_adde(Formula::Splat(self.gamma_a), Formula::Splat(self.mu_a))
    }

    /// The density of the wavelength at `z` half-widths from the absorption centre.
    pub open spec fn excitation_density<T>(self, z: Formula<T, S>) -> Formula<T, S> {
        z.mul_adde(z, Formula::Const(ONE)).mul(Formula::Splat(self.excite_int)).reciprocal()
    }

    /// The emission wavelength that a uniform number selects: its angle on the flank that it falls
    /// on, scaled by the half-width of that flank.
    pub open spec fn emission_at<T>(self, u: Formula<T, S>) -> Formula<T, S> {
        let frac = Formula::Splat(self.emis_blue_frac);
        let lo = Formula::Splat(self.emis_a_blo);
        let is_blue = u.lt(frac);
        let on_blue = u.div(frac).mul_adde(Formula::Const(ZERO).sub(lo), lo);
        let on_red = u.sub(frac).div(Formula::Const(ONE).sub(frac)).mul(Formula::Splat(self.emis_a_rhi));
        let angle = is_blue.select(on_blue, on_red);
        let gamma = is_blue.select(Formula::Splat(self.gamma_b), Formula::Splat(self.gamma_r));
        angle.tan().mul_adde(gamma, Formula::Splat(self.lambda_e))
    }
}

/// A number at hand, as a formula.
pub open spec fn at_hand<F: Scalar>(x: F) -> Formula<F, F> {
    Formula::Val(x)
}

/// Lane by lane, `invs` are the reciprocals of the half-widths, and `angles` the arc tangents of
/// `(bound - centre) / half-width`.
pub open spec fn flank_angles<F: Scalar, V: Lanes<4, Element = F>>(
    bounds: Seq<F>,
    centres: Seq<F>,
    widths: Seq<F>,
    invs: [F; 4],
    angles: [F; 4],
) -> bool {
    exists|bound: V, centre: V, width: V, inv: V, angle: V|
        {
            &&& #[trigger] vector_of::<V, 4>(bound, bounds)
            &&& #[trigger] vector_of::<V, 4>(centre, centres)
            &&& #[trigger] vector_of::<V, 4>(width, widths)
            &&& evals(Formula::Val(width).reciprocal(), inv)
            &&& evals(Formula::Val(bound).sub(Formula::Val(centre)).mul(Formula::Val(inv)).atan(), angle)
            &&& #[trigger] call_ensures(V::into_array, (inv,), invs)
            &&& #[trigger] call_ensures(V::into_array, (angle,), angles)
        }
}

impl<F: Scalar> FluorProfile<F> {
    /// The reciprocal half-widths and the angles come out of one vector pass, whose lanes are the
    /// blue flank, the red flank, and the lower and the upper end of the excitation band.
    pub open spec fn has_angles<V: Lanes<4, Element = F>>(self, bounds: Seq<F>) -> bool {
        let centres = seq![self.lambda_e, self.lambda_e, self.mu_a, self.mu_a];
        let widths = seq![self.gamma_b, self.gamma_r, self.gamma_a, self.gamma_a];
        exists|invs: [F; 4], angles: [F; 4]|
            {
                &&& #[trigger] flank_angles::<F, V>(bounds, centres, widths, invs, angles)
                &&& self.inv_gamma_b == invs[0]
                &&& self.inv_gamma_r == invs[1]
                &&& self.inv_gamma_a == invs[2]
                &&& self.emis_a_blo == angles[0]
                &&& self.emis_a_rhi == angles[1]
                &&& self.excite_a_lo == angles[2]
                &&& evals(at_hand(angles[3]).sub(at_hand(angles[2])), self.excite_da)
            }
    }

    /// The ends of the flanks and of the excitation band: the emission is cut off at the absorption
    /// centre or at the lower end of the emission band, whichever is longer.
    pub open spec fn has_bounds<V: Lanes<4, Element = F>>(self) -> bool {
        exists|blue: F, red: F, lo: F, hi: F|
            {
                &&& #[trigger] evals(at_hand(self.mu_a).max(Formula::Const(EMISSION_LO)), blue)
                &&& #[trigger] is_constant(EMISSION_HI, red)
                &&& #[trigger] is_constant(EXCITATION_LO, lo)
                &&& #[trigger] is_constant(EXCITATION_HI, hi)
                &&& self.has_angles::<V>(seq![blue, red, lo, hi])
            }
    }

    /// The normalizers: the area of each emission flank is its half-width times its angle, and the
    /// absorption integral is the half-width times the angle of the excitation band.
    pub open spec fn has_normalizers(self) -> bool {
        let blue = at_hand(self.gamma_b).neg().mul(at_hand(self.emis_a_blo));
        let red = at_hand(self.gamma_r).mul(at_hand(self.emis_a_rhi));
        let norm = blue.add(red).max(Formula::Const(NORM_FLOOR));
        &&& evals(Formula::Const(ONE).div(norm), self.e_norm_rcp)
        &&& evals(blue.div(norm), self.emis_blue_frac)
        &&& evals(at_hand(self.gamma_a).mul(at_hand(self.excite_da)), self.excite_int)
        &&& evals(
            Formula::Const(ONE).div(at_hand(self.excite_int).max(Formula::Const(NORM_FLOOR))),
            self.excite_rcp,
        )
    }

    /// This is the profile of the fluorophore `c, lambda_e, s, r`, with its angles computed by
    /// vectors of type `V`.
    pub open spec fn is_of<V: Lanes<4, Element = F>>(self, c: F, lambda_e: F, s: F, r: F) -> bool {
        &&& self.c == c
        &&& self.lambda_e == lambda_e
        &&& evals(at_hand(lambda_e).sub(at_hand(s)), self.mu_a)
        &&& evals(half_width_formula(at_hand(lambda_e), at_hand(s)), self.gamma_a)
        &&& evals(at_hand(self.gamma_a).mul(at_hand(r)), self.gamma_b)
        &&& evals(at_hand(self.gamma_b).mul(skew_formula(at_hand(lambda_e))), self.gamma_r)
        &&& evals(Formula::Const(Q).mul(at_hand(c)), self.qc)
        &&& self.has_bounds::<V>()
        &&& self.has_normalizers()
    }

    /// Derive the profile of the fluorophore of a material.
    pub fn from_uplift<V: Lanes<4, Element = F>>(p: &UpliftParams<F>) -> (r: Self)
        ensures
            r.is_of::<V>(p.c, p.lambda_e, p.s, p.r),
    {
        Self::new::<V>(p.c, p.lambda_e, p.s, p.r)
    }

    /// Derive the profile of the fluorophore `c, lambda_e, s, r`. The four angles are evaluated in
    /// one vector pass.
    pub fn new<V: Lanes<4, Element = F>>(c: F, lambda_e: F, s: F, r: F) -> (res: Self)
        ensures
            res.is_of::<V>(c, lambda_e, s, r),
    {
        let le = Term::val(lambda_e);
        let st = Term::val(s);
        let mu_a = le.sub(st).value();

        // absorption half-width
        let den = Term::constant(TWO).mul(le).sub(st).max(Term::constant(DEN_FLOOR));
        let beta = le.mul(st).div(den);
        let gamma_a = Term::constant(HALF).mul(beta).max(Term::constant(TWO)).value();

        // emission half-widths
        let grown = le.sub(Term::constant(SKEW_LE0)).mul(Term::constant(SKEW_RAMP));
        let skew = Term::constant(SKEW_BLUE).add(
            grown.clamp(Term::constant(ZERO), Term::constant(SKEW_SPAN)),
        );
        let gamma_b = Term::val(gamma_a).mul(Term::val(r)).value();
        let gamma_r = Term::val(gamma_b).mul(skew).value();

        // the four angles
        let blue_lo = Term::val(mu_a).max(Term::constant(EMISSION_LO)).value();
        let red_hi = F::from_bits(EMISSION_HI);
        let excite_lo = F::from_bits(EXCITATION_LO);
        let excite_hi = F::from_bits(EXCITATION_HI);
        assert(is_constant(EMISSION_HI, red_hi) && is_constant(EXCITATION_LO, excite_lo) && is_constant(
            EXCITATION_HI,
            excite_hi,
        ));
        let bounds: [F; 4] = [blue_lo, red_hi, excite_lo, excite_hi];
        let centres: [F; 4] = [lambda_e, lambda_e, mu_a, mu_a];
        let widths: [F; 4] = [gamma_b, gamma_r, gamma_a, gamma_a];
        let bound = V::new(bounds);
        let centre = V::new(centres);
        let width = V::new(widths);
        let inv = Term::val(width).reciprocal().value();
        let angle = Term::val(bound).sub(Term::val(centre)).mul(Term::val(inv)).atan().value();
        let invs = inv.into_array();
        let angles = angle.into_array();

        // normalizers
        let emis_a_blo = angles[0];
        let emis_a_rhi = angles[1];
        let excite_a_lo = angles[2];
        let excite_a_hi = angles[3];
        let blue = Term::val(gamma_b).neg().mul(Term::val(emis_a_blo));
        let red = Term::val(gamma_r).mul(Term::val(emis_a_rhi));
        let norm = blue.add(red).max(Term::constant(NORM_FLOOR));
        let excite_da = Term::val(excite_a_hi).sub(Term::val(excite_a_lo)).value();
        let excite_int = Term::val(gamma_a).mul(Term::val(excite_da)).value();
        let res = FluorProfile {
            c,
            mu_a,
            gamma_a,
            inv_gamma_a: invs[2],
            qc: Term::constant(Q).mul(Term::val(c)).value(),
            lambda_e,
            gamma_b,
            gamma_r,
            inv_gamma_b: invs[0],
            inv_gamma_r: invs[1],
            e_norm_rcp: Term::constant(ONE).div(norm).value(),
            emis_a_blo,
            emis_a_rhi,
            emis_blue_frac: blue.div(norm).value(),
            excite_a_lo,
            excite_da,
            excite_int,
            excite_rcp: Term::constant(ONE).div(
                Term::val(excite_int).max(Term::constant(NORM_FLOOR)),
            ).value(),
        };
        proof {
            assert(bounds@ =~= seq![blue_lo, red_hi, excite_lo, excite_hi]);
            assert(centres@ =~= seq![lambda_e, lambda_e, mu_a, mu_a]);
            assert(widths@ =~= seq![gamma_b, gamma_r, gamma_a, gamma_a]);
            assert(vector_of::<V, 4>(bound, bounds@));
            assert(vector_of::<V, 4>(centre, centres@));
            assert(vector_of::<V, 4>(width, widths@));
            assert(evals(at_hand(angles[3]).sub(at_hand(angles[2])), res.excite_da));
            assert(flank_angles::<F, V>(
                bounds@,
                seq![res.lambda_e, res.lambda_e, res.mu_a, res.mu_a],
                seq![res.gamma_b, res.gamma_r, res.gamma_a, res.gamma_a],
                invs,
                angles,
            ));
            assert(res.has_angles::<V>(bounds@));
            assert(res.has_bounds::<V>());
        }
        res
    }

    /// Peak-normalized symmetric absorption Lorentzian, 1 at its centre. Defined everywhere, the UV
    /// included.
    pub fn absorption<V: NnVector<Element = F>>(&self, lambda: V) -> (r: V)
        ensures
            evals(self.absorption_formula(Formula::Val(lambda)), r),
    {
        self.absorption_term(Term::val(lambda)).value()
    }

    fn absorption_term<V: NnVector<Element = F>>(&self, lambda: Term<V>) -> (r: Term<V>)
        ensures
            r.formula() == self.absorption_formula(lambda.formula()),
    {
        // The difference is taken first: both sides are large and close to each other.
        let z = lambda.sub(Term::splat(self.mu_a)).mul(Term::splat(self.inv_gamma_a));
        z.mul_adde(z, Term::constant(ONE)).reciprocal()
    }

    /// Normalized split-Lorentzian emission density, cut off at and below the absorption centre. It
    /// is also the density of the outgoing wavelength given the excitation.
    pub fn emission<V: NnVector<Element = F>>(&self, lambda: V) -> (r: V)
        ensures
            evals(self.emission_formula(Formula::Val(lambda)), r),
    {
        self.emission_term(Term::val(lambda)).value()
    }

    fn emission_term<V: NnVector<Element = F>>(&self, lambda: Term<V>) -> (r: Term<V>)
        ensures
            r.formula() == self.emission_formula(lambda.formula()),
    {
        let red = lambda.ge(Term::splat(self.lambda_e));
        let inv = red.select(Term::splat(self.inv_gamma_r), Term::splat(self.inv_gamma_b));
        let z = lambda.sub(Term::splat(self.lambda_e)).mul(inv);
        let raw = Term::splat(self.e_norm_rcp).div(z.mul_adde(z, Term::constant(ONE)));
        raw.zz(lambda.gt(Term::splat(self.mu_a)))
    }

    /// Elastic attenuation, to be multiplied into the base reflectance on the diagonal.
    pub fn elastic_attenuation<V: NnVector<Element = F>>(&self, lambda: V) -> (r: V)
        ensures
            evals(self.elastic_formula(Formula::Val(lambda)), r),
    {
        self.absorption_term(Term::val(lambda)).nmul_adde(
            Term::splat(self.c),
            Term::constant(ONE),
        ).value()
    }

    /// Rank-1 fluorescent reradiation kernel, the off-diagonal part of the reradiation matrix.
    pub fn reradiation<V: NnVector<Element = F>>(&self, lambda_i: V, lambda_o: V) -> (r: V)
        ensures
            evals(self.reradiation_formula(Formula::Val(lambda_i), Formula::Val(lambda_o)), r),
    {
        let a = self.absorption_term(Term::val(lambda_i));
        let e = self.emission_term(Term::val(lambda_o));
        Term::splat(self.qc).mul(a).mul(e).value()
    }

    /// The integral of the absorption over the excitation band.
    pub fn excite_integral(&self) -> (r: F)
        ensures
            r == self.excite_int,
    {
        self.excite_int
    }

    /// One over the integral of the absorption over the excitation band.
    pub fn excite_pdf_norm(&self) -> (r: F)
        ensures
            r == self.excite_rcp,
    {
        self.excite_rcp
    }

    /// Draw an excitation wavelength in proportion to the absorption over the excitation band, one
    /// independent draw per lane from uniform numbers of `0..1`. Returns the wavelength and its
    /// density.
    pub fn sample_excitation<V: NnVector<Element = F>>(&self, u: V) -> (r: (V, V))
        ensures
            exists|z: V|
                {
                    &&& #[trigger] evals(self.excitation_angle(Formula::Val(u)).tan(), z)
                    &&& evals(self.excitation_at(Formula::Val(z)), r.0)
                    &&& evals(self.excitation_density(Formula::Val(z)), r.1)
                },
    {
        let angle = Term::val(u).mul_adde(Term::splat(self.excite_da), Term::splat(self.excite_a_lo));
        let z = angle.tan().value();
        let t = Term::val(z);
        let lambda_i = t.mul_adde(Term::splat(self.gamma_a), Term::splat(self.mu_a)).value();
        let pdf = t.mul_adde(t, Term::constant(ONE)).mul(Term::splat(self.excite_int)).reciprocal().value();
        assert(evals(self.excitation_angle(Formula::Val(u)).tan(), z));
        (lambda_i, pdf)
    }

    /// Density of an excitation wavelength that was drawn some other way. Zero outside the
    /// excitation band.
    pub fn excite_pdf<V: NnVector<Element = F>>(&self, lambda_i: V) -> (r: V)
        ensures
            evals(self.excite_pdf_formula(Formula::Val(lambda_i)), r),
    {
        let l = Term::val(lambda_i);
        let inside = l.ge(Term::constant(EXCITATION_LO)).and(l.le(Term::constant(EXCITATION_HI)));
        self.absorption_term(l).mul(Term::splat(self.excite_rcp)).zz(inside).value()
    }

    /// Draw an emission wavelength in proportion to the emission over the emission band: pick a
    /// flank by area, then invert that flank's Lorentzian. One independent draw per lane from
    /// uniform numbers of `0..1`. Returns the wavelength and its density.
    pub fn sample_emission<V: NnVector<Element = F>>(&self, u: V) -> (r: (V, V))
        ensures
            evals(self.emission_at(Formula::Val(u)), r.0),
            evals(self.emission_formula(Formula::Val(r.0)), r.1),
    {
        let tu = Term::val(u);
        let frac = Term::splat(self.emis_blue_frac);
        let lo = Term::splat(self.emis_a_blo);

        let is_blue = tu.lt(frac);
        let u_blue = tu.div(frac);
        let u_red = tu.sub(frac).div(Term::constant(ONE).sub(frac));
        let on_blue = u_blue.mul_adde(Term::constant(ZERO).sub(lo), lo);
        let on_red = u_red.mul(Term::splat(self.emis_a_rhi));
        let angle = is_blue.select(on_blue, on_red);
        let gamma = is_blue.select(Term::splat(self.gamma_b), Term::splat(self.gamma_r));
        let lambda_o = angle.tan().mul_adde(gamma, Term::splat(self.lambda_e)).value();
        let pdf = self.emission(lambda_o);
        (lambda_o, pdf)
    }
}

} // verus!
