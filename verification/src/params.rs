//! Reconstruction parameters of one material colour, and the base reflectance that they describe.
//!
//! The network puts out 16 numbers. Seven are the coefficients of a Chebyshev series in wavelength,
//! and nine are squashed into fixed ranges: the resonance `x, y, alpha, beta`, the scale, the
//! fluorophore `c, lambda_e, s` and the emission-width ratio `r`, in that order.

use crate::formula::{evals, Formula, Lanes, NnVector, Scalar};
use crate::ieee::{HALF, ONE, ZERO};
use crate::lanes::{constant_vector, constants8, vector_of};
use crate::term::Term;
use vstd::prelude::*;

verus! {

/// Slope of the linear map from wavelength to `-1..=1`: `2 / (800 - 360)`.
pub const U_SLOPE: u32 = 0x3B94_F209;

/// Intercept of that map: `-1 - 360 * U_SLOPE`.
pub const U_INTERCEPT: u32 = 0xC028_BA2E;

/// `1.2`, the bound on the centre of the resonance.
pub const RES_X_MAX: u32 = 0x3F99_999A;

/// `0.5 * (1 - 2 * leak)` with a leak of `1.0e-4`.
pub const TAIL_GAIN: u32 = 0x3EFF_F2E5;

/// Midpoints of the bounded outputs `y, alpha, beta, scale, c, lambda_e, s, r`.
pub open spec fn bound_midpoints() -> Seq<u32> {
    seq![
        0x3F02_8F5Cu32,  // 0.51
        0x0000_0000,  // 0
        0x0000_0000,  // 0
        0x3F00_0000,  // 0.5
        0x3F00_0000,  // 0.5
        0x4409_8000,  // 550
        0x429B_0000,  // 77.5
        0x3F73_3334,  // 0.95
    ]
}

/// Half-widths of the bounded outputs, in the same order.
pub open spec fn bound_half_widths() -> Seq<u32> {
    seq![
        0x3EFA_E148u32,  // 0.49
        0x4140_0000,  // 12
        0x4140_0000,  // 12
        0x3F00_0000,  // 0.5
        0x3F00_0000,  // 0.5
        0x4316_0000,  // 150
        0x4291_0000,  // 72.5
        0x3F4C_CCCD,  // 0.8
    ]
}

/// `1.0` for the bounded outputs that take the sharp 4th-power squashing, `0.0` for those that take
/// the 2nd-power one.
pub open spec fn bound_sharpness() -> Seq<u32> {
    seq![ZERO, ZERO, ZERO, ONE, ONE, ONE, ONE, ONE]
}

/// The algebraic hyperbolic tangent `x / sqrt(1 + x^2)`.
pub open spec fn tanh_formula<T, S>(x: Formula<T, S>) -> Formula<T, S> {
    x.div(Formula::Const(ONE).add(x.mul(x)).sqrt())
}

/// The bound `mid + half * x * (1 + x^p)^(-1/p)`, with `p = 4` where `sharp > 0` and `p = 2`
/// elsewhere.
///
/// The power is taken before the root. In binary32 it overflows where `|x|` exceeds about `4e9` for
/// `p = 4` and `1.8e19` for `p = 2`. The bound is then `mid` or no number, in place of the limit
/// `mid + half` or `mid - half`.
pub open spec fn bound_formula<T, S>(
    x: Formula<T, S>,
    mid: Formula<T, S>,
    half: Formula<T, S>,
    sharp: Formula<T, S>,
) -> Formula<T, S> {
    let is_p4 = sharp.gt(Formula::Const(ZERO));
    let x2 = x.mul(x);
    let base = is_p4.select(x2.mul(x2), x2).add(Formula::Const(ONE));
    let inv = base.inverse_sqrt();
    let d = is_p4.select(inv.sqrt(), inv);
    d.mul_adde(half.mul(x), mid)
}

/// `r` are the bounded outputs of the raw outputs `y, alpha, beta, scale, c, lambda_e, s, r`: lane by
/// lane the bound formula, with that lane's midpoint, half-width and sharpness.
pub open spec fn are_bounded<F: Scalar, V: Lanes<8, Element = F>>(raw: Seq<F>, r: [F; 8]) -> bool {
    exists|x: V, mid: V, half: V, sharp: V, out: V|
        {
            &&& vector_of::<V, 8>(x, raw)
            &&& constant_vector::<V, F, 8>(mid, bound_midpoints())
            &&& constant_vector::<V, F, 8>(half, bound_half_widths())
            &&& constant_vector::<V, F, 8>(sharp, bound_sharpness())
            &&& #[trigger] evals(
                bound_formula(Formula::Val(x), Formula::Val(mid), Formula::Val(half), Formula::Val(sharp)),
                out,
            )
            &&& call_ensures(V::into_array, (out,), r)
        }
}

/// Bound the trailing 8 outputs in one vector pass. The raw outputs are, in lane order,
/// `y, alpha, beta, scale, c, lambda_e, s, r`.
///
/// Every bound has the same shape, an affine image of the algebraic squashing core
/// `x * (1 + x^p)^(-1/p)`, so only the constants and the power differ from lane to lane.
///
/// The core is computed as [`bound_formula`] says, its power before its root. The number type therefore
/// limits the raw outputs that are bounded: in binary32 `x^4` overflows where `|x|` exceeds about `4e9`,
/// and `x^2` where it exceeds about `1.8e19`. The result is then the midpoint or no number, not the limit.
pub fn bound_outputs<F: Scalar, V: Lanes<8, Element = F>>(o: &[F]) -> (r: [F; 8])
    requires
        o@.len() >= 16,
    ensures
        are_bounded::<F, V>(o@.subrange(8, 16), r),
{
    let raw: [F; 8] = [o[8], o[9], o[10], o[11], o[12], o[13], o[14], o[15]];
    assert(raw@ =~= o@.subrange(8, 16));
    let vx = V::new(raw);
    let mids: [u32; 8] = [
        0x3F02_8F5C,
        0x0000_0000,
        0x0000_0000,
        0x3F00_0000,
        0x3F00_0000,
        0x4409_8000,
        0x429B_0000,
        0x3F73_3334,
    ];
    let halves: [u32; 8] = [
        0x3EFA_E148,
        0x4140_0000,
        0x4140_0000,
        0x3F00_0000,
        0x3F00_0000,
        0x4316_0000,
        0x4291_0000,
        0x3F4C_CCCD,
    ];
    let sharps: [u32; 8] = [ZERO, ZERO, ZERO, ONE, ONE, ONE, ONE, ONE];
    assert(mids@ =~= bound_midpoints());
    assert(halves@ =~= bound_half_widths());
    assert(sharps@ =~= bound_sharpness());
    let vmid: V = constants8(mids);
    let vhalf: V = constants8(halves);
    let vsharp: V = constants8(sharps);

    let x = Term::val(vx);
    let mid = Term::val(vmid);
    let half = Term::val(vhalf);
    let is_p4 = Term::val(vsharp).gt(Term::constant(ZERO));
    let x2 = x.mul(x);
    let base = is_p4.select(x2.mul(x2), x2).add(Term::constant(ONE));
    let inv = base.inverse_sqrt();
    let d = is_p4.select(inv.sqrt(), inv);
    let out = d.mul_adde(half.mul(x), mid).value();
    assert(vector_of::<V, 8>(vx, raw@));
    assert(evals(
        bound_formula(Formula::Val(vx), Formula::Val(vmid), Formula::Val(vhalf), Formula::Val(vsharp)),
        out,
    ));
    out.into_array()
}

/// Bounded reconstruction parameters for one material colour. The base reflectance is evaluated by
/// [`Self::reflectance`]. The fluorophore `c, lambda_e, s, r` is for the fluorescence of the same
/// material.
///
/// The resonance and the tail are kept in the form in which an evaluation uses them, so that what
/// does not depend on the wavelength is computed once.
#[derive(Clone, Copy, Debug)]
pub struct UpliftParams<F> {
    /// Chebyshev coefficients.
    pub coeffs: [F; 7],
    /// Centre of the resonance, on the scale on which the band is `-1..=1`.
    pub res_x: F,
    /// `y^2`, the floor of the denominator.
    pub res_yy: F,
    /// `alpha * y^2`, the absorption numerator.
    pub res_a: F,
    /// `beta * y`, the coefficient of the dispersion numerator.
    pub res_b: F,
    /// `0.5 * scale`
    pub tail_c0: F,
    /// `0.5 * scale * (1 - 2 * leak)`
    pub tail_c1: F,
    /// Fluorophore concentration, in `0..=1`.
    pub c: F,
    /// Emission peak (nm).
    pub lambda_e: F,
    /// Stokes shift (nm).
    pub s: F,
    /// Emission-width ratio.
    pub r: F,
}

impl<S> UpliftParams<S> {
    /// The logit at a wavelength: the Chebyshev series plus the resonance
    /// `(a + b * d) / (d^2 + y^2)`, at distance `d` from the centre.
    pub open spec fn logit<T>(self, lambda: Formula<T, S>) -> Formula<T, S> {
        let u = lambda.mul_adde(Formula::Const(U_SLOPE), Formula::Const(U_INTERCEPT));
        let d = u.sub(Formula::Splat(self.res_x));
        let inv = d.mul_adde(d, Formula::Splat(self.res_yy)).reciprocal();
        let num = Formula::Splat(self.res_b).mul_adde(d, Formula::Splat(self.res_a));
        num.mul_adde(inv, u.chebyshev(self.coeffs))
    }

    /// The sharp algebraic sigmoid of a logit, with leak and scale:
    /// `c0 + c1 * p * (1 + p^4)^(-1/4)`.
    pub open spec fn tail<T>(self, p: Formula<T, S>) -> Formula<T, S> {
        let p2 = p.mul(p);
        let q = p2.mul_adde(p2, Formula::Const(ONE)).sqrt().inverse_sqrt();
        Formula::Splat(self.tail_c1).mul_adde(p.mul(q), Formula::Splat(self.tail_c0))
    }

    /// The base reflectance at a wavelength.
    pub open spec fn reflectance_formula<T>(self, lambda: Formula<T, S>) -> Formula<T, S> {
        self.tail(self.logit(lambda))
    }
}

impl<F: Scalar> UpliftParams<F> {
    /// These are the parameters of the 16 outputs `o`, the last 8 of which were bounded to `b`.
    pub open spec fn are_of(self, o: Seq<F>, b: Seq<F>) -> bool {
        let y = Formula::<F, F>::Val(b[0]);
        let alpha = Formula::<F, F>::Val(b[1]);
        let beta = Formula::<F, F>::Val(b[2]);
        let scale = Formula::<F, F>::Val(b[3]);
        &&& self.coeffs@ == o.subrange(0, 7)
        &&& evals(Formula::Const(RES_X_MAX).mul(tanh_formula(Formula::Val(o[7]))), self.res_x)
        &&& evals(y.mul(y), self.res_yy)
        &&& evals(alpha.mul(y.mul(y)), self.res_a)
        &&& evals(beta.mul(y), self.res_b)
        &&& evals(scale.mul(Formula::Const(HALF)), self.tail_c0)
        &&& evals(scale.mul(Formula::Const(TAIL_GAIN)), self.tail_c1)
        &&& self.c == b[4]
        &&& self.lambda_e == b[5]
        &&& self.s == b[6]
        &&& self.r == b[7]
    }

    /// These are the parameters of the 16 outputs `o`, bounded with vectors of type `V`.
    pub open spec fn bounds<V: Lanes<8, Element = F>>(self, o: Seq<F>) -> bool {
        exists|b: [F; 8]| #[trigger] are_bounded::<F, V>(o.subrange(8, 16), b) && self.are_of(o, b@)
    }

    /// Bound the network's 16 raw outputs and precompute what does not depend on the wavelength.
    /// What `o` holds beyond them is not read.
    pub fn from_outputs<V: Lanes<8, Element = F>>(o: &[F]) -> (r: Self)
        requires
            o@.len() >= 16,
        ensures
            r.bounds::<V>(o@.take(16)),
    {
        let res_x = Term::constant(RES_X_MAX).mul(alg_tanh(Term::val(o[7]))).value();
        let b = bound_outputs::<F, V>(o);
        let y = Term::val(b[0]);
        let yy = y.mul(y);
        let scale = Term::val(b[3]);
        let coeffs: [F; 7] = [o[0], o[1], o[2], o[3], o[4], o[5], o[6]];
        assert(coeffs@ =~= o@.take(16).subrange(0, 7));
        assert(o@.take(16).subrange(8, 16) =~= o@.subrange(8, 16));
        let r = UpliftParams {
            coeffs,
            res_x,
            res_yy: yy.value(),
            res_a: Term::val(b[1]).mul(yy).value(),
            res_b: Term::val(b[2]).mul(y).value(),
            tail_c0: scale.mul(Term::constant(HALF)).value(),
            tail_c1: scale.mul(Term::constant(TAIL_GAIN)).value(),
            c: b[4],
            lambda_e: b[5],
            s: b[6],
            r: b[7],
        };
        assert(r.are_of(o@.take(16), b@));
        r
    }

    /// Base reflectance, over a vector of wavelengths in nm. Fluorescence is not part of it.
    pub fn reflectance<V: NnVector<Element = F>>(&self, lambda: V) -> (r: V)
        ensures
            evals(self.reflectance_formula(Formula::Val(lambda)), r),
    {
        self.reflectance_term(Term::val(lambda)).value()
    }

    /// As [`Self::reflectance`], on a wavelength that carries its formula.
    pub fn reflectance_term<V: NnVector<Element = F>>(&self, lambda: Term<V>) -> (r: Term<V>)
        ensures
            r.formula() == self.reflectance_formula(lambda.formula()),
    {
        let u = lambda.mul_adde(Term::constant(U_SLOPE), Term::constant(U_INTERCEPT));
        let d = u.sub(Term::splat(self.res_x));
        let inv = d.mul_adde(d, Term::splat(self.res_yy)).reciprocal();
        let num = Term::splat(self.res_b).mul_adde(d, Term::splat(self.res_a));
        let p = num.mul_adde(inv, u.chebyshev(&self.coeffs));

        let p2 = p.mul(p);
        let q = p2.mul_adde(p2, Term::constant(ONE)).sqrt().inverse_sqrt();
        Term::splat(self.tail_c1).mul_adde(p.mul(q), Term::splat(self.tail_c0))
    }
}

/// The algebraic hyperbolic tangent.
pub fn alg_tanh<F: Scalar>(x: Term<F>) -> (r: Term<F>)
    ensures
        r.formula() == tanh_formula(x.formula()),
{
    x.div(Term::constant(ONE).add(x.mul(x)).sqrt())
}

} // verus!
