//! What bounding the outputs and evaluating the reflectance answers, in plain numbers.
//!
//! Each law takes what the functions returned and says, as arithmetic on the arguments, what numbers these
//! are, where the vector arithmetic is exact.

use crate::formula::{
    chebyshev_sum, chebyshev_t, defined, exact, has_root, is_root, root, Formula, Lanes, NnVector,
    Scalar,
};
use crate::ieee::{f32_value, lemma_f32_value, HALF};
use crate::model::{law_evals_exact, read_all, reads_lanes, reads_numbers, roots_exist, Model};
use crate::params::{
    bound_half_widths, bound_midpoints, bound_outputs, tanh_formula, UpliftParams, RES_X_MAX, TAIL_GAIN,
    U_INTERCEPT, U_SLOPE,
};
use crate::params_laws::{
    bound_core, lane_bound, lemma_bound_core, lemma_leak, lemma_root_positive, lemma_unit_values,
};
use crate::params_results::{
    law_bounded_results, law_params_result, lemma_denote_reflectance, lemma_lane_bound_defined,
    params_of_reals, read_params,
};
use vstd::arithmetic::power2::lemma2_to64;
use vstd::prelude::*;

verus! {

// ----------------------------------------------------------------------------
// Squashing cores
// ----------------------------------------------------------------------------

/// `t` is `x / sqrt(1 + x^2)`.
pub open spec fn is_soft(x: real, t: real) -> bool {
    &&& t * t * (1real + x * x) == x * x
    &&& x >= 0real ==> t >= 0real
    &&& x <= 0real ==> t <= 0real
}

/// `t` is `x / (1 + x^4)^(1/4)`.
pub open spec fn is_sharp(x: real, t: real) -> bool {
    &&& (t * t) * (t * t) * (1real + (x * x) * (x * x)) == (x * x) * (x * x)
    &&& x >= 0real ==> t >= 0real
    &&& x <= 0real ==> t <= 0real
}

/// A number times the inverse of the root.
proof fn lemma_is_soft(x: real, s: real)
    requires
        is_root(x * x + 1real, s),
    ensures
        s > 0real,
        is_soft(x, x * (1real / s)),
{
    let n = x * x + 1real;
    assert(n >= 1real) by (nonlinear_arith)
        requires
            n == x * x + 1real,
    ;
    lemma_root_positive(n, s);
    let i = 1real / s;
    let t = x * i;
    assert(i > 0real && i * s == 1real) by (nonlinear_arith)
        requires
            i == 1real / s,
            s > 0real,
    ;
    assert(i * i * n == 1real) by (nonlinear_arith)
        requires
            i * s == 1real,
            s * s == n,
    ;
    assert(t * t * n == x * x) by (nonlinear_arith)
        requires
            t == x * i,
            i * i * n == 1real,
    ;
    assert((x >= 0real ==> t >= 0real) && (x <= 0real ==> t <= 0real)) by (nonlinear_arith)
        requires
            t == x * i,
            i > 0real,
    ;
}

/// A number times an inverse fourth root `d`, whose square is the inverse of the root `s`.
proof fn lemma_is_sharp(x: real, s: real, d: real)
    requires
        is_root((x * x) * (x * x) + 1real, s),
        s > 0real,
        d >= 0real,
        d * d * s == 1real,
    ensures
        is_sharp(x, x * d),
{
    let a = x * x;
    let n = a * a + 1real;
    let e = d * d;
    let t = x * d;
    let u = t * t;
    assert(u == a * e) by (nonlinear_arith)
        requires
            u == t * t,
            t == x * d,
            a == x * x,
            e == d * d,
    ;
    assert(e * e * n == 1real) by (nonlinear_arith)
        requires
            e * s == 1real,
            s * s == n,
    ;
    assert(u * u * n == a * a) by (nonlinear_arith)
        requires
            u == a * e,
            e * e * n == 1real,
    ;
    assert((x >= 0real ==> t >= 0real) && (x <= 0real ==> t <= 0real)) by (nonlinear_arith)
        requires
            t == x * d,
            d >= 0real,
    ;
}

// ----------------------------------------------------------------------------
// Bounded outputs
// ----------------------------------------------------------------------------

/// `b` is the bound of raw output `x` in lane `l`, of `y, alpha, beta, scale, c, lambda_e, s, r`: the
/// middle of its range plus half the width of the range times the soft core of `x` in the first three
/// lanes and the sharp one in the others. The ranges are `0.02..=1`, twice `-12..=12`, twice `0..=1`,
/// `400..=700`, `5..=150` and `0.15..=1.75`, with their middles and halves as binary32 numbers.
pub open spec fn is_bound(l: int, x: real, b: real) -> bool {
    if l == 0 {
        exists|t: real| #[trigger]
            is_soft(x, t) && b == 8556380real / 16777216real + (16441672real / 33554432real) * t
    } else if l == 1 || l == 2 {
        exists|t: real| #[trigger] is_soft(x, t) && b == 12real * t
    } else if l == 3 || l == 4 {
        exists|t: real| #[trigger] is_sharp(x, t) && b == 1real / 2real + (1real / 2real) * t
    } else if l == 5 {
        exists|t: real| #[trigger] is_sharp(x, t) && b == 550real + 150real * t
    } else if l == 6 {
        exists|t: real| #[trigger] is_sharp(x, t) && b == 155real / 2real + (145real / 2real) * t
    } else {
        exists|t: real| #[trigger]
            is_sharp(x, t) && b == 15938356real / 16777216real + (13421773real / 16777216real) * t
    }
}

/// The middles and halves of the ranges.
proof fn lemma_ranges(l: int)
    requires
        0 <= l < 8,
    ensures
        ({
            let mid = f32_value(bound_midpoints()[l]);
            let half = f32_value(bound_half_widths()[l]);
            &&& l == 0 ==> mid == 8556380real / 16777216real && half == 16441672real / 33554432real
            &&& l == 1 || l == 2 ==> mid == 0real && half == 12real
            &&& l == 3 || l == 4 ==> mid == 1real / 2real && half == 1real / 2real
            &&& l == 5 ==> mid == 550real && half == 150real
            &&& l == 6 ==> mid == 155real / 2real && half == 145real / 2real
            &&& l == 7 ==> mid == 15938356real / 16777216real && half == 13421773real / 16777216real
        }),
{
    let mid = bound_midpoints()[l];
    let half = bound_half_widths()[l];
    lemma_unit_values();
    lemma2_to64();
    if l != 1 && l != 2 {
        lemma_f32_value(mid);
    }
    lemma_f32_value(half);
    assert(l == 0 ==> f32_value(mid) == 8556380real / 16777216real);
    assert(l == 0 ==> f32_value(half) == 16441672real / 33554432real);
    assert(l == 1 || l == 2 ==> f32_value(half) == 12582912real / 1048576real);
    assert(l == 5 ==> f32_value(mid) == 9011200real / 16384real);
    assert(l == 5 ==> f32_value(half) == 9830400real / 65536real);
    assert(l == 6 ==> f32_value(mid) == 10158080real / 131072real);
    assert(l == 6 ==> f32_value(half) == 9502720real / 131072real);
    assert(l == 7 ==> f32_value(mid) == 15938356real / 16777216real);
    assert(l == 7 ==> f32_value(half) == 13421773real / 16777216real);
}

/// The bound of a lane.
proof fn lemma_is_bound(l: int, x: real)
    requires
        roots_exist(),
        0 <= l < 8,
    ensures
        is_bound(l, x, exact(lane_bound(l, x))),
{
    lemma_lane_bound_defined(l, x);
    lemma_bound_core(l, x);
    lemma_ranges(l);
    let t = bound_core(l, x);
    let mid = f32_value(bound_midpoints()[l]);
    let half = f32_value(bound_half_widths()[l]);
    if l >= 3 {
        let s = root((x * x) * (x * x) + 1real);
        let d = root(1real / s);
        assert(d * d * s == 1real) by (nonlinear_arith)
            requires
                d * d == 1real / s,
                s > 0real,
        ;
        lemma_is_sharp(x, s, d);
        assert(is_sharp(x, t));
    } else {
        lemma_is_soft(x, root(x * x + 1real));
        assert(is_soft(x, t));
    }
    assert(l == 0 ==> half * t == (16441672real / 33554432real) * t) by (nonlinear_arith)
        requires
            l == 0 ==> half == 16441672real / 33554432real,
    ;
    assert(l == 1 || l == 2 ==> half * t == 12real * t) by (nonlinear_arith)
        requires
            l == 1 || l == 2 ==> half == 12real,
    ;
    assert(l == 3 || l == 4 ==> half * t == (1real / 2real) * t) by (nonlinear_arith)
        requires
            l == 3 || l == 4 ==> half == 1real / 2real,
    ;
    assert(l == 5 ==> half * t == 150real * t) by (nonlinear_arith)
        requires
            l == 5 ==> half == 150real,
    ;
    assert(l == 6 ==> half * t == (145real / 2real) * t) by (nonlinear_arith)
        requires
            l == 6 ==> half == 145real / 2real,
    ;
    assert(l == 7 ==> half * t == (13421773real / 16777216real) * t) by (nonlinear_arith)
        requires
            l == 7 ==> half == 13421773real / 16777216real,
    ;
}

/// [`bound_outputs`] returns, lane by lane, the bound of the raw output at that place behind the eighth.
pub proof fn law_bound_answer<F: Scalar, V: Lanes<8, Element = F>>(
    s: Model<F>,
    v: spec_fn(int) -> Model<V>,
    o: &[F],
    b: [F; 8],
    l: int,
)
    requires
        reads_numbers(s),
        reads_lanes::<F, V, 8>(s, v),
        roots_exist(),
        o@.len() >= 16,
        call_ensures(bound_outputs::<F, V>, (o,), b),
        0 <= l < 8,
    ensures
        is_bound(l, (s.elem)(o@[8 + l]), (s.elem)(b[l])),
{
    let raw = o@.subrange(8, 16);
    law_bounded_results::<F, V>(s, v, raw, b, l);
    lemma_is_bound(l, (s.elem)(o@[8 + l]));
}

// ----------------------------------------------------------------------------
// Parameters
// ----------------------------------------------------------------------------

/// The parameters of 16 outputs: the first seven are the coefficients, the next one gives the centre of
/// the resonance, and the bounds of the other eight give the rest.
pub open spec fn are_params(o: Seq<real>, p: UpliftParams<real>) -> bool {
    &&& p.coeffs@ =~= o.subrange(0, 7)
    &&& exists|t: real| #[trigger] is_soft(o[7], t) && p.res_x == (10066330real / 8388608real) * t
    &&& exists|y: real, alpha: real, beta: real, scale: real|
        {
            &&& #[trigger] is_bound(0, o[8], y)
            &&& #[trigger] is_bound(1, o[9], alpha)
            &&& #[trigger] is_bound(2, o[10], beta)
            &&& #[trigger] is_bound(3, o[11], scale)
            &&& p.res_yy == y * y
            &&& p.res_a == alpha * (y * y)
            &&& p.res_b == beta * y
            &&& p.tail_c0 == scale / 2real
            &&& p.tail_c1 == scale * (16773861real / 33554432real)
        }
    &&& is_bound(4, o[12], p.c)
    &&& is_bound(5, o[13], p.lambda_e)
    &&& is_bound(6, o[14], p.s)
    &&& is_bound(7, o[15], p.r)
}

/// The centre of the resonance.
proof fn lemma_is_tanh(x: real)
    requires
        roots_exist(),
    ensures
        is_soft(x, exact(tanh_formula(Formula::<real, real>::Val(x)))),
        f32_value(RES_X_MAX) == 10066330real / 8388608real,
{
    lemma2_to64();
    lemma_f32_value(RES_X_MAX);
    assert(f32_value(RES_X_MAX) == 10066330real / 8388608real);
    reveal_with_fuel(exact, 6);
    lemma_unit_values();
    let n = x * x + 1real;
    assert(n >= 1real) by (nonlinear_arith)
        requires
            n == x * x + 1real,
    ;
    assert(1real + x * x == n);
    assert(has_root(n));
    let s = root(n);
    assert(is_root(n, s));
    lemma_is_soft(x, s);
    assert(x / s == x * (1real / s)) by (nonlinear_arith)
        requires
            s > 0real,
    ;
}

/// The parameters of numbers.
pub proof fn lemma_are_params(o: Seq<real>)
    requires
        roots_exist(),
        o.len() == 16,
    ensures
        are_params(o, params_of_reals(o)),
{
    let p = params_of_reals(o);
    lemma_is_tanh(o[7]);
    let t = exact(tanh_formula(Formula::<real, real>::Val(o[7])));
    let k = f32_value(RES_X_MAX);
    assert(k * t == (10066330real / 8388608real) * t) by (nonlinear_arith)
        requires
            k == 10066330real / 8388608real,
    ;
    assert(is_soft(o[7], t));
    lemma_is_bound(0, o[8]);
    lemma_is_bound(1, o[9]);
    lemma_is_bound(2, o[10]);
    lemma_is_bound(3, o[11]);
    lemma_is_bound(4, o[12]);
    lemma_is_bound(5, o[13]);
    lemma_is_bound(6, o[14]);
    lemma_is_bound(7, o[15]);
    lemma_unit_values();
    lemma_leak();
    let scale = exact(lane_bound(3, o[11]));
    let h = f32_value(HALF);
    let g = f32_value(TAIL_GAIN);
    assert(scale * h == scale / 2real && scale * g == scale * (16773861real / 33554432real)) by (nonlinear_arith)
        requires
            h == 1real / 2real,
            g == 16773861real / 33554432real,
    ;
    assert(is_bound(0, o[8], exact(lane_bound(0, o[8]))));
    assert(is_bound(1, o[9], exact(lane_bound(1, o[9]))));
    assert(is_bound(2, o[10], exact(lane_bound(2, o[10]))));
    assert(is_bound(3, o[11], scale));
    assert(p.coeffs@ =~= o.subrange(0, 7));
}

/// [`UpliftParams::from_outputs`] returns the parameters of the 16 outputs. The coefficients are the first
/// seven outputs themselves.
pub proof fn law_from_outputs_answer<F: Scalar, V: Lanes<8, Element = F>>(
    s: Model<F>,
    v: spec_fn(int) -> Model<V>,
    o: &[F],
    p: UpliftParams<F>,
)
    requires
        reads_numbers(s),
        reads_lanes::<F, V, 8>(s, v),
        roots_exist(),
        o@.len() >= 16,
        call_ensures(UpliftParams::<F>::from_outputs::<V>, (o,), p),
    ensures
        are_params(read_all(s.elem, o@.take(16)), read_params(s.elem, p)),
        forall|i: int| 0 <= i < 7 ==> #[trigger] p.coeffs[i] == o@[i],
{
    law_params_result::<F, V>(s, v, o@.take(16), p);
    lemma_are_params(read_all(s.elem, o@.take(16)));
    assert forall|i: int| 0 <= i < 7 implies #[trigger] p.coeffs[i] == o@[i] by {
        assert(p.coeffs@[i] == o@.take(16).subrange(0, 7)[i]);
    }
}

// ----------------------------------------------------------------------------
// Reflectance
// ----------------------------------------------------------------------------

/// The place of a wavelength on the scale on which `360..=800` nm is `-1..=1`. The slope and the intercept
/// are binary32 numbers.
pub open spec fn band_place(lambda: real) -> real {
    lambda * (9761289real / 2147483648real) - 11057710real / 4194304real
}

/// The ends of the band are at `-1` and `1`, up to the rounding of the constants.
pub proof fn law_band_ends()
    ensures
        -1000001real / 1000000real < band_place(360real) < -999999real / 1000000real,
        999999real / 1000000real < band_place(800real) < 1000001real / 1000000real,
{
}

/// The Chebyshev series of degree six at `u`.
pub open spec fn series(c: Seq<real>, u: real) -> real {
    let t2 = 2real * u * u - 1real;
    let t3 = 2real * u * t2 - u;
    let t4 = 2real * u * t3 - t2;
    let t5 = 2real * u * t4 - t3;
    let t6 = 2real * u * t5 - t4;
    c[0] + c[1] * u + c[2] * t2 + c[3] * t3 + c[4] * t4 + c[5] * t5 + c[6] * t6
}

/// `r` is the reflectance at the wavelength `lambda`: at `u` on the band and `d` from the centre of the
/// resonance the logit `p` is the series plus `(a + b d) / (d^2 + y^2)`, and the reflectance is
/// `c0 + c1 p / (1 + p^4)^(1/4)`.
pub open spec fn is_reflectance(p: UpliftParams<real>, lambda: real, r: real) -> bool {
    let u = band_place(lambda);
    let d = u - p.res_x;
    let logit = series(p.coeffs@, u) + (p.res_a + p.res_b * d) / (d * d + p.res_yy);
    exists|t: real| #[trigger] is_sharp(logit, t) && r == p.tail_c0 + p.tail_c1 * t
}

/// The series is the sum that it should be.
proof fn lemma_series(c: Seq<real>, u: real)
    requires
        c.len() == 7,
    ensures
        chebyshev_sum(c, 7, u) == series(c, u),
{
    reveal_with_fuel(chebyshev_sum, 8);
    reveal_with_fuel(chebyshev_t, 8);
    let t2 = chebyshev_t(2, u);
    assert(2real * u * chebyshev_t(1, u) - chebyshev_t(0, u) == 2real * u * u - 1real);
    let c0 = c[0];
    assert(c0 * 1real == c0) by (nonlinear_arith);
}

/// The logit.
proof fn lemma_logit(p: UpliftParams<real>, lambda: real)
    requires
        ({
            let d = band_place(lambda) - p.res_x;
            d * d + p.res_yy != 0real
        }),
    ensures
        defined(p.logit::<real>(Formula::Val(lambda))),
        ({
            let u = band_place(lambda);
            let d = u - p.res_x;
            exact(p.logit::<real>(Formula::Val(lambda))) == series(p.coeffs@, u) + (p.res_a + p.res_b * d) / (d * d
                + p.res_yy)
        }),
{
    lemma2_to64();
    lemma_f32_value(U_SLOPE);
    lemma_f32_value(U_INTERCEPT);
    assert(f32_value(U_SLOPE) == 9761289real / 2147483648real);
    assert(f32_value(U_INTERCEPT) == 0real - 11057710real / 4194304real);
    let k = f32_value(U_SLOPE);
    let u = band_place(lambda);
    assert(lambda * k == lambda * (9761289real / 2147483648real)) by (nonlinear_arith)
        requires
            k == 9761289real / 2147483648real,
    ;
    let d = u - p.res_x;
    let n = p.res_b * d + p.res_a;
    let m = d * d + p.res_yy;
    lemma_series(p.coeffs@, u);
    reveal_with_fuel(exact, 6);
    reveal_with_fuel(defined, 6);
    assert(n * (1real / m) == n / m) by (nonlinear_arith)
        requires
            m != 0real,
    ;
}

/// The sigmoid.
proof fn lemma_tail(p: UpliftParams<real>, e: Formula<real, real>)
    requires
        roots_exist(),
        defined(e),
    ensures
        defined(p.tail(e)),
        exists|t: real| #[trigger] is_sharp(exact(e), t) && exact(p.tail(e)) == p.tail_c0 + p.tail_c1 * t,
{
    let x = exact(e);
    let a = x * x;
    let n = a * a + 1real;
    assert(n >= 1real) by (nonlinear_arith)
        requires
            n == a * a + 1real,
    ;
    assert(has_root(n));
    let s1 = root(n);
    assert(is_root(n, s1));
    lemma_root_positive(n, s1);
    assert(has_root(s1));
    let s2 = root(s1);
    assert(is_root(s1, s2));
    lemma_root_positive(s1, s2);
    lemma_unit_values();
    reveal_with_fuel(exact, 8);
    reveal_with_fuel(defined, 8);
    let d = 1real / s2;
    assert(d >= 0real && d * d * s1 == 1real) by (nonlinear_arith)
        requires
            d == 1real / s2,
            s2 > 0real,
            s2 * s2 == s1,
    ;
    lemma_is_sharp(x, s1, d);
    assert(is_sharp(x, x * d));
}

/// The reflectance that the parameters denote.
pub proof fn lemma_is_reflectance(p: UpliftParams<real>, lambda: real)
    requires
        roots_exist(),
        ({
            let d = band_place(lambda) - p.res_x;
            d * d + p.res_yy != 0real
        }),
    ensures
        defined(p.reflectance_formula::<real>(Formula::Val(lambda))),
        is_reflectance(p, lambda, exact(p.reflectance_formula::<real>(Formula::Val(lambda)))),
{
    lemma_logit(p, lambda);
    lemma_tail(p, p.logit::<real>(Formula::Val(lambda)));
}

/// [`UpliftParams::reflectance`] returns in every lane the reflectance at the wavelength in that lane, for
/// resonances of either sign.
pub proof fn law_reflectance_answer<V: NnVector>(
    m: Model<V>,
    p: UpliftParams<V::Element>,
    lambda: V,
    r: V,
)
    where V::Element: Scalar
    requires
        m.is_exact(),
        roots_exist(),
        ({
            let d = band_place((m.lane)(lambda)) - (m.elem)(p.res_x);
            d * d + (m.elem)(p.res_yy) != 0real
        }),
        call_ensures(UpliftParams::<V::Element>::reflectance::<V>, (&p, lambda), r),
    ensures
        is_reflectance(read_params(m.elem, p), (m.lane)(lambda), (m.lane)(r)),
{
    let q = read_params(m.elem, p);
    lemma_is_reflectance(q, (m.lane)(lambda));
    lemma_denote_reflectance(m, p, Formula::Val(lambda));
    law_evals_exact(m, p.reflectance_formula(Formula::Val(lambda)), r);
}

} // verus!
