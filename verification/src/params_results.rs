//! Laws of the results of the reconstruction, where the vector arithmetic is exact.

use crate::formula::{defined, evals, exact, exact_holds, Formula, Lanes, NnVector, Scalar};
use crate::ieee::{f32_finite, f32_value, lemma_f32_value, HALF};
use crate::lanes::{constant_vector, vector_of};
use crate::model::{
    law_evals_exact, lemma_constant_lane, lemma_lane_of, map7, read_all, reads_lanes, reads_numbers,
    roots_exist, Model,
};
use crate::params::{
    are_bounded, bound_formula, bound_half_widths, bound_midpoints, bound_sharpness, tanh_formula,
    UpliftParams, RES_X_MAX, TAIL_GAIN,
};
use crate::params_laws::{
    lane_bound, law_bound_defined, law_bound_limit, law_bound_monotone, law_output_ranges, law_reflectance_bounded,
    law_reflectance_defined, law_reflectance_homogeneous, law_tanh_range, leak, lemma_leak, lemma_unit_values,
};
use vstd::arithmetic::power2::lemma2_to64;
use vstd::prelude::*;

verus! {

/// Parameters read as real numbers.
pub open spec fn read_params<A>(f: spec_fn(A) -> real, p: UpliftParams<A>) -> UpliftParams<real> {
    UpliftParams {
        coeffs: map7(f, p.coeffs),
        res_x: f(p.res_x),
        res_yy: f(p.res_yy),
        res_a: f(p.res_a),
        res_b: f(p.res_b),
        tail_c0: f(p.tail_c0),
        tail_c1: f(p.tail_c1),
        c: f(p.c),
        lambda_e: f(p.lambda_e),
        s: f(p.s),
        r: f(p.r),
    }
}

/// Reading the reflectance formula is the reflectance formula of what was read.
pub proof fn lemma_denote_reflectance<V: NnVector>(
    m: Model<V>,
    p: UpliftParams<V::Element>,
    lambda: Formula<V, V::Element>,
)
    ensures
        m.denote(p.reflectance_formula(lambda)) == read_params(m.elem, p).reflectance_formula(m.denote(lambda)),
{
    reveal_with_fuel(Model::denote, 12);
}

/// The reflectance that the kernel returns is the one that its formula denotes.
pub proof fn law_reflectance_result<V: NnVector>(m: Model<V>, p: UpliftParams<V::Element>, lambda: V, r: V)
    requires
        m.is_exact(),
        roots_exist(),
        (m.elem)(p.res_yy) > 0real,
        evals(p.reflectance_formula(Formula::Val(lambda)), r),
    ensures
        (m.lane)(r) == exact(
            read_params(m.elem, p).reflectance_formula(Formula::Val((m.lane)(lambda))),
        ),
{
    lemma_denote_reflectance(m, p, Formula::Val(lambda));
    law_reflectance_defined(read_params(m.elem, p), (m.lane)(lambda));
    law_evals_exact(m, p.reflectance_formula(Formula::Val(lambda)), r);
}

// ----------------------------------------------------------------------------
// Bounded outputs
// ----------------------------------------------------------------------------

/// A bound depends on its parts through the numbers that they denote.
proof fn lemma_bound_values(
    raw: Formula<real, real>,
    mid: Formula<real, real>,
    half: Formula<real, real>,
    sharp: Formula<real, real>,
)
    ensures
        exact(bound_formula(raw, mid, half, sharp)) == exact(
            bound_formula(
                Formula::Val(exact(raw)),
                Formula::Val(exact(mid)),
                Formula::Val(exact(half)),
                Formula::Val(exact(sharp)),
            ),
        ),
{
    reveal_with_fuel(exact, 9);
    reveal_with_fuel(exact_holds, 2);
}

/// The bounded outputs are, lane by lane, the bounds of the raw outputs.
pub proof fn law_bounded_results<F: Scalar, V: Lanes<8, Element = F>>(
    s: Model<F>,
    v: spec_fn(int) -> Model<V>,
    raw: Seq<F>,
    b: [F; 8],
    l: int,
)
    requires
        reads_numbers(s),
        reads_lanes::<F, V, 8>(s, v),
        roots_exist(),
        are_bounded::<F, V>(raw, b),
        0 <= l < 8,
    ensures
        (s.elem)(b[l]) == exact(lane_bound(l, (s.elem)(raw[l]))),
{
    let (x, mid, half, sharp, out) = choose|x: V, mid: V, half: V, sharp: V, out: V|
        {
            &&& vector_of::<V, 8>(x, raw)
            &&& constant_vector::<V, F, 8>(mid, bound_midpoints())
            &&& constant_vector::<V, F, 8>(half, bound_half_widths())
            &&& constant_vector::<V, F, 8>(sharp, bound_sharpness())
            &&& #[trigger] evals(
                bound_formula(Formula::Val(x), Formula::Val(mid), Formula::Val(half), Formula::Val(sharp)),
                out,
            )
            &&& call_ensures(V::into_array, (out,), b)
        };
    let m = v(l);
    assert(m.is_exact());
    assert(l == 0 || l == 1 || l == 2 || l == 3 || l == 4 || l == 5 || l == 6 || l == 7);
    lemma_lane_of::<F, V, 8>(s, v, x, raw, l);
    lemma_constant_lane::<F, V, 8>(s, v, mid, bound_midpoints(), l);
    lemma_constant_lane::<F, V, 8>(s, v, half, bound_half_widths(), l);
    lemma_constant_lane::<F, V, 8>(s, v, sharp, bound_sharpness(), l);
    let e = bound_formula(Formula::Val(x), Formula::Val(mid), Formula::Val(half), Formula::Val(sharp));
    let rx = Formula::<real, real>::Val((m.lane)(x));
    let rmid = Formula::<real, real>::Val((m.lane)(mid));
    let rhalf = Formula::<real, real>::Val((m.lane)(half));
    let rsharp = Formula::<real, real>::Val((m.lane)(sharp));
    assert(m.denote(e) == bound_formula(rx, rmid, rhalf, rsharp)) by {
        reveal_with_fuel(Model::denote, 10);
        reveal_with_fuel(Model::denote_condition, 3);
    }
    law_bound_defined(rx, rmid, rhalf, rsharp);
    law_evals_exact(m, e, out);
    lemma_bound_values(
        Formula::Val((s.elem)(raw[l])),
        Formula::Const(bound_midpoints()[l]),
        Formula::Const(bound_half_widths()[l]),
        Formula::Const(bound_sharpness()[l]),
    );
    assert((m.elem)(b[l]) == (m.lane)(out));
}

/// The bound of a lane is defined, where roots exist.
pub proof fn lemma_lane_bound_defined(l: int, x: real)
    requires
        roots_exist(),
        0 <= l < 8,
    ensures
        defined(lane_bound(l, x)),
{
    assert(l == 0 || l == 1 || l == 2 || l == 3 || l == 4 || l == 5 || l == 6 || l == 7);
    law_bound_defined(
        Formula::Val(x),
        Formula::Const(bound_midpoints()[l]),
        Formula::Const(bound_half_widths()[l]),
        Formula::Const(bound_sharpness()[l]),
    );
}

/// A product of two numbers at hand.
proof fn lemma_product<F: Scalar>(s: Model<F>, x: F, y: F, r: F)
    requires
        reads_numbers(s),
        evals(Formula::<F, F>::Val(x).mul(Formula::Val(y)), r),
    ensures
        (s.elem)(r) == (s.elem)(x) * (s.elem)(y),
{
    reveal_with_fuel(Model::denote, 3);
    reveal_with_fuel(exact, 3);
    reveal_with_fuel(defined, 3);
    law_evals_exact(s, Formula::<F, F>::Val(x).mul(Formula::Val(y)), r);
}

/// A product of a number at hand and a constant.
proof fn lemma_scaled<F: Scalar>(s: Model<F>, x: F, bits: u32, r: F)
    requires
        reads_numbers(s),
        f32_finite(bits),
        evals(Formula::<F, F>::Val(x).mul(Formula::Const(bits)), r),
    ensures
        (s.elem)(r) == (s.elem)(x) * f32_value(bits),
{
    reveal_with_fuel(Model::denote, 3);
    reveal_with_fuel(exact, 3);
    reveal_with_fuel(defined, 3);
    law_evals_exact(s, Formula::<F, F>::Val(x).mul(Formula::Const(bits)), r);
}

/// The parameters of 16 outputs, in real numbers.
pub open spec fn params_of_reals(o: Seq<real>) -> UpliftParams<real> {
    let y = exact(lane_bound(0, o[8]));
    let alpha = exact(lane_bound(1, o[9]));
    let beta = exact(lane_bound(2, o[10]));
    let scale = exact(lane_bound(3, o[11]));
    UpliftParams {
        coeffs: [o[0], o[1], o[2], o[3], o[4], o[5], o[6]],
        res_x: f32_value(RES_X_MAX) * exact(tanh_formula(Formula::<real, real>::Val(o[7]))),
        res_yy: y * y,
        res_a: alpha * (y * y),
        res_b: beta * y,
        tail_c0: scale * f32_value(HALF),
        tail_c1: scale * f32_value(TAIL_GAIN),
        c: exact(lane_bound(4, o[12])),
        lambda_e: exact(lane_bound(5, o[13])),
        s: exact(lane_bound(6, o[14])),
        r: exact(lane_bound(7, o[15])),
    }
}

/// The centre of the resonance.
proof fn lemma_res_x<F: Scalar>(s: Model<F>, x: F, r: F)
    requires
        reads_numbers(s),
        roots_exist(),
        evals(Formula::<F, F>::Const(RES_X_MAX).mul(tanh_formula(Formula::Val(x))), r),
    ensures
        (s.elem)(r) == f32_value(RES_X_MAX) * exact(tanh_formula(Formula::<real, real>::Val((s.elem)(x)))),
{
    let e = Formula::<F, F>::Const(RES_X_MAX).mul(tanh_formula(Formula::Val(x)));
    let t = tanh_formula(Formula::<real, real>::Val((s.elem)(x)));
    assert(s.denote(e) == Formula::Const(RES_X_MAX).mul(t)) by {
        reveal_with_fuel(Model::denote, 7);
    }
    law_tanh_range((s.elem)(x));
    reveal_with_fuel(exact, 2);
    reveal_with_fuel(defined, 2);
    law_evals_exact(s, e, r);
}

/// A product of a number at hand and a square.
proof fn lemma_times_square<F: Scalar>(s: Model<F>, x: F, y: F, r: F)
    requires
        reads_numbers(s),
        evals(Formula::<F, F>::Val(x).mul(Formula::Val(y).mul(Formula::Val(y))), r),
    ensures
        (s.elem)(r) == (s.elem)(x) * ((s.elem)(y) * (s.elem)(y)),
{
    reveal_with_fuel(Model::denote, 4);
    reveal_with_fuel(exact, 4);
    reveal_with_fuel(defined, 4);
    law_evals_exact(s, Formula::<F, F>::Val(x).mul(Formula::Val(y).mul(Formula::Val(y))), r);
}

/// The outputs determine the parameters.
pub proof fn law_params_result<F: Scalar, V: Lanes<8, Element = F>>(
    s: Model<F>,
    v: spec_fn(int) -> Model<V>,
    o: Seq<F>,
    p: UpliftParams<F>,
)
    requires
        reads_numbers(s),
        reads_lanes::<F, V, 8>(s, v),
        roots_exist(),
        o.len() == 16,
        p.bounds::<V>(o),
    ensures
        read_params(s.elem, p) == params_of_reals(read_all(s.elem, o)),
{
    let raw = o.subrange(8, 16);
    let b = choose|b: [F; 8]| #[trigger] are_bounded::<F, V>(raw, b) && p.are_of(o, b@);
    assert forall|l: int| 0 <= l < 8 implies (s.elem)(#[trigger] b[l]) == exact(
        lane_bound(l, (s.elem)(o[8 + l])),
    ) by {
        law_bounded_results::<F, V>(s, v, raw, b, l);
    }
    lemma_res_x(s, o[7], p.res_x);
    lemma_product(s, b[0], b[0], p.res_yy);
    lemma_times_square(s, b[1], b[0], p.res_a);
    lemma_product(s, b[2], b[0], p.res_b);
    lemma_scaled(s, b[3], HALF, p.tail_c0);
    lemma_scaled(s, b[3], TAIL_GAIN, p.tail_c1);
    assert forall|i: int| 0 <= i < 7 implies #[trigger] p.coeffs[i] == o[i] by {
        assert(p.coeffs@[i] == o.subrange(0, 7)[i]);
    }
    let q = read_params(s.elem, p);
    let t = params_of_reals(read_all(s.elem, o));
    assert(b[0] == b@[0] && b[1] == b@[1] && b[2] == b@[2] && b[3] == b@[3]);
    assert(q.coeffs == t.coeffs);
}

/// Whatever the network puts out, its bounded parameters lie in their ranges: a concentration and a
/// scale of `0..=1`, an emission peak of `400..=700` nm, a Stokes shift of `5..=150` nm, a width ratio
/// of `0.15..=1.75`, and a resonance whose centre lies within 1.2, whose width `y` lies in
/// `0.02..=1`, and whose amplitudes lie within 12, all up to the rounding of the constants.
///
/// In a number type of limited range this holds as long as the powers of the raw outputs do not
/// overflow: see [`bound_formula`].
pub proof fn law_params_of_reals(o: Seq<real>) -> (scale: real)
    requires
        roots_exist(),
        o.len() == 16,
    ensures
        ({
            let p = params_of_reals(o);
            &&& 0real <= scale <= 1real
            &&& p.tail_c0 == exact(Formula::Val(scale).mul(Formula::Const(HALF)))
            &&& p.tail_c1 == exact(Formula::Val(scale).mul(Formula::Const(TAIL_GAIN)))
            &&& 0real <= p.tail_c0 <= 1real / 2real
            &&& p.tail_c1 == (1real - 2real * leak()) * p.tail_c0
            &&& -12001real / 10000real <= p.res_x <= 12001real / 10000real
            &&& 39601real / 100000000real <= p.res_yy <= 1real
            &&& -12real * p.res_yy <= p.res_a <= 12real * p.res_yy
            &&& p.res_b * p.res_b <= 144real * p.res_yy
            &&& 0real <= p.c <= 1real
            &&& 400real <= p.lambda_e <= 700real
            &&& 5real <= p.s <= 150real
            &&& 15real / 100real <= p.r <= 17501real / 10000real
        }),
{
    lemma_lane_bound_defined(0, o[8]);
    lemma_lane_bound_defined(1, o[9]);
    lemma_lane_bound_defined(2, o[10]);
    lemma_lane_bound_defined(3, o[11]);
    lemma_lane_bound_defined(4, o[12]);
    lemma_lane_bound_defined(5, o[13]);
    lemma_lane_bound_defined(6, o[14]);
    lemma_lane_bound_defined(7, o[15]);
    law_output_ranges(0, o[8]);
    law_output_ranges(1, o[9]);
    law_output_ranges(2, o[10]);
    law_output_ranges(3, o[11]);
    law_output_ranges(4, o[12]);
    law_output_ranges(5, o[13]);
    law_output_ranges(6, o[14]);
    law_output_ranges(7, o[15]);
    law_tanh_range(o[7]);
    lemma_leak();
    lemma_unit_values();
    let y = exact(lane_bound(0, o[8]));
    let alpha = exact(lane_bound(1, o[9]));
    let beta = exact(lane_bound(2, o[10]));
    let scale = exact(lane_bound(3, o[11]));
    let yy = y * y;
    assert(39601real / 100000000real <= yy <= 1real) by (nonlinear_arith)
        requires
            yy == y * y,
            199real / 10000real <= y <= 1real,
    ;
    assert(-12real * yy <= alpha * yy <= 12real * yy) by (nonlinear_arith)
        requires
            yy >= 0real,
            -12real <= alpha <= 12real,
    ;
    let b = beta * y;
    let bb = beta * beta;
    assert(bb <= 144real) by (nonlinear_arith)
        requires
            bb == beta * beta,
            -12real <= beta <= 12real,
    ;
    assert(b * b <= 144real * yy) by (nonlinear_arith)
        requires
            b == beta * y,
            bb == beta * beta,
            yy == y * y,
            yy >= 0real,
            bb <= 144real,
    ;
    lemma2_to64();
    lemma_f32_value(RES_X_MAX);
    let g = f32_value(RES_X_MAX);
    assert(g == 10066330real / 8388608real);
    let t = exact(tanh_formula(Formula::<real, real>::Val(o[7])));
    assert(-g <= g * t <= g) by (nonlinear_arith)
        requires
            g >= 0real,
            -1real <= t <= 1real,
    ;
    let h = f32_value(HALF);
    let k = f32_value(TAIL_GAIN);
    assert(0real <= scale * h <= 1real / 2real && scale * k == (1real - 2real * (1real / 2real - k)) * (scale * h))
        by (nonlinear_arith)
        requires
            0real <= scale <= 1real,
            h == 1real / 2real,
    ;
    reveal_with_fuel(exact, 3);
    scale
}

/// Whatever the network puts out, the parameters that are returned lie in their ranges.
pub proof fn law_params_in_range<F: Scalar, V: Lanes<8, Element = F>>(
    s: Model<F>,
    v: spec_fn(int) -> Model<V>,
    o: Seq<F>,
    p: UpliftParams<F>,
) -> (scale: real)
    requires
        reads_numbers(s),
        reads_lanes::<F, V, 8>(s, v),
        roots_exist(),
        o.len() == 16,
        p.bounds::<V>(o),
    ensures
        0real <= scale <= 1real,
        (s.elem)(p.tail_c0) == exact(Formula::Val(scale).mul(Formula::Const(HALF))),
        (s.elem)(p.tail_c1) == exact(Formula::Val(scale).mul(Formula::Const(TAIL_GAIN))),
        0real <= (s.elem)(p.tail_c0) <= 1real / 2real,
        (s.elem)(p.tail_c1) == (1real - 2real * leak()) * (s.elem)(p.tail_c0),
        -12001real / 10000real <= (s.elem)(p.res_x) <= 12001real / 10000real,
        39601real / 100000000real <= (s.elem)(p.res_yy) <= 1real,
        -12real * (s.elem)(p.res_yy) <= (s.elem)(p.res_a) <= 12real * (s.elem)(p.res_yy),
        (s.elem)(p.res_b) * (s.elem)(p.res_b) <= 144real * (s.elem)(p.res_yy),
        0real <= (s.elem)(p.c) <= 1real,
        400real <= (s.elem)(p.lambda_e) <= 700real,
        5real <= (s.elem)(p.s) <= 150real,
        15real / 100real <= (s.elem)(p.r) <= 17501real / 10000real,
{
    law_params_result::<F, V>(s, v, o, p);
    assert(read_params(s.elem, p).c == (s.elem)(p.c));
    law_params_of_reals(read_all(s.elem, o))
}

/// A bounded output never decreases with its raw output, and depends on no other: of two calls, the
/// one with the larger raw output in a lane returns the larger number in that lane.
pub proof fn law_bounded_results_monotone<F: Scalar, V: Lanes<8, Element = F>>(
    s: Model<F>,
    v: spec_fn(int) -> Model<V>,
    raw1: Seq<F>,
    b1: [F; 8],
    raw2: Seq<F>,
    b2: [F; 8],
    l: int,
)
    requires
        reads_numbers(s),
        reads_lanes::<F, V, 8>(s, v),
        roots_exist(),
        are_bounded::<F, V>(raw1, b1),
        are_bounded::<F, V>(raw2, b2),
        0 <= l < 8,
        (s.elem)(raw1[l]) <= (s.elem)(raw2[l]),
    ensures
        (s.elem)(b1[l]) <= (s.elem)(b2[l]),
{
    law_bounded_results::<F, V>(s, v, raw1, b1, l);
    law_bounded_results::<F, V>(s, v, raw2, b2, l);
    lemma_lane_bound_defined(l, (s.elem)(raw1[l]));
    lemma_lane_bound_defined(l, (s.elem)(raw2[l]));
    law_bound_monotone(l, (s.elem)(raw1[l]), (s.elem)(raw2[l]));
}

/// A bounded output tends to the ends of its range: for a raw output of size `x` it lies within
/// `half / (1 + x)` of the end on its side.
///
/// In a number type of limited range this holds as long as the power of the raw output does not
/// overflow: see [`bound_formula`].
pub proof fn law_bounded_results_limit<F: Scalar, V: Lanes<8, Element = F>>(
    s: Model<F>,
    v: spec_fn(int) -> Model<V>,
    raw: Seq<F>,
    b: [F; 8],
    l: int,
)
    requires
        reads_numbers(s),
        reads_lanes::<F, V, 8>(s, v),
        roots_exist(),
        are_bounded::<F, V>(raw, b),
        0 <= l < 8,
    ensures
        ({
            let mid = f32_value(bound_midpoints()[l]);
            let half = f32_value(bound_half_widths()[l]);
            let x = (s.elem)(raw[l]);
            &&& x >= 0real ==> mid + half - half / (1real + x) <= (s.elem)(b[l]) <= mid + half
            &&& x <= 0real ==> mid - half <= (s.elem)(b[l]) <= mid - half + half / (1real - x)
        }),
{
    law_bounded_results::<F, V>(s, v, raw, b, l);
    lemma_lane_bound_defined(l, (s.elem)(raw[l]));
    law_bound_limit(l, (s.elem)(raw[l]));
}

/// Whatever the network puts out, the reflectance that comes of it lies within
/// `leak * scale ..= (1 - leak) * scale`, and so within `0..=1`, at every wavelength. The scale is twice
/// the constant term of the tail.
pub proof fn law_uplift_bounded<F: Scalar, V: Lanes<8, Element = F>, W: NnVector<Element = F>>(
    s: Model<F>,
    v: spec_fn(int) -> Model<V>,
    m: Model<W>,
    o: Seq<F>,
    p: UpliftParams<F>,
    lambda: W,
    r: W,
)
    requires
        reads_numbers(s),
        reads_lanes::<F, V, 8>(s, v),
        m.is_exact(),
        m.elem == s.elem,
        roots_exist(),
        o.len() == 16,
        p.bounds::<V>(o),
        evals(p.reflectance_formula(Formula::Val(lambda)), r),
    ensures
        leak() * (2real * (m.elem)(p.tail_c0)) <= (m.lane)(r) <= (1real - leak()) * (2real * (m.elem)(p.tail_c0)),
        0real <= (m.lane)(r) <= 1real,
{
    let scale = law_params_in_range::<F, V>(s, v, o, p);
    let q = read_params(m.elem, p);
    let l = (m.lane)(lambda);
    law_reflectance_result(m, p, lambda, r);
    law_reflectance_defined(q, l);
    law_reflectance_bounded(q, scale, l);
    assert(scale == 2real * q.tail_c0) by {
        reveal_with_fuel(exact, 2);
        lemma_unit_values();
        let h = f32_value(HALF);
        assert(scale * h == scale / 2real) by (nonlinear_arith)
            requires
                h == 1real / 2real,
        ;
    }
}

/// Dimming preserves saturation: where two materials differ in their scale alone, by a factor `k`, so do
/// their reflectances at every wavelength.
pub proof fn law_dimmed_result<V: NnVector>(
    m: Model<V>,
    p: UpliftParams<V::Element>,
    d: UpliftParams<V::Element>,
    k: real,
    lambda: V,
    r: V,
    t: V,
)
    requires
        m.is_exact(),
        roots_exist(),
        (m.elem)(p.res_yy) > 0real,
        ({
            let q = read_params(m.elem, p);
            read_params(m.elem, d) == (UpliftParams { tail_c0: k * q.tail_c0, tail_c1: k * q.tail_c1, ..q })
        }),
        evals(p.reflectance_formula(Formula::Val(lambda)), r),
        evals(d.reflectance_formula(Formula::Val(lambda)), t),
    ensures
        (m.lane)(t) == k * (m.lane)(r),
{
    law_reflectance_result(m, p, lambda, r);
    law_reflectance_result(m, d, lambda, t);
    law_reflectance_homogeneous(read_params(m.elem, p), k, (m.lane)(lambda));
}

} // verus!
