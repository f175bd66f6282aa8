//! Laws of two ways to the same result, where the vector operations are functions.

use crate::blob::N_LAYERS;
use crate::fluor::{
    at_hand, flank_angles, half_width_formula, skew_formula, FluorProfile, EMISSION_HI, EMISSION_LO,
    EXCITATION_HI, EXCITATION_LO, NORM_FLOOR, Q,
};
use crate::formula::{evals, Formula, Lanes, NnBackend, Scalar};
use crate::ieee::{HALF, ONE};
use crate::lanes::{constant_vector, is_constant, vector_of};
use crate::layer::{are_outputs, is_layer, outputs_at, outputs_formula, outputs_steps};
use crate::net::{
    chroma2_formula, fast_lab_f_formula, is_lab, lab_gains, lab_lane_formula, lab_offsets, lab_steps,
    lab_weights, layer_split, standardized, DeployNet,
};
use crate::net_results::lemma_group;
use crate::params::{
    are_bounded, bound_formula, bound_half_widths, bound_midpoints, bound_sharpness, tanh_formula,
    UpliftParams, RES_X_MAX, TAIL_GAIN,
};
use crate::unique::{
    is_function, lanes_are_function, law_evals_unique, lemma_constants_unique, lemma_vector_unique,
};
use vstd::prelude::*;

verus! {

// ----------------------------------------------------------------------------
// Parameters
// ----------------------------------------------------------------------------

/// The raw outputs determine the bounded ones.
pub proof fn law_bounded_unique<F: Scalar, V: Lanes<8, Element = F>>(raw: Seq<F>, a: [F; 8], b: [F; 8])
    requires
        is_function::<F>(),
        lanes_are_function::<V, 8>(),
        are_bounded::<F, V>(raw, a),
        are_bounded::<F, V>(raw, b),
    ensures
        a == b,
{
    let (x1, m1, h1, s1, o1) = choose|x: V, mid: V, half: V, sharp: V, out: V|
        {
            &&& vector_of::<V, 8>(x, raw)
            &&& constant_vector::<V, F, 8>(mid, bound_midpoints())
            &&& constant_vector::<V, F, 8>(half, bound_half_widths())
            &&& constant_vector::<V, F, 8>(sharp, bound_sharpness())
            &&& #[trigger] evals(
                bound_formula(Formula::Val(x), Formula::Val(mid), Formula::Val(half), Formula::Val(sharp)),
                out,
            )
            &&& call_ensures(V::into_array, (out,), a)
        };
    let (x2, m2, h2, s2, o2) = choose|x: V, mid: V, half: V, sharp: V, out: V|
        {
            &&& vector_of::<V, 8>(x, raw)
            &&& constant_vector::<V, F, 8>(mid, bound_midpoints())
            &&& constant_vector::<V, F, 8>(half, bound_half_widths())
            &&& constant_vector::<V, F, 8>(sharp, bound_sharpness())
            &&& #[trigger] evals(
                bound_formula(Formula::Val(x), Formula::Val(mid), Formula::Val(half), Formula::Val(sharp)),
                out,
            )
            &&& call_ensures(V::into_array, (out,), b)
        };
    lemma_vector_unique::<V, 8>(x1, x2, raw);
    lemma_constants_unique::<V, F, 8>(m1, m2, bound_midpoints());
    lemma_constants_unique::<V, F, 8>(h1, h2, bound_half_widths());
    lemma_constants_unique::<V, F, 8>(s1, s2, bound_sharpness());
    law_evals_unique(
        bound_formula(Formula::Val(x1), Formula::Val(m1), Formula::Val(h1), Formula::Val(s1)),
        o1,
        o2,
    );
}

/// The outputs of the network determine the parameters, field for field.
pub proof fn law_params_unique<F: Scalar, V: Lanes<8, Element = F>>(
    o: Seq<F>,
    p: UpliftParams<F>,
    q: UpliftParams<F>,
)
    requires
        is_function::<F>(),
        lanes_are_function::<V, 8>(),
        p.bounds::<V>(o),
        q.bounds::<V>(o),
    ensures
        p == q,
{
    let raw = o.subrange(8, 16);
    let a = choose|b: [F; 8]| #[trigger] are_bounded::<F, V>(raw, b) && p.are_of(o, b@);
    let b = choose|b: [F; 8]| #[trigger] are_bounded::<F, V>(raw, b) && q.are_of(o, b@);
    law_bounded_unique::<F, V>(raw, a, b);
    let y = Formula::<F, F>::Val(b@[0]);
    let scale = Formula::<F, F>::Val(b@[3]);
    law_evals_unique(Formula::Const(RES_X_MAX).mul(tanh_formula(Formula::<F, F>::Val(o[7]))), p.res_x, q.res_x);
    law_evals_unique(y.mul(y), p.res_yy, q.res_yy);
    law_evals_unique(Formula::<F, F>::Val(b@[1]).mul(y.mul(y)), p.res_a, q.res_a);
    law_evals_unique(Formula::<F, F>::Val(b@[2]).mul(y), p.res_b, q.res_b);
    law_evals_unique(scale.mul(Formula::Const(HALF)), p.tail_c0, q.tail_c0);
    law_evals_unique(scale.mul(Formula::Const(TAIL_GAIN)), p.tail_c1, q.tail_c1);
    assert(p.coeffs =~= q.coeffs) by {
        assert forall|i: int| 0 <= i < 7 implies p.coeffs[i] == q.coeffs[i] by {
            assert(p.coeffs@[i] == o.subrange(0, 7)[i]);
            assert(q.coeffs@[i] == o.subrange(0, 7)[i]);
        }
    }
}

// ----------------------------------------------------------------------------
// Fluorescence
// ----------------------------------------------------------------------------

/// One vector pass gives one set of reciprocals and angles.
proof fn lemma_angles_unique<F: Scalar, V: Lanes<4, Element = F>>(
    bounds: Seq<F>,
    centres: Seq<F>,
    widths: Seq<F>,
    i1: [F; 4],
    a1: [F; 4],
    i2: [F; 4],
    a2: [F; 4],
)
    requires
        lanes_are_function::<V, 4>(),
        flank_angles::<F, V>(bounds, centres, widths, i1, a1),
        flank_angles::<F, V>(bounds, centres, widths, i2, a2),
    ensures
        i1 == i2,
        a1 == a2,
{
    let (b1, c1, w1, n1, g1) = choose|bound: V, centre: V, width: V, inv: V, angle: V|
        {
            &&& #[trigger] vector_of::<V, 4>(bound, bounds)
            &&& #[trigger] vector_of::<V, 4>(centre, centres)
            &&& #[trigger] vector_of::<V, 4>(width, widths)
            &&& evals(Formula::Val(width).reciprocal(), inv)
            &&& evals(Formula::Val(bound).sub(Formula::Val(centre)).mul(Formula::Val(inv)).atan(), angle)
            &&& #[trigger] call_ensures(V::into_array, (inv,), i1)
            &&& #[trigger] call_ensures(V::into_array, (angle,), a1)
        };
    let (b2, c2, w2, n2, g2) = choose|bound: V, centre: V, width: V, inv: V, angle: V|
        {
            &&& #[trigger] vector_of::<V, 4>(bound, bounds)
            &&& #[trigger] vector_of::<V, 4>(centre, centres)
            &&& #[trigger] vector_of::<V, 4>(width, widths)
            &&& evals(Formula::Val(width).reciprocal(), inv)
            &&& evals(Formula::Val(bound).sub(Formula::Val(centre)).mul(Formula::Val(inv)).atan(), angle)
            &&& #[trigger] call_ensures(V::into_array, (inv,), i2)
            &&& #[trigger] call_ensures(V::into_array, (angle,), a2)
        };
    lemma_vector_unique::<V, 4>(b1, b2, bounds);
    lemma_vector_unique::<V, 4>(c1, c2, centres);
    lemma_vector_unique::<V, 4>(w1, w2, widths);
    law_evals_unique(Formula::<V, F>::Val(w1).reciprocal(), n1, n2);
    law_evals_unique(Formula::<V, F>::Val(b1).sub(Formula::Val(c1)).mul(Formula::Val(n1)).atan(), g1, g2);
}

/// The fluorophore determines the profile, field for field. So a profile derived from the parameters of
/// a material is the one of its `c, lambda_e, s, r`, and nothing else of the parameters matters.
pub proof fn law_profile_unique<F: Scalar, V: Lanes<4, Element = F>>(
    c: F,
    lambda_e: F,
    s: F,
    r: F,
    p: FluorProfile<F>,
    q: FluorProfile<F>,
)
    requires
        is_function::<F>(),
        lanes_are_function::<V, 4>(),
        p.is_of::<V>(c, lambda_e, s, r),
        q.is_of::<V>(c, lambda_e, s, r),
    ensures
        p == q,
{
    law_evals_unique(at_hand(lambda_e).sub(at_hand(s)), p.mu_a, q.mu_a);
    law_evals_unique(half_width_formula(at_hand(lambda_e), at_hand(s)), p.gamma_a, q.gamma_a);
    law_evals_unique(at_hand(p.gamma_a).mul(at_hand(r)), p.gamma_b, q.gamma_b);
    law_evals_unique(at_hand(p.gamma_b).mul(skew_formula(at_hand(lambda_e))), p.gamma_r, q.gamma_r);
    law_evals_unique(Formula::Const(Q).mul(at_hand(c)), p.qc, q.qc);
    let (b1, r1, l1, h1) = choose|blue: F, red: F, lo: F, hi: F|
        {
            &&& #[trigger] evals(at_hand(p.mu_a).max(Formula::Const(EMISSION_LO)), blue)
            &&& #[trigger] is_constant(EMISSION_HI, red)
            &&& #[trigger] is_constant(EXCITATION_LO, lo)
            &&& #[trigger] is_constant(EXCITATION_HI, hi)
            &&& p.has_angles::<V>(seq![blue, red, lo, hi])
        };
    let (b2, r2, l2, h2) = choose|blue: F, red: F, lo: F, hi: F|
        {
            &&& #[trigger] evals(at_hand(q.mu_a).max(Formula::Const(EMISSION_LO)), blue)
            &&& #[trigger] is_constant(EMISSION_HI, red)
            &&& #[trigger] is_constant(EXCITATION_LO, lo)
            &&& #[trigger] is_constant(EXCITATION_HI, hi)
            &&& q.has_angles::<V>(seq![blue, red, lo, hi])
        };
    law_evals_unique(at_hand(p.mu_a).max(Formula::Const(EMISSION_LO)), b1, b2);
    assert(r1 == r2 && l1 == l2 && h1 == h2);
    let bounds = seq![b1, r1, l1, h1];
    assert(bounds =~= seq![b2, r2, l2, h2]);
    let centres = seq![p.lambda_e, p.lambda_e, p.mu_a, p.mu_a];
    let widths = seq![p.gamma_b, p.gamma_r, p.gamma_a, p.gamma_a];
    assert(centres =~= seq![q.lambda_e, q.lambda_e, q.mu_a, q.mu_a]);
    assert(widths =~= seq![q.gamma_b, q.gamma_r, q.gamma_a, q.gamma_a]);
    let (i1, a1) = choose|invs: [F; 4], angles: [F; 4]|
        {
            &&& #[trigger] flank_angles::<F, V>(bounds, centres, widths, invs, angles)
            &&& p.inv_gamma_b == invs[0]
            &&& p.inv_gamma_r == invs[1]
            &&& p.inv_gamma_a == invs[2]
            &&& p.emis_a_blo == angles[0]
            &&& p.emis_a_rhi == angles[1]
            &&& p.excite_a_lo == angles[2]
            &&& evals(at_hand(angles[3]).sub(at_hand(angles[2])), p.excite_da)
        };
    let (i2, a2) = choose|invs: [F; 4], angles: [F; 4]|
        {
            &&& #[trigger] flank_angles::<F, V>(bounds, centres, widths, invs, angles)
            &&& q.inv_gamma_b == invs[0]
            &&& q.inv_gamma_r == invs[1]
            &&& q.inv_gamma_a == invs[2]
            &&& q.emis_a_blo == angles[0]
            &&& q.emis_a_rhi == angles[1]
            &&& q.excite_a_lo == angles[2]
            &&& evals(at_hand(angles[3]).sub(at_hand(angles[2])), q.excite_da)
        };
    lemma_angles_unique::<F, V>(bounds, centres, widths, i1, a1, i2, a2);
    law_evals_unique(at_hand(a1[3]).sub(at_hand(a1[2])), p.excite_da, q.excite_da);
    let blue = at_hand(p.gamma_b).neg().mul(at_hand(p.emis_a_blo));
    let red = at_hand(p.gamma_r).mul(at_hand(p.emis_a_rhi));
    let norm = blue.add(red).max(Formula::Const(NORM_FLOOR));
    law_evals_unique(Formula::Const(ONE).div(norm), p.e_norm_rcp, q.e_norm_rcp);
    law_evals_unique(blue.div(norm), p.emis_blue_frac, q.emis_blue_frac);
    law_evals_unique(at_hand(p.gamma_a).mul(at_hand(p.excite_da)), p.excite_int, q.excite_int);
    law_evals_unique(
        Formula::Const(ONE).div(at_hand(p.excite_int).max(Formula::Const(NORM_FLOOR))),
        p.excite_rcp,
        q.excite_rcp,
    );
}

// ----------------------------------------------------------------------------
// Network
// ----------------------------------------------------------------------------

/// One vector of outputs.
proof fn lemma_outputs_unique<F: Scalar, V: Lanes<L, Element = F>, const L: usize>(
    act: bool,
    split: nat,
    w: Seq<F>,
    b: Seq<F>,
    x: Seq<F>,
    at: int,
    y: [F; L],
    z: [F; L],
)
    requires
        lanes_are_function::<V, L>(),
        are_outputs::<F, V, L>(act, split, w, b, x, at, y),
        are_outputs::<F, V, L>(act, split, w, b, x, at, z),
    ensures
        y == z,
{
    let (f1, b1, c1, o1) = choose|fast: bool, bias: V, cols: Seq<V>, out: V| #[trigger]
        outputs_steps::<F, V, L>(act, split, w, b, x, at, fast, bias, cols, out, y);
    let (f2, b2, c2, o2) = choose|fast: bool, bias: V, cols: Seq<V>, out: V| #[trigger]
        outputs_steps::<F, V, L>(act, split, w, b, x, at, fast, bias, cols, out, z);
    lemma_vector_unique::<V, L>(b1, b2, b.subrange(at, at + L));
    let n = b.len() as int;
    assert(c1 =~= c2) by {
        assert forall|i: int| 0 <= i < c1.len() implies c1[i] == c2[i] by {
            let lanes = w.subrange(i * n + at, i * n + at + L);
            assert(vector_of::<V, L>(c1[i], w.subrange(i * n + at, i * n + at + L)));
            assert(vector_of::<V, L>(c2[i], w.subrange(i * n + at, i * n + at + L)));
            lemma_vector_unique::<V, L>(c1[i], c2[i], lanes);
        }
    }
    assert(outputs_formula(act, f1, split, b1, c1, x) == outputs_formula(act, f2, split, b1, c1, x));
    law_evals_unique(outputs_formula(act, f1, split, b1, c1, x), o1, o2);
}

/// The inputs of a layer determine its outputs.
pub proof fn law_layer_unique<F: Scalar, V: Lanes<L, Element = F>, const L: usize>(
    act: bool,
    split: nat,
    w: Seq<F>,
    b: Seq<F>,
    x: Seq<F>,
    y: Seq<F>,
    z: Seq<F>,
)
    requires
        lanes_are_function::<V, L>(),
        1 <= L,
        b.len() % (L as nat) == 0,
        is_layer::<F, V, L>(act, split, w, b, x, y),
        is_layer::<F, V, L>(act, split, w, b, x, z),
    ensures
        y == z,
{
    assert forall|c: int| 0 <= c < y.len() implies y[c] == z[c] by {
        let j = c / (L as int);
        lemma_group(c, b.len() as int, L as int);
        assert(outputs_at::<F, V, L>(act, split, w, b, x, j * L, y));
        assert(outputs_at::<F, V, L>(act, split, w, b, x, j * L, z));
        let at = j * L;
        let p = choose|lanes: [F; L]| #[trigger]
            are_outputs::<F, V, L>(act, split, w, b, x, at, lanes) && lanes@ == y.subrange(at, at + L);
        let q = choose|lanes: [F; L]| #[trigger]
            are_outputs::<F, V, L>(act, split, w, b, x, at, lanes) && lanes@ == z.subrange(at, at + L);
        lemma_outputs_unique::<F, V, L>(act, split, w, b, x, at, p, q);
        let l = c % (L as int);
        assert(p@[l] == y[c]);
        assert(q@[l] == z[c]);
    }
    assert(y =~= z);
}

/// A colour has one set of CIELAB coordinates.
pub proof fn law_lab_unique<F: Scalar, V: Lanes<4, Element = F>>(xyz: Seq<F>, lab: [F; 4], other: [F; 4])
    requires
        is_function::<F>(),
        lanes_are_function::<V, 4>(),
        is_lab::<F, V>(xyz, lab),
        is_lab::<F, V>(xyz, other),
    ensures
        lab == other,
{
    let (z1, v1, f1, s1, p1, g1, w1, t1, o1) = choose|
        zero: F,
        v: V,
        f: V,
        fs: [F; 4],
        p: V,
        gain: V,
        weight: V,
        offset: V,
        out: V,
    | #[trigger] lab_steps::<F, V>(xyz, zero, v, f, fs, p, gain, weight, offset, out, lab);
    let (z2, v2, f2, s2, p2, g2, w2, t2, o2) = choose|
        zero: F,
        v: V,
        f: V,
        fs: [F; 4],
        p: V,
        gain: V,
        weight: V,
        offset: V,
        out: V,
    | #[trigger] lab_steps::<F, V>(xyz, zero, v, f, fs, p, gain, weight, offset, out, other);
    assert(z1 == z2);
    lemma_vector_unique::<V, 4>(v1, v2, seq![xyz[0], xyz[1], xyz[2], z1]);
    law_evals_unique(fast_lab_f_formula(Formula::<V, F>::Val(v1)), f1, f2);
    lemma_vector_unique::<V, 4>(p1, p2, seq![s1[1], s1[0], s1[1], s1[1]]);
    lemma_constants_unique::<V, F, 4>(g1, g2, lab_gains());
    lemma_constants_unique::<V, F, 4>(w1, w2, lab_weights());
    lemma_constants_unique::<V, F, 4>(t1, t2, lab_offsets());
    law_evals_unique(
        lab_lane_formula(
            Formula::<V, F>::Val(g1),
            Formula::Val(p1),
            Formula::Val(w1),
            Formula::Val(f1),
            Formula::Val(t1),
        ),
        o1,
        o2,
    );
}

/// A colour has one set of input features.
pub proof fn law_features_unique<F: Scalar, V: Lanes<4, Element = F>>(
    net: DeployNet<F>,
    xyz: Seq<F>,
    white_ab: Seq<F>,
    x: Seq<F>,
    y: Seq<F>,
)
    requires
        is_function::<F>(),
        lanes_are_function::<V, 4>(),
        net.features_of::<V>(xyz, white_ab, x),
        net.features_of::<V>(xyz, white_ab, y),
    ensures
        x == y,
{
    let lab = choose|lab: [F; 4]| #[trigger] is_lab::<F, V>(xyz, lab) && net.are_features(lab@, white_ab, x);
    let other = choose|lab: [F; 4]| #[trigger] is_lab::<F, V>(xyz, lab) && net.are_features(lab@, white_ab, y);
    law_lab_unique::<F, V>(xyz, lab, other);
    let inv = net.inverse_deviations();
    let scaled = net.means();
    let l = Formula::<F, F>::Val(lab@[0]);
    let a = Formula::<F, F>::Val(lab@[1]);
    let b = Formula::<F, F>::Val(lab@[2]);
    let wa = Formula::<F, F>::Val(white_ab[0]);
    let wb = Formula::<F, F>::Val(white_ab[1]);
    law_evals_unique(standardized(l, inv[0], scaled[0]), x[0], y[0]);
    law_evals_unique(standardized(a, inv[1], scaled[1]), x[1], y[1]);
    law_evals_unique(standardized(b, inv[2], scaled[2]), x[2], y[2]);
    law_evals_unique(standardized(wa, inv[3], scaled[3]), x[3], y[3]);
    law_evals_unique(standardized(wb, inv[4], scaled[4]), x[4], y[4]);
    law_evals_unique(standardized(chroma2_formula(a, b, wa, wb), inv[5], scaled[5]), x[5], y[5]);
    assert(x =~= y);
}

/// All vector operations of an instruction set are functions.
pub open spec fn backend_is_function<B: NnBackend>() -> bool {
    &&& is_function::<B::F32>()
    &&& lanes_are_function::<B::F32x4, 4>()
    &&& lanes_are_function::<B::F32x8, 8>()
    &&& lanes_are_function::<B::F32x16, 16>()
}

proof fn lemma_activations_unique<F: Scalar, B: NnBackend<F32 = F>>(
    net: DeployNet<F>,
    xyz: Seq<F>,
    white_ab: Seq<F>,
    g: Seq<Seq<F>>,
    h: Seq<Seq<F>>,
    l: nat,
)
    requires
        backend_is_function::<B>(),
        net.layers().len() == N_LAYERS,
        forall|k: int| 0 <= k < N_LAYERS ==> (#[trigger] net.layers()[k]).has_shape(k),
        net.activations::<B>(xyz, white_ab, g),
        net.activations::<B>(xyz, white_ab, h),
        l <= N_LAYERS,
    ensures
        g[l as int] == h[l as int],
    decreases l,
{
    if l == 0 {
        law_features_unique::<F, B::F32x4>(net, xyz, white_ab, g[0], h[0]);
    } else {
        let k = l - 1;
        lemma_activations_unique::<F, B>(net, xyz, white_ab, g, h, (l - 1) as nat);
        let layer = net.layers()[k];
        assert(layer.has_shape(k));
        assert(net.applies_layer::<B>(k, g[k], g[k + 1]));
        assert(net.applies_layer::<B>(k, h[k], h[k + 1]));
        assert(k == 0 || k == 1 || k == 2 || k == 3 || k == 4 || k == 5 || k == 6);
        law_layer_unique::<F, B::F32x16, 16>(
            k < N_LAYERS - 1,
            layer_split(k),
            layer.w@,
            layer.b@,
            g[k],
            g[k + 1],
            h[k + 1],
        );
    }
}

/// Repeated calls agree: a network has one set of outputs for a colour.
pub proof fn law_forward_unique<F: Scalar, B: NnBackend<F32 = F>>(
    net: DeployNet<F>,
    xyz: Seq<F>,
    white_ab: Seq<F>,
    o: Seq<F>,
    q: Seq<F>,
)
    requires
        backend_is_function::<B>(),
        net.layers().len() == N_LAYERS,
        forall|k: int| 0 <= k < N_LAYERS ==> (#[trigger] net.layers()[k]).has_shape(k),
        net.forwards::<B>(xyz, white_ab, o),
        net.forwards::<B>(xyz, white_ab, q),
    ensures
        o == q,
{
    let g = choose|h: Seq<Seq<F>>| #[trigger] net.activations::<B>(xyz, white_ab, h) && h[7] == o;
    let h = choose|h: Seq<Seq<F>>| #[trigger] net.activations::<B>(xyz, white_ab, h) && h[7] == q;
    lemma_activations_unique::<F, B>(net, xyz, white_ab, g, h, N_LAYERS as nat);
}

/// An uplift is the raw outputs of the same colour, bounded: `p` is what [`DeployNet::uplift`]
/// returned, `raw` what [`DeployNet::uplift_raw`] returned, and `q` what
/// [`UpliftParams::from_outputs`] made of that.
pub proof fn law_uplift_is_raw_bounded<F: Scalar, B: NnBackend<F32 = F>>(
    net: DeployNet<F>,
    xyz: Seq<F>,
    white_ab: Seq<F>,
    o: Seq<F>,
    p: UpliftParams<F>,
    raw: Seq<F>,
    q: UpliftParams<F>,
)
    requires
        backend_is_function::<B>(),
        net.layers().len() == N_LAYERS,
        forall|k: int| 0 <= k < N_LAYERS ==> (#[trigger] net.layers()[k]).has_shape(k),
        net.forwards::<B>(xyz, white_ab, o),
        p.bounds::<B::F32x8>(o),
        net.forwards::<B>(xyz, white_ab, raw),
        q.bounds::<B::F32x8>(raw),
    ensures
        p == q,
{
    law_forward_unique::<F, B>(net, xyz, white_ab, o, raw);
    law_params_unique::<F, B::F32x8>(o, p, q);
}

} // verus!
