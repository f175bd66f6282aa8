//! Laws of the results of the network, where the vector arithmetic is exact.

use crate::blob::{dims, Weight, N_LAYERS};
use crate::formula::{
    defined, defined_condition, evals, exact, has_cube_root, has_root, root, Formula, Lanes,
    NnBackend, NnVector, Scalar,
};
use crate::ieee::{f16_value, f32_finite, f32_value, widens, ONE};
use crate::lanes::{is_constant, vector_of};
use crate::layer::{
    are_outputs, balanced_sum, is_layer, lemma_top_half, outputs_at, outputs_formula, outputs_steps,
    partial_sum, partial_sums, silu_formula, top_half,
};
use crate::layer_laws::{dot, law_layer_affine, law_silu};
use crate::model::{
    cube_roots_exist, law_evals_exact, lemma_constant_lane, lemma_lane_of, read_all, reads_lanes,
    reads_numbers, roots_exist, Model,
};
use crate::net::{
    are_lab, fast_lab_f_formula, is_half, is_lab, is_standardizer, is_weight, lab_f_formula, lab_gains,
    lab_lane_formula, lab_offsets, lab_steps, lab_weights, layer_split, standardized,
    xyz_to_lab_formulas, DeployNet, Layer,
};
use crate::net_laws::{lab_lane, law_lab_lanes, law_standardized, lemma_lab_values};
use crate::params_laws::lemma_unit_values;
use vstd::arithmetic::div_mod::{lemma_fundamental_div_mod, lemma_mod_bound};
use vstd::prelude::*;

verus! {

/// Formulas read as formulas over real numbers.
pub open spec fn denote_all<V: NnVector>(m: Model<V>, parts: Seq<Formula<V, V::Element>>) -> Seq<
    Formula<real, real>,
> {
    Seq::new(parts.len(), |i: int| m.denote(parts[i]))
}

proof fn lemma_denote_partial_sum<V: NnVector>(
    m: Model<V>,
    bias: V,
    cols: Seq<V>,
    x: Seq<V::Element>,
    split: int,
    s: int,
    n: nat,
)
    requires
        n <= cols.len(),
        n <= x.len(),
    ensures
        m.denote(partial_sum(bias, cols, x, split, s, n)) == partial_sum(
            (m.lane)(bias),
            read_all(m.lane, cols),
            read_all(m.elem, x),
            split,
            s,
            n,
        ),
    decreases n,
{
    reveal_with_fuel(Model::denote, 3);
    if n > 0 {
        lemma_denote_partial_sum(m, bias, cols, x, split, s, (n - 1) as nat);
    }
}

proof fn lemma_denote_balanced_sum<V: NnVector>(m: Model<V>, parts: Seq<Formula<V, V::Element>>)
    requires
        parts.len() >= 1,
    ensures
        m.denote(balanced_sum(parts)) == balanced_sum(denote_all(m, parts)),
    decreases parts.len(),
{
    if parts.len() > 1 {
        let h = top_half(parts.len());
        lemma_top_half(parts.len());
        let a = parts.take(h as int);
        let b = parts.skip(h as int);
        lemma_denote_balanced_sum(m, a);
        lemma_denote_balanced_sum(m, b);
        assert(denote_all(m, parts).take(h as int) =~= denote_all(m, a));
        assert(denote_all(m, parts).skip(h as int) =~= denote_all(m, b));
        reveal_with_fuel(Model::denote, 2);
    }
}

proof fn lemma_partial_sum_defined(bias: real, cols: Seq<real>, x: Seq<real>, split: int, s: int, n: nat)
    ensures
        defined(partial_sum(bias, cols, x, split, s, n)),
    decreases n,
{
    reveal_with_fuel(defined, 3);
    if n > 0 {
        lemma_partial_sum_defined(bias, cols, x, split, s, (n - 1) as nat);
    }
}

proof fn lemma_balanced_sum_defined(parts: Seq<Formula<real, real>>)
    requires
        parts.len() >= 1,
        forall|i: int| 0 <= i < parts.len() ==> defined(#[trigger] parts[i]),
    ensures
        defined(balanced_sum(parts)),
    decreases parts.len(),
{
    if parts.len() > 1 {
        let h = top_half(parts.len());
        lemma_top_half(parts.len());
        lemma_balanced_sum_defined(parts.take(h as int));
        lemma_balanced_sum_defined(parts.skip(h as int));
        reveal_with_fuel(defined, 2);
    }
}

/// The activation of a layer that has one, and nothing otherwise.
pub open spec fn activation(act: bool, a: real) -> real {
    if act {
        a * (1real / 2real + a / (2real * root(a * a + 1real)))
    } else {
        a
    }
}

/// A vector of outputs, read as a real number.
proof fn lemma_outputs_value<V: NnVector>(
    m: Model<V>,
    act: bool,
    fast: bool,
    split: nat,
    bias: V,
    cols: Seq<V>,
    x: Seq<V::Element>,
    out: V,
)
    requires
        m.is_exact(),
        roots_exist(),
        split >= 1,
        cols.len() == x.len(),
        evals(outputs_formula(act, fast, split, bias, cols, x), out),
    ensures
        (m.lane)(out) == activation(
            act,
            (m.lane)(bias) + dot(read_all(m.lane, cols), read_all(m.elem, x), x.len()),
        ),
{
    let rb = (m.lane)(bias);
    let rc = read_all(m.lane, cols);
    let rx = read_all(m.elem, x);
    let parts = partial_sums(bias, cols, x, split);
    let rparts = partial_sums(rb, rc, rx, split);
    assert forall|i: int| 0 <= i < split implies m.denote(#[trigger] parts[i]) == rparts[i] by {
        lemma_denote_partial_sum(m, bias, cols, x, split as int, i, x.len());
    }
    assert forall|i: int| 0 <= i < split implies defined(#[trigger] rparts[i]) by {
        lemma_partial_sum_defined(rb, rc, rx, split as int, i, x.len());
    }
    assert(denote_all(m, parts) =~= rparts);
    lemma_denote_balanced_sum(m, parts);
    lemma_balanced_sum_defined(rparts);
    law_layer_affine(fast, split, rb, rc, rx);
    let sum = balanced_sum(parts);
    let rsum = balanced_sum(rparts);
    if act {
        assert(m.denote(silu_formula(fast, sum)) == silu_formula(fast, m.denote(sum))) by {
            reveal_with_fuel(Model::denote, 8);
        }
        let a = exact(rsum);
        assert(a * a >= 0real) by (nonlinear_arith);
        assert(has_root(a * a + 1real));
        law_silu(fast, rsum);
        law_evals_exact(m, silu_formula(fast, sum), out);
    } else {
        law_evals_exact(m, sum, out);
    }
}

/// The weights of output `c`, read as real numbers.
pub open spec fn read_column<F>(f: spec_fn(F) -> real, w: Seq<F>, out: int, c: int, n_in: nat) -> Seq<real> {
    Seq::new(n_in, |i: int| f(w[i * out + c]))
}

/// Output `c` of a layer: its bias plus the inputs times their weights, through the activation.
pub open spec fn layer_value<F>(
    f: spec_fn(F) -> real,
    act: bool,
    w: Seq<F>,
    b: Seq<F>,
    x: Seq<F>,
    c: int,
) -> real {
    activation(
        act,
        f(b[c]) + dot(read_column(f, w, b.len() as int, c, x.len()), read_all(f, x), x.len()),
    )
}

/// A layer computes what it should: every output is the activation of its bias plus the inputs times
/// their weights.
pub proof fn law_layer_result<F: Scalar, V: Lanes<L, Element = F>, const L: usize>(
    s: Model<F>,
    v: spec_fn(int) -> Model<V>,
    act: bool,
    split: nat,
    w: Seq<F>,
    b: Seq<F>,
    x: Seq<F>,
    y: Seq<F>,
    c: int,
)
    requires
        reads_numbers(s),
        reads_lanes::<F, V, L>(s, v),
        roots_exist(),
        split >= 1,
        1 <= L,
        b.len() % (L as nat) == 0,
        w.len() == x.len() * b.len(),
        is_layer::<F, V, L>(act, split, w, b, x, y),
        0 <= c < b.len(),
    ensures
        (s.elem)(y[c]) == layer_value(s.elem, act, w, b, x, c),
{
    let n = b.len() as int;
    let j = c / (L as int);
    let l = c % (L as int);
    let at = j * L;
    lemma_group(c, n, L as int);
    assert(outputs_at::<F, V, L>(act, split, w, b, x, j * L, y));
    let lanes = choose|lanes: [F; L]| #[trigger]
        are_outputs::<F, V, L>(act, split, w, b, x, at, lanes) && lanes@ == y.subrange(at, at + L);
    let (fast, bias, cols, out) = choose|fast: bool, bias: V, cols: Seq<V>, out: V| #[trigger]
        outputs_steps::<F, V, L>(act, split, w, b, x, at, fast, bias, cols, out, lanes);
    let m = v(l);
    assert(m.is_exact());
    lemma_lane_of::<F, V, L>(s, v, bias, b.subrange(at, at + L), l);
    lemma_outputs_value(m, act, fast, split, bias, cols, x, out);
    assert(read_all(m.lane, cols) =~= read_column(s.elem, w, n, c, x.len())) by {
        assert forall|i: int| 0 <= i < x.len() implies (m.lane)(cols[i]) == (s.elem)(w[i * n + c]) by {
            assert(vector_of::<V, L>(cols[i], w.subrange(i * n + at, i * n + at + L)));
            lemma_lane_of::<F, V, L>(s, v, cols[i], w.subrange(i * n + at, i * n + at + L), l);
            assert(0 <= i * n && i * n + n <= x.len() * n) by (nonlinear_arith)
                requires
                    0 <= i < x.len(),
                    0 <= n,
            ;
        }
    }
    assert((m.elem)(lanes[l]) == (m.lane)(out));
    assert(lanes@[l] == y[c]);
}

/// The group of `size` that number `c` of `n` belongs to.
pub proof fn lemma_group(c: int, n: int, size: int)
    requires
        0 <= c < n,
        1 <= size,
        n % size == 0,
    ensures
        0 <= c % size < size,
        0 <= c / size < n / size,
        (c / size) * size + c % size == c,
        0 <= (c / size) * size,
        (c / size) * size + size <= n,
{
    lemma_fundamental_div_mod(c, size);
    lemma_fundamental_div_mod(n, size);
    lemma_mod_bound(c, size);
    let q = c / size;
    let r = c % size;
    let k = n / size;
    assert(q * size == size * q && k * size == size * k) by (nonlinear_arith);
    assert(0 <= q < k) by (nonlinear_arith)
        requires
            q * size + r == c,
            k * size == n,
            0 <= c < n,
            0 <= r < size,
    ;
    assert(0 <= q * size && q * size + size <= k * size) by (nonlinear_arith)
        requires
            0 <= q < k,
            1 <= size,
    ;
}

/// How a sum is split does not change what a layer computes: two calls that differ in the number of
/// partial sums alone agree in every output.
pub proof fn law_split_irrelevant<F: Scalar, V: Lanes<L, Element = F>, const L: usize>(
    s: Model<F>,
    v: spec_fn(int) -> Model<V>,
    act: bool,
    split1: nat,
    split2: nat,
    w: Seq<F>,
    b: Seq<F>,
    x: Seq<F>,
    y1: Seq<F>,
    y2: Seq<F>,
)
    requires
        reads_numbers(s),
        reads_lanes::<F, V, L>(s, v),
        roots_exist(),
        split1 >= 1,
        split2 >= 1,
        1 <= L,
        b.len() % (L as nat) == 0,
        w.len() == x.len() * b.len(),
        is_layer::<F, V, L>(act, split1, w, b, x, y1),
        is_layer::<F, V, L>(act, split2, w, b, x, y2),
    ensures
        read_all(s.elem, y1) == read_all(s.elem, y2),
{
    assert forall|c: int| 0 <= c < b.len() implies read_all(s.elem, y1)[c] == read_all(s.elem, y2)[c] by {
        law_layer_result::<F, V, L>(s, v, act, split1, w, b, x, y1, c);
        law_layer_result::<F, V, L>(s, v, act, split2, w, b, x, y2, c);
    }
    assert(read_all(s.elem, y1) =~= read_all(s.elem, y2));
}

// ----------------------------------------------------------------------------
// The whole network
// ----------------------------------------------------------------------------

/// A layer on real numbers.
pub open spec fn layer_of_reals<F: Scalar>(
    f: spec_fn(F) -> real,
    act: bool,
    layer: Layer<F>,
    x: Seq<real>,
) -> Seq<real> {
    let n = layer.b@.len();
    Seq::new(
        n,
        |c: int| activation(act, f(layer.b@[c]) + dot(read_column(f, layer.w@, n as int, c, x.len()), x, x.len())),
    )
}

/// The first `l` layers of a network on real numbers.
pub open spec fn network_of_reals<F: Scalar>(
    f: spec_fn(F) -> real,
    layers: Seq<Layer<F>>,
    x: Seq<real>,
    l: nat,
) -> Seq<real>
    decreases l,
{
    if l == 0 {
        x
    } else {
        layer_of_reals(f, l < N_LAYERS, layers[l - 1], network_of_reals(f, layers, x, (l - 1) as nat))
    }
}

/// The outputs of the network are those of its seven layers on the input features: six of them with
/// the activation, and a linear one.
pub proof fn law_forward_result<F: Scalar, B: NnBackend<F32 = F>>(
    s: Model<F>,
    v: spec_fn(int) -> Model<B::F32x16>,
    net: DeployNet<F>,
    xyz: Seq<F>,
    white_ab: Seq<F>,
    o: Seq<F>,
) -> (x: Seq<F>)
    requires
        reads_numbers(s),
        reads_lanes::<F, B::F32x16, 16>(s, v),
        roots_exist(),
        net.layers().len() == N_LAYERS,
        forall|l: int| 0 <= l < N_LAYERS ==> (#[trigger] net.layers()[l]).has_shape(l),
        net.forwards::<B>(xyz, white_ab, o),
    ensures
        net.features_of::<B::F32x4>(xyz, white_ab, x),
        read_all(s.elem, o) == network_of_reals(s.elem, net.layers(), read_all(s.elem, x), N_LAYERS as nat),
{
    let h = choose|h: Seq<Seq<F>>| #[trigger] net.activations::<B>(xyz, white_ab, h) && h[7] == o;
    lemma_activations::<F, B>(s, v, net, xyz, white_ab, h, N_LAYERS as nat);
    h[0]
}

/// Every layer has at least one partial sum.
pub proof fn lemma_layer_split(l: int)
    requires
        0 <= l < N_LAYERS,
    ensures
        layer_split(l) >= 1,
{
    assert(l == 0 || l == 1 || l == 2 || l == 3 || l == 4 || l == 5 || l == 6);
    let d = dims()[l + 1] / 16;
    if d < 3 {
        assert(d == 1 || d == 2);
        assert(4nat / d >= 1) by (nonlinear_arith)
            requires
                d == 1 || d == 2,
        ;
    }
}

proof fn lemma_activations<F: Scalar, B: NnBackend<F32 = F>>(
    s: Model<F>,
    v: spec_fn(int) -> Model<B::F32x16>,
    net: DeployNet<F>,
    xyz: Seq<F>,
    white_ab: Seq<F>,
    h: Seq<Seq<F>>,
    l: nat,
)
    requires
        reads_numbers(s),
        reads_lanes::<F, B::F32x16, 16>(s, v),
        roots_exist(),
        net.layers().len() == N_LAYERS,
        forall|l: int| 0 <= l < N_LAYERS ==> (#[trigger] net.layers()[l]).has_shape(l),
        net.activations::<B>(xyz, white_ab, h),
        l <= N_LAYERS,
    ensures
        h[l as int].len() == dims()[l as int],
        read_all(s.elem, h[l as int]) == network_of_reals(s.elem, net.layers(), read_all(s.elem, h[0]), l),
    decreases l,
{
    if l > 0 {
        let k = (l - 1) as nat;
        lemma_activations::<F, B>(s, v, net, xyz, white_ab, h, k);
        let layer = net.layers()[k as int];
        assert(layer.has_shape(k as int));
        let x = h[k as int];
        let y = h[k as int + 1];
        let act = k < N_LAYERS - 1;
        assert(net.applies_layer::<B>(k as int, h[k as int], h[k as int + 1]));
        assert(k == 0 || k == 1 || k == 2 || k == 3 || k == 4 || k == 5 || k == 6);
        lemma_layer_split(k as int);
        let rx = read_all(s.elem, x);
        let ry = layer_of_reals(s.elem, act, layer, rx);
        assert(rx.len() == x.len());
        assert forall|c: int| 0 <= c < y.len() implies read_all(s.elem, y)[c] == ry[c] by {
            law_layer_result::<F, B::F32x16, 16>(s, v, act, layer_split(k as int), layer.w@, layer.b@, x, y, c);
        }
        assert(read_all(s.elem, y) =~= ry);
    }
}

// ----------------------------------------------------------------------------
// Weights
// ----------------------------------------------------------------------------

/// The real number that a stored weight stands for.
pub open spec fn weight_of_reals(w: Weight) -> real {
    match w {
        Weight::Raw(h) => f16_value(h),
        Weight::Steps(q, scale) => (q as real) * f16_value(scale),
    }
}

/// A half is loaded as the number that it stands for.
pub proof fn law_half_result<F: Scalar>(s: Model<F>, h: u16, x: F)
    requires
        reads_numbers(s),
        is_half(h, x),
    ensures
        (s.elem)(x) == f16_value(h),
{
    let bits = choose|bits: u32| widens(h, bits) && #[trigger] is_constant(bits, x);
    assert(call_ensures(F::from_bits, (bits,), x));
}

/// A weight is loaded as the number that it stands for: a half, or a number of steps times the step.
pub proof fn law_weight_result<F: Scalar>(s: Model<F>, w: Weight, x: F)
    requires
        reads_numbers(s),
        is_weight(w, x),
    ensures
        (s.elem)(x) == weight_of_reals(w),
{
    match w {
        Weight::Raw(h) => {
            law_half_result(s, h, x);
        },
        Weight::Steps(q, scale) => {
            let bits = choose|bits: u32|
                widens(scale, bits) && #[trigger] evals(
                    Formula::<F, F>::Int(q as int).mul(Formula::Const(bits)),
                    x,
                );
            reveal_with_fuel(Model::denote, 3);
            reveal_with_fuel(exact, 3);
            reveal_with_fuel(defined, 3);
            law_evals_exact(s, Formula::<F, F>::Int(q as int).mul(Formula::Const(bits)), x);
        },
    }
}

// ----------------------------------------------------------------------------
// Input encoding
// ----------------------------------------------------------------------------

/// The CIELAB function of a coordinate, read as a real number.
pub open spec fn lab_f_of_reals(t: real) -> real {
    exact(fast_lab_f_formula(Formula::<real, real>::Val(t)))
}

/// The CIELAB function is defined everywhere, where cube roots exist.
proof fn lemma_lab_f_defined(t: real)
    requires
        cube_roots_exist(),
    ensures
        defined(fast_lab_f_formula(Formula::<real, real>::Val(t))),
{
    assert(has_cube_root(t));
    reveal_with_fuel(exact, 3);
    reveal_with_fuel(defined, 4);
    reveal_with_fuel(defined_condition, 2);
}

/// A lane of the CIELAB function.
proof fn lemma_lab_f_lane<V: NnVector>(m: Model<V>, w: V, f: V)
    requires
        m.is_exact(),
        cube_roots_exist(),
        evals(fast_lab_f_formula(Formula::<V, V::Element>::Val(w)), f),
    ensures
        (m.lane)(f) == lab_f_of_reals((m.lane)(w)),
{
    let e = fast_lab_f_formula(Formula::<V, V::Element>::Val(w));
    assert(m.denote(e) == fast_lab_f_formula(Formula::<real, real>::Val((m.lane)(w)))) by {
        reveal_with_fuel(Model::denote, 4);
        reveal_with_fuel(Model::denote_condition, 2);
    }
    lemma_lab_f_defined((m.lane)(w));
    law_evals_exact(m, e, f);
}

/// A lane of the combination.
proof fn lemma_lab_out_lane<V: NnVector>(m: Model<V>, gain: V, p: V, weight: V, f: V, offset: V, out: V, l: int)
    requires
        m.is_exact(),
        0 <= l < 3,
        (m.lane)(gain) == f32_value(lab_gains()[l]),
        (m.lane)(weight) == f32_value(lab_weights()[l]),
        (m.lane)(offset) == f32_value(lab_offsets()[l]),
        evals(
            lab_lane_formula(
                Formula::<V, V::Element>::Val(gain),
                Formula::Val(p),
                Formula::Val(weight),
                Formula::Val(f),
                Formula::Val(offset),
            ),
            out,
        ),
    ensures
        (m.lane)(out) == exact(lab_lane(l, (m.lane)(p), (m.lane)(f))),
{
    reveal_with_fuel(Model::denote, 4);
    reveal_with_fuel(exact, 4);
    reveal_with_fuel(defined, 4);
    law_evals_exact(
        m,
        lab_lane_formula(
            Formula::<V, V::Element>::Val(gain),
            Formula::Val(p),
            Formula::Val(weight),
            Formula::Val(f),
            Formula::Val(offset),
        ),
        out,
    );
}

/// The first three places are `L`, `a` and `b` of the colour: `116 * f(Y) - 16`, `500 * (f(X) - f(Y))`
/// and `200 * (f(Y) - f(Z))`, with the CIELAB function `f`.
pub proof fn law_lab_result<F: Scalar, V: Lanes<4, Element = F>>(
    s: Model<F>,
    v: spec_fn(int) -> Model<V>,
    xyz: Seq<F>,
    lab: [F; 4],
)
    requires
        reads_numbers(s),
        reads_lanes::<F, V, 4>(s, v),
        cube_roots_exist(),
        xyz.len() == 3,
        is_lab::<F, V>(xyz, lab),
    ensures
        ({
            let fx = lab_f_of_reals((s.elem)(xyz[0]));
            let fy = lab_f_of_reals((s.elem)(xyz[1]));
            let fz = lab_f_of_reals((s.elem)(xyz[2]));
            &&& (s.elem)(lab[0]) == 116real * fy - 16real
            &&& (s.elem)(lab[1]) == 500real * (fx - fy)
            &&& (s.elem)(lab[2]) == 200real * (fy - fz)
        }),
{
    let (zero, w, f, fs, p, gain, weight, offset, out) = choose|
        zero: F,
        w: V,
        f: V,
        fs: [F; 4],
        p: V,
        gain: V,
        weight: V,
        offset: V,
        out: V,
    | #[trigger] lab_steps::<F, V>(xyz, zero, w, f, fs, p, gain, weight, offset, out, lab);
    let lanes = seq![xyz[0], xyz[1], xyz[2], zero];
    let ps = seq![fs[1], fs[0], fs[1], fs[1]];
    assert forall|l: int| 0 <= l < 3 implies (s.elem)(#[trigger] fs[l]) == lab_f_of_reals((s.elem)(xyz[l])) by {
        let m = v(l);
        assert(m.is_exact());
        lemma_lane_of::<F, V, 4>(s, v, w, lanes, l);
        assert(lanes[l] == xyz[l]);
        lemma_lab_f_lane(m, w, f);
        assert((m.elem)(fs[l]) == (m.lane)(f));
    }
    assert forall|l: int| 0 <= l < 3 implies (s.elem)(#[trigger] lab[l]) == exact(
        lab_lane(l, (s.elem)(ps[l]), (s.elem)(fs[l])),
    ) by {
        let m = v(l);
        assert(m.is_exact());
        assert(l == 0 || l == 1 || l == 2);
        lemma_lane_of::<F, V, 4>(s, v, p, ps, l);
        lemma_constant_lane::<F, V, 4>(s, v, gain, lab_gains(), l);
        lemma_constant_lane::<F, V, 4>(s, v, weight, lab_weights(), l);
        lemma_constant_lane::<F, V, 4>(s, v, offset, lab_offsets(), l);
        assert((m.elem)(fs[l]) == (m.lane)(f));
        lemma_lab_out_lane(m, gain, p, weight, f, offset, out, l);
        assert((m.elem)(lab[l]) == (m.lane)(out));
    }
    let fx = lab_f_of_reals((s.elem)(xyz[0]));
    let fy = lab_f_of_reals((s.elem)(xyz[1]));
    let fz = lab_f_of_reals((s.elem)(xyz[2]));
    assert((s.elem)(fs[0]) == fx && (s.elem)(fs[1]) == fy && (s.elem)(fs[2]) == fz);
    assert((s.elem)(lab[0]) == exact(lab_lane(0, (s.elem)(ps[0]), (s.elem)(fs[0]))));
    assert((s.elem)(lab[1]) == exact(lab_lane(1, (s.elem)(ps[1]), (s.elem)(fs[1]))));
    assert((s.elem)(lab[2]) == exact(lab_lane(2, (s.elem)(ps[2]), (s.elem)(fs[2]))));
    law_lab_lanes(fx, fy, fz);
}

/// The CIELAB function of a coordinate of a white, read as a real number.
pub open spec fn white_f_of_reals(t: real) -> real {
    exact(lab_f_formula(Formula::<real, real>::Val(t)))
}

/// The `a` and `b` of an illuminant white are `500 * (f(X) - f(Y))` and `200 * (f(Y) - f(Z))`, with the
/// CIELAB function `f`. They are zero for a white of equal energy, whatever its brightness.
pub proof fn law_white_result<F: Scalar>(s: Model<F>, xyz: Seq<F>, ab: Seq<F>)
    requires
        reads_numbers(s),
        cube_roots_exist(),
        xyz.len() == 3,
        exists|lab: [F; 3]| #[trigger] are_lab(xyz, lab@) && ab == seq![lab[1], lab[2]],
    ensures
        ({
            let x = (s.elem)(xyz[0]);
            let y = (s.elem)(xyz[1]);
            let z = (s.elem)(xyz[2]);
            &&& (s.elem)(ab[0]) == 500real * (white_f_of_reals(x) - white_f_of_reals(y))
            &&& (s.elem)(ab[1]) == 200real * (white_f_of_reals(y) - white_f_of_reals(z))
            &&& x == y == z ==> (s.elem)(ab[0]) == 0real && (s.elem)(ab[1]) == 0real
        }),
{
    let lab = choose|lab: [F; 3]| #[trigger] are_lab(xyz, lab@) && ab == seq![lab[1], lab[2]];
    let x = (s.elem)(xyz[0]);
    let y = (s.elem)(xyz[1]);
    let z = (s.elem)(xyz[2]);
    let f = xyz_to_lab_formulas::<F, F>(seq![Formula::Val(xyz[0]), Formula::Val(xyz[1]), Formula::Val(xyz[2])]);
    let g = xyz_to_lab_formulas::<real, real>(seq![Formula::Val(x), Formula::Val(y), Formula::Val(z)]);
    assert(s.denote(f[1]) == g[1] && s.denote(f[2]) == g[2]) by {
        reveal_with_fuel(Model::denote, 7);
        reveal_with_fuel(Model::denote_condition, 2);
    }
    lemma_white_f_defined(x);
    lemma_white_f_defined(y);
    lemma_white_f_defined(z);
    assert(defined(g[1]) && defined(g[2])) by {
        reveal_with_fuel(defined, 3);
    }
    law_evals_exact(s, f[1], lab[1]);
    law_evals_exact(s, f[2], lab[2]);
    lemma_lab_values();
    reveal_with_fuel(exact, 3);
}

/// The CIELAB function is defined everywhere, where cube roots exist.
pub proof fn lemma_white_f_defined(t: real)
    requires
        cube_roots_exist(),
    ensures
        defined(lab_f_formula(Formula::<real, real>::Val(t))),
{
    assert(has_cube_root(t));
    lemma_lab_values();
    reveal_with_fuel(exact, 4);
    reveal_with_fuel(defined, 5);
    reveal_with_fuel(defined_condition, 2);
}

/// A standardized feature is the feature minus its mean, over its standard deviation.
pub proof fn law_feature_result<F: Scalar>(s: Model<F>, mean: u32, std: u32, scaled: F, inv: F, raw: F, x: F)
    requires
        reads_numbers(s),
        f32_finite(mean),
        f32_finite(std),
        f32_value(std) != 0real,
        is_standardizer(mean, std, scaled, inv),
        evals(standardized(Formula::<F, F>::Val(raw), inv, scaled), x),
    ensures
        (s.elem)(x) == ((s.elem)(raw) - f32_value(mean)) / f32_value(std),
{
    reveal_with_fuel(Model::denote, 3);
    reveal_with_fuel(exact, 3);
    reveal_with_fuel(defined, 3);
    lemma_unit_values();
    law_evals_exact(s, Formula::<F, F>::Const(ONE).div(Formula::Const(std)), inv);
    law_evals_exact(s, Formula::<F, F>::Const(mean).mul(Formula::Val(inv)), scaled);
    law_evals_exact(s, standardized(Formula::<F, F>::Val(raw), inv, scaled), x);
    law_standardized((s.elem)(raw), f32_value(mean), f32_value(std));
}

} // verus!
