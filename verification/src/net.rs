//! The network: colour in, reconstruction parameters out.

use crate::blob::{
    decoded, dim, dims, first_channel, layer_of, layer_start, law_decoded_well_formed, lemma_layers,
    parse, weight_finite, well_formed, Quantized, QuantizedNet, Weight, N_CHANNELS, N_IN, N_LAYERS,
};
use crate::formula::{evals, Formula, Lanes, NnBackend, Scalar};
use crate::ieee::{f16_finite, f16_to_f32, widens, ONE, ZERO};
use crate::lanes::{constant_vector, constants4, is_constant, vector_of};
use crate::layer::{is_layer, matvec_act};
use crate::params::UpliftParams;
use crate::term::Term;
use vstd::prelude::*;

verus! {

/// The CIELAB threshold `(6/29)^3`.
pub const LAB_EPS: u32 = 0x3C11_1AA7;

/// The CIELAB slope `(29/3)^3`.
pub const LAB_KAPPA: u32 = 0x4461_D2F8;

/// `LAB_KAPPA / 116`
pub const LAB_SLOPE: u32 = 0x40F9_2F6A;

/// `16 / 116`
pub const LAB_OFFSET: u32 = 0x3E0D_3DCB;

/// `16.0`
pub const SIXTEEN: u32 = 0x4180_0000;

/// `116.0`
pub const L_GAIN: u32 = 0x42E8_0000;

/// `500.0`
pub const A_GAIN: u32 = 0x43FA_0000;

/// `200.0`
pub const B_GAIN: u32 = 0x4348_0000;

// ----------------------------------------------------------------------------
// CIELAB under the equal-energy white
// ----------------------------------------------------------------------------

/// The CIELAB function: a cube root above the threshold and a line below it.
pub open spec fn lab_f_formula<T, S>(t: Formula<T, S>) -> Formula<T, S> {
    t.gt(Formula::Const(LAB_EPS)).select(
        t.cbrt(),
        Formula::Const(LAB_KAPPA).mul(t).add(Formula::Const(SIXTEEN)).div(Formula::Const(L_GAIN)),
    )
}

/// The CIELAB function of a number.
pub fn lab_f<F: Scalar>(t: Term<F>) -> (r: Term<F>)
    ensures
        r.formula() == lab_f_formula(t.formula()),
{
    let line = Term::constant(LAB_KAPPA).mul(t).add(Term::constant(SIXTEEN)).div(Term::constant(L_GAIN));
    t.gt(Term::constant(LAB_EPS)).select(t.cbrt(), line)
}

/// `L`, `a` and `b` from the CIELAB function of `X`, `Y` and `Z`.
pub open spec fn lab_formulas<T, S>(fx: Formula<T, S>, fy: Formula<T, S>, fz: Formula<T, S>) -> Seq<Formula<T, S>> {
    seq![
        Formula::Const(L_GAIN).mul(fy).sub(Formula::Const(SIXTEEN)),
        Formula::Const(A_GAIN).mul(fx.sub(fy)),
        Formula::Const(B_GAIN).mul(fy.sub(fz)),
    ]
}

/// CIELAB of a colour under the equal-energy white.
pub open spec fn xyz_to_lab_formulas<T, S>(xyz: Seq<Formula<T, S>>) -> Seq<Formula<T, S>> {
    lab_formulas(lab_f_formula(xyz[0]), lab_f_formula(xyz[1]), lab_f_formula(xyz[2]))
}

/// `lab` are the CIELAB coordinates of the colour `xyz` under the equal-energy white.
pub open spec fn are_lab<F: Scalar>(xyz: Seq<F>, lab: Seq<F>) -> bool {
    let f = xyz_to_lab_formulas::<F, F>(seq![Formula::Val(xyz[0]), Formula::Val(xyz[1]), Formula::Val(xyz[2])]);
    evals(f[0], lab[0]) && evals(f[1], lab[1]) && evals(f[2], lab[2])
}

/// CIELAB under the equal-energy white.
pub fn xyz_to_lab_e<F: Scalar>(xyz: [F; 3]) -> (r: [F; 3])
    ensures
        are_lab(xyz@, r@),
{
    let fx = lab_f(Term::val(xyz[0]));
    let fy = lab_f(Term::val(xyz[1]));
    let fz = lab_f(Term::val(xyz[2]));
    [
        Term::constant(L_GAIN).mul(fy).sub(Term::constant(SIXTEEN)).value(),
        Term::constant(A_GAIN).mul(fx.sub(fy)).value(),
        Term::constant(B_GAIN).mul(fy.sub(fz)).value(),
    ]
}

/// The CIELAB function with the division folded into the constants of the line.
pub open spec fn fast_lab_f_formula<T, S>(t: Formula<T, S>) -> Formula<T, S> {
    t.gt(Formula::Const(LAB_EPS)).select(
        t.cbrt(),
        t.mul_adde(Formula::Const(LAB_SLOPE), Formula::Const(LAB_OFFSET)),
    )
}

/// One lane of CIELAB: `gain * p - (weight * f + offset)`, where `f` is the CIELAB function of that
/// lane's coordinate and `p` that of the coordinate which it is compared with.
pub open spec fn lab_lane_formula<T, S>(
    gain: Formula<T, S>,
    p: Formula<T, S>,
    weight: Formula<T, S>,
    f: Formula<T, S>,
    offset: Formula<T, S>,
) -> Formula<T, S> {
    gain.mul_sube(p, weight.mul_adde(f, offset))
}

/// What `p` is multiplied with, lane by lane.
pub open spec fn lab_gains() -> Seq<u32> {
    seq![L_GAIN, A_GAIN, B_GAIN, ZERO]
}

/// What `f` is multiplied with, lane by lane.
pub open spec fn lab_weights() -> Seq<u32> {
    seq![ZERO, A_GAIN, B_GAIN, ZERO]
}

/// What is subtracted besides, lane by lane.
pub open spec fn lab_offsets() -> Seq<u32> {
    seq![SIXTEEN, ZERO, ZERO, ZERO]
}

/// The steps from a colour, in the first three lanes, to its CIELAB coordinates: the CIELAB function
/// `f` of all lanes, its lanes `fs`, those lanes as `Y, X, Y, Y` in `p`, and the combination.
pub open spec fn lab_steps<F: Scalar, V: Lanes<4, Element = F>>(
    xyz: Seq<F>,
    zero: F,
    v: V,
    f: V,
    fs: [F; 4],
    p: V,
    gain: V,
    weight: V,
    offset: V,
    out: V,
    lab: [F; 4],
) -> bool {
    &&& is_constant(ZERO, zero)
    &&& vector_of::<V, 4>(v, seq![xyz[0], xyz[1], xyz[2], zero])
    &&& evals(fast_lab_f_formula(Formula::Val(v)), f)
    &&& call_ensures(V::into_array, (f,), fs)
    &&& vector_of::<V, 4>(p, seq![fs[1], fs[0], fs[1], fs[1]])
    &&& constant_vector::<V, F, 4>(gain, lab_gains())
    &&& constant_vector::<V, F, 4>(weight, lab_weights())
    &&& constant_vector::<V, F, 4>(offset, lab_offsets())
    &&& evals(
        lab_lane_formula(
            Formula::Val(gain),
            Formula::Val(p),
            Formula::Val(weight),
            Formula::Val(f),
            Formula::Val(offset),
        ),
        out,
    )
    &&& call_ensures(V::into_array, (out,), lab)
}

/// `lab` are the CIELAB coordinates of the colour, in the first three places.
pub open spec fn is_lab<F: Scalar, V: Lanes<4, Element = F>>(xyz: Seq<F>, lab: [F; 4]) -> bool {
    exists|zero: F, v: V, f: V, fs: [F; 4], p: V, gain: V, weight: V, offset: V, out: V| #[trigger]
        lab_steps::<F, V>(xyz, zero, v, f, fs, p, gain, weight, offset, out, lab)
}

/// CIELAB of a colour in one vector pass. The last place is unused.
pub fn color_lab<F: Scalar, V: Lanes<4, Element = F>>(xyz: [F; 3]) -> (r: [F; 4])
    ensures
        is_lab::<F, V>(xyz@, r),
{
    let zero: F = F::from_bits(ZERO);
    let lanes: [F; 4] = [xyz[0], xyz[1], xyz[2], zero];
    assert(lanes@ =~= seq![xyz[0], xyz[1], xyz[2], zero]);
    let v = V::new(lanes);
    assert(vector_of::<V, 4>(v, lanes@));
    let t = Term::val(v);
    let line = t.mul_adde(Term::constant(LAB_SLOPE), Term::constant(LAB_OFFSET));
    let f = t.gt(Term::constant(LAB_EPS)).select(t.cbrt(), line).value();

    let fs: [F; 4] = f.into_array();
    let ps: [F; 4] = [fs[1], fs[0], fs[1], fs[1]];
    assert(ps@ =~= seq![fs[1], fs[0], fs[1], fs[1]]);
    let p = V::new(ps);
    assert(vector_of::<V, 4>(p, ps@));
    let gains: [u32; 4] = [L_GAIN, A_GAIN, B_GAIN, ZERO];
    let weights: [u32; 4] = [ZERO, A_GAIN, B_GAIN, ZERO];
    let offsets: [u32; 4] = [SIXTEEN, ZERO, ZERO, ZERO];
    assert(gains@ =~= lab_gains());
    assert(weights@ =~= lab_weights());
    assert(offsets@ =~= lab_offsets());
    let gain: V = constants4(gains);
    let weight: V = constants4(weights);
    let offset: V = constants4(offsets);
    let sub = Term::val(weight).mul_adde(Term::val(f), Term::val(offset));
    let out = Term::val(gain).mul_sube(Term::val(p), sub).value();
    let lab = out.into_array();
    assert(lab_steps::<F, V>(xyz@, zero, v, f, fs, p, gain, weight, offset, out, lab));
    lab
}

// ----------------------------------------------------------------------------
// The loaded network
// ----------------------------------------------------------------------------

/// One linear layer.
#[derive(Debug)]
pub struct Layer<F> {
    /// Weights. Those of input `i` are `w[i * out..(i + 1) * out]`.
    pub w: Vec<F>,
    /// Biases.
    pub b: Vec<F>,
}

/// `x` is the number that a half stands for.
pub open spec fn is_half<F: Scalar>(h: u16, x: F) -> bool {
    exists|bits: u32| widens(h, bits) && #[trigger] is_constant(bits, x)
}

/// `x` is so many steps of a half.
pub open spec fn is_steps<F: Scalar>(q: int, scale: u16, x: F) -> bool {
    exists|bits: u32|
        widens(scale, bits) && #[trigger] evals(Formula::<F, F>::Int(q).mul(Formula::Const(bits)), x)
}

/// `x` is the weight: a half, or a number of steps times the step.
pub open spec fn is_weight<F: Scalar>(w: Weight, x: F) -> bool {
    match w {
        Weight::Raw(h) => is_half(h, x),
        Weight::Steps(q, scale) => is_steps(q as int, scale, x),
    }
}

impl<F: Scalar> Layer<F> {
    /// The lengths of weights and biases of layer `l`.
    pub open spec fn has_shape(self, l: int) -> bool {
        &&& self.w@.len() == dims()[l] * dims()[l + 1]
        &&& self.b@.len() == dims()[l + 1]
    }

    /// The weight that input `i` has in output `c`, where there are `out` outputs.
    pub open spec fn weight(self, out: int, i: int, c: int) -> F {
        self.w@[i * out + c]
    }

    /// Each weight is the one that the row of its channel holds.
    pub open spec fn has_weights(self, l: int, rows: Seq<Seq<Weight>>) -> bool {
        forall|i: int, c: int|
            0 <= i < dims()[l] && 0 <= c < dims()[l + 1] ==> is_weight(
                rows[layer_start(l) + c][i],
                #[trigger] self.weight(dims()[l + 1] as int, i, c),
            )
    }

    /// The biases are those of the layer's channels.
    pub open spec fn has_biases(self, l: int, biases: Seq<u16>) -> bool {
        forall|c: int|
            0 <= c < dims()[l + 1] ==> is_half(biases[layer_start(l) + c], #[trigger] self.b@[c])
    }
}

/// The number that a half stands for.
fn half_value<F: Scalar>(h: u16) -> (r: F)
    requires
        f16_finite(h),
    ensures
        is_half(h, r),
{
    let bits: u32 = f16_to_f32(h);
    let r = F::from_bits(bits);
    assert(is_constant(bits, r));
    r
}

/// The number that a weight stands for.
fn weight_value<F: Scalar>(w: Weight) -> (r: F)
    requires
        weight_finite(w),
    ensures
        is_weight(w, r),
{
    match w {
        Weight::Raw(h) => half_value(h),
        Weight::Steps(q, scale) => {
            let bits: u32 = f16_to_f32(scale);
            let r: F = Term::integer(q as i64).mul(Term::constant(bits)).value();
            assert(evals(Formula::<F, F>::Int(q as int).mul(Formula::Const(bits)), r));
            r
        },
    }
}

impl<F: Scalar> Layer<F> {
    /// Layer `l` of a network: the row of each channel becomes one place in the columns.
    fn from_quantized(net: &QuantizedNet, l: usize) -> (r: Self)
        requires
            l < N_LAYERS,
            well_formed(net@),
        ensures
            r.has_shape(l as int),
            r.has_weights(l as int, net@.rows),
            r.has_biases(l as int, net@.biases),
    {
        let start: usize = first_channel(l);
        let n_in: usize = dim(l);
        let n_out: usize = dim(l + 1);
        let ghost rows = net@.rows;
        proof {
            lemma_layers();
        }
        let mut w: Vec<F> = Vec::new();
        let mut i: usize = 0;
        while i < n_in
            invariant
                0 <= l < N_LAYERS,
                start == layer_start(l as int),
                start + n_out <= N_CHANNELS,
                n_in == dims()[l as int],
                n_out == dims()[l + 1],
                rows == net@.rows,
                well_formed(net@),
                i <= n_in,
                w@.len() == i * n_out,
                weights_up_to(w@, rows, start as int, n_out as int, i as int, 0),
            decreases n_in - i,
        {
            let mut c: usize = 0;
            while c < n_out
                invariant
                    0 <= l < N_LAYERS,
                    start == layer_start(l as int),
                    start + n_out <= N_CHANNELS,
                    n_in == dims()[l as int],
                    n_out == dims()[l + 1],
                    rows == net@.rows,
                    well_formed(net@),
                    i < n_in,
                    c <= n_out,
                    w@.len() == i * n_out + c,
                    weights_up_to(w@, rows, start as int, n_out as int, i as int, c as int),
                decreases n_out - c,
            {
                proof {
                    lemma_layers();
                    assert(layer_of(layer_start(l as int) + c) == l);
                    assert(rows[start + c].len() == n_in);
                    assert(weight_finite(rows[start + c][i as int]));
                }
                let ghost before = w@;
                w.push(weight_value(net.rows[start + c][i]));
                proof {
                    lemma_weights_push(before, w@, rows, start as int, n_out as int, i as int, c as int);
                }
                c = c + 1;
            }
            proof {
                assert((i + 1) * n_out == i * n_out + n_out) by (nonlinear_arith);
            }
            i = i + 1;
        }
        let mut b: Vec<F> = Vec::new();
        for c in 0..n_out
            invariant
                start + n_out <= N_CHANNELS,
                well_formed(net@),
                b@.len() == c,
                forall|k: int| 0 <= k < c ==> is_half(net@.biases[start + k], #[trigger] b@[k]),
        {
            assert(f16_finite(net@.biases[start + c]));
            b.push(half_value(net.biases[start + c]));
        }
        Layer { w, b }
    }
}

/// The weights of the inputs before `i`, and of the first `c` outputs of input `i`, are in place.
spec fn weights_up_to<F: Scalar>(
    w: Seq<F>,
    rows: Seq<Seq<Weight>>,
    start: int,
    out: int,
    i: int,
    c: int,
) -> bool {
    forall|j: int, k: int|
        0 <= j && 0 <= k < out && (j < i || j == i && k < c) ==> is_weight(
            rows[start + k][j],
            #[trigger] w[j * out + k],
        )
}

/// One more weight is in place.
proof fn lemma_weights_push<F: Scalar>(
    before: Seq<F>,
    w: Seq<F>,
    rows: Seq<Seq<Weight>>,
    start: int,
    out: int,
    i: int,
    c: int,
)
    requires
        0 <= i,
        0 <= c < out,
        before.len() == i * out + c,
        weights_up_to(before, rows, start, out, i, c),
        w == before.push(w.last()),
        is_weight(rows[start + c][i], w.last()),
    ensures
        weights_up_to(w, rows, start, out, i, c + 1),
{
    assert forall|j: int, k: int|
        0 <= j && 0 <= k < out && (j < i || j == i && k < c + 1) implies is_weight(
        rows[start + k][j],
        #[trigger] w[j * out + k],
    ) by {
        if j == i && k == c {
            assert(w[j * out + k] == w.last());
        } else {
            assert(0 <= j * out + k < i * out + c) by (nonlinear_arith)
                requires
                    0 <= j,
                    0 <= k < out,
                    0 <= c,
                    j < i || j == i && k < c,
            ;
            assert(w[j * out + k] == before[j * out + k]);
        }
    }
}

/// The network, loaded once per scene: weights and biases per layer, and the statistics by which the
/// input features are standardized.
#[derive(Debug)]
pub struct DeployNet<F: Scalar> {
    layers: [Layer<F>; 7],
    /// Mean over standard deviation.
    whit_mean: [F; 6],
    /// One over standard deviation.
    whit_std: [F; 6],
}

impl<F: Scalar> DeployNet<F> {
    /// The layers.
    pub closed spec fn layers(self) -> Seq<Layer<F>> {
        self.layers@
    }

    /// Mean over standard deviation of each input feature.
    pub closed spec fn means(self) -> Seq<F> {
        self.whit_mean@
    }

    /// One over the standard deviation of each input feature.
    pub closed spec fn inverse_deviations(self) -> Seq<F> {
        self.whit_std@
    }

    #[verifier::type_invariant]
    spec fn inv(self) -> bool {
        has_shapes(self.layers@)
    }

    /// This is the network that a container holds.
    pub open spec fn is_of(self, q: Quantized) -> bool {
        &&& self.layers().len() == N_LAYERS
        &&& forall|l: int| 0 <= l < N_LAYERS ==> (#[trigger] self.layers()[l]).has_shape(l)
        &&& forall|l: int| 0 <= l < N_LAYERS ==> (#[trigger] self.layers()[l]).has_weights(l, q.rows)
        &&& forall|l: int| 0 <= l < N_LAYERS ==> (#[trigger] self.layers()[l]).has_biases(l, q.biases)
        &&& self.means().len() == N_IN
        &&& self.inverse_deviations().len() == N_IN
        &&& forall|i: int|
            0 <= i < N_IN ==> is_standardizer(
                q.floats[i],
                q.floats[N_IN + i],
                #[trigger] self.means()[i],
                self.inverse_deviations()[i],
            )
    }

    /// Read the network from a container.
    pub fn load(blob: &[u8]) -> (r: Self)
        requires
            8 * blob@.len() <= usize::MAX,
            decoded(blob@) is Some,
        ensures
            r.is_of(decoded(blob@).unwrap()),
    {
        proof {
            law_decoded_well_formed(blob@);
        }
        let net = parse(blob).unwrap();
        Self::from_quantized(&net)
    }

    /// The network of decoded weights.
    pub fn from_quantized(net: &QuantizedNet) -> (r: Self)
        requires
            well_formed(net@),
        ensures
            r.is_of(net@),
    {
        let layers: [Layer<F>; 7] = [
            Layer::from_quantized(net, 0),
            Layer::from_quantized(net, 1),
            Layer::from_quantized(net, 2),
            Layer::from_quantized(net, 3),
            Layer::from_quantized(net, 4),
            Layer::from_quantized(net, 5),
            Layer::from_quantized(net, 6),
        ];
        let (m0, s0) = standardizer(net.floats[0], net.floats[6]);
        let (m1, s1) = standardizer(net.floats[1], net.floats[7]);
        let (m2, s2) = standardizer(net.floats[2], net.floats[8]);
        let (m3, s3) = standardizer(net.floats[3], net.floats[9]);
        let (m4, s4) = standardizer(net.floats[4], net.floats[10]);
        let (m5, s5) = standardizer(net.floats[5], net.floats[11]);
        let r = DeployNet {
            layers,
            whit_mean: [m0, m1, m2, m3, m4, m5],
            whit_std: [s0, s1, s2, s3, s4, s5],
        };
        assert forall|i: int| 0 <= i < N_IN implies is_standardizer(
            net@.floats[i],
            net@.floats[N_IN + i],
            #[trigger] r.means()[i],
            r.inverse_deviations()[i],
        ) by {
            assert(i == 0 || i == 1 || i == 2 || i == 3 || i == 4 || i == 5);
        }
        r
    }
}

/// The same numbers again.
fn copy_numbers<F: Scalar>(v: &Vec<F>) -> (r: Vec<F>)
    ensures
        r@ == v@,
{
    let mut r: Vec<F> = Vec::new();
    for i in 0..v.len()
        invariant
            r@ == v@.take(i as int),
    {
        r.push(v[i]);
        assert(v@.take(i + 1) =~= v@.take(i as int).push(v@[i as int]));
    }
    assert(v@.take(v@.len() as int) =~= v@);
    r
}

impl<F: Scalar> Clone for Layer<F> {
    fn clone(&self) -> (r: Self)
        ensures
            r.w@ == self.w@,
            r.b@ == self.b@,
    {
        Layer { w: copy_numbers(&self.w), b: copy_numbers(&self.b) }
    }
}

impl<F: Scalar> Clone for DeployNet<F> {
    fn clone(&self) -> (r: Self)
        ensures
            r.layers().len() == self.layers().len(),
            forall|l: int|
                0 <= l < r.layers().len() ==> (#[trigger] r.layers()[l]).w@ == self.layers()[l].w@,
            forall|l: int|
                0 <= l < r.layers().len() ==> (#[trigger] r.layers()[l]).b@ == self.layers()[l].b@,
            r.means() == self.means(),
            r.inverse_deviations() == self.inverse_deviations(),
    {
        proof {
            use_type_invariant(self);
        }
        let layers: [Layer<F>; 7] = [
            self.layers[0].clone(),
            self.layers[1].clone(),
            self.layers[2].clone(),
            self.layers[3].clone(),
            self.layers[4].clone(),
            self.layers[5].clone(),
            self.layers[6].clone(),
        ];
        DeployNet { layers, whit_mean: self.whit_mean, whit_std: self.whit_std }
    }
}

/// Every layer has the shape that the widths ask for.
spec fn has_shapes<F: Scalar>(layers: Seq<Layer<F>>) -> bool {
    &&& layers.len() == N_LAYERS
    &&& forall|l: int| 0 <= l < N_LAYERS ==> (#[trigger] layers[l]).has_shape(l)
}

/// `inv` is one over the standard deviation and `scaled` the mean times that.
pub open spec fn is_standardizer<F: Scalar>(mean: u32, std: u32, scaled: F, inv: F) -> bool {
    &&& evals(Formula::<F, F>::Const(ONE).div(Formula::Const(std)), inv)
    &&& evals(Formula::<F, F>::Const(mean).mul(Formula::Val(inv)), scaled)
}

/// The mean in units of the standard deviation, and one over the standard deviation.
fn standardizer<F: Scalar>(mean: u32, std: u32) -> (r: (F, F))
    ensures
        is_standardizer(mean, std, r.0, r.1),
{
    let inv: F = Term::constant(ONE).div(Term::constant(std)).value();
    let scaled: F = Term::constant(mean).mul(Term::val(inv)).value();
    (scaled, inv)
}

// ----------------------------------------------------------------------------
// Inference
// ----------------------------------------------------------------------------

/// An input feature, standardized: `raw * inv - scaled`, which is the feature minus its mean over its
/// standard deviation.
pub open spec fn standardized<T, S>(raw: Formula<T, S>, inv: T, scaled: T) -> Formula<T, S> {
    raw.mul_sube(Formula::Val(inv), Formula::Val(scaled))
}

/// The squared distance of a colour from the white in the `a, b` plane.
pub open spec fn chroma2_formula<T, S>(
    a: Formula<T, S>,
    b: Formula<T, S>,
    white_a: Formula<T, S>,
    white_b: Formula<T, S>,
) -> Formula<T, S> {
    let dx = a.sub(white_a);
    let dy = b.sub(white_b);
    dx.mul_adde(dx, dy.mul(dy))
}

impl<F: Scalar> DeployNet<F> {
    /// `x` are the standardized input features of a colour with the CIELAB coordinates `lab`.
    pub open spec fn are_features(self, lab: Seq<F>, white_ab: Seq<F>, x: Seq<F>) -> bool {
        let inv = self.inverse_deviations();
        let scaled = self.means();
        let l = Formula::<F, F>::Val(lab[0]);
        let a = Formula::<F, F>::Val(lab[1]);
        let b = Formula::<F, F>::Val(lab[2]);
        let wa = Formula::<F, F>::Val(white_ab[0]);
        let wb = Formula::<F, F>::Val(white_ab[1]);
        &&& x.len() == N_IN
        &&& evals(standardized(l, inv[0], scaled[0]), x[0])
        &&& evals(standardized(a, inv[1], scaled[1]), x[1])
        &&& evals(standardized(b, inv[2], scaled[2]), x[2])
        &&& evals(standardized(wa, inv[3], scaled[3]), x[3])
        &&& evals(standardized(wb, inv[4], scaled[4]), x[4])
        &&& evals(standardized(chroma2_formula(a, b, wa, wb), inv[5], scaled[5]), x[5])
    }

    /// `x` are the input features of the colour `xyz`, with vectors of type `V`.
    pub open spec fn features_of<V: Lanes<4, Element = F>>(self, xyz: Seq<F>, white_ab: Seq<F>, x: Seq<F>) -> bool {
        exists|lab: [F; 4]| #[trigger] is_lab::<F, V>(xyz, lab) && self.are_features(lab@, white_ab, x)
    }

    /// The standardized input features of a material colour, given as XYZ under its authoring
    /// illuminant: `L, a, b` of the colour, `a, b` of the illuminant's white, and the squared distance
    /// between the two.
    pub fn input_features<V: Lanes<4, Element = F>>(&self, color_xyz: [F; 3], white_ab: [F; 2]) -> (r: [F; 6])
        ensures
            self.features_of::<V>(color_xyz@, white_ab@, r@),
    {
        let lab: [F; 4] = color_lab::<F, V>(color_xyz);
        let a = Term::val(lab[1]);
        let b = Term::val(lab[2]);
        let wa = Term::val(white_ab[0]);
        let wb = Term::val(white_ab[1]);
        let dx = a.sub(wa);
        let dy = b.sub(wb);
        let c2 = dx.mul_adde(dx, dy.mul(dy));
        let s = &self.whit_std;
        let m = &self.whit_mean;
        let r: [F; 6] = [
            Term::val(lab[0]).mul_sube(Term::val(s[0]), Term::val(m[0])).value(),
            a.mul_sube(Term::val(s[1]), Term::val(m[1])).value(),
            b.mul_sube(Term::val(s[2]), Term::val(m[2])).value(),
            wa.mul_sube(Term::val(s[3]), Term::val(m[3])).value(),
            wb.mul_sube(Term::val(s[4]), Term::val(m[4])).value(),
            c2.mul_sube(Term::val(s[5]), Term::val(m[5])).value(),
        ];
        assert(self.are_features(lab@, white_ab@, r@));
        r
    }

    /// `(a, b)` of an illuminant white under the equal-energy white, for [`Self::uplift`]. It does not
    /// depend on the material.
    pub fn white_lab_ab(white_xyz: [F; 3]) -> (r: [F; 2])
        ensures
            exists|lab: [F; 3]| #[trigger] are_lab(white_xyz@, lab@) && r@ == seq![lab[1], lab[2]],
    {
        let lab: [F; 3] = xyz_to_lab_e(white_xyz);
        let r: [F; 2] = [lab[1], lab[2]];
        assert(are_lab(white_xyz@, lab@));
        assert(r@ =~= seq![lab[1], lab[2]]);
        r
    }

    /// `h` are the features, the outputs of the six hidden layers and those of the last layer.
    pub open spec fn activations<B: NnBackend<F32 = F>>(
        self,
        xyz: Seq<F>,
        white_ab: Seq<F>,
        h: Seq<Seq<F>>,
    ) -> bool {
        &&& h.len() == N_LAYERS + 1
        &&& self.features_of::<B::F32x4>(xyz, white_ab, h[0])
        &&& forall|l: int|
            0 <= l < N_LAYERS ==> #[trigger] self.applies_layer::<B>(l, h[l], h[l + 1])
    }

    /// `y` are the outputs of layer `l` on the inputs `x`. All layers but the last one have the
    /// activation.
    pub open spec fn applies_layer<B: NnBackend<F32 = F>>(self, l: int, x: Seq<F>, y: Seq<F>) -> bool {
        is_layer::<F, B::F32x16, 16>(
            l < N_LAYERS - 1,
            layer_split(l),
            self.layers()[l].w@,
            self.layers()[l].b@,
            x,
            y,
        )
    }

    /// `o` are the outputs of the network on a colour.
    pub open spec fn forwards<B: NnBackend<F32 = F>>(self, xyz: Seq<F>, white_ab: Seq<F>, o: Seq<F>) -> bool {
        exists|h: Seq<Seq<F>>| #[trigger] self.activations::<B>(xyz, white_ab, h) && h[7] == o
    }

    /// The 16 raw outputs of the network.
    fn forward<B: NnBackend<F32 = F>>(&self, color_xyz: [F; 3], white_ab: [F; 2]) -> (r: [F; 16])
        ensures
            self.forwards::<B>(color_xyz@, white_ab@, r@),
    {
        proof {
            use_type_invariant(self);
        }
        let x = self.input_features::<B::F32x4>(color_xyz, white_ab);
        assert(self.layers[0].has_shape(0));
        assert(self.layers[1].has_shape(1));
        assert(self.layers[2].has_shape(2));
        assert(self.layers[3].has_shape(3));
        assert(self.layers[4].has_shape(4));
        assert(self.layers[5].has_shape(5));
        assert(self.layers[6].has_shape(6));
        let h1 = matvec_act::<F, B::F32x16, 16, true, 6, 32, 2, 2>(&self.layers[0].w, &self.layers[0].b, &x);
        let h2 = matvec_act::<F, B::F32x16, 16, true, 32, 32, 2, 2>(&self.layers[1].w, &self.layers[1].b, &h1);
        let h3 = matvec_act::<F, B::F32x16, 16, true, 32, 32, 2, 2>(&self.layers[2].w, &self.layers[2].b, &h2);
        let h4 = matvec_act::<F, B::F32x16, 16, true, 32, 48, 3, 1>(&self.layers[3].w, &self.layers[3].b, &h3);
        let h5 = matvec_act::<F, B::F32x16, 16, true, 48, 64, 4, 1>(&self.layers[4].w, &self.layers[4].b, &h4);
        let h6 = matvec_act::<F, B::F32x16, 16, true, 64, 80, 5, 1>(&self.layers[5].w, &self.layers[5].b, &h5);
        let h7 = matvec_act::<F, B::F32x16, 16, false, 80, 16, 1, 4>(&self.layers[6].w, &self.layers[6].b, &h6);
        let r: [F; 16] = [
            h7[0],
            h7[1],
            h7[2],
            h7[3],
            h7[4],
            h7[5],
            h7[6],
            h7[7],
            h7[8],
            h7[9],
            h7[10],
            h7[11],
            h7[12],
            h7[13],
            h7[14],
            h7[15],
        ];
        proof {
            assert(r@ =~= h7@);
            lemma_whole_layer(self.layers[0].w@, self.layers[0].b@, x@);
            lemma_whole_layer(self.layers[1].w@, self.layers[1].b@, h1@);
            lemma_whole_layer(self.layers[2].w@, self.layers[2].b@, h2@);
            lemma_whole_layer(self.layers[3].w@, self.layers[3].b@, h3@);
            lemma_whole_layer(self.layers[4].w@, self.layers[4].b@, h4@);
            lemma_whole_layer(self.layers[5].w@, self.layers[5].b@, h5@);
            lemma_whole_layer(self.layers[6].w@, self.layers[6].b@, h6@);
            lemma_layer_splits();
            assert(self.applies_layer::<B>(0, x@, h1@));
            assert(self.applies_layer::<B>(1, h1@, h2@));
            assert(self.applies_layer::<B>(2, h2@, h3@));
            assert(self.applies_layer::<B>(3, h3@, h4@));
            assert(self.applies_layer::<B>(4, h4@, h5@));
            assert(self.applies_layer::<B>(5, h5@, h6@));
            assert(self.applies_layer::<B>(6, h6@, h7@));
            let h = seq![x@, h1@, h2@, h3@, h4@, h5@, h6@, h7@];
            assert forall|l: int| 0 <= l < N_LAYERS implies #[trigger] self.applies_layer::<B>(
                l,
                h[l],
                h[l + 1],
            ) by {
                assert(l == 0 || l == 1 || l == 2 || l == 3 || l == 4 || l == 5 || l == 6);
            }
            assert(self.activations::<B>(color_xyz@, white_ab@, h));
        }
        r
    }

    /// Run the network and bound its outputs into reconstruction parameters. `white_ab` is the
    /// illuminant's white as [`Self::white_lab_ab`] gives it.
    pub fn uplift<B: NnBackend<F32 = F>>(&self, color_xyz: [F; 3], white_ab: [F; 2]) -> (r: UpliftParams<F>)
        ensures
            exists|o: [F; 16]| #[trigger]
                self.forwards::<B>(color_xyz@, white_ab@, o@) && r.bounds::<B::F32x8>(o@),
    {
        let o: [F; 16] = self.forward::<B>(color_xyz, white_ab);
        assert(self.forwards::<B>(color_xyz@, white_ab@, o@));
        assert(o@.take(16) =~= o@);
        UpliftParams::from_outputs::<B::F32x8>(&o)
    }

    /// The 16 raw outputs of the network, for baking a lookup cube: the same as [`Self::uplift`]
    /// without the bounds.
    pub fn uplift_raw<B: NnBackend<F32 = F>>(&self, color_xyz: [F; 3], white_ab: [F; 2]) -> (r: [F; 16])
        ensures
            self.forwards::<B>(color_xyz@, white_ab@, r@),
    {
        self.forward::<B>(color_xyz, white_ab)
    }
}

/// Number of partial sums of layer `l`: four vectors of partial sums in all, or none where a layer has
/// three vectors of outputs or more.
pub open spec fn layer_split(l: int) -> nat {
    let vectors = dims()[l + 1] / 16;
    if vectors >= 3 {
        1
    } else {
        4nat / vectors
    }
}

/// The numbers of partial sums of the layers.
proof fn lemma_layer_splits()
    ensures
        layer_split(0) == 2,
        layer_split(1) == 2,
        layer_split(2) == 2,
        layer_split(3) == 1,
        layer_split(4) == 1,
        layer_split(5) == 1,
        layer_split(6) == 4,
{
    let d = dims()[1] / 16;
    let e = dims()[7] / 16;
    assert(dims()[2] / 16 == d && dims()[3] / 16 == d);
    assert(4nat / d == 2 && 4nat / e == 4) by (nonlinear_arith)
        requires
            d == 2,
            e == 1,
    ;
}

/// Slices of exactly the size of a layer are read whole.
proof fn lemma_whole_layer<F>(w: Seq<F>, b: Seq<F>, x: Seq<F>)
    ensures
        w.take(w.len() as int) == w,
        b.take(b.len() as int) == b,
        x.take(x.len() as int) == x,
{
    assert(w.take(w.len() as int) =~= w);
    assert(b.take(b.len() as int) =~= b);
    assert(x.take(x.len() as int) =~= x);
}

} // verus!
