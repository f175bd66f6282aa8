//! What loading and running the network answers, in plain numbers.
//!
//! Each law takes what the functions returned and says, as arithmetic on the arguments, what numbers these
//! are, where the vector arithmetic is exact.

use crate::blob::{
    dims, layer_start, lemma_layers, parse, BlobError, QuantizedNet, Weight, N_IN,
};
use crate::formula::{
    defined, evals, exact, exact_holds, has_cube_root, has_root, is_root, root, Formula, Lanes, NnBackend,
    Scalar,
};
use crate::ieee::{f16_value, f32_finite, f32_value, lemma_f32_value, ONE};
use crate::layer::{is_layer, matvec_act};
use crate::layer_laws::dot;
use crate::model::{
    cube_roots_exist, law_evals_exact, read_all, reads_lanes, reads_numbers,
    roots_exist, Model,
};
use crate::net::{
    are_lab, chroma2_formula, color_lab, is_half, is_lab, is_standardizer, is_weight, lab_f_formula,
    layer_split, standardized, xyz_to_lab_e, DeployNet, LAB_EPS, LAB_KAPPA, LAB_OFFSET, LAB_SLOPE, L_GAIN,
    SIXTEEN,
};
use crate::net_laws::lemma_lab_values;
use crate::net_results::{
    activation, lab_f_of_reals, law_feature_result, law_half_result, law_lab_result, law_layer_result,
    law_weight_result, law_white_result, lemma_layer_split, lemma_white_f_defined, read_column,
    white_f_of_reals,
};
use crate::params::UpliftParams;
use crate::params_answers::{are_params, lemma_are_params};
use crate::params_laws::lemma_unit_values;
use crate::params_results::{law_params_result, read_params};
use vstd::arithmetic::power2::lemma2_to64;
use vstd::prelude::*;

verus! {

// ----------------------------------------------------------------------------
// Layers
// ----------------------------------------------------------------------------

/// The sums `p` run from `b` on, one product of a weight and an input at a time.
pub open spec fn sums_run(b: real, w: spec_fn(int) -> real, x: Seq<real>, p: Seq<real>) -> bool {
    &&& p.len() == x.len() + 1
    &&& p[0] == b
    &&& forall|i: int| 0 <= i < x.len() ==> #[trigger] p[i + 1] == p[i] + w(i) * x[i]
}

/// `a` is `b` plus each input times its weight.
pub open spec fn adds_up(b: real, w: spec_fn(int) -> real, x: Seq<real>, a: real) -> bool {
    exists|p: Seq<real>| #[trigger] sums_run(b, w, x, p) && p[x.len() as int] == a
}

/// `y` is the algebraic SiLU `a * (1/2 + a / (2 * sqrt(1 + a^2)))` of `a`.
pub open spec fn is_silu(a: real, y: real) -> bool {
    exists|s: real| #[trigger] is_root(1real + a * a, s) && y == a * (1real / 2real + a / (2real * s))
}

/// Running sums.
spec fn running(b: real, c: Seq<real>, x: Seq<real>) -> Seq<real> {
    Seq::new(x.len() + 1, |i: int| b + dot(c, x, i as nat))
}

/// A dot product is a running sum.
proof fn lemma_adds_up(b: real, w: spec_fn(int) -> real, c: Seq<real>, x: Seq<real>)
    requires
        c.len() == x.len(),
        forall|i: int| 0 <= i < x.len() ==> #[trigger] c[i] == w(i),
    ensures
        adds_up(b, w, x, b + dot(c, x, x.len())),
{
    let p = running(b, c, x);
    assert forall|i: int| 0 <= i < x.len() implies #[trigger] p[i + 1] == p[i] + w(i) * x[i] by {
        assert(c[i] == w(i));
    }
    assert(sums_run(b, w, x, p));
}

/// The activation.
proof fn lemma_is_silu(a: real)
    requires
        roots_exist(),
    ensures
        is_silu(a, activation(true, a)),
{
    let n = a * a + 1real;
    assert(n >= 0real) by (nonlinear_arith)
        requires
            n == a * a + 1real,
    ;
    assert(has_root(n));
    assert(is_root(1real + a * a, root(n)));
}

/// An output of a layer: the bias plus each input times its weight, through the activation where there is
/// one.
pub open spec fn is_output(act: bool, b: real, w: spec_fn(int) -> real, x: Seq<real>, y: real) -> bool {
    exists|a: real| #[trigger] adds_up(b, w, x, a) && if act {
        is_silu(a, y)
    } else {
        y == a
    }
}

/// An output of a layer that was computed.
proof fn lemma_output<F: Scalar, V: Lanes<L, Element = F>, const L: usize>(
    s: Model<F>,
    v: spec_fn(int) -> Model<V>,
    act: bool,
    split: nat,
    w: Seq<F>,
    b: Seq<F>,
    x: Seq<F>,
    y: Seq<F>,
    c: int,
    weight: spec_fn(int) -> real,
)
    requires
        reads_numbers(s),
        reads_lanes::<F, V, L>(s, v),
        roots_exist(),
        split >= 1,
        1 <= L,
        b.len() % (L as nat) == 0,
        w.len() == x.len() * b.len(),
        is_layer::<F, V, L>(act, split, w, b, x, y),
        0 <= c < b.len(),
        forall|i: int| 0 <= i < x.len() ==> (s.elem)(#[trigger] w[i * b.len() + c]) == weight(i),
    ensures
        is_output(act, (s.elem)(b[c]), weight, read_all(s.elem, x), (s.elem)(y[c])),
{
    law_layer_result::<F, V, L>(s, v, act, split, w, b, x, y, c);
    let col = read_column(s.elem, w, b.len() as int, c, x.len());
    let rx = read_all(s.elem, x);
    assert forall|i: int| 0 <= i < rx.len() implies #[trigger] col[i] == weight(i) by {
        assert((s.elem)(w[i * b.len() + c]) == weight(i));
    }
    let a = (s.elem)(b[c]) + dot(col, rx, x.len());
    lemma_adds_up((s.elem)(b[c]), weight, col, rx);
    assert(adds_up((s.elem)(b[c]), weight, rx, a));
    if act {
        lemma_is_silu(a);
    }
}

/// [`matvec_act`] returns one number per output: the bias plus each input times the weight that it has in
/// that output, through the algebraic SiLU where the layer has it. Nothing else of the slices matters.
pub proof fn law_matvec_answer<
    F: Scalar,
    V: Lanes<L, Element = F>,
    const L: usize,
    const ACT: bool,
    const IN: usize,
    const OUT: usize,
    const NCH: usize,
    const SPLIT: usize,
>(s: Model<F>, v: spec_fn(int) -> Model<V>, w: &[F], b: &[F], x: &[F], y: Vec<F>)
    requires
        reads_numbers(s),
        reads_lanes::<F, V, L>(s, v),
        roots_exist(),
        1 <= L,
        NCH * L == OUT,
        1 <= SPLIT,
        w@.len() >= IN * OUT,
        b@.len() >= OUT,
        x@.len() >= IN,
        call_ensures(matvec_act::<F, V, L, ACT, IN, OUT, NCH, SPLIT>, (w, b, x), y),
    ensures
        y@.len() == OUT,
        forall|c: int|
            0 <= c < OUT ==> is_output(
                ACT,
                (s.elem)(b@[c]),
                |i: int| (s.elem)(w@[i * OUT + c]),
                Seq::new(IN as nat, |i: int| (s.elem)(x@[i])),
                (s.elem)(#[trigger] y@[c]),
            ),
{
    let ws = w@.take(IN * OUT);
    let bs = b@.take(OUT as int);
    let xs = x@.take(IN as int);
    vstd::arithmetic::div_mod::lemma_mod_multiples_basic(NCH as int, L as int);
    let rx = Seq::new(IN as nat, |i: int| (s.elem)(x@[i]));
    assert(read_all(s.elem, xs) =~= rx);
    assert forall|c: int| 0 <= c < OUT implies is_output(
        ACT,
        (s.elem)(b@[c]),
        |i: int| (s.elem)(w@[i * OUT + c]),
        rx,
        (s.elem)(#[trigger] y@[c]),
    ) by {
        let weight = |i: int| (s.elem)(w@[i * OUT + c]);
        assert forall|i: int| 0 <= i < xs.len() implies (s.elem)(#[trigger] ws[i * bs.len() + c]) == weight(i) by {
            assert(0 <= i * OUT && i * OUT + OUT <= IN * OUT) by (nonlinear_arith)
                requires
                    0 <= i < IN,
                    0 <= OUT,
            ;
        }
        lemma_output::<F, V, L>(s, v, ACT, SPLIT as nat, ws, bs, xs, y@, c, weight);
    }
}

// ----------------------------------------------------------------------------
// CIELAB
// ----------------------------------------------------------------------------

/// `f` is the CIELAB function of a coordinate of a colour: its cube root above `(6/29)^3`, and the line
/// `(903.3 t + 16) / 116` up to there. The threshold, the slope and the offset are binary32 numbers.
pub open spec fn is_color_f(t: real, f: real) -> bool {
    if t > 9509543real / 1073741824real {
        f * f * f == t
    } else {
        f == (16330602real / 2097152real) * t + 9256395real / 67108864real
    }
}

/// `f` is the CIELAB function of a coordinate of a white, on the same threshold and the same line.
pub open spec fn is_white_f(t: real, f: real) -> bool {
    if t > 9509543real / 1073741824real {
        f * f * f == t
    } else {
        116real * f == (14799608real / 16384real) * t + 16real
    }
}

/// The constants of the CIELAB function.
proof fn lemma_lab_f_values()
    ensures
        f32_value(LAB_EPS) == 9509543real / 1073741824real,
        f32_value(LAB_SLOPE) == 16330602real / 2097152real,
        f32_value(LAB_OFFSET) == 9256395real / 67108864real,
        f32_value(LAB_KAPPA) == 14799608real / 16384real,
{
    lemma2_to64();
    lemma_f32_value(LAB_EPS);
    lemma_f32_value(LAB_SLOPE);
    lemma_f32_value(LAB_OFFSET);
    lemma_f32_value(LAB_KAPPA);
    assert(f32_value(LAB_EPS) == 9509543real / 1073741824real);
    assert(f32_value(LAB_SLOPE) == 16330602real / 2097152real);
    assert(f32_value(LAB_OFFSET) == 9256395real / 67108864real);
    assert(f32_value(LAB_KAPPA) == 14799608real / 16384real);
}

/// The CIELAB function of a colour.
proof fn lemma_color_f(t: real)
    requires
        cube_roots_exist(),
    ensures
        is_color_f(t, lab_f_of_reals(t)),
{
    lemma_lab_f_values();
    assert(has_cube_root(t));
    reveal_with_fuel(exact, 5);
    reveal_with_fuel(exact_holds, 2);
    let k = f32_value(LAB_SLOPE);
    assert(t * k == (16330602real / 2097152real) * t) by (nonlinear_arith)
        requires
            k == 16330602real / 2097152real,
    ;
}

/// The CIELAB function of a white.
proof fn lemma_white_f(t: real)
    requires
        cube_roots_exist(),
    ensures
        is_white_f(t, white_f_of_reals(t)),
{
    lemma_lab_f_values();
    lemma_lab_values();
    assert(has_cube_root(t));
    reveal_with_fuel(exact, 5);
    reveal_with_fuel(exact_holds, 2);
    let k = f32_value(LAB_KAPPA);
    assert(k * t == (14799608real / 16384real) * t) by (nonlinear_arith)
        requires
            k == 14799608real / 16384real,
    ;
}

/// `lab` are `116 f(Y) - 16`, `500 (f(X) - f(Y))` and `200 (f(Y) - f(Z))` of the colour `xyz`.
pub open spec fn is_cielab(xyz: Seq<real>, lab: Seq<real>) -> bool {
    exists|fx: real, fy: real, fz: real|
        {
            &&& #[trigger] is_color_f(xyz[0], fx)
            &&& #[trigger] is_color_f(xyz[1], fy)
            &&& #[trigger] is_color_f(xyz[2], fz)
            &&& lab[0] == 116real * fy - 16real
            &&& lab[1] == 500real * (fx - fy)
            &&& lab[2] == 200real * (fy - fz)
        }
}

/// CIELAB coordinates that were computed in the vector pass.
proof fn lemma_cielab<F: Scalar, V: Lanes<4, Element = F>>(
    s: Model<F>,
    v: spec_fn(int) -> Model<V>,
    xyz: [F; 3],
    lab: [F; 4],
)
    requires
        reads_numbers(s),
        reads_lanes::<F, V, 4>(s, v),
        cube_roots_exist(),
        is_lab::<F, V>(xyz@, lab),
    ensures
        is_cielab(
            read_all(s.elem, xyz@),
            seq![(s.elem)(lab[0]), (s.elem)(lab[1]), (s.elem)(lab[2])],
        ),
{
    law_lab_result::<F, V>(s, v, xyz@, lab);
    let x = (s.elem)(xyz[0]);
    let y = (s.elem)(xyz[1]);
    let z = (s.elem)(xyz[2]);
    lemma_color_f(x);
    lemma_color_f(y);
    lemma_color_f(z);
    assert(is_color_f(read_all(s.elem, xyz@)[0], lab_f_of_reals(x)));
    assert(is_color_f(read_all(s.elem, xyz@)[1], lab_f_of_reals(y)));
    assert(is_color_f(read_all(s.elem, xyz@)[2], lab_f_of_reals(z)));
}

/// [`color_lab`] returns the CIELAB coordinates of a colour.
pub proof fn law_color_lab_answer<F: Scalar, V: Lanes<4, Element = F>>(
    s: Model<F>,
    v: spec_fn(int) -> Model<V>,
    xyz: [F; 3],
    lab: [F; 4],
)
    requires
        reads_numbers(s),
        reads_lanes::<F, V, 4>(s, v),
        cube_roots_exist(),
        call_ensures(color_lab::<F, V>, (xyz,), lab),
    ensures
        is_cielab(
            read_all(s.elem, xyz@),
            seq![(s.elem)(lab[0]), (s.elem)(lab[1]), (s.elem)(lab[2])],
        ),
{
    lemma_cielab::<F, V>(s, v, xyz, lab);
}

/// The first of the three CIELAB coordinates of a white.
proof fn lemma_white_l<F: Scalar>(s: Model<F>, xyz: Seq<F>, lab: Seq<F>)
    requires
        reads_numbers(s),
        cube_roots_exist(),
        xyz.len() == 3,
        are_lab(xyz, lab),
    ensures
        (s.elem)(lab[0]) == 116real * white_f_of_reals((s.elem)(xyz[1])) - 16real,
{
    let y = (s.elem)(xyz[1]);
    let f = Formula::<F, F>::Const(L_GAIN).mul(lab_f_formula(Formula::Val(xyz[1]))).sub(
        Formula::Const(SIXTEEN),
    );
    let g = Formula::<real, real>::Const(L_GAIN).mul(lab_f_formula(Formula::Val(y))).sub(
        Formula::Const(SIXTEEN),
    );
    assert(s.denote(f) == g) by {
        reveal_with_fuel(Model::denote, 7);
        reveal_with_fuel(Model::denote_condition, 2);
    }
    lemma_white_f_defined(y);
    lemma_lab_values();
    assert(defined(g)) by {
        reveal_with_fuel(defined, 3);
    }
    law_evals_exact(s, f, lab[0]);
    reveal_with_fuel(exact, 3);
}

/// [`DeployNet::white_lab_ab`] returns `500 (f(X) - f(Y))` and `200 (f(Y) - f(Z))` of the white, and
/// [`xyz_to_lab_e`] these and `116 f(Y) - 16`.
pub proof fn law_white_answer<F: Scalar>(s: Model<F>, xyz: [F; 3], ab: [F; 2], lab: [F; 3])
    requires
        reads_numbers(s),
        cube_roots_exist(),
        call_ensures(DeployNet::<F>::white_lab_ab, (xyz,), ab),
        call_ensures(xyz_to_lab_e::<F>, (xyz,), lab),
    ensures
        exists|fx: real, fy: real, fz: real|
            {
                &&& #[trigger] is_white_f((s.elem)(xyz[0]), fx)
                &&& #[trigger] is_white_f((s.elem)(xyz[1]), fy)
                &&& #[trigger] is_white_f((s.elem)(xyz[2]), fz)
                &&& (s.elem)(ab[0]) == 500real * (fx - fy)
                &&& (s.elem)(ab[1]) == 200real * (fy - fz)
                &&& (s.elem)(lab[0]) == 116real * fy - 16real
                &&& (s.elem)(lab[1]) == 500real * (fx - fy)
                &&& (s.elem)(lab[2]) == 200real * (fy - fz)
            },
{
    law_white_result(s, xyz@, ab@);
    let two = seq![lab[1], lab[2]];
    assert(are_lab(xyz@, lab@));
    law_white_result(s, xyz@, two);
    lemma_white_l(s, xyz@, lab@);
    let x = (s.elem)(xyz[0]);
    let y = (s.elem)(xyz[1]);
    let z = (s.elem)(xyz[2]);
    lemma_white_f(x);
    lemma_white_f(y);
    lemma_white_f(z);
    assert(is_white_f((s.elem)(xyz[0]), white_f_of_reals(x)));
    assert(is_white_f((s.elem)(xyz[1]), white_f_of_reals(y)));
    assert(is_white_f((s.elem)(xyz[2]), white_f_of_reals(z)));
}

// ----------------------------------------------------------------------------
// The loaded network
// ----------------------------------------------------------------------------

/// Width number `l` of the network.
pub open spec fn width(l: int) -> int {
    if l == 0 {
        6
    } else if l <= 3 {
        32
    } else if l == 4 {
        48
    } else if l == 5 {
        64
    } else if l == 6 {
        80
    } else {
        16
    }
}

/// The channels before layer `l`.
pub open spec fn channels_before(l: int) -> int {
    if l <= 3 {
        32 * l
    } else if l == 4 {
        144
    } else if l == 5 {
        208
    } else {
        288
    }
}

/// The number that a stored weight stands for: a half, or so many steps of a half.
pub open spec fn stored_number(w: Weight) -> real {
    match w {
        Weight::Raw(h) => f16_value(h),
        Weight::Steps(n, step) => (n as real) * f16_value(step),
    }
}

/// The input statistics of a network are finite, and no deviation is zero.
pub open spec fn has_statistics(q: QuantizedNet) -> bool {
    forall|i: int|
        0 <= i < 6 ==> f32_finite(#[trigger] q.floats@[i]) && f32_finite(q.floats@[6 + i]) && f32_value(
            q.floats@[6 + i],
        ) != 0real
}

/// The network was read from a container: made of what [`parse`] gave, by way of
/// [`DeployNet::from_quantized`] or [`DeployNet::load`].
pub open spec fn was_loaded<F: Scalar>(net: DeployNet<F>, q: QuantizedNet) -> bool {
    ||| call_ensures(DeployNet::<F>::from_quantized, (&q,), net)
    ||| exists|blob: &[u8]|
        #[trigger] call_ensures(DeployNet::<F>::load, (blob,), net) && call_ensures(
            parse,
            (blob,),
            Ok::<QuantizedNet, BlobError>(q),
        )
}

/// The contract of a loaded network.
proof fn lemma_loaded<F: Scalar>(net: DeployNet<F>, q: QuantizedNet)
    requires
        was_loaded(net, q),
    ensures
        net.is_of(q@),
{
    if !call_ensures(DeployNet::<F>::from_quantized, (&q,), net) {
        let blob = choose|blob: &[u8]|
            #[trigger] call_ensures(DeployNet::<F>::load, (blob,), net) && call_ensures(
                parse,
                (blob,),
                Ok::<QuantizedNet, BlobError>(q),
            );
        assert(call_ensures(DeployNet::<F>::load, (blob,), net));
    }
}

/// The numbers of a loaded network are those of its container, signs included: bias `c` of layer `l` is
/// the half of its channel, and the weight of input `i` in output `c` is the one that the row of that
/// channel holds for that input.
pub proof fn law_loaded_answer<F: Scalar>(s: Model<F>, net: DeployNet<F>, q: QuantizedNet, l: int, c: int, i: int)
    requires
        reads_numbers(s),
        was_loaded(net, q),
        q.rows@.len() == 304,
        0 <= l < 7,
        0 <= c < width(l + 1),
        0 <= i < width(l),
    ensures
        net.layers().len() == 7,
        net.layers()[l].b@.len() == width(l + 1),
        net.layers()[l].w@.len() == width(l) * width(l + 1),
        (s.elem)(net.layers()[l].b@[c]) == f16_value(q.biases@[channels_before(l) + c]),
        (s.elem)(net.layers()[l].w@[i * width(l + 1) + c]) == stored_number(q.rows@[channels_before(l) + c]@[i]),
{
    lemma_loaded(net, q);
    lemma_layers();
    assert(l == 0 || l == 1 || l == 2 || l == 3 || l == 4 || l == 5 || l == 6);
    let layer = net.layers()[l];
    assert(layer.has_shape(l) && layer.has_weights(l, q@.rows) && layer.has_biases(l, q@.biases));
    let h = q@.biases[layer_start(l) + c];
    let bias = layer.b@[c];
    assert(is_half(h, bias));
    law_half_result(s, h, bias);
    let x = layer.weight(dims()[l + 1] as int, i, c);
    assert(is_weight(q@.rows[layer_start(l) + c][i], x));
    law_weight_result(s, q@.rows[layer_start(l) + c][i], x);
}

// ----------------------------------------------------------------------------
// Input features
// ----------------------------------------------------------------------------

/// `x` is `raw`, standardized by mean and deviation number `i` of the container.
pub open spec fn is_feature(q: QuantizedNet, i: int, raw: real, x: real) -> bool {
    x == (raw - f32_value(q.floats@[i])) / f32_value(q.floats@[6 + i])
}

/// The six features of a colour under a white, standardized: `L, a, b` of the colour, `a, b` of the white,
/// and `(a - wa)^2 + (b - wb)^2`.
pub open spec fn are_standardized(q: QuantizedNet, xyz: Seq<real>, wa: real, wb: real, x: Seq<real>) -> bool {
    exists|lab: Seq<real>|
        {
            &&& #[trigger] is_cielab(xyz, lab)
            &&& x.len() == 6
            &&& is_feature(q, 0, lab[0], x[0])
            &&& is_feature(q, 1, lab[1], x[1])
            &&& is_feature(q, 2, lab[2], x[2])
            &&& is_feature(q, 3, wa, x[3])
            &&& is_feature(q, 4, wb, x[4])
            &&& is_feature(q, 5, (lab[1] - wa) * (lab[1] - wa) + (lab[2] - wb) * (lab[2] - wb), x[5])
        }
}

/// The distance feature.
proof fn lemma_distance<F: Scalar>(s: Model<F>, mean: u32, std: u32, scaled: F, inv: F, a: F, b: F, wa: F, wb: F, x: F)
    requires
        reads_numbers(s),
        f32_finite(mean),
        f32_finite(std),
        f32_value(std) != 0real,
        is_standardizer(mean, std, scaled, inv),
        evals(
            standardized(
                chroma2_formula(
                    Formula::<F, F>::Val(a),
                    Formula::Val(b),
                    Formula::Val(wa),
                    Formula::Val(wb),
                ),
                inv,
                scaled,
            ),
            x,
        ),
    ensures
        ({
            let dx = (s.elem)(a) - (s.elem)(wa);
            let dy = (s.elem)(b) - (s.elem)(wb);
            (s.elem)(x) == (dx * dx + dy * dy - f32_value(mean)) / f32_value(std)
        }),
{
    let e = standardized(
        chroma2_formula(Formula::<F, F>::Val(a), Formula::Val(b), Formula::Val(wa), Formula::Val(wb)),
        inv,
        scaled,
    );
    lemma_unit_values();
    assert((s.elem)(inv) == 1real / f32_value(std) && (s.elem)(scaled) == f32_value(mean) * (s.elem)(inv)) by {
        reveal_with_fuel(Model::denote, 3);
        reveal_with_fuel(exact, 3);
        reveal_with_fuel(defined, 3);
        law_evals_exact(s, Formula::<F, F>::Const(ONE).div(Formula::Const(std)), inv);
        law_evals_exact(s, Formula::<F, F>::Const(mean).mul(Formula::Val(inv)), scaled);
    }
    reveal_with_fuel(Model::denote, 5);
    reveal_with_fuel(exact, 5);
    reveal_with_fuel(defined, 5);
    law_evals_exact(s, e, x);
    let dx = (s.elem)(a) - (s.elem)(wa);
    let dy = (s.elem)(b) - (s.elem)(wb);
    let raw = dx * dx + dy * dy;
    let i = (s.elem)(inv);
    let m = f32_value(mean);
    let d = f32_value(std);
    assert(raw * i - m * i == (raw - m) / d) by (nonlinear_arith)
        requires
            i == 1real / d,
            d != 0real,
    ;
}

/// Features that were computed.
proof fn lemma_features<F: Scalar, V: Lanes<4, Element = F>>(
    s: Model<F>,
    v: spec_fn(int) -> Model<V>,
    net: DeployNet<F>,
    q: QuantizedNet,
    xyz: [F; 3],
    white_ab: [F; 2],
    x: Seq<F>,
)
    requires
        reads_numbers(s),
        reads_lanes::<F, V, 4>(s, v),
        cube_roots_exist(),
        net.is_of(q@),
        has_statistics(q),
        net.features_of::<V>(xyz@, white_ab@, x),
    ensures
        are_standardized(
            q,
            read_all(s.elem, xyz@),
            (s.elem)(white_ab[0]),
            (s.elem)(white_ab[1]),
            read_all(s.elem, x),
        ),
{
    let lab = choose|lab: [F; 4]| #[trigger] is_lab::<F, V>(xyz@, lab) && net.are_features(lab@, white_ab@, x);
    lemma_cielab::<F, V>(s, v, xyz, lab);
    let f = q@.floats;
    let m = net.means();
    let d = net.inverse_deviations();
    assert forall|i: int| 0 <= i < 6 implies f32_finite(#[trigger] f[i]) && f32_finite(f[6 + i]) && f32_value(f[6 + i])
        != 0real && is_standardizer(f[i], f[6 + i], m[i], d[i]) by {
        assert(f32_finite(q.floats@[i]));
        assert(is_standardizer(f[i], f[N_IN + i], net.means()[i], net.inverse_deviations()[i]));
    }
    assert(f32_finite(f[0]) && f32_finite(f[1]) && f32_finite(f[2]) && f32_finite(f[3]) && f32_finite(f[4])
        && f32_finite(f[5]));
    law_feature_result(s, f[0], f[6], m[0], d[0], lab[0], x[0]);
    law_feature_result(s, f[1], f[7], m[1], d[1], lab[1], x[1]);
    law_feature_result(s, f[2], f[8], m[2], d[2], lab[2], x[2]);
    law_feature_result(s, f[3], f[9], m[3], d[3], white_ab[0], x[3]);
    law_feature_result(s, f[4], f[10], m[4], d[4], white_ab[1], x[4]);
    lemma_distance(s, f[5], f[11], m[5], d[5], lab[1], lab[2], white_ab[0], white_ab[1], x[5]);
    let rlab = seq![(s.elem)(lab[0]), (s.elem)(lab[1]), (s.elem)(lab[2])];
    assert(is_cielab(read_all(s.elem, xyz@), rlab));
}

/// [`DeployNet::input_features`] of a loaded network returns, for every colour and every white, `L, a, b`
/// of the colour, `a, b` of the white and the squared distance between them, each less its mean and over
/// its deviation as the container gives them.
pub proof fn law_features_answer<F: Scalar, V: Lanes<4, Element = F>>(
    s: Model<F>,
    v: spec_fn(int) -> Model<V>,
    net: DeployNet<F>,
    q: QuantizedNet,
    xyz: [F; 3],
    white_ab: [F; 2],
    x: [F; 6],
)
    requires
        reads_numbers(s),
        reads_lanes::<F, V, 4>(s, v),
        cube_roots_exist(),
        was_loaded(net, q),
        has_statistics(q),
        call_ensures(DeployNet::<F>::input_features::<V>, (&net, xyz, white_ab), x),
    ensures
        exists|lab: Seq<real>|
            {
                &&& #[trigger] is_cielab(read_all(s.elem, xyz@), lab)
                &&& (s.elem)(x[0]) == (lab[0] - f32_value(q.floats@[0])) / f32_value(q.floats@[6])
                &&& (s.elem)(x[1]) == (lab[1] - f32_value(q.floats@[1])) / f32_value(q.floats@[7])
                &&& (s.elem)(x[2]) == (lab[2] - f32_value(q.floats@[2])) / f32_value(q.floats@[8])
                &&& (s.elem)(x[3]) == ((s.elem)(white_ab[0]) - f32_value(q.floats@[3])) / f32_value(q.floats@[9])
                &&& (s.elem)(x[4]) == ((s.elem)(white_ab[1]) - f32_value(q.floats@[4])) / f32_value(q.floats@[10])
                &&& (s.elem)(x[5]) == ({
                    let da = lab[1] - (s.elem)(white_ab[0]);
                    let db = lab[2] - (s.elem)(white_ab[1]);
                    da * da + db * db
                } - f32_value(q.floats@[5])) / f32_value(q.floats@[11])
            },
{
    lemma_loaded(net, q);
    lemma_features::<F, V>(s, v, net, q, xyz, white_ab, x@);
    let xyz_read = read_all(s.elem, xyz@);
    let wa = (s.elem)(white_ab[0]);
    let wb = (s.elem)(white_ab[1]);
    let rx = read_all(s.elem, x@);
    let lab = choose|lab: Seq<real>|
        {
            &&& #[trigger] is_cielab(xyz_read, lab)
            &&& rx.len() == 6
            &&& is_feature(q, 0, lab[0], rx[0])
            &&& is_feature(q, 1, lab[1], rx[1])
            &&& is_feature(q, 2, lab[2], rx[2])
            &&& is_feature(q, 3, wa, rx[3])
            &&& is_feature(q, 4, wb, rx[4])
            &&& is_feature(q, 5, (lab[1] - wa) * (lab[1] - wa) + (lab[2] - wb) * (lab[2] - wb), rx[5])
        };
    assert(is_cielab(xyz_read, lab));
}

// ----------------------------------------------------------------------------
// Outputs
// ----------------------------------------------------------------------------

/// Layer `l` of a container, from the inputs `x` to the outputs `y`: the bias of each channel plus each
/// input times the weight that the row of the channel holds for it, through the algebraic SiLU in all
/// layers but the last.
pub open spec fn is_layer_of(q: QuantizedNet, l: int, x: Seq<real>, y: Seq<real>) -> bool {
    &&& x.len() == width(l)
    &&& y.len() == width(l + 1)
    &&& forall|c: int|
        0 <= c < width(l + 1) ==> is_output(
            l < 6,
            f16_value(q.biases@[channels_before(l) + c]),
            |i: int| stored_number(q.rows@[channels_before(l) + c]@[i]),
            x,
            #[trigger] y[c],
        )
}

/// The numbers `h` pass through the seven layers of a container.
pub open spec fn passes_layers(q: QuantizedNet, h: Seq<Seq<real>>) -> bool {
    &&& h.len() == 8
    &&& is_layer_of(q, 0, h[0], h[1])
    &&& is_layer_of(q, 1, h[1], h[2])
    &&& is_layer_of(q, 2, h[2], h[3])
    &&& is_layer_of(q, 3, h[3], h[4])
    &&& is_layer_of(q, 4, h[4], h[5])
    &&& is_layer_of(q, 5, h[5], h[6])
    &&& is_layer_of(q, 6, h[6], h[7])
}

/// `o` are the outputs of the network of a container for a colour under a white.
pub open spec fn are_network_outputs(q: QuantizedNet, xyz: Seq<real>, wa: real, wb: real, o: Seq<real>) -> bool {
    exists|h: Seq<Seq<real>>| #[trigger]
        passes_layers(q, h) && are_standardized(q, xyz, wa, wb, h[0]) && h[7] == o
}

/// A layer of a loaded network.
proof fn lemma_layer_of<F: Scalar, B: NnBackend<F32 = F>>(
    s: Model<F>,
    v: spec_fn(int) -> Model<B::F32x16>,
    net: DeployNet<F>,
    q: QuantizedNet,
    l: int,
    x: Seq<F>,
    y: Seq<F>,
)
    requires
        reads_numbers(s),
        reads_lanes::<F, B::F32x16, 16>(s, v),
        roots_exist(),
        was_loaded(net, q),
        q.rows@.len() == 304,
        0 <= l < 7,
        x.len() == width(l),
        net.applies_layer::<B>(l, x, y),
    ensures
        is_layer_of(q, l, read_all(s.elem, x), read_all(s.elem, y)),
{
    law_loaded_answer(s, net, q, l, 0, 0);
    lemma_layer_split(l);
    let layer = net.layers()[l];
    let rx = read_all(s.elem, x);
    let ry = read_all(s.elem, y);
    assert(l == 0 || l == 1 || l == 2 || l == 3 || l == 4 || l == 5 || l == 6);
    assert forall|c: int| 0 <= c < width(l + 1) implies is_output(
        l < 6,
        f16_value(q.biases@[channels_before(l) + c]),
        |i: int| stored_number(q.rows@[channels_before(l) + c]@[i]),
        rx,
        #[trigger] ry[c],
    ) by {
        let weight = |i: int| stored_number(q.rows@[channels_before(l) + c]@[i]);
        assert forall|i: int| 0 <= i < x.len() implies (s.elem)(#[trigger] layer.w@[i * layer.b@.len() + c])
            == weight(i) by {
            law_loaded_answer(s, net, q, l, c, i);
        }
        law_loaded_answer(s, net, q, l, c, 0);
        lemma_output::<F, B::F32x16, 16>(
            s,
            v,
            l < 6,
            layer_split(l),
            layer.w@,
            layer.b@,
            x,
            y,
            c,
            weight,
        );
    }
}

/// The outputs of a loaded network.
proof fn lemma_network<F: Scalar, B: NnBackend<F32 = F>>(
    s: Model<F>,
    v4: spec_fn(int) -> Model<B::F32x4>,
    v16: spec_fn(int) -> Model<B::F32x16>,
    net: DeployNet<F>,
    q: QuantizedNet,
    xyz: [F; 3],
    white_ab: [F; 2],
    o: Seq<F>,
)
    requires
        reads_numbers(s),
        reads_lanes::<F, B::F32x4, 4>(s, v4),
        reads_lanes::<F, B::F32x16, 16>(s, v16),
        roots_exist(),
        cube_roots_exist(),
        was_loaded(net, q),
        q.rows@.len() == 304,
        has_statistics(q),
        net.forwards::<B>(xyz@, white_ab@, o),
    ensures
        are_network_outputs(
            q,
            read_all(s.elem, xyz@),
            (s.elem)(white_ab[0]),
            (s.elem)(white_ab[1]),
            read_all(s.elem, o),
        ),
{
    lemma_loaded(net, q);
    let h = choose|h: Seq<Seq<F>>| #[trigger] net.activations::<B>(xyz@, white_ab@, h) && h[7] == o;
    lemma_features::<F, B::F32x4>(s, v4, net, q, xyz, white_ab, h[0]);
    let r = Seq::new(8, |l: int| read_all(s.elem, h[l]));
    assert(net.applies_layer::<B>(0, h[0], h[1]));
    lemma_layer_of::<F, B>(s, v16, net, q, 0, h[0], h[1]);
    assert(net.applies_layer::<B>(1, h[1], h[2]));
    lemma_layer_of::<F, B>(s, v16, net, q, 1, h[1], h[2]);
    assert(net.applies_layer::<B>(2, h[2], h[3]));
    lemma_layer_of::<F, B>(s, v16, net, q, 2, h[2], h[3]);
    assert(net.applies_layer::<B>(3, h[3], h[4]));
    lemma_layer_of::<F, B>(s, v16, net, q, 3, h[3], h[4]);
    assert(net.applies_layer::<B>(4, h[4], h[5]));
    lemma_layer_of::<F, B>(s, v16, net, q, 4, h[4], h[5]);
    assert(net.applies_layer::<B>(5, h[5], h[6]));
    lemma_layer_of::<F, B>(s, v16, net, q, 5, h[5], h[6]);
    assert(net.applies_layer::<B>(6, h[6], h[7]));
    lemma_layer_of::<F, B>(s, v16, net, q, 6, h[6], h[7]);
    assert(passes_layers(q, r));
}

/// [`DeployNet::uplift_raw`] of a loaded network returns the outputs of the seven layers that the
/// container describes, on the standardized features of the colour and the white.
pub proof fn law_uplift_raw_answer<F: Scalar, B: NnBackend<F32 = F>>(
    s: Model<F>,
    v4: spec_fn(int) -> Model<B::F32x4>,
    v16: spec_fn(int) -> Model<B::F32x16>,
    net: DeployNet<F>,
    q: QuantizedNet,
    xyz: [F; 3],
    white_ab: [F; 2],
    o: [F; 16],
)
    requires
        reads_numbers(s),
        reads_lanes::<F, B::F32x4, 4>(s, v4),
        reads_lanes::<F, B::F32x16, 16>(s, v16),
        roots_exist(),
        cube_roots_exist(),
        was_loaded(net, q),
        q.rows@.len() == 304,
        has_statistics(q),
        call_ensures(DeployNet::<F>::uplift_raw::<B>, (&net, xyz, white_ab), o),
    ensures
        are_network_outputs(
            q,
            read_all(s.elem, xyz@),
            (s.elem)(white_ab[0]),
            (s.elem)(white_ab[1]),
            read_all(s.elem, o@),
        ),
{
    lemma_network::<F, B>(s, v4, v16, net, q, xyz, white_ab, o@);
}

/// [`DeployNet::uplift`] of a loaded network returns the parameters of those outputs.
pub proof fn law_uplift_answer<F: Scalar, B: NnBackend<F32 = F>>(
    s: Model<F>,
    v4: spec_fn(int) -> Model<B::F32x4>,
    v8: spec_fn(int) -> Model<B::F32x8>,
    v16: spec_fn(int) -> Model<B::F32x16>,
    net: DeployNet<F>,
    q: QuantizedNet,
    xyz: [F; 3],
    white_ab: [F; 2],
    p: UpliftParams<F>,
)
    requires
        reads_numbers(s),
        reads_lanes::<F, B::F32x4, 4>(s, v4),
        reads_lanes::<F, B::F32x8, 8>(s, v8),
        reads_lanes::<F, B::F32x16, 16>(s, v16),
        roots_exist(),
        cube_roots_exist(),
        was_loaded(net, q),
        q.rows@.len() == 304,
        has_statistics(q),
        call_ensures(DeployNet::<F>::uplift::<B>, (&net, xyz, white_ab), p),
    ensures
        exists|o: Seq<real>|
            {
                &&& #[trigger] are_network_outputs(
                    q,
                    read_all(s.elem, xyz@),
                    (s.elem)(white_ab[0]),
                    (s.elem)(white_ab[1]),
                    o,
                )
                &&& are_params(o, read_params(s.elem, p))
            },
{
    let o = choose|o: [F; 16]| #[trigger]
        net.forwards::<B>(xyz@, white_ab@, o@) && p.bounds::<B::F32x8>(o@);
    lemma_network::<F, B>(s, v4, v16, net, q, xyz, white_ab, o@);
    law_params_result::<F, B::F32x8>(s, v8, o@, p);
    lemma_are_params(read_all(s.elem, o@));
}

/// A clone of a loaded network has the same numbers.
pub proof fn law_clone_answer<F: Scalar>(net: DeployNet<F>, copy: DeployNet<F>)
    requires
        net.layers().len() == 7,
        call_ensures(DeployNet::<F>::clone, (&net,), copy),
    ensures
        copy.layers().len() == 7,
        forall|l: int|
            0 <= l < 7 ==> (#[trigger] copy.layers()[l]).w@ == net.layers()[l].w@ && copy.layers()[l].b@
                == net.layers()[l].b@,
        copy.means() == net.means(),
        copy.inverse_deviations() == net.inverse_deviations(),
{
}

} // verus!
