//! Laws of the results of a lookup, where the vector arithmetic is exact.

use crate::cube::{
    are_steps, axis_locates, baked_up_to, corner_index, corner_of, decodes, grid_formula, is_baked,
    is_inverse_step, is_node_lab, lemma_node_index, lower_node, mix_formula, node_formula, node_index,
    splats, tri_formula, vals, CubeSample, LookupCube, ParamStorage,
};
use crate::cube_laws::{
    law_blend_at_corner, law_blend_is_trilinear, law_blend_range, law_blended_reflectance_range,
    law_fraction_range, law_node_is_corner, law_node_on_grid, law_outside_confined, trilinear,
};
use crate::cube_unique::{storage_is_function, storage_keeps};
use crate::fluor::FluorProfile;
use crate::fluor_results::{law_energy_result, lemma_yield};
use crate::formula::{defined, evals, exact, Formula, Lanes, NnBackend, NnVector, Scalar};
use crate::model::{law_evals_exact, read_all, reads_lanes, reads_numbers, roots_exist, Model};
use crate::params::UpliftParams;
use crate::params_laws::{law_reflectance_bounded, law_reflectance_defined, lemma_unit_values};
use crate::params_results::{
    law_params_in_range, law_params_of_reals, law_params_result, lemma_denote_reflectance, params_of_reals, read_params,
};
use vstd::prelude::*;

verus! {

/// Rounding towards zero gives the largest index that is not above the number.
pub open spec fn rounds_down<F: Scalar>(s: Model<F>) -> bool {
    forall|t: F, i: usize| #[trigger]
        call_ensures(F::to_index, (t,), i) && 0real <= (s.elem)(t) <= usize::MAX as real ==> i as real <= (s.elem)(t)
            < (i + 1) as real
}

/// A lookup falls into a cell of the grid, at a fraction of `0..=1` of it.
pub proof fn law_fraction_result<F: Scalar>(s: Model<F>, n: int, x: F, lo: F, inv: F, base: int, f: F)
    requires
        reads_numbers(s),
        rounds_down(s),
        2 <= n <= usize::MAX,
        axis_locates(n, x, lo, inv, base, f),
    ensures
        0 <= base <= n - 2,
        0real <= (s.elem)(f) <= 1real,
{
    let (t, i) = choose|t: F, i: usize|
        {
            &&& evals(grid_formula(n, Formula::Val(x), Formula::Val(lo), Formula::Val(inv)), t)
            &&& #[trigger] call_ensures(F::to_index, (t,), i)
            &&& base == lower_node(n, i as int)
            &&& evals(Formula::Val(t).sub(Formula::Int(base)), f)
        };
    reveal_with_fuel(Model::denote, 5);
    reveal_with_fuel(exact, 5);
    reveal_with_fuel(defined, 5);
    lemma_unit_values();
    law_evals_exact(s, grid_formula(n, Formula::Val(x), Formula::Val(lo), Formula::Val(inv)), t);
    law_evals_exact(s, Formula::<F, F>::Val(t).sub(Formula::Int(base)), f);
    law_fraction_range(n, (s.elem)(t), i as int);
}

/// A lookup read as real numbers.
pub open spec fn read_sample<A>(f: spec_fn(A) -> real, p: CubeSample<A>) -> CubeSample<real> {
    CubeSample {
        corners: [
            read_params(f, p.corners[0]),
            read_params(f, p.corners[1]),
            read_params(f, p.corners[2]),
            read_params(f, p.corners[3]),
            read_params(f, p.corners[4]),
            read_params(f, p.corners[5]),
            read_params(f, p.corners[6]),
            read_params(f, p.corners[7]),
        ],
        f: [f(p.f[0]), f(p.f[1]), f(p.f[2])],
        c: f(p.c),
        lambda_e: f(p.lambda_e),
        s: f(p.s),
        r: f(p.r),
    }
}

/// Reading the blended reflectance is the blended reflectance of what was read.
pub proof fn lemma_denote_blend<V: NnVector>(m: Model<V>, p: CubeSample<V::Element>, lambda: V)
    ensures
        m.denote(p.reflectance_formula(Formula::Val(lambda))) == read_sample(m.elem, p).reflectance_formula(
            Formula::Val((m.lane)(lambda)),
        ),
{
    let q = read_sample(m.elem, p);
    let l = Formula::<V, V::Element>::Val(lambda);
    let rl = Formula::<real, real>::Val((m.lane)(lambda));
    let v = p.corner_formulas(l);
    let w = splats::<V, V::Element>(p.f@);
    let rv = q.corner_formulas(rl);
    let rw = splats::<real, real>(q.f@);
    assert forall|i: int| 0 <= i < 8 implies m.denote(#[trigger] v[i]) == rv[i] by {
        lemma_denote_reflectance(m, p.corners[i], l);
        assert(i == 0 || i == 1 || i == 2 || i == 3 || i == 4 || i == 5 || i == 6 || i == 7);
    }
    assert forall|i: int| 0 <= i < 3 implies m.denote(#[trigger] w[i]) == rw[i] by {
        assert(i == 0 || i == 1 || i == 2);
    }
    assert(m.denote(mix_formula(v, w)) == mix_formula(rv, rw)) by {
        reveal_with_fuel(Model::denote, 4);
        assert(m.denote(v[0]) == rv[0] && m.denote(v[1]) == rv[1] && m.denote(v[2]) == rv[2] && m.denote(v[3])
            == rv[3]);
        assert(m.denote(v[4]) == rv[4] && m.denote(v[5]) == rv[5] && m.denote(v[6]) == rv[6] && m.denote(v[7])
            == rv[7]);
        assert(m.denote(w[0]) == rw[0] && m.denote(w[1]) == rw[1] && m.denote(w[2]) == rw[2]);
    }
}

/// Whatever the network put out at the nodes, the blended reflectance of a lookup lies in `0..=1` at
/// every wavelength.
pub proof fn law_lookup_bounded<F: Scalar, V: Lanes<8, Element = F>, W: NnVector<Element = F>>(
    s: Model<F>,
    v: spec_fn(int) -> Model<V>,
    m: Model<W>,
    o: Seq<Seq<F>>,
    p: CubeSample<F>,
    lambda: W,
    r: W,
)
    requires
        reads_numbers(s),
        reads_lanes::<F, V, 8>(s, v),
        m.is_exact(),
        m.elem == s.elem,
        roots_exist(),
        forall|k: int| 0 <= k < 8 ==> (#[trigger] o[k]).len() == 16 && p.corners[k].bounds::<V>(o[k]),
        forall|i: int| 0 <= i < 3 ==> 0real <= (s.elem)(#[trigger] p.f[i]) <= 1real,
        evals(p.reflectance_formula(Formula::Val(lambda)), r),
    ensures
        0real <= (m.lane)(r) <= 1real,
{
    let q = read_sample(m.elem, p);
    let l = (m.lane)(lambda);
    let rl = Formula::<real, real>::Val(l);
    let e = p.reflectance_formula(Formula::Val(lambda));
    lemma_denote_blend(m, p, lambda);
    assert forall|k: int| 0 <= k < 8 implies defined(#[trigger] q.corners[k].reflectance_formula(rl)) && 0real
        <= exact(q.corners[k].reflectance_formula(rl)) <= 1real by {
        assert(o[k].len() == 16);
        let scale = law_params_in_range::<F, V>(s, v, o[k], p.corners[k]);
        assert(k == 0 || k == 1 || k == 2 || k == 3 || k == 4 || k == 5 || k == 6 || k == 7);
        assert(q.corners[k] == read_params(m.elem, p.corners[k]));
        law_reflectance_defined(q.corners[k], l);
        law_reflectance_bounded(q.corners[k], scale, l);
    }
    assert forall|i: int| 0 <= i < 3 implies 0real <= #[trigger] q.f[i] <= 1real by {
        assert(0real <= (s.elem)(p.f[i]) <= 1real);
        assert(i == 0 || i == 1 || i == 2);
    }
    law_blended_reflectance_range(q, l, 0real, 1real);
    assert(defined(q.reflectance_formula(rl))) by {
        let c = q.corner_formulas(rl);
        assert forall|k: int| 0 <= k < 8 implies defined(#[trigger] c[k]) by {
            assert(defined(q.corners[k].reflectance_formula(rl)));
        }
        reveal_with_fuel(defined, 4);
        assert(defined(c[0]) && defined(c[1]) && defined(c[2]) && defined(c[3]));
        assert(defined(c[4]) && defined(c[5]) && defined(c[6]) && defined(c[7]));
    }
    law_evals_exact(m, e, r);
}

// ----------------------------------------------------------------------------
// Where a lookup falls
// ----------------------------------------------------------------------------

/// The place of a coordinate on an axis of `n` nodes that spans `lo..=hi`, in cells.
pub open spec fn place(n: int, x: real, lo: real, hi: real) -> real {
    let inv = Formula::<real, real>::Int(n - 1).div(Formula::Val(hi).sub(Formula::Val(lo)));
    exact(grid_formula(n, Formula::Val(x), Formula::Val(lo), inv))
}

/// The lower node and the fraction of a coordinate are those of its place.
pub proof fn lemma_axis_result<F: Scalar>(
    s: Model<F>,
    n: int,
    x: F,
    lo: F,
    hi: F,
    inv: F,
    base: int,
    f: F,
) -> (i: int)
    requires
        reads_numbers(s),
        rounds_down(s),
        2 <= n <= usize::MAX,
        (s.elem)(lo) < (s.elem)(hi),
        is_inverse_step(n, lo, hi, inv),
        axis_locates(n, x, lo, inv, base, f),
    ensures
        ({
            let t = place(n, (s.elem)(x), (s.elem)(lo), (s.elem)(hi));
            &&& i as real <= t < (i + 1) as real
            &&& base == lower_node(n, i)
            &&& (s.elem)(f) == t - base as real
        }),
{
    let (t, i) = choose|t: F, i: usize|
        {
            &&& evals(grid_formula(n, Formula::Val(x), Formula::Val(lo), Formula::Val(inv)), t)
            &&& #[trigger] call_ensures(F::to_index, (t,), i)
            &&& base == lower_node(n, i as int)
            &&& evals(Formula::Val(t).sub(Formula::Int(base)), f)
        };
    reveal_with_fuel(Model::denote, 5);
    reveal_with_fuel(exact, 6);
    reveal_with_fuel(defined, 5);
    lemma_unit_values();
    law_evals_exact(s, Formula::<F, F>::Int(n - 1).div(Formula::Val(hi).sub(Formula::Val(lo))), inv);
    law_evals_exact(s, grid_formula(n, Formula::Val(x), Formula::Val(lo), Formula::Val(inv)), t);
    law_evals_exact(s, Formula::<F, F>::Val(t).sub(Formula::Int(base)), f);
    law_outside_confined(n, (s.elem)(x), (s.elem)(lo), (s.elem)(hi));
    i as int
}

/// Two coordinates with the same place fall into the same cell, at the same fraction.
proof fn lemma_same_place<F: Scalar>(
    s: Model<F>,
    n: int,
    x: F,
    y: F,
    lo: F,
    hi: F,
    inv: F,
    b1: int,
    f1: F,
    b2: int,
    f2: F,
)
    requires
        reads_numbers(s),
        rounds_down(s),
        2 <= n <= usize::MAX,
        (s.elem)(lo) < (s.elem)(hi),
        is_inverse_step(n, lo, hi, inv),
        axis_locates(n, x, lo, inv, b1, f1),
        axis_locates(n, y, lo, inv, b2, f2),
        place(n, (s.elem)(x), (s.elem)(lo), (s.elem)(hi)) == place(n, (s.elem)(y), (s.elem)(lo), (s.elem)(hi)),
    ensures
        b1 == b2,
        (s.elem)(f1) == (s.elem)(f2),
{
    let i = lemma_axis_result(s, n, x, lo, hi, inv, b1, f1);
    let j = lemma_axis_result(s, n, y, lo, hi, inv, b2, f2);
    assert(i == j);
}

// ----------------------------------------------------------------------------
// What a lookup gives
// ----------------------------------------------------------------------------

/// The outputs of a node, read as real numbers.
pub open spec fn reads_node<B: NnBackend, S: ParamStorage<B>>(
    w: spec_fn(int) -> Model<B::F32x16>,
    node: S::Storage,
    o: Seq<real>,
) -> bool {
    exists|v: B::F32x16| #[trigger] S::unpacks(node, v) && o == Seq::new(16, |j: int| (w(j).lane)(v))
}

/// A reading of all numbers and vectors of an instruction set that takes every operation as exact.
pub open spec fn reads_backend<B: NnBackend>(
    s: Model<B::F32>,
    v: spec_fn(int) -> Model<B::F32x8>,
    w: spec_fn(int) -> Model<B::F32x16>,
) -> bool {
    &&& reads_numbers(s)
    &&& rounds_down(s)
    &&& reads_lanes::<B::F32, B::F32x8, 8>(s, v)
    &&& reads_lanes::<B::F32, B::F32x16, 16>(s, w)
    &&& roots_exist()
}

/// The parameters of a corner are those of the outputs of its node.
pub proof fn lemma_corner_result<B: NnBackend, S: ParamStorage<B>>(
    s: Model<B::F32>,
    v: spec_fn(int) -> Model<B::F32x8>,
    w: spec_fn(int) -> Model<B::F32x16>,
    node: S::Storage,
    p: UpliftParams<B::F32>,
) -> (o: Seq<real>)
    requires
        reads_backend::<B>(s, v, w),
        corner_of::<B, S>(node, p),
    ensures
        o.len() == 16,
        reads_node::<B, S>(w, node, o),
        read_params(s.elem, p) == params_of_reals(o),
{
    let a = choose|o: [B::F32; 16]| #[trigger] decodes::<B, S>(node, o) && p.bounds::<B::F32x8>(o@);
    let x = choose|x: B::F32x16| #[trigger] S::unpacks(node, x) && call_ensures(B::F32x16::into_array, (x,), a);
    law_params_result::<B::F32, B::F32x8>(s, v, a@, p);
    let o = Seq::new(16, |j: int| (w(j).lane)(x));
    assert(read_all(s.elem, a@) =~= o) by {
        assert forall|j: int| 0 <= j < 16 implies (s.elem)(a[j]) == (w(j).lane)(x) by {
            assert(w(j).is_exact());
            assert((w(j).elem)(a[j]) == (w(j).lane)(x));
        }
    }
    o
}

/// A blended number is the trilinear blend of the numbers of the corners.
pub proof fn lemma_tri_result<F: Scalar>(s: Model<F>, v: Seq<F>, f: Seq<F>, r: F)
    requires
        reads_numbers(s),
        v.len() == 8,
        f.len() == 3,
        evals(tri_formula(vals(v), vals(f)), r),
    ensures
        (s.elem)(r) == trilinear(read_all(s.elem, v), (s.elem)(f[0]), (s.elem)(f[1]), (s.elem)(f[2])),
{
    let e = tri_formula(vals(v), vals(f));
    let rv = vals(read_all(s.elem, v));
    let rf = vals(read_all(s.elem, f));
    assert(s.denote(e) == tri_formula(rv, rf)) by {
        reveal_with_fuel(Model::denote, 11);
    }
    assert(defined(tri_formula(rv, rf))) by {
        reveal_with_fuel(defined, 11);
    }
    law_evals_exact(s, e, r);
    law_blend_is_trilinear(rv, rf);
    assert(Seq::new(8, |i: int| exact(rv[i])) =~= read_all(s.elem, v));
}

/// The blended fluorophore, read as real numbers.
pub proof fn lemma_fluorophore_result<F: Scalar>(s: Model<F>, r: CubeSample<F>)
    requires
        reads_numbers(s),
        r.blends_fluorophore(),
    ensures
        ({
            let q = read_sample(s.elem, r);
            &&& q.c == trilinear(Seq::new(8, |i: int| q.corners[i].c), q.f[0], q.f[1], q.f[2])
            &&& q.lambda_e == trilinear(Seq::new(8, |i: int| q.corners[i].lambda_e), q.f[0], q.f[1], q.f[2])
            &&& q.s == trilinear(Seq::new(8, |i: int| q.corners[i].s), q.f[0], q.f[1], q.f[2])
            &&& q.r == trilinear(Seq::new(8, |i: int| q.corners[i].r), q.f[0], q.f[1], q.f[2])
        }),
{
    let q = read_sample(s.elem, r);
    let k = r.corners;
    let c = Seq::new(8, |i: int| k[i].c);
    let l = Seq::new(8, |i: int| k[i].lambda_e);
    let t = Seq::new(8, |i: int| k[i].s);
    let u = Seq::new(8, |i: int| k[i].r);
    lemma_tri_result(s, c, r.f@, r.c);
    lemma_tri_result(s, l, r.f@, r.lambda_e);
    lemma_tri_result(s, t, r.f@, r.s);
    lemma_tri_result(s, u, r.f@, r.r);
    assert forall|i: int| 0 <= i < 8 implies #[trigger] q.corners[i] == read_params(s.elem, k[i]) by {
        assert(i == 0 || i == 1 || i == 2 || i == 3 || i == 4 || i == 5 || i == 6 || i == 7);
    }
    assert(read_all(s.elem, c) =~= Seq::new(8, |i: int| q.corners[i].c));
    assert(read_all(s.elem, l) =~= Seq::new(8, |i: int| q.corners[i].lambda_e));
    assert(read_all(s.elem, t) =~= Seq::new(8, |i: int| q.corners[i].s));
    assert(read_all(s.elem, u) =~= Seq::new(8, |i: int| q.corners[i].r));
}

/// The reflectance of a lookup is the one that its formula denotes: the trilinear blend of the
/// reflectances of the corners.
pub proof fn law_blended_result<W: NnVector>(m: Model<W>, p: CubeSample<W::Element>, lambda: W, r: W)
    requires
        m.is_exact(),
        roots_exist(),
        forall|k: int| 0 <= k < 8 ==> (m.elem)((#[trigger] p.corners[k]).res_yy) > 0real,
        evals(p.reflectance_formula(Formula::Val(lambda)), r),
    ensures
        ({
            let q = read_sample(m.elem, p);
            let l = Formula::<real, real>::Val((m.lane)(lambda));
            &&& (m.lane)(r) == exact(q.reflectance_formula(l))
            &&& (m.lane)(r) == trilinear(
                Seq::new(8, |k: int| exact(q.corners[k].reflectance_formula(l))),
                q.f[0],
                q.f[1],
                q.f[2],
            )
        }),
{
    let q = read_sample(m.elem, p);
    let l = (m.lane)(lambda);
    let rl = Formula::<real, real>::Val(l);
    lemma_denote_blend(m, p, lambda);
    let c = q.corner_formulas(rl);
    assert forall|k: int| 0 <= k < 8 implies defined(#[trigger] c[k]) by {
        assert((m.elem)(p.corners[k].res_yy) > 0real);
        assert(k == 0 || k == 1 || k == 2 || k == 3 || k == 4 || k == 5 || k == 6 || k == 7);
        law_reflectance_defined(q.corners[k], l);
    }
    assert(defined(q.reflectance_formula(rl))) by {
        reveal_with_fuel(defined, 4);
        assert(defined(c[0]) && defined(c[1]) && defined(c[2]) && defined(c[3]));
        assert(defined(c[4]) && defined(c[5]) && defined(c[6]) && defined(c[7]));
    }
    law_evals_exact(m, p.reflectance_formula(Formula::Val(lambda)), r);
    law_blend_is_trilinear(c, splats::<real, real>(q.f@));
    assert(Seq::new(8, |i: int| exact(c[i])) =~= Seq::new(8, |k: int| exact(q.corners[k].reflectance_formula(rl))));
}

/// A number confined to `lo..=hi`.
pub open spec fn confined(x: real, lo: real, hi: real) -> real {
    if x < lo {
        lo
    } else if hi < x {
        hi
    } else {
        x
    }
}

/// The cube spans the box `lo..=hi`, which is not flat on any axis.
pub open spec fn is_solid<B: NnBackend, S: ParamStorage<B>, const N: usize>(
    s: Model<B::F32>,
    cube: LookupCube<B, S, N>,
    lo: [B::F32; 3],
    hi: [B::F32; 3],
) -> bool {
    &&& N >= 2
    &&& cube.spans(lo, hi)
    &&& forall|d: int| 0 <= d < 3 ==> (s.elem)(#[trigger] lo[d]) < (s.elem)(hi[d])
}

/// The nodes of two corners agree, so their parameters do.
proof fn lemma_same_corner<B: NnBackend, S: ParamStorage<B>>(
    s: Model<B::F32>,
    v: spec_fn(int) -> Model<B::F32x8>,
    w: spec_fn(int) -> Model<B::F32x16>,
    node: S::Storage,
    p: UpliftParams<B::F32>,
    q: UpliftParams<B::F32>,
)
    requires
        reads_backend::<B>(s, v, w),
        storage_is_function::<B, S>(),
        corner_of::<B, S>(node, p),
        corner_of::<B, S>(node, q),
    ensures
        read_params(s.elem, p) == read_params(s.elem, q),
{
    let a = lemma_corner_result::<B, S>(s, v, w, node, p);
    let b = lemma_corner_result::<B, S>(s, v, w, node, q);
    let x = choose|x: B::F32x16| #[trigger] S::unpacks(node, x) && a == Seq::new(16, |j: int| (w(j).lane)(x));
    let y = choose|x: B::F32x16| #[trigger] S::unpacks(node, x) && b == Seq::new(16, |j: int| (w(j).lane)(x));
    assert(x == y);
}

/// A colour outside the box is confined to it, axis by axis: its lookup is the lookup of the nearest
/// colour of the box, in its corners, its fractional position and its fluorophore, and so in its
/// reflectance at every wavelength.
pub proof fn law_lookup_confined<B: NnBackend, S: ParamStorage<B>, const N: usize>(
    s: Model<B::F32>,
    v: spec_fn(int) -> Model<B::F32x8>,
    w: spec_fn(int) -> Model<B::F32x16>,
    cube: LookupCube<B, S, N>,
    lo: [B::F32; 3],
    hi: [B::F32; 3],
    lab: [B::F32; 3],
    near: [B::F32; 3],
    p: CubeSample<B::F32>,
    q: CubeSample<B::F32>,
)
    requires
        reads_backend::<B>(s, v, w),
        is_solid::<B, S, N>(s, cube, lo, hi),
        storage_is_function::<B, S>(),
        forall|d: int|
            0 <= d < 3 ==> (s.elem)(#[trigger] near[d]) == confined(
                (s.elem)(lab[d]),
                (s.elem)(lo[d]),
                (s.elem)(hi[d]),
            ),
        cube.gives(lab, p),
        cube.gives(near, q),
    ensures
        read_sample(s.elem, p) == read_sample(s.elem, q),
{
    let b1 = choose|base: Seq<int>| #[trigger] cube.locates(lab, base, p.f) && cube.has_corners(base, p);
    let b2 = choose|base: Seq<int>| #[trigger] cube.locates(near, base, q.f) && cube.has_corners(base, q);
    lemma_same_axis(s, cube, lo, hi, lab, near, b1, b2, p, q, 0);
    lemma_same_axis(s, cube, lo, hi, lab, near, b1, b2, p, q, 1);
    lemma_same_axis(s, cube, lo, hi, lab, near, b1, b2, p, q, 2);
    assert(b1 =~= b2);
    lemma_same_corners(s, v, w, cube, b1, p, q);
    lemma_same_sample(s, p, q);
}

/// A coordinate and the same one confined to the box have the same cell and the same fraction.
proof fn lemma_same_axis<B: NnBackend, S: ParamStorage<B>, const N: usize>(
    s: Model<B::F32>,
    cube: LookupCube<B, S, N>,
    lo: [B::F32; 3],
    hi: [B::F32; 3],
    lab: [B::F32; 3],
    near: [B::F32; 3],
    b1: Seq<int>,
    b2: Seq<int>,
    p: CubeSample<B::F32>,
    q: CubeSample<B::F32>,
    d: int,
)
    requires
        reads_numbers(s),
        rounds_down(s),
        N >= 2,
        0 <= d < 3,
        cube.spans(lo, hi),
        (s.elem)(lo[d]) < (s.elem)(hi[d]),
        (s.elem)(near[d]) == confined((s.elem)(lab[d]), (s.elem)(lo[d]), (s.elem)(hi[d])),
        cube.locates(lab, b1, p.f),
        cube.locates(near, b2, q.f),
    ensures
        b1[d] == b2[d],
        (s.elem)(p.f[d]) == (s.elem)(q.f[d]),
{
    let n = N as int;
    let inv = cube.inverse_step();
    assert(d == 0 || d == 1 || d == 2);
    law_outside_confined(n, (s.elem)(lab[d]), (s.elem)(lo[d]), (s.elem)(hi[d]));
    law_outside_confined(n, (s.elem)(near[d]), (s.elem)(lo[d]), (s.elem)(hi[d]));
    lemma_same_place(s, n, lab[d], near[d], lo[d], hi[d], inv[d], b1[d], p.f[d], b2[d], q.f[d]);
}

/// Lookups of the same cell have the same corners.
proof fn lemma_same_corners<B: NnBackend, S: ParamStorage<B>, const N: usize>(
    s: Model<B::F32>,
    v: spec_fn(int) -> Model<B::F32x8>,
    w: spec_fn(int) -> Model<B::F32x16>,
    cube: LookupCube<B, S, N>,
    base: Seq<int>,
    p: CubeSample<B::F32>,
    q: CubeSample<B::F32>,
)
    requires
        reads_backend::<B>(s, v, w),
        storage_is_function::<B, S>(),
        cube.has_corners(base, p),
        cube.has_corners(base, q),
    ensures
        forall|k: int|
            0 <= k < 8 ==> read_params(s.elem, #[trigger] p.corners[k]) == read_params(s.elem, q.corners[k]),
{
    assert forall|k: int| 0 <= k < 8 implies read_params(s.elem, #[trigger] p.corners[k]) == read_params(
        s.elem,
        q.corners[k],
    ) by {
        let node = cube.nodes()[corner_index(N as int, base[0], base[1], base[2], k)];
        assert(corner_of::<B, S>(node, p.corners[k]));
        assert(corner_of::<B, S>(node, q.corners[k]));
        lemma_same_corner::<B, S>(s, v, w, node, p.corners[k], q.corners[k]);
    }
}

/// Lookups with the same corners and the same fraction are the same.
proof fn lemma_same_sample<F: Scalar>(s: Model<F>, p: CubeSample<F>, q: CubeSample<F>)
    requires
        reads_numbers(s),
        p.blends_fluorophore(),
        q.blends_fluorophore(),
        forall|d: int| 0 <= d < 3 ==> (s.elem)(#[trigger] p.f[d]) == (s.elem)(q.f[d]),
        forall|k: int|
            0 <= k < 8 ==> read_params(s.elem, #[trigger] p.corners[k]) == read_params(s.elem, q.corners[k]),
    ensures
        read_sample(s.elem, p) == read_sample(s.elem, q),
{
    let a = read_sample(s.elem, p);
    let b = read_sample(s.elem, q);
    assert(a.corners == b.corners);
    assert((s.elem)(p.f[0]) == (s.elem)(q.f[0]));
    assert((s.elem)(p.f[1]) == (s.elem)(q.f[1]));
    assert((s.elem)(p.f[2]) == (s.elem)(q.f[2]));
    assert(a.f == b.f);
    lemma_fluorophore_result(s, p);
    lemma_fluorophore_result(s, q);
}

// ----------------------------------------------------------------------------
// Lookups at a node
// ----------------------------------------------------------------------------

/// The coordinate of node `i` on an axis of `n` nodes that spans `lo..=hi`.
pub open spec fn node_coordinate_of_reals(n: int, i: int, lo: real, hi: real) -> real {
    lo + (i as real) * ((hi - lo) / ((n - 1) as real))
}

/// A colour on a node lies at that node.
proof fn lemma_axis_at_node<F: Scalar>(s: Model<F>, n: int, i: int, x: F, lo: F, hi: F, inv: F, base: int, f: F)
    requires
        reads_numbers(s),
        rounds_down(s),
        2 <= n <= usize::MAX,
        0 <= i < n,
        (s.elem)(lo) < (s.elem)(hi),
        (s.elem)(x) == node_coordinate_of_reals(n, i, (s.elem)(lo), (s.elem)(hi)),
        is_inverse_step(n, lo, hi, inv),
        axis_locates(n, x, lo, inv, base, f),
    ensures
        base == lower_node(n, i),
        (s.elem)(f) == (i - base) as real,
{
    let j = lemma_axis_result(s, n, x, lo, hi, inv, base, f);
    let l = (s.elem)(lo);
    let h = (s.elem)(hi);
    law_node_on_grid(n, i, l, h);
    reveal_with_fuel(exact, 8);
    assert(place(n, (s.elem)(x), l, h) == i as real);
    assert(i == j);
}

/// Looking up the coordinate of node `(ix, iy, iz)` gives that node, the last ones included: the
/// fluorophore of the outputs that it decodes to, and their reflectance at every wavelength.
pub proof fn law_lookup_decodes_node<B: NnBackend, S: ParamStorage<B>, const N: usize>(
    s: Model<B::F32>,
    v: spec_fn(int) -> Model<B::F32x8>,
    w: spec_fn(int) -> Model<B::F32x16>,
    cube: LookupCube<B, S, N>,
    lo: [B::F32; 3],
    hi: [B::F32; 3],
    at: Seq<int>,
    lab: [B::F32; 3],
    p: CubeSample<B::F32>,
) -> (o: Seq<real>)
    requires
        reads_backend::<B>(s, v, w),
        is_solid::<B, S, N>(s, cube, lo, hi),
        at.len() == 3,
        forall|d: int|
            0 <= d < 3 ==> 0 <= #[trigger] at[d] < N && (s.elem)(lab[d]) == node_coordinate_of_reals(
                N as int,
                at[d],
                (s.elem)(lo[d]),
                (s.elem)(hi[d]),
            ),
        cube.gives(lab, p),
    ensures
        reads_node::<B, S>(w, cube.nodes()[node_index(N as int, at[0], at[1], at[2])], o),
        is_material(read_sample(s.elem, p), params_of_reals(o)),
{
    let n = N as int;
    let base = choose|base: Seq<int>| #[trigger] cube.locates(lab, base, p.f) && cube.has_corners(base, p);
    let inv = cube.inverse_step();
    assert forall|d: int| 0 <= d < 3 implies base[d] == lower_node(n, at[d]) && (s.elem)(#[trigger] p.f[d]) == (at[d]
        - base[d]) as real by {
        assert(d == 0 || d == 1 || d == 2);
        assert(0 <= at[d] < N);
        assert((s.elem)(lo[d]) < (s.elem)(hi[d]));
        lemma_axis_at_node(s, n, at[d], lab[d], lo[d], hi[d], inv[d], base[d], p.f[d]);
    }
    assert(0 <= at[0] < N && 0 <= at[1] < N && 0 <= at[2] < N);
    let dx = at[0] - base[0];
    let dy = at[1] - base[1];
    let dz = at[2] - base[2];
    let k = 4 * dx + 2 * dy + dz;
    assert((s.elem)(p.f[0]) == dx as real && (s.elem)(p.f[1]) == dy as real && (s.elem)(p.f[2]) == dz as real);
    law_node_is_corner(n, at[0], at[1], at[2]);
    assert(k / 4 == dx && (k / 2) % 2 == dy && k % 2 == dz);
    let node = cube.nodes()[node_index(n, at[0], at[1], at[2])];
    assert(corner_of::<B, S>(node, p.corners[k])) by {
        assert(corner_of::<B, S>(cube.nodes()[corner_index(n, base[0], base[1], base[2], k)], p.corners[k]));
    }
    let o = lemma_corner_result::<B, S>(s, v, w, node, p.corners[k]);
    let q = read_sample(s.elem, p);
    let params = params_of_reals(o);
    assert(q.corners[k] == params) by {
        assert(k == 0 || k == 1 || k == 2 || k == 3 || k == 4 || k == 5 || k == 6 || k == 7);
    }
    lemma_fluorophore_result(s, p);
    law_blend_at_corner(Seq::new(8, |i: int| q.corners[i].c), k);
    law_blend_at_corner(Seq::new(8, |i: int| q.corners[i].lambda_e), k);
    law_blend_at_corner(Seq::new(8, |i: int| q.corners[i].s), k);
    law_blend_at_corner(Seq::new(8, |i: int| q.corners[i].r), k);
    assert forall|l: Formula<real, real>| #[trigger]
        exact(q.reflectance_formula(l)) == exact(params.reflectance_formula(l)) by {
        let c = q.corner_formulas(l);
        let f = splats::<real, real>(q.f@);
        law_blend_is_trilinear(c, f);
        reveal_with_fuel(exact, 2);
        law_blend_at_corner(Seq::new(8, |i: int| exact(c[i])), k);
    }
    o
}

/// The lookup has the fluorophore of the parameters, and their reflectance at every wavelength.
pub open spec fn is_material(q: CubeSample<real>, params: UpliftParams<real>) -> bool {
    &&& q.c == params.c
    &&& q.lambda_e == params.lambda_e
    &&& q.s == params.s
    &&& q.r == params.r
    &&& forall|l: Formula<real, real>| #[trigger]
        exact(q.reflectance_formula(l)) == exact(params.reflectance_formula(l))
}

/// A baked cube gives the network back at its nodes, the last ones included: where the storage keeps the
/// numbers as they are, looking up the coordinate of node `(ix, iy, iz)` gives the material of the outputs
/// that the generator gave for that coordinate, and so of the parameters that these outputs bound to.
pub proof fn law_lookup_at_node<
    B: NnBackend,
    S: ParamStorage<B>,
    const N: usize,
    G: FnMut([B::F32; 3]) -> [B::F32; 16],
>(
    s: Model<B::F32>,
    v: spec_fn(int) -> Model<B::F32x8>,
    w: spec_fn(int) -> Model<B::F32x16>,
    cube: LookupCube<B, S, N>,
    g: G,
    lo: [B::F32; 3],
    hi: [B::F32; 3],
    at: Seq<int>,
    lab: [B::F32; 3],
    p: CubeSample<B::F32>,
) -> (baked: ([B::F32; 3], [B::F32; 16]))
    requires
        reads_backend::<B>(s, v, w),
        is_solid::<B, S, N>(s, cube, lo, hi),
        storage_keeps::<B, S>(),
        cube.holds_outputs(g, lo, hi),
        at.len() == 3,
        forall|d: int|
            0 <= d < 3 ==> 0 <= #[trigger] at[d] < N && (s.elem)(lab[d]) == node_coordinate_of_reals(
                N as int,
                at[d],
                (s.elem)(lo[d]),
                (s.elem)(hi[d]),
            ),
        cube.gives(lab, p),
    ensures
        forall|d: int| 0 <= d < 3 ==> (s.elem)(#[trigger] baked.0[d]) == (s.elem)(lab[d]),
        call_ensures(g, (baked.0,), baked.1),
        is_material(read_sample(s.elem, p), params_of_reals(read_all(s.elem, baked.1@))),
        forall|u: UpliftParams<B::F32>| #[trigger]
            u.bounds::<B::F32x8>(baked.1@) ==> is_material(read_sample(s.elem, p), read_params(s.elem, u)),
{
    let o = law_lookup_decodes_node::<B, S, N>(s, v, w, cube, lo, hi, at, lab, p);
    assert(0 <= at[0] < N && 0 <= at[1] < N && 0 <= at[2] < N);
    let baked = lemma_baked_node::<B, S, N, G>(s, w, cube, g, lo, hi, at, o);
    assert forall|u: UpliftParams<B::F32>| #[trigger] u.bounds::<B::F32x8>(baked.1@) implies is_material(
        read_sample(s.elem, p),
        read_params(s.elem, u),
    ) by {
        law_params_result::<B::F32, B::F32x8>(s, v, baked.1@, u);
    }
    baked
}

/// What a node was baked from.
proof fn lemma_baked_node<
    B: NnBackend,
    S: ParamStorage<B>,
    const N: usize,
    G: FnMut([B::F32; 3]) -> [B::F32; 16],
>(
    s: Model<B::F32>,
    w: spec_fn(int) -> Model<B::F32x16>,
    cube: LookupCube<B, S, N>,
    g: G,
    lo: [B::F32; 3],
    hi: [B::F32; 3],
    at: Seq<int>,
    o: Seq<real>,
) -> (baked: ([B::F32; 3], [B::F32; 16]))
    requires
        reads_numbers(s),
        reads_lanes::<B::F32, B::F32x16, 16>(s, w),
        storage_keeps::<B, S>(),
        N >= 2,
        cube.holds_outputs(g, lo, hi),
        at.len() == 3,
        0 <= at[0] < N,
        0 <= at[1] < N,
        0 <= at[2] < N,
        reads_node::<B, S>(w, cube.nodes()[node_index(N as int, at[0], at[1], at[2])], o),
    ensures
        forall|d: int|
            0 <= d < 3 ==> (s.elem)(#[trigger] baked.0[d]) == node_coordinate_of_reals(
                N as int,
                at[d],
                (s.elem)(lo[d]),
                (s.elem)(hi[d]),
            ),
        call_ensures(g, (baked.0,), baked.1),
        read_all(s.elem, baked.1@) == o,
{
    let n = N as int;
    let step = choose|step: [B::F32; 3]|
        {
            &&& #[trigger] are_steps(n, lo, hi, step)
            &&& baked_up_to::<B, S, G>(g, lo, step, n, cube.nodes(), n * n * n)
        };
    lemma_node_index(n, at[0], at[1], at[2]);
    let node = cube.nodes()[node_index(n, at[0], at[1], at[2])];
    assert(is_baked::<B, S, G>(g, lo, step, at[0], at[1], at[2], node));
    let (lab, out, x) = choose|lab: [B::F32; 3], o: [B::F32; 16], v: B::F32x16|
        {
            &&& is_node_lab(lo, step, at[0], at[1], at[2], lab)
            &&& #[trigger] call_ensures(g, (lab,), o)
            &&& call_ensures(B::F32x16::new, (o,), v)
            &&& #[trigger] S::packs(v, node)
        };
    let y = choose|y: B::F32x16| #[trigger] S::unpacks(node, y) && o == Seq::new(16, |j: int| (w(j).lane)(y));
    assert(x == y);
    assert(read_all(s.elem, out@) =~= o) by {
        assert forall|j: int| 0 <= j < 16 implies (s.elem)(out[j]) == (w(j).lane)(x) by {
            assert(w(j).is_exact());
            assert((w(j).lane)(x) == (w(j).elem)(out[j]));
        }
    }
    assert forall|d: int| 0 <= d < 3 implies (s.elem)(#[trigger] lab[d]) == node_coordinate_of_reals(
        n,
        at[d],
        (s.elem)(lo[d]),
        (s.elem)(hi[d]),
    ) by {
        assert(d == 0 || d == 1 || d == 2);
        reveal_with_fuel(Model::denote, 4);
        reveal_with_fuel(exact, 4);
        reveal_with_fuel(defined, 4);
        law_evals_exact(
            s,
            Formula::<B::F32, B::F32>::Val(hi[d]).sub(Formula::Val(lo[d])).div(Formula::Int(n - 1)),
            step[d],
        );
        law_evals_exact(s, node_formula(Formula::<B::F32, B::F32>::Val(lo[d]), at[d], Formula::Val(step[d])), lab[d]);
    }
    (lab, out)
}

// ----------------------------------------------------------------------------
// Ranges
// ----------------------------------------------------------------------------

/// Whatever was baked, a lookup lies in a cell of the grid and its fluorophore in the ranges of the
/// network's own.
pub proof fn law_lookup_in_range<B: NnBackend, S: ParamStorage<B>, const N: usize>(
    s: Model<B::F32>,
    v: spec_fn(int) -> Model<B::F32x8>,
    w: spec_fn(int) -> Model<B::F32x16>,
    cube: LookupCube<B, S, N>,
    lab: [B::F32; 3],
    p: CubeSample<B::F32>,
)
    requires
        reads_backend::<B>(s, v, w),
        N >= 2,
        cube.gives(lab, p),
    ensures
        ({
            let q = read_sample(s.elem, p);
            &&& forall|d: int| 0 <= d < 3 ==> 0real <= #[trigger] q.f[d] <= 1real
            &&& 0real <= q.c <= 1real
            &&& 400real <= q.lambda_e <= 700real
            &&& 5real <= q.s <= 150real
            &&& 15real / 100real <= q.r <= 17501real / 10000real
        }),
{
    let n = N as int;
    let q = read_sample(s.elem, p);
    let base = choose|base: Seq<int>| #[trigger] cube.locates(lab, base, p.f) && cube.has_corners(base, p);
    let inv = cube.inverse_step();
    assert forall|d: int| 0 <= d < 3 implies 0real <= #[trigger] q.f[d] <= 1real by {
        assert(d == 0 || d == 1 || d == 2);
        law_fraction_result(s, n, lab[d], cube.lower()[d], inv[d], base[d], p.f[d]);
    }
    assert(0real <= q.f[0] <= 1real && 0real <= q.f[1] <= 1real && 0real <= q.f[2] <= 1real);
    assert forall|k: int| 0 <= k < 8 implies in_ranges(#[trigger] q.corners[k]) by {
        assert(corner_of::<B, S>(cube.nodes()[corner_index(n, base[0], base[1], base[2], k)], p.corners[k]));
        let node = cube.nodes()[corner_index(n, base[0], base[1], base[2], k)];
        let o = lemma_corner_result::<B, S>(s, v, w, node, p.corners[k]);
        let scale = law_params_of_reals(o);
        assert(k == 0 || k == 1 || k == 2 || k == 3 || k == 4 || k == 5 || k == 6 || k == 7);
    }
    lemma_fluorophore_result(s, p);
    let c = Seq::new(8, |i: int| q.corners[i].c);
    let l = Seq::new(8, |i: int| q.corners[i].lambda_e);
    let t = Seq::new(8, |i: int| q.corners[i].s);
    let r = Seq::new(8, |i: int| q.corners[i].r);
    assert forall|k: int| 0 <= k < 8 implies 0real <= #[trigger] c[k] <= 1real by {
        assert(in_ranges(q.corners[k]));
    }
    assert forall|k: int| 0 <= k < 8 implies 400real <= #[trigger] l[k] <= 700real by {
        assert(in_ranges(q.corners[k]));
    }
    assert forall|k: int| 0 <= k < 8 implies 5real <= #[trigger] t[k] <= 150real by {
        assert(in_ranges(q.corners[k]));
    }
    assert forall|k: int| 0 <= k < 8 implies 15real / 100real <= #[trigger] r[k] <= 17501real / 10000real by {
        assert(in_ranges(q.corners[k]));
    }
    law_blend_range(c, q.f[0], q.f[1], q.f[2], 0real, 1real);
    law_blend_range(l, q.f[0], q.f[1], q.f[2], 400real, 700real);
    law_blend_range(t, q.f[0], q.f[1], q.f[2], 5real, 150real);
    law_blend_range(r, q.f[0], q.f[1], q.f[2], 15real / 100real, 17501real / 10000real);
}

/// The fluorophore lies in its ranges.
pub open spec fn in_ranges(p: UpliftParams<real>) -> bool {
    &&& 0real <= p.c <= 1real
    &&& 400real <= p.lambda_e <= 700real
    &&& 5real <= p.s <= 150real
    &&& 15real / 100real <= p.r <= 17501real / 10000real
}

/// The outputs that a corner was bounded from.
spec fn outputs_of<B: NnBackend, S: ParamStorage<B>>(node: S::Storage, p: UpliftParams<B::F32>) -> Seq<B::F32> {
    let a = choose|a: [B::F32; 16]| #[trigger] decodes::<B, S>(node, a) && p.bounds::<B::F32x8>(a@);
    a@
}

/// Whatever was baked, the reflectance of a lookup lies in `0..=1` at every wavelength, and its material
/// conserves energy: the reflectance, attenuated, and the share of the absorbed light that is re-emitted
/// add up to at most one.
pub proof fn law_lookup_conserves_energy<
    B: NnBackend,
    S: ParamStorage<B>,
    const N: usize,
    W: NnVector<Element = B::F32>,
>(
    s: Model<B::F32>,
    v: spec_fn(int) -> Model<B::F32x8>,
    w: spec_fn(int) -> Model<B::F32x16>,
    m: Model<W>,
    cube: LookupCube<B, S, N>,
    lab: [B::F32; 3],
    p: CubeSample<B::F32>,
    profile: FluorProfile<B::F32>,
    lambda: W,
    reflected: W,
    absorbed: W,
    elastic: W,
)
    requires
        reads_backend::<B>(s, v, w),
        m.is_exact(),
        m.elem == s.elem,
        N >= 2,
        cube.gives(lab, p),
        profile.is_of::<B::F32x4>(p.c, p.lambda_e, p.s, p.r),
        evals(p.reflectance_formula(Formula::Val(lambda)), reflected),
        evals(profile.absorption_formula(Formula::Val(lambda)), absorbed),
        evals(profile.elastic_formula(Formula::Val(lambda)), elastic),
    ensures
        0real <= (m.lane)(reflected) <= 1real,
        0real <= (m.lane)(elastic) <= 1real,
        (m.lane)(elastic) * (m.lane)(reflected) + (m.elem)(profile.qc) * (m.lane)(absorbed) <= 1real,
{
    let n = N as int;
    law_lookup_in_range::<B, S, N>(s, v, w, cube, lab, p);
    let q = read_sample(s.elem, p);
    let base = choose|base: Seq<int>| #[trigger] cube.locates(lab, base, p.f) && cube.has_corners(base, p);
    let o = Seq::new(8, |k: int| outputs_of::<B, S>(
            cube.nodes()[corner_index(n, base[0], base[1], base[2], k)],
            p.corners[k],
        ));
    assert forall|k: int| 0 <= k < 8 implies (#[trigger] o[k]).len() == 16 && p.corners[k].bounds::<B::F32x8>(
        o[k],
    ) by {
        let node = cube.nodes()[corner_index(n, base[0], base[1], base[2], k)];
        assert(corner_of::<B, S>(node, p.corners[k]));
        let a = choose|a: [B::F32; 16]| #[trigger] decodes::<B, S>(node, a) && p.corners[k].bounds::<B::F32x8>(a@);
        assert(o[k] == a@);
    }
    assert forall|i: int| 0 <= i < 3 implies 0real <= (s.elem)(#[trigger] p.f[i]) <= 1real by {
        assert(0real <= q.f[i] <= 1real);
        assert(i == 0 || i == 1 || i == 2);
    }
    law_lookup_bounded::<B::F32, B::F32x8, W>(s, v, m, o, p, lambda, reflected);
    lemma_yield::<B::F32>(s, p.c, profile.qc);
    law_energy_result(m, profile, lambda, absorbed, elastic, (m.lane)(reflected));
}

} // verus!
