//! Laws of repeated lookups, where the vector operations are functions.

use crate::cube::{
    are_steps, axis_locates, baked_up_to, corner_index, corner_of, decodes, grid_formula,
    is_baked, is_node_lab, lemma_node_index, lower_node, node_formula, node_index, tri_formula, vals,
    CubeSample, F32Storage, LookupCube, ParamStorage,
};
use crate::formula::{evals, Formula, Lanes, NnBackend, Scalar};
use crate::params::UpliftParams;
use crate::unique::{is_function, keeps_lanes, law_evals_unique};
use crate::unique_results::{backend_is_function, law_params_unique};
use vstd::arithmetic::div_mod::{lemma_fundamental_div_mod, lemma_mod_bound};
use vstd::prelude::*;

verus! {

/// Packing and unpacking a node return the same on the same operand.
pub open spec fn storage_is_function<B: NnBackend, S: ParamStorage<B>>() -> bool {
    &&& forall|v: B::F32x16, a: S::Storage, b: S::Storage|
        #![trigger S::packs(v, a), S::packs(v, b)]
        S::packs(v, a) && S::packs(v, b) ==> a == b
    &&& forall|p: S::Storage, a: B::F32x16, b: B::F32x16|
        #![trigger S::unpacks(p, a), S::unpacks(p, b)]
        S::unpacks(p, a) && S::unpacks(p, b) ==> a == b
}

/// Unpacking a node gives back what was packed.
pub open spec fn storage_keeps<B: NnBackend, S: ParamStorage<B>>() -> bool {
    forall|v: B::F32x16, p: S::Storage, w: B::F32x16|
        #![trigger S::packs(v, p), S::unpacks(p, w)]
        S::packs(v, p) && S::unpacks(p, w) ==> v == w
}

/// Nodes that are kept as they are come back as they are.
pub proof fn law_plain_storage<B: NnBackend>()
    ensures
        storage_is_function::<B, F32Storage>(),
        storage_keeps::<B, F32Storage>(),
{
}

/// Every node of a baked cube is there, unbounded and unchanged: decoding node `(ix, iy, iz)` gives the
/// outputs that the generator gave for the coordinate of that node.
pub proof fn law_decoded_is_baked<
    B: NnBackend,
    S: ParamStorage<B>,
    const N: usize,
    G: FnMut([B::F32; 3]) -> [B::F32; 16],
>(
    cube: LookupCube<B, S, N>,
    f: G,
    lo: [B::F32; 3],
    hi: [B::F32; 3],
    ix: int,
    iy: int,
    iz: int,
    o: [B::F32; 16],
) -> (at: ([B::F32; 3], [B::F32; 3]))
    requires
        storage_keeps::<B, S>(),
        keeps_lanes::<B::F32x16, 16>(),
        cube.holds_outputs(f, lo, hi),
        0 <= ix < N,
        0 <= iy < N,
        0 <= iz < N,
        decodes::<B, S>(cube.nodes()[node_index(N as int, ix, iy, iz)], o),
    ensures
        are_steps(N as int, lo, hi, at.0),
        is_node_lab(lo, at.0, ix, iy, iz, at.1),
        call_ensures(f, (at.1,), o),
{
    let n = N as int;
    let step = choose|step: [B::F32; 3]|
        {
            &&& #[trigger] are_steps(n, lo, hi, step)
            &&& baked_up_to::<B, S, G>(f, lo, step, n, cube.nodes(), n * n * n)
        };
    lemma_node_index(n, ix, iy, iz);
    let node = cube.nodes()[node_index(n, ix, iy, iz)];
    assert(is_baked::<B, S, G>(f, lo, step, ix, iy, iz, node));
    let (lab, g, v) = choose|lab: [B::F32; 3], g: [B::F32; 16], v: B::F32x16|
        {
            &&& is_node_lab(lo, step, ix, iy, iz, lab)
            &&& #[trigger] call_ensures(f, (lab,), g)
            &&& call_ensures(B::F32x16::new, (g,), v)
            &&& #[trigger] S::packs(v, node)
        };
    let w = choose|w: B::F32x16| #[trigger] S::unpacks(node, w) && call_ensures(B::F32x16::into_array, (w,), o);
    assert(v == w);
    assert(g == o);
    (step, lab)
}

// ----------------------------------------------------------------------------
// Lookups
// ----------------------------------------------------------------------------

/// Rounding to an index returns the same on the same operand.
pub open spec fn rounding_is_function<F: Scalar>() -> bool {
    forall|t: F, i: usize, j: usize|
        #![trigger call_ensures(F::to_index, (t,), i), call_ensures(F::to_index, (t,), j)]
        call_ensures(F::to_index, (t,), i) && call_ensures(F::to_index, (t,), j) ==> i == j
}

/// A coordinate has one place on an axis.
proof fn lemma_axis_unique<F: Scalar>(n: int, x: F, lo: F, inv: F, b1: int, f1: F, b2: int, f2: F)
    requires
        is_function::<F>(),
        rounding_is_function::<F>(),
        axis_locates(n, x, lo, inv, b1, f1),
        axis_locates(n, x, lo, inv, b2, f2),
    ensures
        b1 == b2,
        f1 == f2,
{
    let e = grid_formula(n, Formula::<F, F>::Val(x), Formula::Val(lo), Formula::Val(inv));
    let (t1, i1) = choose|t: F, i: usize|
        {
            &&& evals(grid_formula(n, Formula::Val(x), Formula::Val(lo), Formula::Val(inv)), t)
            &&& #[trigger] call_ensures(F::to_index, (t,), i)
            &&& b1 == lower_node(n, i as int)
            &&& evals(Formula::Val(t).sub(Formula::Int(b1)), f1)
        };
    let (t2, i2) = choose|t: F, i: usize|
        {
            &&& evals(grid_formula(n, Formula::Val(x), Formula::Val(lo), Formula::Val(inv)), t)
            &&& #[trigger] call_ensures(F::to_index, (t,), i)
            &&& b2 == lower_node(n, i as int)
            &&& evals(Formula::Val(t).sub(Formula::Int(b2)), f2)
        };
    law_evals_unique(e, t1, t2);
    law_evals_unique(Formula::<F, F>::Val(t1).sub(Formula::Int(b1)), f1, f2);
}

/// A node has one set of parameters.
proof fn lemma_corner_unique<B: NnBackend, S: ParamStorage<B>>(
    node: S::Storage,
    p: UpliftParams<B::F32>,
    q: UpliftParams<B::F32>,
)
    requires
        backend_is_function::<B>(),
        storage_is_function::<B, S>(),
        corner_of::<B, S>(node, p),
        corner_of::<B, S>(node, q),
    ensures
        p == q,
{
    let a = choose|o: [B::F32; 16]| #[trigger] decodes::<B, S>(node, o) && p.bounds::<B::F32x8>(o@);
    let b = choose|o: [B::F32; 16]| #[trigger] decodes::<B, S>(node, o) && q.bounds::<B::F32x8>(o@);
    let v = choose|v: B::F32x16| #[trigger] S::unpacks(node, v) && call_ensures(B::F32x16::into_array, (v,), a);
    let w = choose|v: B::F32x16| #[trigger] S::unpacks(node, v) && call_ensures(B::F32x16::into_array, (v,), b);
    assert(v == w);
    assert(a == b);
    law_params_unique::<B::F32, B::F32x8>(a@, p, q);
}

/// Repeated lookups agree, field for field.
pub proof fn law_lookup_unique<B: NnBackend, S: ParamStorage<B>, const N: usize>(
    cube: LookupCube<B, S, N>,
    lab: [B::F32; 3],
    p: CubeSample<B::F32>,
    q: CubeSample<B::F32>,
)
    requires
        backend_is_function::<B>(),
        storage_is_function::<B, S>(),
        rounding_is_function::<B::F32>(),
        cube.gives(lab, p),
        cube.gives(lab, q),
    ensures
        p == q,
{
    let n = N as int;
    let b1 = choose|base: Seq<int>| #[trigger] cube.locates(lab, base, p.f) && cube.has_corners(base, p);
    let b2 = choose|base: Seq<int>| #[trigger] cube.locates(lab, base, q.f) && cube.has_corners(base, q);
    let lo = cube.lower();
    let inv = cube.inverse_step();
    lemma_axis_unique(n, lab[0], lo[0], inv[0], b1[0], p.f[0], b2[0], q.f[0]);
    lemma_axis_unique(n, lab[1], lo[1], inv[1], b1[1], p.f[1], b2[1], q.f[1]);
    lemma_axis_unique(n, lab[2], lo[2], inv[2], b1[2], p.f[2], b2[2], q.f[2]);
    assert(b1 =~= b2);
    assert(p.f =~= q.f);
    assert forall|k: int| 0 <= k < 8 implies p.corners[k] == q.corners[k] by {
        let node = cube.nodes()[corner_index(n, b1[0], b1[1], b1[2], k)];
        assert(corner_of::<B, S>(node, p.corners[k]));
        assert(corner_of::<B, S>(node, q.corners[k]));
        lemma_corner_unique::<B, S>(node, p.corners[k], q.corners[k]);
    }
    assert(p.corners =~= q.corners);
    let k = p.corners;
    let f = vals(p.f@);
    law_evals_unique(tri_formula(vals(Seq::new(8, |i: int| k[i].c)), f), p.c, q.c);
    law_evals_unique(tri_formula(vals(Seq::new(8, |i: int| k[i].lambda_e)), f), p.lambda_e, q.lambda_e);
    law_evals_unique(tri_formula(vals(Seq::new(8, |i: int| k[i].s)), f), p.s, q.s);
    law_evals_unique(tri_formula(vals(Seq::new(8, |i: int| k[i].r)), f), p.r, q.r);
}

// ----------------------------------------------------------------------------
// Cubes
// ----------------------------------------------------------------------------

/// The node at a place.
proof fn lemma_node_at(n: int, i: int)
    requires
        1 <= n,
        0 <= i < n * n * n,
    ensures
        0 <= i / n / n < n,
        0 <= i / n % n < n,
        0 <= i % n < n,
        node_index(n, i / n / n, i / n % n, i % n) == i,
{
    let m = i / n;
    lemma_fundamental_div_mod(i, n);
    lemma_mod_bound(i, n);
    lemma_fundamental_div_mod(m, n);
    lemma_mod_bound(m, n);
    let z = i % n;
    let y = m % n;
    let x = m / n;
    assert(n * m == m * n && n * x == x * n) by (nonlinear_arith);
    assert(0 <= m < n * n) by (nonlinear_arith)
        requires
            m * n + z == i,
            0 <= z < n,
            0 <= i < n * n * n,
    ;
    assert(0 <= x < n) by (nonlinear_arith)
        requires
            x * n + y == m,
            0 <= y < n,
            0 <= m < n * n,
    ;
}

/// A generator that gives the same outputs for the same coordinate.
pub open spec fn generator_is_function<B: NnBackend, G: FnMut([B::F32; 3]) -> [B::F32; 16]>(f: G) -> bool {
    forall|lab: [B::F32; 3], o: [B::F32; 16], q: [B::F32; 16]|
        #![trigger call_ensures(f, (lab,), o), call_ensures(f, (lab,), q)]
        call_ensures(f, (lab,), o) && call_ensures(f, (lab,), q) ==> o == q
}

/// A node that is baked from a generator is one node.
proof fn lemma_baked_unique<B: NnBackend, S: ParamStorage<B>, G: FnMut([B::F32; 3]) -> [B::F32; 16]>(
    f: G,
    lo: [B::F32; 3],
    step: [B::F32; 3],
    ix: int,
    iy: int,
    iz: int,
    a: S::Storage,
    b: S::Storage,
)
    requires
        backend_is_function::<B>(),
        storage_is_function::<B, S>(),
        generator_is_function::<B, G>(f),
        is_baked::<B, S, G>(f, lo, step, ix, iy, iz, a),
        is_baked::<B, S, G>(f, lo, step, ix, iy, iz, b),
    ensures
        a == b,
{
    let (l1, o1, v1) = choose|lab: [B::F32; 3], o: [B::F32; 16], v: B::F32x16|
        {
            &&& is_node_lab(lo, step, ix, iy, iz, lab)
            &&& #[trigger] call_ensures(f, (lab,), o)
            &&& call_ensures(B::F32x16::new, (o,), v)
            &&& #[trigger] S::packs(v, a)
        };
    let (l2, o2, v2) = choose|lab: [B::F32; 3], o: [B::F32; 16], v: B::F32x16|
        {
            &&& is_node_lab(lo, step, ix, iy, iz, lab)
            &&& #[trigger] call_ensures(f, (lab,), o)
            &&& call_ensures(B::F32x16::new, (o,), v)
            &&& #[trigger] S::packs(v, b)
        };
    law_evals_unique(node_formula(Formula::Val(lo[0]), ix, Formula::Val(step[0])), l1[0], l2[0]);
    law_evals_unique(node_formula(Formula::Val(lo[1]), iy, Formula::Val(step[1])), l1[1], l2[1]);
    law_evals_unique(node_formula(Formula::Val(lo[2]), iz, Formula::Val(step[2])), l1[2], l2[2]);
    assert(l1 =~= l2);
    assert(o1 == o2);
    assert(v1 == v2);
}

/// Cubes over the same box, whose nodes hold the outputs of the same generator, are the same cube: the
/// same nodes, the same lower corner and the same steps, whether one was baked and the other wrapped
/// around nodes that were baked before. So every lookup in one is a lookup in the other.
pub proof fn law_same_cube<
    B: NnBackend,
    S: ParamStorage<B>,
    const N: usize,
    G: FnMut([B::F32; 3]) -> [B::F32; 16],
>(a: LookupCube<B, S, N>, b: LookupCube<B, S, N>, f: G, lo: [B::F32; 3], hi: [B::F32; 3])
    requires
        backend_is_function::<B>(),
        storage_is_function::<B, S>(),
        generator_is_function::<B, G>(f),
        N >= 1,
        a.holds_outputs(f, lo, hi),
        a.spans(lo, hi),
        b.holds_outputs(f, lo, hi),
        b.spans(lo, hi),
    ensures
        a.nodes() == b.nodes(),
        a.lower() == b.lower(),
        a.inverse_step() == b.inverse_step(),
        forall|lab: [B::F32; 3], r: CubeSample<B::F32>| #[trigger] a.gives(lab, r) == b.gives(lab, r),
        forall|flat: int, o: [B::F32; 16]|
            #![trigger decodes::<B, S>(a.nodes()[flat], o)]
            decodes::<B, S>(a.nodes()[flat], o) == decodes::<B, S>(b.nodes()[flat], o),
{
    let n = N as int;
    let s1 = choose|step: [B::F32; 3]|
        {
            &&& #[trigger] are_steps(n, lo, hi, step)
            &&& baked_up_to::<B, S, G>(f, lo, step, n, a.nodes(), n * n * n)
        };
    let s2 = choose|step: [B::F32; 3]|
        {
            &&& #[trigger] are_steps(n, lo, hi, step)
            &&& baked_up_to::<B, S, G>(f, lo, step, n, b.nodes(), n * n * n)
        };
    assert forall|d: int| 0 <= d < 3 implies s1[d] == s2[d] by {
        assert(d == 0 || d == 1 || d == 2);
        law_evals_unique(
            Formula::<B::F32, B::F32>::Val(hi[d]).sub(Formula::Val(lo[d])).div(Formula::Int(n - 1)),
            s1[d],
            s2[d],
        );
    }
    assert(s1 =~= s2);
    let i1 = a.inverse_step();
    let i2 = b.inverse_step();
    assert forall|d: int| 0 <= d < 3 implies i1[d] == i2[d] by {
        assert(d == 0 || d == 1 || d == 2);
        law_evals_unique(
            Formula::<B::F32, B::F32>::Int(n - 1).div(Formula::Val(hi[d]).sub(Formula::Val(lo[d]))),
            i1[d],
            i2[d],
        );
    }
    assert(i1 =~= i2);
    assert forall|i: int| 0 <= i < n * n * n implies a.nodes()[i] == b.nodes()[i] by {
        lemma_node_at(n, i);
        let ix = i / n / n;
        let iy = i / n % n;
        let iz = i % n;
        let p = a.nodes()[node_index(n, ix, iy, iz)];
        let q = b.nodes()[node_index(n, ix, iy, iz)];
        assert(is_baked::<B, S, G>(f, lo, s1, ix, iy, iz, p));
        assert(is_baked::<B, S, G>(f, lo, s1, ix, iy, iz, q));
        lemma_baked_unique::<B, S, G>(f, lo, s1, ix, iy, iz, p, q);
    }
    assert(a.nodes() =~= b.nodes());
    assert forall|lab: [B::F32; 3], r: CubeSample<B::F32>| #[trigger] a.gives(lab, r) == b.gives(lab, r) by {
        if a.gives(lab, r) {
            let base = choose|base: Seq<int>| #[trigger] a.locates(lab, base, r.f) && a.has_corners(base, r);
            assert(b.locates(lab, base, r.f) && b.has_corners(base, r));
        }
        if b.gives(lab, r) {
            let base = choose|base: Seq<int>| #[trigger] b.locates(lab, base, r.f) && b.has_corners(base, r);
            assert(a.locates(lab, base, r.f) && a.has_corners(base, r));
        }
    }
}

} // verus!
