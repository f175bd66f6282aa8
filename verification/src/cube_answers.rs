//! What the lookup cube answers, in plain numbers.
//!
//! Each law takes what the functions returned and says, as arithmetic on the arguments, what numbers these
//! are, where the vector arithmetic is exact.

use crate::cube::{
    are_steps, axis_locates, baked_up_to, corner_index, corner_of, decodes, grid_formula, is_baked,
    is_inverse_step, is_node_lab, lemma_node_index, lower_node, node_formula, node_index, splats, tri8,
    CubeSample, F16Storage, F32Storage, LookupCube, ParamStorage,
};
use crate::cube_laws::{law_blend_is_trilinear, trilinear};
use crate::cube_results::{
    lemma_corner_result, lemma_denote_blend, lemma_fluorophore_result, lemma_tri_result, read_sample,
    reads_backend, rounds_down,
};
use crate::formula::{defined, evals, exact, Formula, Lanes, NnBackend, NnVector, Scalar};
use crate::model::{law_evals_exact, read_all, reads_numbers, roots_exist, Model};
use crate::params::UpliftParams;
use crate::params_answers::{are_params, band_place, is_reflectance, lemma_are_params, lemma_is_reflectance};
use crate::params_laws::lemma_unit_values;
use crate::params_results::read_params;
use crate::unique::keeps_lanes;
use vstd::prelude::*;

verus! {

// ----------------------------------------------------------------------------
// Storage
// ----------------------------------------------------------------------------

/// Vectors of numbers that are halves: packing and unpacking them loses nothing.
pub open spec fn halves_come_back<B: NnBackend>(half: spec_fn(B::F32x16) -> bool) -> bool {
    forall|v: B::F32x16, p: B::U16x16, w: B::F32x16|
        #![trigger call_ensures(B::pack_half, (v,), p), call_ensures(B::unpack_half, (p,), w)]
        half(v) && call_ensures(B::pack_half, (v,), p) && call_ensures(B::unpack_half, (p,), w) ==> w == v
}

/// A storage gives back the vectors `kept` as they were.
pub open spec fn storage_keeps_those<B: NnBackend, S: ParamStorage<B>>(kept: spec_fn(B::F32x16) -> bool) -> bool {
    forall|v: B::F32x16, p: S::Storage, w: B::F32x16|
        #![trigger S::packs(v, p), S::unpacks(p, w)]
        kept(v) && S::packs(v, p) && S::unpacks(p, w) ==> w == v
}

/// Packing `v` and unpacking what came of it returned `w`.
pub open spec fn comes_back_as<B: NnBackend, S: ParamStorage<B>>(v: B::F32x16, w: B::F32x16) -> bool {
    exists|p: S::Storage|
        #![trigger call_ensures(S::pack, (v,), p), call_ensures(S::unpack, (p,), w)]
        call_ensures(S::pack, (v,), p) && call_ensures(S::unpack, (p,), w)
}

/// What was packed and unpacked.
proof fn lemma_comes_back<B: NnBackend, S: ParamStorage<B>>(v: B::F32x16, w: B::F32x16) -> (p: S::Storage)
    requires
        comes_back_as::<B, S>(v, w),
    ensures
        S::packs(v, p),
        S::unpacks(p, w),
{
    choose|p: S::Storage|
        #![trigger call_ensures(S::pack, (v,), p), call_ensures(S::unpack, (p,), w)]
        call_ensures(S::pack, (v,), p) && call_ensures(S::unpack, (p,), w)
}

/// Half storage gives back every vector of halves as it was, whatever its numbers.
pub proof fn law_half_storage_answer<B: NnBackend>(half: spec_fn(B::F32x16) -> bool)
    requires
        halves_come_back::<B>(half),
    ensures
        storage_keeps_those::<B, F16Storage>(half),
        forall|v: B::F32x16, w: B::F32x16| #[trigger] comes_back_as::<B, F16Storage>(v, w) && half(v) ==> w == v,
{
    assert forall|v: B::F32x16, w: B::F32x16| #[trigger]
        comes_back_as::<B, F16Storage>(v, w) && half(v) implies w == v by {
        let p = lemma_comes_back::<B, F16Storage>(v, w);
    }
}

/// Half storage rounds as the instruction set does: it gives back what unpacking the halves of a vector
/// gives, packed from that vector.
pub proof fn law_half_storage_rounds<B: NnBackend>(v: B::F32x16, w: B::F32x16)
    requires
        comes_back_as::<B, F16Storage>(v, w),
    ensures
        exists|p: B::U16x16|
            #![trigger call_ensures(B::pack_half, (v,), p), call_ensures(B::unpack_half, (p,), w)]
            call_ensures(B::pack_half, (v,), p) && call_ensures(B::unpack_half, (p,), w),
{
    let p = lemma_comes_back::<B, F16Storage>(v, w);
    assert(call_ensures(B::pack_half, (v,), p) && call_ensures(B::unpack_half, (p,), w));
}

/// Plain storage gives back every vector as it was.
pub proof fn law_plain_storage_answer<B: NnBackend>(v: B::F32x16, w: B::F32x16)
    requires
        comes_back_as::<B, F32Storage>(v, w),
    ensures
        w == v,
{
    let p = lemma_comes_back::<B, F32Storage>(v, w);
}

// ----------------------------------------------------------------------------
// Baking
// ----------------------------------------------------------------------------

/// The outputs `o` come back of a storage that the outputs `out` were put into.
pub open spec fn comes_back_of<B: NnBackend, S: ParamStorage<B>>(out: [B::F32; 16], o: [B::F32; 16]) -> bool {
    exists|v: B::F32x16, p: S::Storage, w: B::F32x16|
        {
            &&& call_ensures(B::F32x16::new, (out,), v)
            &&& #[trigger] S::packs(v, p)
            &&& #[trigger] S::unpacks(p, w)
            &&& call_ensures(B::F32x16::into_array, (w,), o)
        }
}

/// [`LookupCube::bake`] calls the generator at the evenly spaced nodes of the box, and
/// [`LookupCube::decode_raw`] of node `(ix, iy, iz)`, which is number `(ix N + iy) N + iz`, returns the 16
/// outputs that the generator gave there, unbounded, as the storage gives them back. Returns the coordinate
/// of the node, and the outputs there.
pub proof fn law_baked_answer<
    B: NnBackend,
    S: ParamStorage<B>,
    const N: usize,
    G: FnMut([B::F32; 3]) -> [B::F32; 16],
>(
    s: Model<B::F32>,
    lo: [B::F32; 3],
    hi: [B::F32; 3],
    g: G,
    cube: LookupCube<B, S, N>,
    at: Seq<int>,
    flat: usize,
    o: [B::F32; 16],
) -> (baked: ([B::F32; 3], [B::F32; 16]))
    requires
        reads_numbers(s),
        N >= 2,
        call_ensures(LookupCube::<B, S, N>::bake::<G>, (lo, hi, g), cube),
        at.len() == 3,
        0 <= at[0] < N,
        0 <= at[1] < N,
        0 <= at[2] < N,
        flat == (at[0] * N + at[1]) * N + at[2],
        call_ensures(LookupCube::<B, S, N>::decode_raw, (&cube, flat), o),
    ensures
        forall|d: int|
            0 <= d < 3 ==> (s.elem)(#[trigger] baked.0[d]) == (s.elem)(lo[d]) + (at[d] as real) * (((s.elem)(hi[d])
                - (s.elem)(lo[d])) / ((N - 1) as real)),
        call_ensures(g, (baked.0,), baked.1),
        comes_back_of::<B, S>(baked.1, o),
{
    let n = N as int;
    let step = choose|step: [B::F32; 3]|
        {
            &&& #[trigger] are_steps(n, lo, hi, step)
            &&& baked_up_to::<B, S, G>(g, lo, step, n, cube.nodes(), n * n * n)
        };
    lemma_node_index(n, at[0], at[1], at[2]);
    assert(flat == node_index(n, at[0], at[1], at[2]));
    let node = cube.nodes()[node_index(n, at[0], at[1], at[2])];
    assert(is_baked::<B, S, G>(g, lo, step, at[0], at[1], at[2], node));
    let (lab, out, x) = choose|lab: [B::F32; 3], o: [B::F32; 16], v: B::F32x16|
        {
            &&& is_node_lab(lo, step, at[0], at[1], at[2], lab)
            &&& #[trigger] call_ensures(g, (lab,), o)
            &&& call_ensures(B::F32x16::new, (o,), v)
            &&& #[trigger] S::packs(v, node)
        };
    assert(decodes::<B, S>(node, o));
    let y = choose|y: B::F32x16| #[trigger] S::unpacks(node, y) && call_ensures(B::F32x16::into_array, (y,), o);
    assert forall|d: int| 0 <= d < 3 implies (s.elem)(#[trigger] lab[d]) == (s.elem)(lo[d]) + (at[d] as real) * (((
    s.elem)(hi[d]) - (s.elem)(lo[d])) / ((N - 1) as real)) by {
        assert(d == 0 || d == 1 || d == 2);
        reveal_with_fuel(Model::denote, 4);
        reveal_with_fuel(exact, 4);
        reveal_with_fuel(defined, 4);
        law_evals_exact(
            s,
            Formula::<B::F32, B::F32>::Val(hi[d]).sub(Formula::Val(lo[d])).div(Formula::Int(n - 1)),
            step[d],
        );
        law_evals_exact(s, node_formula(Formula::<B::F32, B::F32>::Val(lo[d]), at[d], Formula::Val(step[d])), lab[d]);
    }
    assert(S::packs(x, node) && S::unpacks(node, y));
    (lab, out)
}

/// Outputs that a storage keeps come back as they were.
proof fn lemma_kept<B: NnBackend, S: ParamStorage<B>>(
    kept: spec_fn(B::F32x16) -> bool,
    out: [B::F32; 16],
    o: [B::F32; 16],
)
    requires
        keeps_lanes::<B::F32x16, 16>(),
        storage_keeps_those::<B, S>(kept),
        forall|v: B::F32x16| #[trigger] call_ensures(B::F32x16::new, (out,), v) ==> kept(v),
        comes_back_of::<B, S>(out, o),
    ensures
        o == out,
{
    let (v, p, w) = choose|v: B::F32x16, p: S::Storage, w: B::F32x16|
        {
            &&& call_ensures(B::F32x16::new, (out,), v)
            &&& #[trigger] S::packs(v, p)
            &&& #[trigger] S::unpacks(p, w)
            &&& call_ensures(B::F32x16::into_array, (w,), o)
        };
    assert(kept(v));
    assert(w == v);
}

/// A cube in half storage gives back the halves of its generator's outputs: where every output is a half,
/// [`LookupCube::decode_raw`] of a node of a baked cube returns what the generator gave there.
pub proof fn law_baked_halves_answer<
    B: NnBackend,
    const N: usize,
    G: FnMut([B::F32; 3]) -> [B::F32; 16],
>(
    s: Model<B::F32>,
    half: spec_fn(B::F32x16) -> bool,
    lo: [B::F32; 3],
    hi: [B::F32; 3],
    g: G,
    cube: LookupCube<B, F16Storage, N>,
    at: Seq<int>,
    flat: usize,
    o: [B::F32; 16],
) -> (lab: [B::F32; 3])
    requires
        reads_numbers(s),
        keeps_lanes::<B::F32x16, 16>(),
        halves_come_back::<B>(half),
        forall|lab: [B::F32; 3], out: [B::F32; 16], v: B::F32x16|
            #![trigger call_ensures(g, (lab,), out), call_ensures(B::F32x16::new, (out,), v)]
            call_ensures(g, (lab,), out) && call_ensures(B::F32x16::new, (out,), v) ==> half(v),
        N >= 2,
        call_ensures(LookupCube::<B, F16Storage, N>::bake::<G>, (lo, hi, g), cube),
        at.len() == 3,
        0 <= at[0] < N,
        0 <= at[1] < N,
        0 <= at[2] < N,
        flat == (at[0] * N + at[1]) * N + at[2],
        call_ensures(LookupCube::<B, F16Storage, N>::decode_raw, (&cube, flat), o),
    ensures
        call_ensures(g, (lab,), o),
        forall|d: int|
            0 <= d < 3 ==> (s.elem)(#[trigger] lab[d]) == (s.elem)(lo[d]) + (at[d] as real) * (((s.elem)(hi[d])
                - (s.elem)(lo[d])) / ((N - 1) as real)),
{
    law_half_storage_answer::<B>(half);
    let baked = law_baked_answer::<B, F16Storage, N, G>(s, lo, hi, g, cube, at, flat, o);
    lemma_kept::<B, F16Storage>(half, baked.1, o);
    baked.0
}

/// A cube in plain storage gives back its generator's outputs: [`LookupCube::decode_raw`] of a node of a
/// baked cube returns what the generator gave there.
pub proof fn law_baked_plain_answer<
    B: NnBackend,
    const N: usize,
    G: FnMut([B::F32; 3]) -> [B::F32; 16],
>(
    s: Model<B::F32>,
    lo: [B::F32; 3],
    hi: [B::F32; 3],
    g: G,
    cube: LookupCube<B, F32Storage, N>,
    at: Seq<int>,
    flat: usize,
    o: [B::F32; 16],
) -> (lab: [B::F32; 3])
    requires
        reads_numbers(s),
        keeps_lanes::<B::F32x16, 16>(),
        N >= 2,
        call_ensures(LookupCube::<B, F32Storage, N>::bake::<G>, (lo, hi, g), cube),
        at.len() == 3,
        0 <= at[0] < N,
        0 <= at[1] < N,
        0 <= at[2] < N,
        flat == (at[0] * N + at[1]) * N + at[2],
        call_ensures(LookupCube::<B, F32Storage, N>::decode_raw, (&cube, flat), o),
    ensures
        call_ensures(g, (lab,), o),
        forall|d: int|
            0 <= d < 3 ==> (s.elem)(#[trigger] lab[d]) == (s.elem)(lo[d]) + (at[d] as real) * (((s.elem)(hi[d])
                - (s.elem)(lo[d])) / ((N - 1) as real)),
{
    let baked = law_baked_answer::<B, F32Storage, N, G>(s, lo, hi, g, cube, at, flat, o);
    lemma_kept::<B, F32Storage>(|v: B::F32x16| true, baked.1, o);
    baked.0
}

// ----------------------------------------------------------------------------
// Lookup
// ----------------------------------------------------------------------------

/// Eight corner values, each weighted by how near the place `(x, y, z)` in the cell is to its corner.
pub open spec fn weighted(v: Seq<real>, x: real, y: real, z: real) -> real {
    let near = (1real - y) * (1real - z) * v[0] + (1real - y) * z * v[1] + y * (1real - z) * v[2] + y * z * v[3];
    let far = (1real - y) * (1real - z) * v[4] + (1real - y) * z * v[5] + y * (1real - z) * v[6] + y * z * v[7];
    (1real - x) * near + x * far
}

/// Weighting a weighted sum.
proof fn lemma_spread(w: real, a: real, x: real, b: real, y: real)
    ensures
        w * (a * x + b * y) == w * a * x + w * b * y,
{
    let p = a * x;
    let q = b * y;
    assert(w * (p + q) == w * p + w * q) by (nonlinear_arith);
    assert(w * (a * x) == w * a * x) by (nonlinear_arith);
    assert(w * (b * y) == w * b * y) by (nonlinear_arith);
}

/// One edge of the cell.
proof fn lemma_edge(a: real, b: real, t: real)
    ensures
        a + (b - a) * t == (1real - t) * a + t * b,
{
    assert((b - a) * t == b * t - a * t) by (nonlinear_arith);
    assert((1real - t) * a == a - t * a) by (nonlinear_arith);
    assert(t * a == a * t && t * b == b * t) by (nonlinear_arith);
}

/// One face of the cell.
proof fn lemma_face(a: real, b: real, c: real, d: real, y: real, z: real)
    ensures
        (a + (b - a) * z) + ((c + (d - c) * z) - (a + (b - a) * z)) * y == (1real - y) * (1real - z) * a + (1real
            - y) * z * b + y * (1real - z) * c + y * z * d,
{
    lemma_edge(a, b, z);
    lemma_edge(c, d, z);
    lemma_edge(a + (b - a) * z, c + (d - c) * z, y);
    lemma_spread(1real - y, 1real - z, a, z, b);
    lemma_spread(y, 1real - z, c, z, d);
}

/// The trilinear blend weights the corners.
proof fn lemma_weighted(v: Seq<real>, x: real, y: real, z: real)
    requires
        v.len() == 8,
    ensures
        trilinear(v, x, y, z) == weighted(v, x, y, z),
{
    lemma_face(v[0], v[1], v[2], v[3], y, z);
    lemma_face(v[4], v[5], v[6], v[7], y, z);
    let near = (1real - y) * (1real - z) * v[0] + (1real - y) * z * v[1] + y * (1real - z) * v[2] + y * z * v[3];
    let far = (1real - y) * (1real - z) * v[4] + (1real - y) * z * v[5] + y * (1real - z) * v[6] + y * z * v[7];
    lemma_edge(near, far, x);
}

/// [`tri8`] weights its eight numbers.
pub proof fn law_tri8_answer<F: Scalar>(s: Model<F>, v: [F; 8], f: [F; 3], r: F)
    requires
        reads_numbers(s),
        call_ensures(tri8::<F>, (v, f), r),
    ensures
        (s.elem)(r) == weighted(read_all(s.elem, v@), (s.elem)(f[0]), (s.elem)(f[1]), (s.elem)(f[2])),
{
    lemma_tri_result(s, v@, f@, r);
    lemma_weighted(read_all(s.elem, v@), (s.elem)(f[0]), (s.elem)(f[1]), (s.elem)(f[2]));
}

/// The coordinate `x` of an axis with `n` nodes from `lo` to `hi` lies in the cell above node `base`, at the
/// fraction `f` of it. A coordinate outside counts as the nearer end, and the last node as the end of the
/// last cell.
pub open spec fn is_in_cell(n: int, x: real, lo: real, hi: real, base: int, f: real) -> bool {
    let cells = (x - lo) * (((n - 1) as real) / (hi - lo));
    let t = if cells < 0real {
        0real
    } else if ((n - 1) as real) < cells {
        (n - 1) as real
    } else {
        cells
    };
    &&& 0 <= base <= n - 2
    &&& base as real <= t
    &&& t < (base + 1) as real || base == n - 2
    &&& f == t - base as real
}

/// One axis of a lookup.
proof fn lemma_cell<F: Scalar>(s: Model<F>, n: int, x: F, lo: F, hi: F, inv: F, base: int, f: F)
    requires
        reads_numbers(s),
        rounds_down(s),
        2 <= n <= usize::MAX,
        (s.elem)(lo) != (s.elem)(hi),
        is_inverse_step(n, lo, hi, inv),
        axis_locates(n, x, lo, inv, base, f),
    ensures
        is_in_cell(n, (s.elem)(x), (s.elem)(lo), (s.elem)(hi), base, (s.elem)(f)),
{
    let (t, i) = choose|t: F, i: usize|
        {
            &&& evals(grid_formula(n, Formula::Val(x), Formula::Val(lo), Formula::Val(inv)), t)
            &&& #[trigger] call_ensures(F::to_index, (t,), i)
            &&& base == lower_node(n, i as int)
            &&& evals(Formula::Val(t).sub(Formula::Int(base)), f)
        };
    reveal_with_fuel(Model::denote, 5);
    reveal_with_fuel(exact, 5);
    reveal_with_fuel(defined, 5);
    lemma_unit_values();
    law_evals_exact(s, Formula::<F, F>::Int(n - 1).div(Formula::Val(hi).sub(Formula::Val(lo))), inv);
    law_evals_exact(s, grid_formula(n, Formula::Val(x), Formula::Val(lo), Formula::Val(inv)), t);
    law_evals_exact(s, Formula::<F, F>::Val(t).sub(Formula::Int(base)), f);
}

/// A cube over the box `lo..=hi`, wrapped around nodes or baked.
pub open spec fn was_made<B: NnBackend, S: ParamStorage<B>, const N: usize, G: FnMut([B::F32; 3]) -> [B::F32; 16]>(
    cube: LookupCube<B, S, N>,
    nodes: Vec<S::Storage>,
    g: G,
    lo: [B::F32; 3],
    hi: [B::F32; 3],
) -> bool {
    ||| call_ensures(LookupCube::<B, S, N>::from_packed, (nodes, lo, hi), cube)
    ||| call_ensures(LookupCube::<B, S, N>::bake::<G>, (lo, hi, g), cube) && cube.nodes() == nodes@
}

/// The parameters `p` of the node in memory `node`.
pub open spec fn are_params_of_node<B: NnBackend, S: ParamStorage<B>>(
    w: spec_fn(int) -> Model<B::F32x16>,
    node: S::Storage,
    p: UpliftParams<real>,
) -> bool {
    exists|v: B::F32x16| #[trigger] S::unpacks(node, v) && are_params(Seq::new(16, |j: int| (w(j).lane)(v)), p)
}

/// The eight corners of the cell above node `(x, y, z)`: the next node on the last axis comes first.
pub open spec fn are_corners<B: NnBackend, S: ParamStorage<B>>(
    w: spec_fn(int) -> Model<B::F32x16>,
    n: int,
    nodes: Seq<S::Storage>,
    x: int,
    y: int,
    z: int,
    c: Seq<UpliftParams<real>>,
) -> bool {
    &&& are_params_of_node::<B, S>(w, nodes[(x * n + y) * n + z], c[0])
    &&& are_params_of_node::<B, S>(w, nodes[(x * n + y) * n + z + 1], c[1])
    &&& are_params_of_node::<B, S>(w, nodes[(x * n + (y + 1)) * n + z], c[2])
    &&& are_params_of_node::<B, S>(w, nodes[(x * n + (y + 1)) * n + z + 1], c[3])
    &&& are_params_of_node::<B, S>(w, nodes[((x + 1) * n + y) * n + z], c[4])
    &&& are_params_of_node::<B, S>(w, nodes[((x + 1) * n + y) * n + z + 1], c[5])
    &&& are_params_of_node::<B, S>(w, nodes[((x + 1) * n + (y + 1)) * n + z], c[6])
    &&& are_params_of_node::<B, S>(w, nodes[((x + 1) * n + (y + 1)) * n + z + 1], c[7])
}

/// The fluorophore of a lookup weights those of its corners.
pub open spec fn weights_fluorophore(q: CubeSample<real>) -> bool {
    let k = q.corners;
    let f = q.f;
    &&& q.c == weighted(Seq::new(8, |i: int| k[i].c), f[0], f[1], f[2])
    &&& q.lambda_e == weighted(Seq::new(8, |i: int| k[i].lambda_e), f[0], f[1], f[2])
    &&& q.s == weighted(Seq::new(8, |i: int| k[i].s), f[0], f[1], f[2])
    &&& q.r == weighted(Seq::new(8, |i: int| k[i].r), f[0], f[1], f[2])
}

/// The parameters of a node.
proof fn lemma_node_params<B: NnBackend, S: ParamStorage<B>>(
    s: Model<B::F32>,
    v: spec_fn(int) -> Model<B::F32x8>,
    w: spec_fn(int) -> Model<B::F32x16>,
    node: S::Storage,
    p: UpliftParams<B::F32>,
)
    requires
        reads_backend::<B>(s, v, w),
        corner_of::<B, S>(node, p),
    ensures
        are_params_of_node::<B, S>(w, node, read_params(s.elem, p)),
{
    let o = lemma_corner_result::<B, S>(s, v, w, node, p);
    let x = choose|x: B::F32x16| #[trigger] S::unpacks(node, x) && o == Seq::new(16, |j: int| (w(j).lane)(x));
    lemma_are_params(o);
}

/// [`LookupCube::corner`] returns the parameters of the node of that number, and
/// [`LookupCube::decode_raw`] the outputs that it unpacks to.
pub proof fn law_node_answer<B: NnBackend, S: ParamStorage<B>, const N: usize, G: FnMut([B::F32; 3]) -> [B::F32; 16]>(
    s: Model<B::F32>,
    v: spec_fn(int) -> Model<B::F32x8>,
    w: spec_fn(int) -> Model<B::F32x16>,
    cube: LookupCube<B, S, N>,
    nodes: Vec<S::Storage>,
    g: G,
    lo: [B::F32; 3],
    hi: [B::F32; 3],
    flat: usize,
    p: UpliftParams<B::F32>,
    o: [B::F32; 16],
)
    requires
        reads_backend::<B>(s, v, w),
        was_made::<B, S, N, G>(cube, nodes, g, lo, hi),
        flat < nodes@.len(),
        call_ensures(LookupCube::<B, S, N>::corner, (&cube, flat), p),
        call_ensures(LookupCube::<B, S, N>::decode_raw, (&cube, flat), o),
    ensures
        are_params_of_node::<B, S>(w, nodes[flat as int], read_params(s.elem, p)),
        exists|x: B::F32x16| #[trigger]
            S::unpacks(nodes[flat as int], x) && call_ensures(B::F32x16::into_array, (x,), o),
{
    lemma_node_params::<B, S>(s, v, w, nodes[flat as int], p);
    assert(decodes::<B, S>(nodes[flat as int], o));
}

/// [`LookupCube::sample`] returns the eight corners of the cell that the colour lies in, its place in the
/// cell, and the fluorophore that the corners are weighted to.
pub proof fn law_lookup_answer<
    B: NnBackend,
    S: ParamStorage<B>,
    const N: usize,
    G: FnMut([B::F32; 3]) -> [B::F32; 16],
>(
    s: Model<B::F32>,
    v: spec_fn(int) -> Model<B::F32x8>,
    w: spec_fn(int) -> Model<B::F32x16>,
    cube: LookupCube<B, S, N>,
    nodes: Vec<S::Storage>,
    g: G,
    lo: [B::F32; 3],
    hi: [B::F32; 3],
    lab: [B::F32; 3],
    p: CubeSample<B::F32>,
) -> (base: Seq<int>)
    requires
        reads_backend::<B>(s, v, w),
        N >= 2,
        was_made::<B, S, N, G>(cube, nodes, g, lo, hi),
        forall|d: int| 0 <= d < 3 ==> (s.elem)(#[trigger] lo[d]) != (s.elem)(hi[d]),
        call_ensures(LookupCube::<B, S, N>::sample, (&cube, lab), p),
    ensures
        base.len() == 3,
        forall|d: int|
            0 <= d < 3 ==> is_in_cell(
                N as int,
                (s.elem)(lab[d]),
                (s.elem)(lo[d]),
                (s.elem)(hi[d]),
                #[trigger] base[d],
                (s.elem)(p.f[d]),
            ),
        are_corners::<B, S>(
            w,
            N as int,
            nodes@,
            base[0],
            base[1],
            base[2],
            read_sample(s.elem, p).corners@,
        ),
        weights_fluorophore(read_sample(s.elem, p)),
{
    let n = N as int;
    let q = read_sample(s.elem, p);
    let base = choose|base: Seq<int>| #[trigger] cube.locates(lab, base, p.f) && cube.has_corners(base, p);
    let inv = cube.inverse_step();
    assert forall|d: int| 0 <= d < 3 implies is_in_cell(
        n,
        (s.elem)(lab[d]),
        (s.elem)(lo[d]),
        (s.elem)(hi[d]),
        #[trigger] base[d],
        (s.elem)(p.f[d]),
    ) by {
        assert(d == 0 || d == 1 || d == 2);
        assert((s.elem)(lo[d]) != (s.elem)(hi[d]));
        lemma_cell(s, n, lab[d], lo[d], hi[d], inv[d], base[d], p.f[d]);
    }
    assert forall|k: int| 0 <= k < 8 implies are_params_of_node::<B, S>(
        w,
        nodes[corner_index(n, base[0], base[1], base[2], k)],
        #[trigger] q.corners[k],
    ) by {
        assert(k == 0 || k == 1 || k == 2 || k == 3 || k == 4 || k == 5 || k == 6 || k == 7);
        assert(corner_of::<B, S>(cube.nodes()[corner_index(n, base[0], base[1], base[2], k)], p.corners[k]));
        lemma_node_params::<B, S>(
            s,
            v,
            w,
            nodes[corner_index(n, base[0], base[1], base[2], k)],
            p.corners[k],
        );
    }
    let c = q.corners@;
    assert(c[0] == q.corners[0] && c[1] == q.corners[1] && c[2] == q.corners[2] && c[3] == q.corners[3]);
    assert(c[4] == q.corners[4] && c[5] == q.corners[5] && c[6] == q.corners[6] && c[7] == q.corners[7]);
    lemma_fluorophore_result(s, p);
    let k = q.corners;
    lemma_weighted(Seq::new(8, |i: int| k[i].c), q.f[0], q.f[1], q.f[2]);
    lemma_weighted(Seq::new(8, |i: int| k[i].lambda_e), q.f[0], q.f[1], q.f[2]);
    lemma_weighted(Seq::new(8, |i: int| k[i].s), q.f[0], q.f[1], q.f[2]);
    lemma_weighted(Seq::new(8, |i: int| k[i].r), q.f[0], q.f[1], q.f[2]);
    base
}

/// [`CubeSample::reflectance`] returns in every lane the weighted reflectances of the corners at the
/// wavelength in that lane.
pub proof fn law_blended_answer<W: NnVector>(m: Model<W>, p: CubeSample<W::Element>, lambda: W, r: W) -> (v: Seq<real>)
    where W::Element: Scalar
    requires
        m.is_exact(),
        roots_exist(),
        forall|k: int|
            0 <= k < 8 ==> ({
                let d = band_place((m.lane)(lambda)) - (m.elem)((#[trigger] p.corners[k]).res_x);
                d * d + (m.elem)(p.corners[k].res_yy) != 0real
            }),
        call_ensures(CubeSample::<W::Element>::reflectance::<W>, (&p, lambda), r),
    ensures
        v.len() == 8,
        forall|k: int|
            0 <= k < 8 ==> is_reflectance(read_params(m.elem, p.corners[k]), (m.lane)(lambda), #[trigger] v[k]),
        (m.lane)(r) == weighted(v, (m.elem)(p.f[0]), (m.elem)(p.f[1]), (m.elem)(p.f[2])),
{
    let q = read_sample(m.elem, p);
    let l = (m.lane)(lambda);
    let rl = Formula::<real, real>::Val(l);
    lemma_denote_blend(m, p, lambda);
    let c = q.corner_formulas(rl);
    let v = Seq::new(8, |k: int| exact(c[k]));
    assert forall|k: int| 0 <= k < 8 implies defined(#[trigger] c[k]) && is_reflectance(
        read_params(m.elem, p.corners[k]),
        l,
        v[k],
    ) by {
        assert(k == 0 || k == 1 || k == 2 || k == 3 || k == 4 || k == 5 || k == 6 || k == 7);
        assert(q.corners[k] == read_params(m.elem, p.corners[k]));
        lemma_is_reflectance(q.corners[k], l);
    }
    assert forall|k: int| 0 <= k < 8 implies is_reflectance(
        read_params(m.elem, p.corners[k]),
        l,
        #[trigger] v[k],
    ) by {
        assert(defined(c[k]));
    }
    assert(defined(q.reflectance_formula(rl))) by {
        reveal_with_fuel(defined, 4);
        assert(defined(c[0]) && defined(c[1]) && defined(c[2]) && defined(c[3]));
        assert(defined(c[4]) && defined(c[5]) && defined(c[6]) && defined(c[7]));
    }
    law_evals_exact(m, p.reflectance_formula(Formula::Val(lambda)), r);
    law_blend_is_trilinear(c, splats::<real, real>(q.f@));
    assert(Seq::new(8, |i: int| exact(c[i])) =~= v);
    lemma_weighted(v, q.f[0], q.f[1], q.f[2]);
    v
}

} // verus!
