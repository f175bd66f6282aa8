//! Trilinear lookup cube: a baked CIELAB grid of network outputs that stands in for the network, an
//! 8-corner fetch and blend.
//!
//! The grid has `N` nodes per axis. Interpolation cells lie between adjacent nodes, so two
//! neighbouring cells share the four nodes on their common face and the blend is continuous across
//! it. A query is addressed by the lower node of its cell, which is kept off the last node of each
//! axis so that the upper node is always there.
//!
//! A lookup blends the resulting reflectance of the corners, not their parameters: the two differ,
//! since the sigmoid stands between. The fluorophore is blended directly.

use crate::formula::{evals, Formula, Lanes, NnBackend, NnVector, Scalar};
use crate::ieee::ZERO;
use crate::params::UpliftParams;
use crate::term::Term;
use vstd::prelude::*;

verus! {

/// How a [`LookupCube`] keeps the 16 network outputs of a node.
pub trait ParamStorage<B: NnBackend> {
    /// One node in memory.
    type Storage: Copy;

    /// `r` is an encoding of the outputs `values`.
    spec fn packs(values: B::F32x16, r: Self::Storage) -> bool;

    /// `r` are the outputs that `packed` decodes to.
    spec fn unpacks(packed: Self::Storage, r: B::F32x16) -> bool;

    /// Encode the outputs of a node.
    fn pack(values: B::F32x16) -> (r: Self::Storage)
        ensures
            Self::packs(values, r),
    ;

    /// Decode the outputs of a node.
    fn unpack(packed: Self::Storage) -> (r: B::F32x16)
        ensures
            Self::unpacks(packed, r),
    ;
}

/// Keep each node as 16 halves: half the memory, and a decode on every fetch.
pub struct F16Storage;

/// Keep each node as it is.
pub struct F32Storage;

impl<B: NnBackend> ParamStorage<B> for F16Storage {
    type Storage = B::U16x16;

    open spec fn packs(values: B::F32x16, r: B::U16x16) -> bool {
        call_ensures(B::pack_half, (values,), r)
    }

    open spec fn unpacks(packed: B::U16x16, r: B::F32x16) -> bool {
        call_ensures(B::unpack_half, (packed,), r)
    }

    fn pack(values: B::F32x16) -> (r: B::U16x16) {
        B::pack_half(values)
    }

    fn unpack(packed: B::U16x16) -> (r: B::F32x16) {
        B::unpack_half(packed)
    }
}

impl<B: NnBackend> ParamStorage<B> for F32Storage {
    type Storage = B::F32x16;

    open spec fn packs(values: B::F32x16, r: B::F32x16) -> bool {
        r == values
    }

    open spec fn unpacks(packed: B::F32x16, r: B::F32x16) -> bool {
        r == packed
    }

    fn pack(values: B::F32x16) -> (r: B::F32x16) {
        values
    }

    fn unpack(packed: B::F32x16) -> (r: B::F32x16) {
        packed
    }
}

/// Place of node `(ix, iy, iz)` in a grid of `n` nodes per axis.
pub open spec fn node_index(n: int, ix: int, iy: int, iz: int) -> int {
    (ix * n + iy) * n + iz
}

/// Place of corner `k` of the cell whose lower node is `(ix, iy, iz)`. The bits of `k`, the highest
/// first, say on which axes the corner is the upper one.
pub open spec fn corner_index(n: int, ix: int, iy: int, iz: int, k: int) -> int {
    node_index(n, ix + k / 4, iy + (k / 2) % 2, iz + k % 2)
}

/// A node of the grid is in range, and the product that its place needs does not overflow.
pub proof fn lemma_node_index(n: int, ix: int, iy: int, iz: int)
    requires
        0 <= ix < n,
        0 <= iy < n,
        0 <= iz < n,
    ensures
        0 <= ix * n + iy < n * n,
        0 <= node_index(n, ix, iy, iz) < n * n * n,
{
    assert(0 <= ix * n + iy < n * n) by (nonlinear_arith)
        requires
            0 <= ix < n,
            0 <= iy < n,
    ;
    let m = ix * n + iy;
    assert(0 <= m * n + iz < n * n * n) by (nonlinear_arith)
        requires
            0 <= m < n * n,
            0 <= iz < n,
    ;
}

/// The place after the last node of a row is the first of the next row, and the place after the
/// last row of a plane is the first of the next plane.
proof fn lemma_row_start(n: int, ix: int, iy: int)
    ensures
        node_index(n, ix, iy, n) == node_index(n, ix, iy + 1, 0),
        node_index(n, ix, n, 0) == node_index(n, ix + 1, 0, 0),
        node_index(n, 0, 0, 0) == 0,
        node_index(n, n, 0, 0) == n * n * n,
{
    assert((ix * n + iy) * n + n == (ix * n + (iy + 1)) * n) by (nonlinear_arith);
    assert((ix * n + n) * n == ((ix + 1) * n + 0) * n) by (nonlinear_arith);
    assert((0 * n + 0) * n + 0 == 0) by (nonlinear_arith);
    assert((n * n + 0) * n + 0 == n * n * n) by (nonlinear_arith);
}

/// Different nodes have different places.
pub proof fn law_node_index_injective(
    n: int,
    ix: int,
    iy: int,
    iz: int,
    jx: int,
    jy: int,
    jz: int,
)
    requires
        0 <= ix < n,
        0 <= iy < n,
        0 <= iz < n,
        0 <= jx < n,
        0 <= jy < n,
        0 <= jz < n,
        node_index(n, ix, iy, iz) == node_index(n, jx, jy, jz),
    ensures
        ix == jx,
        iy == jy,
        iz == jz,
{
    let p = ix * n + iy;
    let q = jx * n + jy;
    assert(p == q && iz == jz) by (nonlinear_arith)
        requires
            p * n + iz == q * n + jz,
            0 <= iz < n,
            0 <= jz < n,
    ;
    assert(ix == jx && iy == jy) by (nonlinear_arith)
        requires
            ix * n + iy == jx * n + jy,
            0 <= iy < n,
            0 <= jy < n,
    ;
}

/// A grid that fits in memory has few nodes per axis.
proof fn lemma_side(n: int)
    requires
        n * n * n <= usize::MAX,
    ensures
        n <= 0x40_0000,
{
    if n > 0x40_0000 {
        assert(n * n * n > 0x40_0000 * 0x40_0000 * 0x40_0000) by (nonlinear_arith)
            requires
                n > 0x40_0000,
        ;
        assert(false);
    }
}

/// The distance of adjacent nodes on an axis.
fn axis_step<F: Scalar>(n: usize, lo: F, hi: F) -> (r: F)
    requires
        1 <= n <= i64::MAX,
    ensures
        is_step(n as int, lo, hi, r),
{
    Term::val(hi).sub(Term::val(lo)).div(Term::integer((n - 1) as i64)).value()
}

/// The number of cells per unit on an axis.
fn axis_inverse_step<F: Scalar>(n: usize, lo: F, hi: F) -> (r: F)
    requires
        1 <= n <= i64::MAX,
    ensures
        is_inverse_step(n as int, lo, hi, r),
{
    Term::integer((n - 1) as i64).div(Term::val(hi).sub(Term::val(lo))).value()
}

/// The coordinate of a node on an axis.
fn node_coordinate<F: Scalar>(lo: F, i: usize, step: F) -> (r: F)
    requires
        i <= i64::MAX,
    ensures
        evals(node_formula(Formula::Val(lo), i as int, Formula::Val(step)), r),
{
    Term::val(lo).add(Term::integer(i as i64).mul(Term::val(step))).value()
}

/// A baked grid of the network's 16 outputs, queried by trilinear interpolation.
pub struct LookupCube<B: NnBackend, S: ParamStorage<B>, const N: usize> {
    /// Row-major nodes.
    cell_corners: Vec<S::Storage>,
    /// Lower Lab corner of the grid.
    lo: [B::F32; 3],
    /// `(N - 1) / (hi - lo)` per axis.
    inv_step: [B::F32; 3],
}

/// The outputs that a node decodes to.
pub open spec fn decodes<B: NnBackend, S: ParamStorage<B>>(node: S::Storage, o: [B::F32; 16]) -> bool {
    exists|v: B::F32x16|
        #[trigger] S::unpacks(node, v) && call_ensures(B::F32x16::into_array, (v,), o)
}

/// The parameters that a node decodes and bounds to.
pub open spec fn corner_of<B: NnBackend, S: ParamStorage<B>>(
    node: S::Storage,
    p: UpliftParams<B::F32>,
) -> bool {
    exists|o: [B::F32; 16]| #[trigger] decodes::<B, S>(node, o) && p.bounds::<B::F32x8>(o@)
}

/// `step` is the distance of adjacent nodes on an axis of `n` nodes that spans `lo..=hi`.
pub open spec fn is_step<F: Scalar>(n: int, lo: F, hi: F, step: F) -> bool {
    evals(Formula::Val(hi).sub(Formula::Val(lo)).div(Formula::Int(n - 1)), step)
}

/// `inv` is the number of cells per unit on an axis of `n` nodes that spans `lo..=hi`.
pub open spec fn is_inverse_step<F: Scalar>(n: int, lo: F, hi: F, inv: F) -> bool {
    evals(Formula::Int(n - 1).div(Formula::Val(hi).sub(Formula::Val(lo))), inv)
}

/// The distances of adjacent nodes on the three axes.
pub open spec fn are_steps<F: Scalar>(n: int, lo: [F; 3], hi: [F; 3], step: [F; 3]) -> bool {
    &&& is_step(n, lo[0], hi[0], step[0])
    &&& is_step(n, lo[1], hi[1], step[1])
    &&& is_step(n, lo[2], hi[2], step[2])
}

/// The numbers of cells per unit on the three axes.
pub open spec fn are_inverse_steps<F: Scalar>(n: int, lo: [F; 3], hi: [F; 3], inv: [F; 3]) -> bool {
    &&& is_inverse_step(n, lo[0], hi[0], inv[0])
    &&& is_inverse_step(n, lo[1], hi[1], inv[1])
    &&& is_inverse_step(n, lo[2], hi[2], inv[2])
}

/// The coordinate of node `i` on an axis.
pub open spec fn node_formula<T, S>(lo: Formula<T, S>, i: int, step: Formula<T, S>) -> Formula<T, S> {
    lo.add(Formula::Int(i).mul(step))
}

/// `lab` is the Lab coordinate of node `(ix, iy, iz)`.
pub open spec fn is_node_lab<F: Scalar>(
    lo: [F; 3],
    step: [F; 3],
    ix: int,
    iy: int,
    iz: int,
    lab: [F; 3],
) -> bool {
    &&& evals(node_formula(Formula::Val(lo[0]), ix, Formula::Val(step[0])), lab[0])
    &&& evals(node_formula(Formula::Val(lo[1]), iy, Formula::Val(step[1])), lab[1])
    &&& evals(node_formula(Formula::Val(lo[2]), iz, Formula::Val(step[2])), lab[2])
}

/// A node that holds the outputs that the generator gave for its Lab coordinate.
pub open spec fn is_baked<B: NnBackend, S: ParamStorage<B>, G: FnMut([B::F32; 3]) -> [B::F32; 16]>(
    f: G,
    lo: [B::F32; 3],
    step: [B::F32; 3],
    ix: int,
    iy: int,
    iz: int,
    node: S::Storage,
) -> bool {
    exists|lab: [B::F32; 3], o: [B::F32; 16], v: B::F32x16|
        {
            &&& is_node_lab(lo, step, ix, iy, iz, lab)
            &&& #[trigger] call_ensures(f, (lab,), o)
            &&& call_ensures(B::F32x16::new, (o,), v)
            &&& #[trigger] S::packs(v, node)
        }
}

/// The first `count` nodes of a row-major grid, all of them baked.
pub open spec fn baked_up_to<B: NnBackend, S: ParamStorage<B>, G: FnMut([B::F32; 3]) -> [B::F32; 16]>(
    f: G,
    lo: [B::F32; 3],
    step: [B::F32; 3],
    n: int,
    nodes: Seq<S::Storage>,
    count: int,
) -> bool {
    &&& nodes.len() == count
    &&& forall|ix: int, iy: int, iz: int|
        0 <= ix < n && 0 <= iy < n && 0 <= iz < n && node_index(n, ix, iy, iz) < count ==> is_baked::<B, S, G>(
            f,
            lo,
            step,
            ix,
            iy,
            iz,
            #[trigger] nodes[node_index(n, ix, iy, iz)],
        )
}

/// One more baked node.
proof fn lemma_bake_node<B: NnBackend, S: ParamStorage<B>, G: FnMut([B::F32; 3]) -> [B::F32; 16]>(
    f: G,
    lo: [B::F32; 3],
    step: [B::F32; 3],
    n: int,
    nodes: Seq<S::Storage>,
    ix: int,
    iy: int,
    iz: int,
    node: S::Storage,
)
    requires
        0 <= ix < n,
        0 <= iy < n,
        0 <= iz < n,
        baked_up_to::<B, S, G>(f, lo, step, n, nodes, node_index(n, ix, iy, iz)),
        is_baked::<B, S, G>(f, lo, step, ix, iy, iz, node),
    ensures
        baked_up_to::<B, S, G>(f, lo, step, n, nodes.push(node), node_index(n, ix, iy, iz + 1)),
{
    let next = nodes.push(node);
    let count = node_index(n, ix, iy, iz);
    assert forall|jx: int, jy: int, jz: int|
        0 <= jx < n && 0 <= jy < n && 0 <= jz < n && node_index(n, jx, jy, jz) < count + 1 implies is_baked::<
        B,
        S,
        G,
    >(f, lo, step, jx, jy, jz, #[trigger] next[node_index(n, jx, jy, jz)]) by {
        lemma_node_index(n, jx, jy, jz);
        if node_index(n, jx, jy, jz) == count {
            law_node_index_injective(n, ix, iy, iz, jx, jy, jz);
        } else {
            assert(next[node_index(n, jx, jy, jz)] == nodes[node_index(n, jx, jy, jz)]);
        }
    }
}

/// Linear interpolation `a + (b - a) * t`.
pub open spec fn lerp_formula<T, S>(a: Formula<T, S>, b: Formula<T, S>, t: Formula<T, S>) -> Formula<T, S> {
    a.add(b.sub(a).mul(t))
}

/// Trilinear blend of 8 corners at the fraction `f`: along the last axis, then along the middle one,
/// then along the first.
pub open spec fn tri_formula<T, S>(v: Seq<Formula<T, S>>, f: Seq<Formula<T, S>>) -> Formula<T, S> {
    let c00 = lerp_formula(v[0], v[1], f[2]);
    let c01 = lerp_formula(v[2], v[3], f[2]);
    let c10 = lerp_formula(v[4], v[5], f[2]);
    let c11 = lerp_formula(v[6], v[7], f[2]);
    lerp_formula(lerp_formula(c00, c01, f[1]), lerp_formula(c10, c11, f[1]), f[0])
}

/// The same blend, with the linear interpolation of the vector type.
pub open spec fn mix_formula<T, S>(v: Seq<Formula<T, S>>, w: Seq<Formula<T, S>>) -> Formula<T, S> {
    let c00 = w[2].mix(v[0], v[1]);
    let c01 = w[2].mix(v[2], v[3]);
    let c10 = w[2].mix(v[4], v[5]);
    let c11 = w[2].mix(v[6], v[7]);
    w[0].mix(w[1].mix(c00, c01), w[1].mix(c10, c11))
}

/// Numbers at hand, as formulas.
pub open spec fn vals<F>(xs: Seq<F>) -> Seq<Formula<F, F>> {
    Seq::new(xs.len(), |i: int| Formula::Val(xs[i]))
}

/// Numbers in every lane, as formulas.
pub open spec fn splats<T, S>(xs: Seq<S>) -> Seq<Formula<T, S>> {
    Seq::new(xs.len(), |i: int| Formula::Splat(xs[i]))
}

/// The place of a coordinate on an axis of `n` nodes, in cells, confined to the grid.
pub open spec fn grid_formula<T, S>(
    n: int,
    x: Formula<T, S>,
    lo: Formula<T, S>,
    inv_step: Formula<T, S>,
) -> Formula<T, S> {
    x.sub(lo).mul(inv_step).clamp(Formula::Const(ZERO), Formula::Int(n - 1))
}

/// Trilinear blend of 8 corner numbers at the fraction `f`.
pub fn tri8<F: Scalar>(v: [F; 8], f: [F; 3]) -> (r: F)
    ensures
        evals(tri_formula(vals(v@), vals(f@)), r),
{
    let c00 = lerp(Term::val(v[0]), Term::val(v[1]), Term::val(f[2]));
    let c01 = lerp(Term::val(v[2]), Term::val(v[3]), Term::val(f[2]));
    let c10 = lerp(Term::val(v[4]), Term::val(v[5]), Term::val(f[2]));
    let c11 = lerp(Term::val(v[6]), Term::val(v[7]), Term::val(f[2]));
    let c0 = lerp(c00, c01, Term::val(f[1]));
    let c1 = lerp(c10, c11, Term::val(f[1]));
    lerp(c0, c1, Term::val(f[0])).value()
}

fn lerp<F: Scalar>(a: Term<F>, b: Term<F>, t: Term<F>) -> (r: Term<F>)
    ensures
        r.formula() == lerp_formula(a.formula(), b.formula(), t.formula()),
{
    a.add(b.sub(a).mul(t))
}

/// The result of one lookup: the parameters of the 8 corners of the cell, the fractional position
/// within it, and the blended fluorophore.
#[derive(Clone, Copy, Debug)]
pub struct CubeSample<F> {
    /// Corner parameters. The bits of the index, the highest first, say on which axes the corner is
    /// the upper one.
    pub corners: [UpliftParams<F>; 8],
    /// Fractional position within the cell.
    pub f: [F; 3],
    /// Blended fluorophore concentration.
    pub c: F,
    /// Blended emission peak (nm).
    pub lambda_e: F,
    /// Blended Stokes shift (nm).
    pub s: F,
    /// Blended emission-width ratio.
    pub r: F,
}

impl<S> CubeSample<S> {
    /// The reflectances of the corners at a wavelength.
    pub open spec fn corner_formulas<T>(self, lambda: Formula<T, S>) -> Seq<Formula<T, S>> {
        Seq::new(8, |i: int| self.corners[i].reflectance_formula(lambda))
    }

    /// The blended reflectance at a wavelength.
    pub open spec fn reflectance_formula<T>(self, lambda: Formula<T, S>) -> Formula<T, S> {
        mix_formula(self.corner_formulas(lambda), splats(self.f@))
    }
}

impl<F: Scalar> CubeSample<F> {
    /// The fluorophore is the trilinear blend of those of the corners.
    pub open spec fn blends_fluorophore(self) -> bool {
        let k = self.corners;
        let f = vals(self.f@);
        &&& evals(tri_formula(vals(Seq::new(8, |i: int| k[i].c)), f), self.c)
        &&& evals(tri_formula(vals(Seq::new(8, |i: int| k[i].lambda_e)), f), self.lambda_e)
        &&& evals(tri_formula(vals(Seq::new(8, |i: int| k[i].s)), f), self.s)
        &&& evals(tri_formula(vals(Seq::new(8, |i: int| k[i].r)), f), self.r)
    }

    /// Base reflectance over a vector of wavelengths in nm: the trilinear blend of the reflectances
    /// of the corners. Fluorescence is not part of it.
    pub fn reflectance<V: NnVector<Element = F>>(&self, lambda: V) -> (r: V)
        ensures
            evals(self.reflectance_formula(Formula::Val(lambda)), r),
    {
        self.blend(lambda, self.f)
    }

    /// Blend the reflectances of the corners with the weights `w`.
    fn blend<V: NnVector<Element = F>>(&self, lambda: V, w: [F; 3]) -> (r: V)
        ensures
            evals(mix_formula(self.corner_formulas(Formula::Val(lambda)), splats(w@)), r),
    {
        let l = Term::val(lambda);
        let c = &self.corners;
        let wx = Term::splat(w[0]);
        let wy = Term::splat(w[1]);
        let wz = Term::splat(w[2]);
        let c00 = wz.mix(c[0].reflectance_term(l), c[1].reflectance_term(l));
        let c01 = wz.mix(c[2].reflectance_term(l), c[3].reflectance_term(l));
        let c10 = wz.mix(c[4].reflectance_term(l), c[5].reflectance_term(l));
        let c11 = wz.mix(c[6].reflectance_term(l), c[7].reflectance_term(l));
        wx.mix(wy.mix(c00, c01), wy.mix(c10, c11)).value()
    }
}

impl<B: NnBackend, S: ParamStorage<B>, const N: usize> LookupCube<B, S, N> {
    /// The nodes, row-major.
    pub closed spec fn nodes(&self) -> Seq<S::Storage> {
        self.cell_corners@
    }

    pub closed spec fn lower(&self) -> [B::F32; 3] {
        self.lo
    }

    pub closed spec fn inverse_step(&self) -> [B::F32; 3] {
        self.inv_step
    }

    #[verifier::type_invariant]
    spec fn inv(self) -> bool {
        self.cell_corners@.len() == N as int * N as int * N as int
    }

    /// The grid spans the box `lo..=hi`.
    pub open spec fn spans(&self, lo: [B::F32; 3], hi: [B::F32; 3]) -> bool {
        &&& self.lower() == lo
        &&& are_inverse_steps(N as int, lo, hi, self.inverse_step())
    }

    /// Every node holds the outputs that the generator gave for its Lab coordinate in the box
    /// `lo..=hi`.
    pub open spec fn holds_outputs<G: FnMut([B::F32; 3]) -> [B::F32; 16]>(
        &self,
        f: G,
        lo: [B::F32; 3],
        hi: [B::F32; 3],
    ) -> bool {
        exists|step: [B::F32; 3]|
            {
                &&& #[trigger] are_steps(N as int, lo, hi, step)
                &&& baked_up_to::<B, S, G>(f, lo, step, N as int, self.nodes(), N as int * N as int * N as int)
            }
    }

    /// Bake the grid from a node generator, which returns the 16 network outputs for a Lab
    /// coordinate. `lo..=hi` is the box that the grid spans.
    pub fn bake<G: FnMut([B::F32; 3]) -> [B::F32; 16]>(lo: [B::F32; 3], hi: [B::F32; 3], f: G) -> (r: Self)
        requires
            N >= 2,
            N as int * N as int * N as int <= usize::MAX,
            forall|lab: [B::F32; 3]| call_requires(f, (lab,)),
        ensures
            r.holds_outputs(f, lo, hi),
            r.spans(lo, hi),
    {
        proof {
            lemma_side(N as int);
        }
        let step = [
            axis_step(N, lo[0], hi[0]),
            axis_step(N, lo[1], hi[1]),
            axis_step(N, lo[2], hi[2]),
        ];
        let inv_step = [
            axis_inverse_step(N, lo[0], hi[0]),
            axis_inverse_step(N, lo[1], hi[1]),
            axis_inverse_step(N, lo[2], hi[2]),
        ];
        let mut f = f;
        let ghost g = f;
        let mut cell_corners: Vec<S::Storage> = Vec::new();
        proof {
            lemma_row_start(N as int, 0, 0);
            lemma_node_index(N as int, 0, 0, 0);
        }
        let mut ix: usize = 0;
        while ix < N
            invariant
                ix <= N,
                N <= 0x40_0000,
                f == g,
                forall|lab: [B::F32; 3]| call_requires(g, (lab,)),
                baked_up_to::<B, S, G>(g, lo, step, N as int, cell_corners@, node_index(N as int, ix as int, 0, 0)),
            decreases N - ix,
        {
            let mut iy: usize = 0;
            while iy < N
                invariant
                    ix < N,
                    iy <= N,
                    N <= 0x40_0000,
                    f == g,
                    forall|lab: [B::F32; 3]| call_requires(g, (lab,)),
                    baked_up_to::<B, S, G>(
                        g,
                        lo,
                        step,
                        N as int,
                        cell_corners@,
                        node_index(N as int, ix as int, iy as int, 0),
                    ),
                decreases N - iy,
            {
                let mut iz: usize = 0;
                while iz < N
                    invariant
                        ix < N,
                        iy < N,
                        iz <= N,
                        N <= 0x40_0000,
                        f == g,
                        forall|lab: [B::F32; 3]| call_requires(g, (lab,)),
                        baked_up_to::<B, S, G>(
                            g,
                            lo,
                            step,
                            N as int,
                            cell_corners@,
                            node_index(N as int, ix as int, iy as int, iz as int),
                        ),
                    decreases N - iz,
                {
                    let lab = [
                        node_coordinate(lo[0], ix, step[0]),
                        node_coordinate(lo[1], iy, step[1]),
                        node_coordinate(lo[2], iz, step[2]),
                    ];
                    let o = f(lab);
                    let v = B::F32x16::new(o);
                    let node = S::pack(v);
                    proof {
                        assert(is_baked::<B, S, G>(g, lo, step, ix as int, iy as int, iz as int, node));
                        lemma_bake_node::<B, S, G>(
                            g,
                            lo,
                            step,
                            N as int,
                            cell_corners@,
                            ix as int,
                            iy as int,
                            iz as int,
                            node,
                        );
                    }
                    cell_corners.push(node);
                    iz = iz + 1;
                }
                proof {
                    lemma_row_start(N as int, ix as int, iy as int);
                }
                iy = iy + 1;
            }
            proof {
                lemma_row_start(N as int, ix as int, 0);
            }
            ix = ix + 1;
        }
        assert(are_steps(N as int, lo, hi, step));
        LookupCube { cell_corners, lo, inv_step }
    }

    /// Wrap a grid of nodes that was baked before, row-major. `lo..=hi` is the box that it spans.
    pub fn from_packed(cell_corners: Vec<S::Storage>, lo: [B::F32; 3], hi: [B::F32; 3]) -> (r: Self)
        requires
            N >= 1,
            cell_corners@.len() == N as int * N as int * N as int,
        ensures
            r.nodes() == cell_corners@,
            r.spans(lo, hi),
    {
        proof {
            assert(cell_corners.len() <= usize::MAX);
            lemma_side(N as int);
        }
        let inv_step = [
            axis_inverse_step(N, lo[0], hi[0]),
            axis_inverse_step(N, lo[1], hi[1]),
            axis_inverse_step(N, lo[2], hi[2]),
        ];
        LookupCube { cell_corners, lo, inv_step }
    }

    /// The outputs of one node, decoded and not bounded.
    pub fn decode_raw(&self, flat: usize) -> (r: [B::F32; 16])
        requires
            flat < N as int * N as int * N as int,
        ensures
            decodes::<B, S>(self.nodes()[flat as int], r),
    {
        proof {
            use_type_invariant(self);
        }
        S::unpack(self.cell_corners[flat]).into_array()
    }

    /// The parameters of one node.
    pub fn corner(&self, flat: usize) -> (r: UpliftParams<B::F32>)
        requires
            flat < N as int * N as int * N as int,
        ensures
            corner_of::<B, S>(self.nodes()[flat as int], r),
    {
        let o = self.decode_raw(flat);
        assert(o@.take(16) =~= o@);
        UpliftParams::from_outputs::<B::F32x8>(&o)
    }

    /// `t` is the place of a Lab colour in the grid, `base` the lower node of its cell, and `f` its
    /// fractional position in the cell.
    pub open spec fn locates(&self, lab: [B::F32; 3], base: Seq<int>, f: [B::F32; 3]) -> bool {
        &&& base.len() == 3
        &&& axis_locates(N as int, lab[0], self.lower()[0], self.inverse_step()[0], base[0], f[0])
        &&& axis_locates(N as int, lab[1], self.lower()[1], self.inverse_step()[1], base[1], f[1])
        &&& axis_locates(N as int, lab[2], self.lower()[2], self.inverse_step()[2], base[2], f[2])
    }

    /// The corners of `r` are those of the cell with the lower node `base`.
    pub open spec fn has_corners(&self, base: Seq<int>, r: CubeSample<B::F32>) -> bool {
        forall|k: int|
            0 <= k < 8 ==> corner_of::<B, S>(
                self.nodes()[corner_index(N as int, base[0], base[1], base[2], k)],
                #[trigger] r.corners[k],
            )
    }

    /// `r` is the lookup of a Lab colour: the corners of its cell, its fractional position there, and
    /// the blended fluorophore.
    pub open spec fn gives(&self, lab: [B::F32; 3], r: CubeSample<B::F32>) -> bool {
        &&& exists|base: Seq<int>| #[trigger] self.locates(lab, base, r.f) && self.has_corners(base, r)
        &&& r.blends_fluorophore()
    }

    /// Look up a Lab colour: fetch and bound the 8 corners of its cell and blend their fluorophores.
    /// A colour outside the grid is confined to its boundary.
    pub fn sample(&self, lab: [B::F32; 3]) -> (r: CubeSample<B::F32>)
        requires
            N >= 2,
        ensures
            self.gives(lab, r),
    {
        proof {
            use_type_invariant(self);
            assert(self.cell_corners.len() <= usize::MAX);
            lemma_side(N as int);
        }
        let (i0, f0) = locate_axis(N, lab[0], self.lo[0], self.inv_step[0]);
        let (i1, f1) = locate_axis(N, lab[1], self.lo[1], self.inv_step[1]);
        let (i2, f2) = locate_axis(N, lab[2], self.lo[2], self.inv_step[2]);
        let f = [f0, f1, f2];
        let ghost base = seq![i0 as int, i1 as int, i2 as int];
        let corners = [
            self.corner(self.row(i0, i1, i2)),
            self.corner(self.row(i0, i1, i2 + 1)),
            self.corner(self.row(i0, i1 + 1, i2)),
            self.corner(self.row(i0, i1 + 1, i2 + 1)),
            self.corner(self.row(i0 + 1, i1, i2)),
            self.corner(self.row(i0 + 1, i1, i2 + 1)),
            self.corner(self.row(i0 + 1, i1 + 1, i2)),
            self.corner(self.row(i0 + 1, i1 + 1, i2 + 1)),
        ];
        let k = &corners;
        let c = tri8([k[0].c, k[1].c, k[2].c, k[3].c, k[4].c, k[5].c, k[6].c, k[7].c], f);
        let lambda_e = tri8(
            [
                k[0].lambda_e,
                k[1].lambda_e,
                k[2].lambda_e,
                k[3].lambda_e,
                k[4].lambda_e,
                k[5].lambda_e,
                k[6].lambda_e,
                k[7].lambda_e,
            ],
            f,
        );
        let s = tri8([k[0].s, k[1].s, k[2].s, k[3].s, k[4].s, k[5].s, k[6].s, k[7].s], f);
        let r = tri8([k[0].r, k[1].r, k[2].r, k[3].r, k[4].r, k[5].r, k[6].r, k[7].r], f);
        let res = CubeSample { corners, f, c, lambda_e, s, r };
        proof {
            assert forall|k: int| 0 <= k < 8 implies corner_of::<B, S>(
                self.nodes()[corner_index(N as int, base[0], base[1], base[2], k)],
                #[trigger] res.corners[k],
            ) by {
                assert(k == 0 || k == 1 || k == 2 || k == 3 || k == 4 || k == 5 || k == 6 || k == 7);
            }
            assert(self.locates(lab, base, res.f) && self.has_corners(base, res));
        }
        res
    }

    /// Place of a node.
    fn row(&self, ix: usize, iy: usize, iz: usize) -> (r: usize)
        requires
            ix < N,
            iy < N,
            iz < N,
        ensures
            r == node_index(N as int, ix as int, iy as int, iz as int),
            r < N as int * N as int * N as int,
    {
        proof {
            use_type_invariant(self);
            assert(self.cell_corners.len() <= usize::MAX);
            lemma_node_index(N as int, ix as int, iy as int, iz as int);
            assert(N * N <= N * N * N && ix * N <= ix * N + iy) by (nonlinear_arith)
                requires
                    N >= 1,
            ;
            assert((ix * N + iy) * N >= 0) by (nonlinear_arith)
                requires
                    ix * N + iy >= 0,
                    N >= 1,
            ;
        }
        (ix * N + iy) * N + iz
    }
}

/// The lower node of the cell of a place that was rounded to `i`: kept off the last node.
pub open spec fn lower_node(n: int, i: int) -> int {
    if i < n - 2 {
        i
    } else {
        n - 2
    }
}

/// The coordinate `x` is at the fraction `f` of the cell with the lower node `base`: its place on the
/// axis is rounded towards zero, and kept off the last node.
pub open spec fn axis_locates<F: Scalar>(n: int, x: F, lo: F, inv_step: F, base: int, f: F) -> bool {
    exists|t: F, i: usize|
        {
            &&& evals(grid_formula(n, Formula::Val(x), Formula::Val(lo), Formula::Val(inv_step)), t)
            &&& #[trigger] call_ensures(F::to_index, (t,), i)
            &&& base == lower_node(n, i as int)
            &&& evals(Formula::Val(t).sub(Formula::Int(base)), f)
        }
}

/// The lower node and the fraction of a coordinate on one axis.
fn locate_axis<F: Scalar>(n: usize, x: F, lo: F, inv_step: F) -> (r: (usize, F))
    requires
        2 <= n <= i64::MAX,
    ensures
        r.0 <= n - 2,
        axis_locates(n as int, x, lo, inv_step, r.0 as int, r.1),
{
    let t = Term::val(x).sub(Term::val(lo)).mul(Term::val(inv_step)).clamp(
        Term::constant(ZERO),
        Term::integer((n - 1) as i64),
    ).value();
    let i: usize = t.to_index();
    let base: usize = if i < n - 2 {
        i
    } else {
        n - 2
    };
    let f = Term::val(t).sub(Term::integer(base as i64)).value();
    (base, f)
}

} // verus!
