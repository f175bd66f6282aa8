//! A lookup has no seams: neighbouring cells agree on the face that they share.

use crate::cube::{corner_index, corner_of, splats, CubeSample, LookupCube, ParamStorage};
use crate::cube_laws::{law_blend_continuous, law_blend_is_trilinear, law_shared_faces, trilinear};
use crate::cube_results::{
    is_solid, law_fraction_result, lemma_axis_result, lemma_corner_result, lemma_fluorophore_result,
    place, read_sample, reads_backend, reads_node, rounds_down,
};
use crate::cube_unique::storage_is_function;
use crate::formula::{exact, Formula, NnBackend};
use crate::model::{reads_numbers, Model};
use crate::params::UpliftParams;
use crate::params_results::{params_of_reals, read_params};
use vstd::prelude::*;

verus! {

/// The blend of the cell with the lower node `b`, at the fraction `f`, of numbers `h` at the nodes.
pub open spec fn cell_blend(n: int, h: spec_fn(int) -> real, b: Seq<int>, f: Seq<real>) -> real {
    trilinear(Seq::new(8, |k: int| h(corner_index(n, b[0], b[1], b[2], k))), f[0], f[1], f[2])
}

/// Two cells agree on a face that they share, the second being the next on axis `d`.
proof fn lemma_face(n: int, h: spec_fn(int) -> real, b: Seq<int>, f: Seq<real>, d: int)
    requires
        b.len() == 3,
        f.len() == 3,
        0 <= d < 3,
        f[d] == 1real,
    ensures
        cell_blend(n, h, b, f) == cell_blend(n, h, b.update(d, b[d] + 1), f.update(d, 0real)),
{
    let c = b.update(d, b[d] + 1);
    let v = Seq::new(8, |k: int| h(corner_index(n, b[0], b[1], b[2], k)));
    let w = Seq::new(8, |k: int| h(corner_index(n, c[0], c[1], c[2], k)));
    law_shared_faces(n, b[0], b[1], b[2]);
    if d == 0 {
        law_blend_continuous(v, w, f[1], f[2]);
        assert forall|k: int| 4 <= k < 8 implies #[trigger] v[k] == w[k - 4] by {
            assert(corner_index(n, b[0], b[1], b[2], k) == corner_index(n, b[0] + 1, b[1], b[2], k - 4));
        }
    } else if d == 1 {
        law_blend_continuous(v, w, f[0], f[2]);
        assert forall|k: int| 0 <= k < 8 && (k / 2) % 2 == 1 implies #[trigger] v[k] == w[k - 2] by {
            assert(corner_index(n, b[0], b[1], b[2], k) == corner_index(n, b[0], b[1] + 1, b[2], k - 2));
        }
    } else {
        law_blend_continuous(v, w, f[0], f[1]);
        assert forall|k: int| 0 <= k < 8 && k % 2 == 1 implies #[trigger] v[k] == w[k - 1] by {
            assert(corner_index(n, b[0], b[1], b[2], k) == corner_index(n, b[0], b[1], b[2] + 1, k - 1));
        }
    }
}

/// Moving one axis of a point to another cell that it belongs to does not change the blend.
proof fn lemma_axis_moved(n: int, h: spec_fn(int) -> real, b: Seq<int>, f: Seq<real>, d: int, c: int, g: real)
    requires
        b.len() == 3,
        f.len() == 3,
        0 <= d < 3,
        0real <= f[d] <= 1real,
        0real <= g <= 1real,
        b[d] as real + f[d] == c as real + g,
    ensures
        cell_blend(n, h, b, f) == cell_blend(n, h, b.update(d, c), f.update(d, g)),
{
    assert(c == b[d] || c == b[d] + 1 || c == b[d] - 1);
    let b2 = b.update(d, c);
    let f2 = f.update(d, g);
    if c == b[d] {
        assert(b2 =~= b && f2 =~= f);
    } else if c == b[d] + 1 {
        lemma_face(n, h, b, f, d);
    } else {
        lemma_face(n, h, b2, f2, d);
        assert(b2.update(d, b2[d] + 1) =~= b && f2.update(d, 0real) =~= f);
    }
}

/// There are no seams: a point that belongs to several cells has the same blend in each of them.
pub proof fn law_no_seams(n: int, h: spec_fn(int) -> real, b: Seq<int>, f: Seq<real>, c: Seq<int>, g: Seq<real>)
    requires
        b.len() == 3,
        f.len() == 3,
        c.len() == 3,
        g.len() == 3,
        forall|d: int|
            0 <= d < 3 ==> 0real <= #[trigger] f[d] <= 1real && 0real <= g[d] <= 1real && b[d] as real + f[d]
                == c[d] as real + g[d],
    ensures
        cell_blend(n, h, b, f) == cell_blend(n, h, c, g),
{
    assert(0real <= f[0] <= 1real && 0real <= f[1] <= 1real && 0real <= f[2] <= 1real);
    lemma_axis_moved(n, h, b, f, 0, c[0], g[0]);
    let b1 = b.update(0, c[0]);
    let f1 = f.update(0, g[0]);
    lemma_axis_moved(n, h, b1, f1, 1, c[1], g[1]);
    let b2 = b1.update(1, c[1]);
    let f2 = f1.update(1, g[1]);
    lemma_axis_moved(n, h, b2, f2, 2, c[2], g[2]);
    assert(b2.update(2, c[2]) =~= c && f2.update(2, g[2]) =~= g);
}

/// The parameters of a node, read as real numbers.
pub open spec fn node_params<B: NnBackend, S: ParamStorage<B>>(
    w: spec_fn(int) -> Model<B::F32x16>,
    node: S::Storage,
) -> UpliftParams<real> {
    params_of_reals(choose|o: Seq<real>| #[trigger] reads_node::<B, S>(w, node, o))
}

/// A corner holds the parameters of its node.
proof fn lemma_corner_params<B: NnBackend, S: ParamStorage<B>>(
    s: Model<B::F32>,
    v: spec_fn(int) -> Model<B::F32x8>,
    w: spec_fn(int) -> Model<B::F32x16>,
    node: S::Storage,
    p: UpliftParams<B::F32>,
)
    requires
        reads_backend::<B>(s, v, w),
        storage_is_function::<B, S>(),
        corner_of::<B, S>(node, p),
    ensures
        read_params(s.elem, p) == node_params::<B, S>(w, node),
{
    let a = lemma_corner_result::<B, S>(s, v, w, node, p);
    let b = choose|o: Seq<real>| #[trigger] reads_node::<B, S>(w, node, o);
    assert(reads_node::<B, S>(w, node, b));
    let x = choose|x: B::F32x16| #[trigger] S::unpacks(node, x) && a == Seq::new(16, |j: int| (w(j).lane)(x));
    let y = choose|x: B::F32x16| #[trigger] S::unpacks(node, x) && b == Seq::new(16, |j: int| (w(j).lane)(x));
    assert(x == y);
}

/// What a lookup gives is the blend, in the cell of its corners, of the fluorophores and of the
/// reflectances of the nodes.
pub proof fn law_lookup_is_blend<B: NnBackend, S: ParamStorage<B>, const N: usize>(
    s: Model<B::F32>,
    v: spec_fn(int) -> Model<B::F32x8>,
    w: spec_fn(int) -> Model<B::F32x16>,
    cube: LookupCube<B, S, N>,
    base: Seq<int>,
    p: CubeSample<B::F32>,
    l: Formula<real, real>,
)
    requires
        reads_backend::<B>(s, v, w),
        storage_is_function::<B, S>(),
        cube.has_corners(base, p),
        p.blends_fluorophore(),
    ensures
        ({
            let q = read_sample(s.elem, p);
            let at = |i: int| node_params::<B, S>(w, cube.nodes()[i]);
            &&& q.c == cell_blend(N as int, |i: int| at(i).c, base, q.f@)
            &&& q.lambda_e == cell_blend(N as int, |i: int| at(i).lambda_e, base, q.f@)
            &&& q.s == cell_blend(N as int, |i: int| at(i).s, base, q.f@)
            &&& q.r == cell_blend(N as int, |i: int| at(i).r, base, q.f@)
            &&& exact(q.reflectance_formula(l)) == cell_blend(
                N as int,
                |i: int| exact(at(i).reflectance_formula(l)),
                base,
                q.f@,
            )
        }),
{
    let n = N as int;
    let q = read_sample(s.elem, p);
    let at = |i: int| node_params::<B, S>(w, cube.nodes()[i]);
    assert forall|k: int| 0 <= k < 8 implies #[trigger] q.corners[k] == at(
        corner_index(n, base[0], base[1], base[2], k),
    ) by {
        let node = cube.nodes()[corner_index(n, base[0], base[1], base[2], k)];
        assert(corner_of::<B, S>(node, p.corners[k]));
        lemma_corner_params::<B, S>(s, v, w, node, p.corners[k]);
        assert(k == 0 || k == 1 || k == 2 || k == 3 || k == 4 || k == 5 || k == 6 || k == 7);
    }
    lemma_fluorophore_result(s, p);
    let hc = |i: int| at(i).c;
    let hl = |i: int| at(i).lambda_e;
    let hs = |i: int| at(i).s;
    let hr = |i: int| at(i).r;
    let hx = |i: int| exact(at(i).reflectance_formula(l));
    assert(Seq::new(8, |k: int| q.corners[k].c) =~= Seq::new(
        8,
        |k: int| hc(corner_index(n, base[0], base[1], base[2], k)),
    ));
    assert(Seq::new(8, |k: int| q.corners[k].lambda_e) =~= Seq::new(
        8,
        |k: int| hl(corner_index(n, base[0], base[1], base[2], k)),
    ));
    assert(Seq::new(8, |k: int| q.corners[k].s) =~= Seq::new(
        8,
        |k: int| hs(corner_index(n, base[0], base[1], base[2], k)),
    ));
    assert(Seq::new(8, |k: int| q.corners[k].r) =~= Seq::new(
        8,
        |k: int| hr(corner_index(n, base[0], base[1], base[2], k)),
    ));
    let c = q.corner_formulas(l);
    law_blend_is_trilinear(c, splats::<real, real>(q.f@));
    assert(Seq::new(8, |k: int| exact(c[k])) =~= Seq::new(
        8,
        |k: int| hx(corner_index(n, base[0], base[1], base[2], k)),
    ));
    reveal_with_fuel(exact, 2);
}

/// A lookup has no seams: whichever cell a colour belongs to, on the face, the edge or the corner that
/// it lies on, the lookup is the blend in that cell, in its fluorophore and in its reflectance.
pub proof fn law_lookup_continuous<B: NnBackend, S: ParamStorage<B>, const N: usize>(
    s: Model<B::F32>,
    v: spec_fn(int) -> Model<B::F32x8>,
    w: spec_fn(int) -> Model<B::F32x16>,
    cube: LookupCube<B, S, N>,
    lo: [B::F32; 3],
    hi: [B::F32; 3],
    lab: [B::F32; 3],
    p: CubeSample<B::F32>,
    cell: Seq<int>,
    f: Seq<real>,
    l: Formula<real, real>,
)
    requires
        reads_backend::<B>(s, v, w),
        is_solid::<B, S, N>(s, cube, lo, hi),
        storage_is_function::<B, S>(),
        cube.gives(lab, p),
        cell.len() == 3,
        f.len() == 3,
        forall|d: int|
            0 <= d < 3 ==> 0real <= #[trigger] f[d] <= 1real && place(
                N as int,
                (s.elem)(lab[d]),
                (s.elem)(lo[d]),
                (s.elem)(hi[d]),
            ) == cell[d] as real + f[d],
    ensures
        ({
            let q = read_sample(s.elem, p);
            let at = |i: int| node_params::<B, S>(w, cube.nodes()[i]);
            &&& q.c == cell_blend(N as int, |i: int| at(i).c, cell, f)
            &&& q.lambda_e == cell_blend(N as int, |i: int| at(i).lambda_e, cell, f)
            &&& q.s == cell_blend(N as int, |i: int| at(i).s, cell, f)
            &&& q.r == cell_blend(N as int, |i: int| at(i).r, cell, f)
            &&& exact(q.reflectance_formula(l)) == cell_blend(
                N as int,
                |i: int| exact(at(i).reflectance_formula(l)),
                cell,
                f,
            )
        }),
{
    let n = N as int;
    let q = read_sample(s.elem, p);
    let base = choose|base: Seq<int>| #[trigger] cube.locates(lab, base, p.f) && cube.has_corners(base, p);
    law_lookup_is_blend::<B, S, N>(s, v, w, cube, base, p, l);
    let g = q.f@;
    assert forall|d: int| 0 <= d < 3 implies 0real <= #[trigger] g[d] <= 1real && 0real <= f[d] <= 1real && base[d]
        as real + g[d] == cell[d] as real + f[d] by {
        assert(0real <= f[d] <= 1real);
        lemma_cell_of::<B, S, N>(s, cube, lo, hi, lab, base, p, d);
    }
    let at = |i: int| node_params::<B, S>(w, cube.nodes()[i]);
    law_no_seams(n, |i: int| at(i).c, base, g, cell, f);
    law_no_seams(n, |i: int| at(i).lambda_e, base, g, cell, f);
    law_no_seams(n, |i: int| at(i).s, base, g, cell, f);
    law_no_seams(n, |i: int| at(i).r, base, g, cell, f);
    law_no_seams(n, |i: int| exact(at(i).reflectance_formula(l)), base, g, cell, f);
}

/// The cell and the fraction of a lookup add up to its place.
proof fn lemma_cell_of<B: NnBackend, S: ParamStorage<B>, const N: usize>(
    s: Model<B::F32>,
    cube: LookupCube<B, S, N>,
    lo: [B::F32; 3],
    hi: [B::F32; 3],
    lab: [B::F32; 3],
    base: Seq<int>,
    p: CubeSample<B::F32>,
    d: int,
)
    requires
        reads_numbers(s),
        rounds_down(s),
        is_solid::<B, S, N>(s, cube, lo, hi),
        cube.locates(lab, base, p.f),
        0 <= d < 3,
    ensures
        ({
            let g = read_sample(s.elem, p).f@[d];
            &&& 0real <= g <= 1real
            &&& base[d] as real + g == place(N as int, (s.elem)(lab[d]), (s.elem)(lo[d]), (s.elem)(hi[d]))
        }),
{
    let n = N as int;
    let inv = cube.inverse_step();
    assert(d == 0 || d == 1 || d == 2);
    assert((s.elem)(lo[d]) < (s.elem)(hi[d]));
    let i = lemma_axis_result(s, n, lab[d], lo[d], hi[d], inv[d], base[d], p.f[d]);
    law_fraction_result(s, n, lab[d], lo[d], inv[d], base[d], p.f[d]);
}

} // verus!
