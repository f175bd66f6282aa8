//! Laws of the lookup grid. Those about blending are in exact arithmetic.

use crate::cube::{
    corner_index, grid_formula, lemma_node_index, lerp_formula, lower_node, mix_formula,
    node_formula, node_index, splats, tri_formula, CubeSample,
};
use crate::formula::{exact, Formula};
use crate::params_laws::lemma_unit_values;
use vstd::prelude::*;

verus! {

/// Every corner of a cell is a node of the grid.
pub proof fn law_corners_in_grid(n: int, ix: int, iy: int, iz: int, k: int)
    requires
        0 <= ix <= n - 2,
        0 <= iy <= n - 2,
        0 <= iz <= n - 2,
        0 <= k < 8,
    ensures
        0 <= corner_index(n, ix, iy, iz, k) < n * n * n,
{
    lemma_node_index(n, ix + k / 4, iy + (k / 2) % 2, iz + k % 2);
}

/// Two neighbouring cells share the four nodes on their common face, on each axis.
pub proof fn law_shared_faces(n: int, ix: int, iy: int, iz: int)
    ensures
        forall|k: int|
            4 <= k < 8 ==> #[trigger] corner_index(n, ix, iy, iz, k) == corner_index(n, ix + 1, iy, iz, k - 4),
        forall|k: int|
            0 <= k < 8 && (k / 2) % 2 == 1 ==> #[trigger] corner_index(n, ix, iy, iz, k) == corner_index(
                n,
                ix,
                iy + 1,
                iz,
                k - 2,
            ),
        forall|k: int|
            0 <= k < 8 && k % 2 == 1 ==> #[trigger] corner_index(n, ix, iy, iz, k) == corner_index(
                n,
                ix,
                iy,
                iz + 1,
                k - 1,
            ),
{
}

/// Linear interpolation of real numbers.
pub open spec fn lerp(a: real, b: real, t: real) -> real {
    a + (b - a) * t
}

/// Trilinear interpolation of real numbers.
pub open spec fn trilinear(v: Seq<real>, x: real, y: real, z: real) -> real {
    let c00 = lerp(v[0], v[1], z);
    let c01 = lerp(v[2], v[3], z);
    let c10 = lerp(v[4], v[5], z);
    let c11 = lerp(v[6], v[7], z);
    lerp(lerp(c00, c01, y), lerp(c10, c11, y), x)
}

/// Blending formulas blends the numbers that they denote. The scalar and the vector blend agree.
pub proof fn law_blend_is_trilinear(
    v: Seq<Formula<real, real>>,
    f: Seq<Formula<real, real>>,
)
    requires
        v.len() == 8,
        f.len() == 3,
    ensures
        ({
            let t = trilinear(
                Seq::new(8, |i: int| exact(v[i])),
                exact(f[0]),
                exact(f[1]),
                exact(f[2]),
            );
            exact(tri_formula(v, f)) == t && exact(mix_formula(v, f)) == t
        }),
{
    lemma_lerp(v[0], v[1], f[2]);
    lemma_lerp(v[2], v[3], f[2]);
    lemma_lerp(v[4], v[5], f[2]);
    lemma_lerp(v[6], v[7], f[2]);
    let a = lerp_formula(v[0], v[1], f[2]);
    let b = lerp_formula(v[2], v[3], f[2]);
    let c = lerp_formula(v[4], v[5], f[2]);
    let d = lerp_formula(v[6], v[7], f[2]);
    lemma_lerp(a, b, f[1]);
    lemma_lerp(c, d, f[1]);
    lemma_lerp(lerp_formula(a, b, f[1]), lerp_formula(c, d, f[1]), f[0]);
    let e = f[2].mix(v[0], v[1]);
    let g = f[2].mix(v[2], v[3]);
    let h = f[2].mix(v[4], v[5]);
    let i = f[2].mix(v[6], v[7]);
    lemma_lerp(e, g, f[1]);
    lemma_lerp(h, i, f[1]);
    lemma_lerp(f[1].mix(e, g), f[1].mix(h, i), f[0]);
}

/// The two forms of linear interpolation denote the same number.
proof fn lemma_lerp(a: Formula<real, real>, b: Formula<real, real>, t: Formula<real, real>)
    ensures
        exact(lerp_formula(a, b, t)) == lerp(exact(a), exact(b), exact(t)),
        exact(t.mix(a, b)) == lerp(exact(a), exact(b), exact(t)),
{
    reveal_with_fuel(exact, 4);
    let x = exact(a);
    let y = exact(b);
    let s = exact(t);
    assert(x * (1real - s) + y * s == x + (y - x) * s) by (nonlinear_arith);
}

/// The ends of a linear interpolation, and its range in between.
proof fn lemma_lerp_range(a: real, b: real, t: real, lo: real, hi: real)
    ensures
        lerp(a, b, 0real) == a,
        lerp(a, b, 1real) == b,
        lerp(a, a, t) == a,
        0real <= t <= 1real && lo <= a <= hi && lo <= b <= hi ==> lo <= lerp(a, b, t) <= hi,
{
    assert((b - a) * 0real == 0real && (b - a) * 1real == b - a && (a - a) * t == 0real)
        by (nonlinear_arith);
    if 0real <= t <= 1real && lo <= a <= hi && lo <= b <= hi {
        assert(lo <= a + (b - a) * t <= hi) by (nonlinear_arith)
            requires
                0real <= t <= 1real,
                lo <= a <= hi,
                lo <= b <= hi,
        ;
    }
}

/// A blend of corners never leaves the range of the corners, and a blend of equal corners is that
/// number.
pub proof fn law_blend_range(v: Seq<real>, x: real, y: real, z: real, lo: real, hi: real)
    requires
        v.len() == 8,
        0real <= x <= 1real,
        0real <= y <= 1real,
        0real <= z <= 1real,
        forall|i: int| 0 <= i < 8 ==> lo <= #[trigger] v[i] <= hi,
    ensures
        lo <= trilinear(v, x, y, z) <= hi,
{
    lemma_lerp_range(v[0], v[1], z, lo, hi);
    lemma_lerp_range(v[2], v[3], z, lo, hi);
    lemma_lerp_range(v[4], v[5], z, lo, hi);
    lemma_lerp_range(v[6], v[7], z, lo, hi);
    let a = lerp(v[0], v[1], z);
    let b = lerp(v[2], v[3], z);
    let c = lerp(v[4], v[5], z);
    let d = lerp(v[6], v[7], z);
    lemma_lerp_range(a, b, y, lo, hi);
    lemma_lerp_range(c, d, y, lo, hi);
    lemma_lerp_range(lerp(a, b, y), lerp(c, d, y), x, lo, hi);
}

/// At a corner of the cell the blend is that corner's number.
pub proof fn law_blend_at_corner(v: Seq<real>, k: int)
    requires
        v.len() == 8,
        0 <= k < 8,
    ensures
        trilinear(v, (k / 4) as real, ((k / 2) % 2) as real, (k % 2) as real) == v[k],
{
    assert forall|a: real, b: real| #[trigger] lerp(a, b, 0real) == a by {
        lemma_lerp_range(a, b, 0real, 0real, 0real);
    }
    assert forall|a: real, b: real| #[trigger] lerp(a, b, 1real) == b by {
        lemma_lerp_range(a, b, 0real, 0real, 0real);
    }
    let x = k / 4;
    let y = (k / 2) % 2;
    let z = k % 2;
    assert(k == 4 * x + 2 * y + z);
    assert(x as real == if x == 0 {
        0real
    } else {
        1real
    });
    assert(y as real == if y == 0 {
        0real
    } else {
        1real
    });
    assert(z as real == if z == 0 {
        0real
    } else {
        1real
    });
}

/// There are no seams: on the common face of two neighbouring cells both blends give the same
/// number. `v` are the corners of a cell and `w` those of the next one on the axis, which share the
/// face.
pub proof fn law_blend_continuous(v: Seq<real>, w: Seq<real>, s: real, t: real)
    requires
        v.len() == 8,
        w.len() == 8,
    ensures
        (forall|k: int| 4 <= k < 8 ==> #[trigger] v[k] == w[k - 4]) ==> trilinear(v, 1real, s, t)
            == trilinear(w, 0real, s, t),
        (forall|k: int| 0 <= k < 8 && (k / 2) % 2 == 1 ==> #[trigger] v[k] == w[k - 2]) ==> trilinear(
            v,
            s,
            1real,
            t,
        ) == trilinear(w, s, 0real, t),
        (forall|k: int| 0 <= k < 8 && k % 2 == 1 ==> #[trigger] v[k] == w[k - 1]) ==> trilinear(
            v,
            s,
            t,
            1real,
        ) == trilinear(w, s, t, 0real),
{
    assert forall|a: real, b: real| #[trigger] lerp(a, b, 0real) == a by {
        lemma_lerp_range(a, b, 0real, 0real, 0real);
    }
    assert forall|a: real, b: real| #[trigger] lerp(a, b, 1real) == b by {
        lemma_lerp_range(a, b, 0real, 0real, 0real);
    }
}

/// A blended reflectance is bounded where those of the corners are.
pub proof fn law_blended_reflectance_range(
    p: CubeSample<real>,
    lambda: real,
    lo: real,
    hi: real,
)
    requires
        forall|i: int| 0 <= i < 3 ==> 0real <= #[trigger] p.f[i] <= 1real,
        forall|i: int|
            0 <= i < 8 ==> lo <= exact(
                #[trigger] p.corners[i].reflectance_formula(Formula::Val(lambda)),
            ) <= hi,
    ensures
        lo <= exact(p.reflectance_formula(Formula::Val(lambda))) <= hi,
{
    let v = p.corner_formulas(Formula::Val(lambda));
    let f = splats::<real, real>(p.f@);
    law_blend_is_trilinear(v, f);
    let r = Seq::new(8, |i: int| exact(v[i]));
    assert forall|i: int| 0 <= i < 8 implies lo <= #[trigger] r[i] <= hi by {
        assert(v[i] == p.corners[i].reflectance_formula(Formula::Val(lambda)));
    }
    reveal_with_fuel(exact, 2);
    law_blend_range(r, p.f[0], p.f[1], p.f[2], lo, hi);
}

/// A node lies on the grid point that it was baked for: looking up the coordinate of node `i` gives
/// the place `i`.
pub proof fn law_node_on_grid(n: int, i: int, lo: real, hi: real)
    requires
        2 <= n,
        0 <= i < n,
        lo < hi,
    ensures
        ({
            let step = Formula::Val(hi).sub(Formula::Val(lo)).div(Formula::Int(n - 1));
            let inv = Formula::Int(n - 1).div(Formula::Val(hi).sub(Formula::Val(lo)));
            let x = node_formula(Formula::Val(lo), i, step);
            exact(grid_formula(n, x, Formula::Val(lo), inv)) == i as real
        }),
{
    reveal_with_fuel(exact, 8);
    lemma_unit_values();
    let w = hi - lo;
    let m = (n - 1) as real;
    let k = i as real;
    assert(m >= 1real && 0real <= k <= m);
    let s = w / m;
    let v = m / w;
    assert(s * v == 1real) by (nonlinear_arith)
        requires
            s == w / m,
            v == m / w,
            w > 0real,
            m >= 1real,
    ;
    assert((lo + k * s - lo) * v == k) by (nonlinear_arith)
        requires
            s * v == 1real,
    ;
}

/// The fractional position lies in `0..=1`: `t` is a place within the grid, `i` is `t` rounded
/// towards zero, and the lower node is kept off the last one.
pub proof fn law_fraction_range(n: int, t: real, i: int)
    requires
        2 <= n,
        0real <= t <= (n - 1) as real,
        i as real <= t < (i + 1) as real,
    ensures
        ({
            let base = lower_node(n, i);
            &&& 0 <= base <= n - 2
            &&& 0real <= exact(Formula::Val(t).sub(Formula::Int(base))) <= 1real
        }),
{
    reveal_with_fuel(exact, 2);
}

/// A place never leaves the grid, and a colour outside the box is confined to its boundary.
pub proof fn law_outside_confined(n: int, x: real, lo: real, hi: real)
    requires
        2 <= n,
        lo < hi,
    ensures
        ({
            let inv = Formula::Int(n - 1).div(Formula::Val(hi).sub(Formula::Val(lo)));
            let place = exact(grid_formula(n, Formula::Val(x), Formula::Val(lo), inv));
            &&& 0real <= place <= (n - 1) as real
            &&& x <= lo ==> place == 0real
            &&& hi <= x ==> place == (n - 1) as real
        }),
{
    reveal_with_fuel(exact, 6);
    lemma_unit_values();
    let m = (n - 1) as real;
    let w = hi - lo;
    let v = m / w;
    assert(v > 0real && w * v == m) by (nonlinear_arith)
        requires
            v == m / w,
            w > 0real,
            m > 0real,
    ;
    let d = x - lo;
    assert((d <= 0real ==> d * v <= 0real) && (d >= w ==> d * v >= m)) by (nonlinear_arith)
        requires
            v > 0real,
            w * v == m,
    ;
}

/// A node is a corner of the cell that its own coordinate falls into: the upper corner on the axes on
/// which it is the last node, and the lower one on the others. So a lookup at a node is that node.
pub proof fn law_node_is_corner(n: int, ix: int, iy: int, iz: int)
    requires
        2 <= n,
        0 <= ix < n,
        0 <= iy < n,
        0 <= iz < n,
    ensures
        ({
            let bx = lower_node(n, ix);
            let by = lower_node(n, iy);
            let bz = lower_node(n, iz);
            let k = 4 * (ix - bx) + 2 * (iy - by) + (iz - bz);
            0 <= k < 8 && corner_index(n, bx, by, bz, k) == node_index(n, ix, iy, iz)
        }),
{
    let dx = ix - lower_node(n, ix);
    let dy = iy - lower_node(n, iy);
    let dz = iz - lower_node(n, iz);
    let k = 4 * dx + 2 * dy + dz;
    assert(k / 4 == dx && (k / 2) % 2 == dy && k % 2 == dz);
}

} // verus!
