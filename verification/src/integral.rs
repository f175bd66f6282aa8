//! Integrals of real functions, by the bounds of the function.

use crate::trig::{
    arc_tangent, arc_tangent_exists, lemma_arc_growth, lemma_arc_odd,
};
use vstd::prelude::*;

verus! {

/// `f` lies within `lo..=hi` on `a..=b`.
pub open spec fn lies_within(f: spec_fn(real) -> real, a: real, b: real, lo: real, hi: real) -> bool {
    forall|x: real| a <= x <= b ==> lo <= #[trigger] f(x) <= hi
}

/// `g` is an integral of `f` on `from..=to`: over every part of it, `g` grows by at least the width of
/// the part times any lower bound of `f` there, and by at most the width times any upper bound.
pub open spec fn is_integral(f: spec_fn(real) -> real, g: spec_fn(real) -> real, from: real, to: real) -> bool {
    forall|a: real, b: real, lo: real, hi: real|
        from <= a <= b <= to && #[trigger] lies_within(f, a, b, lo, hi) ==> lo * (b - a) <= g(b) - g(a) <= hi * (b
            - a)
}

/// The parts that the first `n + 1` points bound, each with its bound of `f`, add up to this.
pub open spec fn step_sum(points: Seq<real>, bounds: Seq<real>, n: nat) -> real
    decreases n,
{
    if n == 0 {
        0real
    } else {
        step_sum(points, bounds, (n - 1) as nat) + bounds[n - 1] * (points[n as int] - points[n - 1])
    }
}

/// An integral lies between every lower and every upper sum: however an interval is divided, what `g`
/// grows by over it is at least the sum of the widths times lower bounds of `f`, and at most that of the
/// widths times upper bounds.
pub proof fn law_integral_sums(
    f: spec_fn(real) -> real,
    g: spec_fn(real) -> real,
    from: real,
    to: real,
    points: Seq<real>,
    lows: Seq<real>,
    highs: Seq<real>,
    n: nat,
)
    requires
        is_integral(f, g, from, to),
        points.len() == n + 1,
        forall|i: int|
            0 <= i < n ==> from <= #[trigger] points[i] <= points[i + 1] <= to && lies_within(
                f,
                points[i],
                points[i + 1],
                lows[i],
                highs[i],
            ),
    ensures
        step_sum(points, lows, n) <= g(points[n as int]) - g(points[0]) <= step_sum(points, highs, n),
    decreases n,
{
    if n > 0 {
        let m = (n - 1) as nat;
        let fewer = points.take(n as int);
        assert forall|i: int| 0 <= i < m implies from <= #[trigger] fewer[i] <= fewer[i + 1] <= to && lies_within(
            f,
            fewer[i],
            fewer[i + 1],
            lows[i],
            highs[i],
        ) by {
            assert(from <= points[i] <= points[i + 1] <= to);
        }
        law_integral_sums(f, g, from, to, fewer, lows, highs, m);
        lemma_step_sum_prefix(points, lows, n as int, m);
        lemma_step_sum_prefix(points, highs, n as int, m);
        assert(from <= points[n - 1] <= points[n as int] <= to);
        assert(lies_within(f, points[n - 1], points[n as int], lows[n - 1], highs[n - 1]));
    }
}

/// A sum does not depend on points beyond its own.
proof fn lemma_step_sum_prefix(points: Seq<real>, bounds: Seq<real>, k: int, n: nat)
    requires
        n < k <= points.len(),
    ensures
        step_sum(points.take(k), bounds, n) == step_sum(points, bounds, n),
    decreases n,
{
    if n > 0 {
        lemma_step_sum_prefix(points, bounds, k, (n - 1) as nat);
    }
}

// ----------------------------------------------------------------------------
// Lorentzians
// ----------------------------------------------------------------------------

/// A Lorentzian of peak one with the centre `c` and the half-width `g`.
pub open spec fn lorentzian(c: real, g: real, x: real) -> real {
    1real / (1real + ((x - c) / g) * ((x - c) / g))
}

/// The area under a Lorentzian from its centre on, negative below it.
pub open spec fn lorentzian_area(c: real, g: real, x: real) -> real {
    g * arc_tangent((x - c) / g)
}

/// The area above the centre, between two wavelengths: the Lorentzian falls from one to the other.
pub proof fn lemma_area_above(c: real, g: real, a: real, b: real)
    requires
        arc_tangent_exists(),
        g > 0real,
        c <= a <= b,
    ensures
        lorentzian(c, g, b) * (b - a) <= lorentzian_area(c, g, b) - lorentzian_area(c, g, a) <= lorentzian(c, g, a)
            * (b - a),
{
    let l = (a - c) / g;
    let h = (b - c) / g;
    assert(0real <= l <= h && l * g == a - c && h * g == b - c) by (nonlinear_arith)
        requires
            l == (a - c) / g,
            h == (b - c) / g,
            g > 0real,
            c <= a <= b,
    ;
    lemma_arc_growth(l, h);
    assert((h - l) * g == b - a && l * l >= 0real && h * h >= 0real) by (nonlinear_arith)
        requires
            l * g == a - c,
            h * g == b - c,
    ;
    lemma_scaled_growth(g, h - l, b - a, arc_tangent(h) - arc_tangent(l), 1real + h * h, 1real + l * l);
    let p = arc_tangent(h);
    let q = arc_tangent(l);
    assert(g * (p - q) == g * p - g * q) by (nonlinear_arith);
}

/// The area below the centre, between two wavelengths: the Lorentzian rises from one to the other.
pub proof fn lemma_area_below(c: real, g: real, a: real, b: real)
    requires
        arc_tangent_exists(),
        g > 0real,
        a <= b <= c,
    ensures
        lorentzian(c, g, a) * (b - a) <= lorentzian_area(c, g, b) - lorentzian_area(c, g, a) <= lorentzian(c, g, b)
            * (b - a),
{
    let l = (a - c) / g;
    let h = (b - c) / g;
    assert(l <= h <= 0real && l * g == a - c && h * g == b - c) by (nonlinear_arith)
        requires
            l == (a - c) / g,
            h == (b - c) / g,
            g > 0real,
            a <= b <= c,
    ;
    let nl = 0real - l;
    let nh = 0real - h;
    lemma_arc_growth(nh, nl);
    lemma_arc_odd(l);
    lemma_arc_odd(h);
    assert(nl * nl == l * l && nh * nh == h * h) by (nonlinear_arith)
        requires
            nl == 0real - l,
            nh == 0real - h,
    ;
    assert((h - l) * g == b - a && l * l >= 0real && h * h >= 0real) by (nonlinear_arith)
        requires
            l * g == a - c,
            h * g == b - c,
    ;
    lemma_scaled_growth(g, h - l, b - a, arc_tangent(h) - arc_tangent(l), 1real + l * l, 1real + h * h);
    let p = arc_tangent(h);
    let q = arc_tangent(l);
    assert(g * (p - q) == g * p - g * q) by (nonlinear_arith);
}

/// Growth per unit, scaled.
proof fn lemma_scaled_growth(g: real, z: real, w: real, d: real, m: real, n: real)
    requires
        g > 0real,
        z >= 0real,
        z / m <= d <= z / n,
        m >= 1real,
        n >= 1real,
        z * g == w,
    ensures
        (1real / m) * w <= g * d <= (1real / n) * w,
{
    let p = z / m;
    let q = z / n;
    assert(g * p <= g * d <= g * q) by (nonlinear_arith)
        requires
            p <= d <= q,
            g > 0real,
    ;
    assert(g * p == (1real / m) * w && g * q == (1real / n) * w) by (nonlinear_arith)
        requires
            p == z / m,
            q == z / n,
            z * g == w,
            m >= 1real,
            n >= 1real,
    ;
}

/// The area is the integral of the Lorentzian, on every interval.
pub proof fn law_lorentzian_integral(c: real, g: real, from: real, to: real)
    requires
        arc_tangent_exists(),
        g > 0real,
    ensures
        is_integral(|x: real| lorentzian(c, g, x), |x: real| lorentzian_area(c, g, x), from, to),
{
    let f = |x: real| lorentzian(c, g, x);
    let area = |x: real| lorentzian_area(c, g, x);
    assert forall|a: real, b: real, lo: real, hi: real|
        from <= a <= b <= to && #[trigger] lies_within(f, a, b, lo, hi) implies lo * (b - a) <= area(b) - area(a)
        <= hi * (b - a) by {
        assert(lo <= f(a) <= hi && lo <= f(b) <= hi);
        if a >= c {
            lemma_area_above(c, g, a, b);
            lemma_bounded(f(b), f(a), lo, hi, b - a);
        } else if b <= c {
            lemma_area_below(c, g, a, b);
            lemma_bounded(f(a), f(b), lo, hi, b - a);
        } else {
            assert(lo <= f(c) <= hi);
            lemma_area_below(c, g, a, c);
            lemma_area_above(c, g, c, b);
            lemma_bounded(f(a), f(c), lo, hi, c - a);
            lemma_bounded(f(b), f(c), lo, hi, b - c);
            lemma_split(lo, a, c, b);
            lemma_split(hi, a, c, b);
        }
    }
}

/// A width times numbers that lie within bounds.
proof fn lemma_bounded(p: real, q: real, lo: real, hi: real, w: real)
    requires
        lo <= p,
        q <= hi,
        w >= 0real,
    ensures
        lo * w <= p * w,
        q * w <= hi * w,
{
    assert(lo * w <= p * w && q * w <= hi * w) by (nonlinear_arith)
        requires
            lo <= p,
            q <= hi,
            w >= 0real,
    ;
}

/// An interval divided in two.
pub proof fn lemma_split(k: real, a: real, c: real, b: real)
    ensures
        k * (b - a) == k * (c - a) + k * (b - c),
{
    assert(k * (b - a) == k * (c - a) + k * (b - c)) by (nonlinear_arith);
}

} // verus!
