//! The arc tangent and the tangent of real numbers.
//!
//! The arc tangent is the one function that increases, adds up as angles do, lies between
//! `x / (1 + x^2)` and `x`, and skips no value. That there is one is a hypothesis of what is said here
//! ([`arc_tangent_exists`]). The tangent is its inverse.

use crate::formula::{has_root, is_root, root};
use crate::model::roots_exist;
use vstd::prelude::*;

verus! {

/// `f` increases from `x` to `y`.
pub open spec fn increases_at(f: spec_fn(real) -> real, x: real, y: real) -> bool {
    x < y ==> f(x) < f(y)
}

/// The angles of the slopes `x` and `y` add up to the angle of the slope of the sum.
pub open spec fn adds_at(f: spec_fn(real) -> real, x: real, y: real) -> bool {
    x * y < 1real ==> f(x) + f(y) == f((x + y) / (1real - x * y))
}

/// An angle is at most its slope, and at least its slope over one plus its square.
pub open spec fn bounded_at(f: spec_fn(real) -> real, x: real) -> bool {
    x >= 0real ==> x / (1real + x * x) <= f(x) <= x
}

/// `f` takes the value `y` at `z`.
pub open spec fn takes(f: spec_fn(real) -> real, z: real, y: real) -> bool {
    f(z) == y
}

/// `f` takes the value `y` if that lies between two of its values.
pub open spec fn fills_at(f: spec_fn(real) -> real, a: real, b: real, y: real) -> bool {
    f(a) <= y <= f(b) ==> exists|z: real| #[trigger] takes(f, z, y)
}

/// `f` is the arc tangent.
pub open spec fn is_arc_tangent(f: spec_fn(real) -> real) -> bool {
    &&& forall|x: real, y: real| #[trigger] increases_at(f, x, y)
    &&& forall|x: real, y: real| #[trigger] adds_at(f, x, y)
    &&& forall|x: real| #[trigger] bounded_at(f, x)
    &&& forall|a: real, b: real, y: real| #[trigger] fills_at(f, a, b, y)
}

/// There is an arc tangent.
pub open spec fn arc_tangent_exists() -> bool {
    exists|f: spec_fn(real) -> real| #[trigger] is_arc_tangent(f)
}

/// The arc tangent as a function.
pub open spec fn arc_tangent_function() -> spec_fn(real) -> real {
    choose|f: spec_fn(real) -> real| #[trigger] is_arc_tangent(f)
}

/// The arc tangent.
pub open spec fn arc_tangent(x: real) -> real {
    arc_tangent_function()(x)
}

/// `y` is the arc tangent of a number.
pub open spec fn is_angle(y: real) -> bool {
    exists|z: real| #[trigger] takes(arc_tangent_function(), z, y)
}

/// The tangent of an angle.
pub open spec fn tangent(y: real) -> real {
    choose|z: real| #[trigger] takes(arc_tangent_function(), z, y)
}

/// Half a turn, four times the angle of the slope one.
pub open spec fn half_turn() -> real {
    4real * arc_tangent(1real)
}

/// The arc tangent increases.
pub proof fn lemma_arc_increases(x: real, y: real)
    requires
        arc_tangent_exists(),
    ensures
        x < y ==> arc_tangent(x) < arc_tangent(y),
        x <= y ==> arc_tangent(x) <= arc_tangent(y),
        arc_tangent(x) < arc_tangent(y) ==> x < y,
        arc_tangent(x) <= arc_tangent(y) ==> x <= y,
        arc_tangent(x) == arc_tangent(y) ==> x == y,
{
    let f = arc_tangent_function();
    assert(is_arc_tangent(f));
    assert(increases_at(f, x, y));
    assert(increases_at(f, y, x));
}

/// The bounds of the arc tangent of a number that is not negative.
pub proof fn lemma_arc_bounds(x: real)
    requires
        arc_tangent_exists(),
        x >= 0real,
    ensures
        x / (1real + x * x) <= arc_tangent(x) <= x,
{
    let f = arc_tangent_function();
    assert(is_arc_tangent(f));
    assert(bounded_at(f, x));
}

/// The arc tangent of zero is zero, and its sign is that of its argument.
pub proof fn lemma_arc_sign(x: real)
    requires
        arc_tangent_exists(),
    ensures
        arc_tangent(0real) == 0real,
        x > 0real ==> arc_tangent(x) > 0real,
        x < 0real ==> arc_tangent(x) < 0real,
{
    lemma_arc_bounds(0real);
    assert(0real / (1real + 0real * 0real) == 0real) by (nonlinear_arith);
    lemma_arc_increases(0real, x);
    lemma_arc_increases(x, 0real);
}

/// The difference of two arc tangents.
pub proof fn lemma_arc_difference(h: real, l: real)
    requires
        arc_tangent_exists(),
        h * l > -1real,
    ensures
        arc_tangent(h) - arc_tangent(l) == arc_tangent((h - l) / (1real + h * l)),
{
    let f = arc_tangent_function();
    assert(is_arc_tangent(f));
    let n = 0real - l;
    assert(h * n == 0real - h * l && n * l == 0real - l * l && l * l >= 0real) by (nonlinear_arith)
        requires
            n == 0real - l,
    ;
    assert(adds_at(f, h, n));
    // the arc tangent is odd
    assert(adds_at(f, n, l));
    let d = 1real - n * l;
    assert((n + l) / d == 0real) by (nonlinear_arith)
        requires
            n + l == 0real,
            d >= 1real,
    ;
    lemma_arc_sign(0real);
}

/// The arc tangent is odd.
pub proof fn lemma_arc_odd(x: real)
    requires
        arc_tangent_exists(),
    ensures
        arc_tangent(0real - x) == 0real - arc_tangent(x),
{
    assert(0real * x == 0real) by (nonlinear_arith);
    lemma_arc_difference(0real, x);
    lemma_arc_sign(x);
    let d = 1real + 0real * x;
    assert((0real - x) / d == 0real - x) by (nonlinear_arith)
        requires
            d == 1real,
    ;
}

/// The arc tangent grows by no less than `1 / (1 + h^2)` and no more than `1 / (1 + l^2)` per unit
/// between two slopes that are not negative.
pub proof fn lemma_arc_growth(l: real, h: real)
    requires
        arc_tangent_exists(),
        0real <= l <= h,
    ensures
        (h - l) / (1real + h * h) <= arc_tangent(h) - arc_tangent(l) <= (h - l) / (1real + l * l),
{
    let k = 1real + h * l;
    let d = h - l;
    assert(h * l >= l * l && l * l >= 0real) by (nonlinear_arith)
        requires
            0real <= l <= h,
    ;
    lemma_arc_difference(h, l);
    let w = d / k;
    assert(w * k == d && w >= 0real) by (nonlinear_arith)
        requires
            w == d / k,
            k >= 1real,
            d >= 0real,
    ;
    lemma_arc_bounds(w);
    let m = 1real + l * l;
    let n = 1real + h * h;
    assert(w <= d / m) by (nonlinear_arith)
        requires
            w == d / k,
            k >= m,
            m >= 1real,
            d >= 0real,
    ;
    // (1 + h^2) (1 + l^2) == (1 + h l)^2 + (h - l)^2
    assert(n * m == k * k + d * d) by (nonlinear_arith)
        requires
            n == 1real + h * h,
            m == 1real + l * l,
            k == 1real + h * l,
            d == h - l,
    ;
    let q = 1real + w * w;
    assert(q * (k * k) == n * m) by (nonlinear_arith)
        requires
            q == 1real + w * w,
            w * k == d,
            n * m == k * k + d * d,
    ;
    let a = w / q;
    let b = d / n;
    assert(q >= 1real && n >= 1real) by (nonlinear_arith)
        requires
            q == 1real + w * w,
            n == 1real + h * h,
    ;
    assert(a * q == w && b * n == d && b >= 0real) by (nonlinear_arith)
        requires
            a == w / q,
            b == d / n,
            q >= 1real,
            n >= 1real,
            d >= 0real,
    ;
    // a n m == a q k^2 == w k^2 == d k >= d m == b n m
    assert(a * (n * m) == d * k) by (nonlinear_arith)
        requires
            q * (k * k) == n * m,
            a * q == w,
            w * k == d,
    ;
    assert(b * (n * m) == d * m && d * m <= d * k) by (nonlinear_arith)
        requires
            b * n == d,
            d >= 0real,
            m <= k,
    ;
    let nm = n * m;
    assert(nm >= 1real) by (nonlinear_arith)
        requires
            nm == n * m,
            n >= 1real,
            m >= 1real,
    ;
    assert(b <= a) by (nonlinear_arith)
        requires
            b * nm <= a * nm,
            nm >= 1real,
    ;
}

/// The tangent undoes the arc tangent.
pub proof fn lemma_tangent_of_arc(z: real)
    requires
        arc_tangent_exists(),
    ensures
        is_angle(arc_tangent(z)),
        tangent(arc_tangent(z)) == z,
{
    let f = arc_tangent_function();
    assert(takes(f, z, arc_tangent(z)));
    let t = tangent(arc_tangent(z));
    assert(takes(f, t, arc_tangent(z)));
    lemma_arc_increases(t, z);
}

/// A number between two angles is an angle, whose tangent lies between theirs.
pub proof fn lemma_tangent_between(a: real, b: real, y: real)
    requires
        arc_tangent_exists(),
        arc_tangent(a) <= y <= arc_tangent(b),
    ensures
        is_angle(y),
        arc_tangent(tangent(y)) == y,
        a <= tangent(y) <= b,
{
    let f = arc_tangent_function();
    assert(is_arc_tangent(f));
    assert(fills_at(f, a, b, y));
    let t = tangent(y);
    assert(takes(f, t, y));
    lemma_arc_increases(a, t);
    lemma_arc_increases(t, b);
}

/// An angle is below a quarter turn.
pub proof fn lemma_arc_below_quarter(x: real)
    requires
        arc_tangent_exists(),
        roots_exist(),
    ensures
        arc_tangent(x) < half_turn() / 2real,
        arc_tangent(x) > 0real - half_turn() / 2real,
{
    lemma_arc_sign(1real);
    if x > 0real {
        lemma_quarter(x);
        lemma_arc_sign(x);
    } else if x < 0real {
        let n = 0real - x;
        lemma_quarter(n);
        assert(0real * n == 0real) by (nonlinear_arith);
        lemma_arc_difference(0real, n);
        lemma_arc_sign(x);
        assert((0real - n) / (1real + 0real * n) == x) by (nonlinear_arith)
            requires
                n == 0real - x,
        ;
    } else {
        lemma_arc_sign(x);
    }
}

/// Half the angle of a positive slope is the angle of a slope below one.
proof fn lemma_quarter(x: real)
    requires
        arc_tangent_exists(),
        roots_exist(),
        x > 0real,
    ensures
        arc_tangent(x) < 2real * arc_tangent(1real),
{
    let f = arc_tangent_function();
    assert(is_arc_tangent(f));
    let q = x * x + 1real;
    assert(q >= 0real) by (nonlinear_arith)
        requires
            q == x * x + 1real,
    ;
    assert(has_root(q));
    let s = root(q);
    assert(is_root(q, s));
    let t = (s - 1real) / x;
    assert(1real < s < x + 1real) by (nonlinear_arith)
        requires
            s >= 0real,
            s * s == x * x + 1real,
            x > 0real,
    ;
    assert(t * x == s - 1real && 0real < t < 1real) by (nonlinear_arith)
        requires
            t == (s - 1real) / x,
            1real < s < x + 1real,
            x > 0real,
    ;
    assert(t * t < 1real) by (nonlinear_arith)
        requires
            0real < t < 1real,
    ;
    assert(adds_at(f, t, t));
    let d = 1real - t * t;
    // x * (1 - t^2) == 2 * t, since x * t^2 == t * (s - 1) and x == t * (s + 1)
    assert(t * (s + 1real) == x) by (nonlinear_arith)
        requires
            t * x == s - 1real,
            s * s == x * x + 1real,
            x > 0real,
    ;
    assert(x * d == t + t) by (nonlinear_arith)
        requires
            d == 1real - t * t,
            t * x == s - 1real,
            t * (s + 1real) == x,
    ;
    assert((t + t) / d == x) by (nonlinear_arith)
        requires
            x * d == t + t,
            d > 0real,
    ;
    lemma_arc_increases(t, 1real);
}

} // verus!
