//! Laws of the reconstruction, in exact arithmetic.

use crate::formula::{
    defined, defined_condition, exact, exact_holds, has_root, is_root, root, Formula,
};
use crate::ieee::{f32_exponent, f32_mantissa, f32_value, lemma_f32_value, HALF, ONE, ZERO};
use crate::model::roots_exist;
use crate::params::{
    bound_formula, bound_half_widths, bound_midpoints, bound_sharpness, tanh_formula, UpliftParams, TAIL_GAIN,
    U_INTERCEPT, U_SLOPE,
};
use vstd::arithmetic::power2::{lemma2_to64, lemma_pow2_pos, pow2};
use vstd::prelude::*;

verus! {

/// The values of the plainest constants.
pub proof fn lemma_unit_values()
    ensures
        f32_value(ZERO) == 0real,
        f32_value(HALF) == 1real / 2real,
        f32_value(ONE) == 1real,
{
    lemma2_to64();
    lemma_f32_value(HALF);
    lemma_f32_value(ONE);
    assert(f32_exponent(HALF) == 126 && f32_mantissa(HALF) == 0);
    assert(f32_exponent(ONE) == 127 && f32_mantissa(ONE) == 0);
    assert(f32_value(ONE) == 8388608real / 8388608real);
    assert(f32_value(HALF) == 8388608real / 16777216real);
    lemma_pow2_pos(149);
    let p = pow2(149) as real;
    assert(0real / p == 0real) by (nonlinear_arith)
        requires
            p > 0real,
    ;
}

/// The distance that the tail keeps from the ends of `0..=scale`, relative to the scale.
pub open spec fn leak() -> real {
    1real / 2real - f32_value(TAIL_GAIN)
}

/// The leak is `1.0e-4`, up to the rounding of the constant it is kept in.
pub proof fn lemma_leak()
    ensures
        f32_value(TAIL_GAIN) == 16773861real / 33554432real,
        99986real / 1000000000real <= leak() <= 99988real / 1000000000real,
{
    lemma2_to64();
    lemma_f32_value(TAIL_GAIN);
}

/// A fourth root of `1 + p^4` is larger than `p`, so `p` times its inverse lies in `-1..=1`.
proof fn lemma_sharp_core(p: real, s1: real, s2: real)
    requires
        is_root((p * p) * (p * p) + 1real, s1),
        is_root(s1, s2),
        s1 > 0real,
    ensures
        s2 > 0real,
        -1real <= p * (1real / s2) <= 1real,
{
    assert(s2 > 0real) by (nonlinear_arith)
        requires
            s2 >= 0real,
            s2 * s2 == s1,
            s1 > 0real,
    ;
    let a = p * p;
    assert(a < s1) by (nonlinear_arith)
        requires
            s1 * s1 == a * a + 1real,
            s1 > 0real,
    ;
    assert(p <= s2 && -s2 <= p) by (nonlinear_arith)
        requires
            a == p * p,
            a < s2 * s2,
            s2 > 0real,
    ;
    assert(-1real <= p * (1real / s2) <= 1real) by (nonlinear_arith)
        requires
            -s2 <= p <= s2,
            s2 > 0real,
    ;
}

/// A square root of `1 + x^2` is larger than `x`, so `x` times its inverse lies in `-1..=1`.
proof fn lemma_soft_core(x: real, s1: real)
    requires
        is_root(x * x + 1real, s1),
    ensures
        s1 > 0real,
        -1real <= x * (1real / s1) <= 1real,
{
    assert(s1 > 0real && -s1 <= x <= s1) by (nonlinear_arith)
        requires
            s1 >= 0real,
            s1 * s1 == x * x + 1real,
    ;
    assert(-1real <= x * (1real / s1) <= 1real) by (nonlinear_arith)
        requires
            -s1 <= x <= s1,
            s1 > 0real,
    ;
}

/// Scaling a number of `-1..=1` keeps it within the scale.
proof fn lemma_scaled(c: real, t: real)
    requires
        c >= 0real,
        -1real <= t <= 1real,
    ensures
        -c <= c * t <= c,
{
    assert(-c <= c * t <= c) by (nonlinear_arith)
        requires
            c >= 0real,
            -1real <= t <= 1real,
    ;
}

/// Boundedness is structural: whatever the logit, the tail stays within `c0 - c1 ..= c0 + c1`.
pub proof fn law_tail_bounded(params: UpliftParams<real>, p: Formula<real, real>)
    requires
        params.tail_c1 >= 0real,
        defined(params.tail(p)),
    ensures
        params.tail_c0 - params.tail_c1 <= exact(params.tail(p)) <= params.tail_c0 + params.tail_c1,
{
    reveal_with_fuel(exact, 8);
    reveal_with_fuel(defined, 8);
    lemma_unit_values();
    let x = exact(p);
    let s1 = root((x * x) * (x * x) + 1real);
    let s2 = root(s1);
    lemma_sharp_core(x, s1, s2);
    lemma_scaled(params.tail_c1, x * (1real / s2));
}

/// The resonance never divides by zero: where `y` is not zero the logit is defined at every
/// wavelength.
pub proof fn law_logit_defined(params: UpliftParams<real>, lambda: real)
    requires
        params.res_yy > 0real,
    ensures
        defined(params.logit(Formula::Val(lambda))),
{
    reveal_with_fuel(exact, 6);
    reveal_with_fuel(defined, 6);
    let d = exact(
        Formula::Val(lambda).mul_adde(Formula::Const(U_SLOPE), Formula::Const(U_INTERCEPT)).sub(
            Formula::Splat(params.res_x),
        ),
    );
    assert(d * d >= 0real) by (nonlinear_arith);
}

/// The sigmoid takes the root of a positive number, and the root of that root: where roots exist the
/// reflectance is defined.
pub proof fn law_reflectance_defined(params: UpliftParams<real>, lambda: real)
    requires
        params.res_yy > 0real,
        roots_exist(),
    ensures
        defined(params.reflectance_formula(Formula::Val(lambda))),
{
    law_logit_defined(params, lambda);
    reveal_with_fuel(exact, 8);
    reveal_with_fuel(defined, 8);
    lemma_unit_values();
    let p = exact(params.logit(Formula::Val(lambda)));
    let a = p * p;
    let base = a * a + 1real;
    assert(base >= 1real) by (nonlinear_arith)
        requires
            base == a * a + 1real,
    ;
    assert(has_root(base));
    let s = root(base);
    lemma_root_positive(base, s);
    assert(has_root(s));
}

/// The root of a positive number is positive.
pub proof fn lemma_root_positive(x: real, s: real)
    requires
        x > 0real,
        is_root(x, s),
    ensures
        s > 0real,
{
    assert(s > 0real) by (nonlinear_arith)
        requires
            s >= 0real,
            s * s == x,
            x > 0real,
    ;
}

/// A bound is defined wherever its parts are, where roots exist.
pub proof fn law_bound_defined(
    raw: Formula<real, real>,
    mid: Formula<real, real>,
    half: Formula<real, real>,
    sharp: Formula<real, real>,
)
    requires
        roots_exist(),
        defined(raw),
        defined(mid),
        defined(half),
        defined(sharp),
    ensures
        defined(bound_formula(raw, mid, half, sharp)),
{
    reveal_with_fuel(exact, 9);
    reveal_with_fuel(exact_holds, 2);
    reveal_with_fuel(defined, 9);
    reveal_with_fuel(defined_condition, 2);
    lemma_unit_values();
    let x = exact(raw);
    let a = x * x;
    assert(a >= 0real && a * a >= 0real) by (nonlinear_arith)
        requires
            a == x * x,
    ;
    let base = if exact(sharp) > 0real {
        a * a + 1real
    } else {
        a + 1real
    };
    assert(has_root(base));
    let s = root(base);
    lemma_root_positive(base, s);
    let inv = 1real / s;
    assert(inv > 0real) by (nonlinear_arith)
        requires
            inv == 1real / s,
            s > 0real,
    ;
    assert(has_root(inv));
}

/// The base reflectance at any wavelength lies within `leak * scale ..= (1 - leak) * scale`, and so
/// within `0..=1`, for a scale of `0..=1`.
pub proof fn law_reflectance_bounded(params: UpliftParams<real>, scale: real, lambda: real)
    requires
        0real <= scale <= 1real,
        params.tail_c0 == exact(Formula::Val(scale).mul(Formula::Const(HALF))),
        params.tail_c1 == exact(Formula::Val(scale).mul(Formula::Const(TAIL_GAIN))),
        defined(params.reflectance_formula(Formula::Val(lambda))),
    ensures
        leak() * scale <= exact(params.reflectance_formula(Formula::Val(lambda))) <= (1real - leak())
            * scale,
        0real <= exact(params.reflectance_formula(Formula::Val(lambda))) <= 1real,
{
    reveal_with_fuel(exact, 3);
    lemma_unit_values();
    lemma_leak();
    let g = f32_value(TAIL_GAIN);
    let h = f32_value(HALF);
    assert(scale * g >= 0real && scale * h - scale * g == (h - g) * scale && scale * h + scale * g == (
    1real - (h - g)) * scale) by (nonlinear_arith)
        requires
            scale >= 0real,
            g >= 0real,
            h == 1real / 2real,
    ;
    law_tail_bounded(params, params.logit(Formula::Val(lambda)));
    let l = leak();
    assert(0real <= l * scale && (1real - l) * scale <= 1real) by (nonlinear_arith)
        requires
            0real <= l <= 1real,
            0real <= scale <= 1real,
    ;
}

/// Dimming preserves saturation: scaling the tail by `k` scales the reflectance by `k` at every
/// wavelength.
pub proof fn law_reflectance_homogeneous(params: UpliftParams<real>, k: real, lambda: real)
    ensures
        ({
            let dimmed = UpliftParams { tail_c0: k * params.tail_c0, tail_c1: k * params.tail_c1, ..params };
            exact(dimmed.reflectance_formula(Formula::Val(lambda))) == k * exact(
                params.reflectance_formula(Formula::Val(lambda)),
            )
        }),
{
    reveal_with_fuel(exact, 3);
    let dimmed = UpliftParams { tail_c0: k * params.tail_c0, tail_c1: k * params.tail_c1, ..params };
    let l = Formula::Val(lambda);
    assert(dimmed.logit(l) == params.logit(l));
    let p = params.logit(l);
    let p2 = p.mul(p);
    let q = p2.mul_adde(p2, Formula::Const(ONE)).sqrt().inverse_sqrt();
    let t = exact(p.mul(q));
    let c0 = params.tail_c0;
    let c1 = params.tail_c1;
    assert((k * c1) * t + k * c0 == k * (c1 * t + c0)) by (nonlinear_arith);
}

/// A bounded output never leaves `mid - half ..= mid + half`, whatever the raw output, with either
/// squashing core.
pub proof fn law_bound_range(
    raw: Formula<real, real>,
    mid: Formula<real, real>,
    half: Formula<real, real>,
    sharp: Formula<real, real>,
)
    requires
        exact(half) >= 0real,
        defined(bound_formula(raw, mid, half, sharp)),
    ensures
        exact(mid) - exact(half) <= exact(bound_formula(raw, mid, half, sharp)) <= exact(mid) + exact(half),
{
    let x = exact(raw);
    let h = exact(half);
    reveal_with_fuel(exact, 9);
    reveal_with_fuel(exact_holds, 2);
    reveal_with_fuel(defined, 9);
    reveal_with_fuel(defined_condition, 2);
    lemma_unit_values();
    if exact(sharp) > 0real {
        let s1 = root((x * x) * (x * x) + 1real);
        let inv = 1real / s1;
        let d = root(inv);
        assert(is_root((x * x) * (x * x) + 1real, s1));
        assert(s1 > 0real) by (nonlinear_arith)
            requires
                s1 >= 0real,
                s1 * s1 == (x * x) * (x * x) + 1real,
        ;
        assert(is_root(inv, d));
        lemma_sharp_inverse(x, s1, d);
        assert(d * (h * x) == h * (x * d)) by (nonlinear_arith);
        lemma_scaled(h, x * d);
    } else {
        let s1 = root(x * x + 1real);
        lemma_soft_core(x, s1);
        let d = 1real / s1;
        assert(d * (h * x) == h * (x * d)) by (nonlinear_arith);
        lemma_scaled(h, x * d);
    }
}

/// As [`lemma_sharp_core`], with the inverse fourth root taken as the root of an inverse.
proof fn lemma_sharp_inverse(x: real, s1: real, d: real)
    requires
        is_root((x * x) * (x * x) + 1real, s1),
        s1 > 0real,
        is_root(1real / s1, d),
    ensures
        -1real <= x * d <= 1real,
{
    let a = x * x;
    assert(a < s1) by (nonlinear_arith)
        requires
            s1 * s1 == a * a + 1real,
            s1 > 0real,
    ;
    let e = d * d;
    assert(e * s1 == 1real) by (nonlinear_arith)
        requires
            e == 1real / s1,
            s1 > 0real,
    ;
    assert(e > 0real) by (nonlinear_arith)
        requires
            e * s1 == 1real,
            s1 > 0real,
    ;
    assert(a * e <= 1real) by (nonlinear_arith)
        requires
            a < s1,
            e > 0real,
            e * s1 == 1real,
    ;
    let t = x * d;
    assert(t * t == a * e) by (nonlinear_arith)
        requires
            t == x * d,
            a == x * x,
            e == d * d,
    ;
    assert(-1real <= t <= 1real) by (nonlinear_arith)
        requires
            t * t <= 1real,
    ;
}

/// The ranges of the eight bounded outputs, whatever the raw outputs: the resonance width `y` stays
/// clear of zero, the amplitudes within `-12..=12`, the scale and the concentration within `0..=1`,
/// the emission peak within `400..=700` nm, the Stokes shift within `5..=150` nm, and the width ratio
/// positive.
///
/// In a number type of limited range this holds as long as the power of the raw output does not
/// overflow: see [`bound_formula`].
pub proof fn law_output_ranges(lane: int, x: real)
    requires
        0 <= lane < 8,
        defined(lane_bound(lane, x)),
    ensures
        lane == 0 ==> 199real / 10000real <= exact(lane_bound(lane, x)) <= 1real,
        lane == 1 || lane == 2 ==> -12real <= exact(lane_bound(lane, x)) <= 12real,
        lane == 3 || lane == 4 ==> 0real <= exact(lane_bound(lane, x)) <= 1real,
        lane == 5 ==> 400real <= exact(lane_bound(lane, x)) <= 700real,
        lane == 6 ==> 5real <= exact(lane_bound(lane, x)) <= 150real,
        lane == 7 ==> 15real / 100real <= exact(lane_bound(lane, x)) <= 17501real / 10000real,
{
    let mid = bound_midpoints()[lane];
    let half = bound_half_widths()[lane];
    let sharp = bound_sharpness()[lane];
    reveal_with_fuel(exact, 2);
    lemma_unit_values();
    lemma2_to64();
    if lane != 1 && lane != 2 {
        lemma_f32_value(mid);
    }
    lemma_f32_value(half);
    assert(lane == 0 ==> f32_value(mid) == 8556380real / 16777216real);
    assert(lane == 0 ==> f32_value(half) == 16441672real / 33554432real);
    assert(lane == 1 || lane == 2 ==> f32_value(half) == 12582912real / 1048576real);
    assert(lane == 5 ==> f32_value(mid) == 9011200real / 16384real);
    assert(lane == 5 ==> f32_value(half) == 9830400real / 65536real);
    assert(lane == 6 ==> f32_value(mid) == 10158080real / 131072real);
    assert(lane == 6 ==> f32_value(half) == 9502720real / 131072real);
    assert(lane == 7 ==> f32_value(mid) == 15938356real / 16777216real);
    assert(lane == 7 ==> f32_value(half) == 13421773real / 16777216real);
    law_bound_range(Formula::Val(x), Formula::Const(mid), Formula::Const(half), Formula::Const(sharp));
}

/// The bound formula of one lane at a raw output, with that lane's constants.
pub open spec fn lane_bound(lane: int, x: real) -> Formula<real, real> {
    bound_formula(
        Formula::Val(x),
        Formula::Const(bound_midpoints()[lane]),
        Formula::Const(bound_half_widths()[lane]),
        Formula::Const(bound_sharpness()[lane]),
    )
}

/// The soft core never decreases.
proof fn lemma_soft_monotone(x: real, y: real, sx: real, sy: real)
    requires
        x <= y,
        is_root(x * x + 1real, sx),
        is_root(y * y + 1real, sy),
    ensures
        sx > 0real,
        sy > 0real,
        x * (1real / sx) <= y * (1real / sy),
{
    lemma_soft_core(x, sx);
    lemma_soft_core(y, sy);
    let p = x * sy;
    let q = y * sx;
    assert(p * p == (x * x) * (y * y) + x * x && q * q == (x * x) * (y * y) + y * y) by (nonlinear_arith)
        requires
            p == x * sy,
            q == y * sx,
            sx * sx == x * x + 1real,
            sy * sy == y * y + 1real,
    ;
    if x >= 0real {
        assert(x * x <= y * y && p >= 0real && q >= 0real) by (nonlinear_arith)
            requires
                0real <= x <= y,
                p == x * sy,
                q == y * sx,
                sx > 0real,
                sy > 0real,
        ;
        assert(p <= q) by (nonlinear_arith)
            requires
                p * p <= q * q,
                p >= 0real,
                q >= 0real,
        ;
    } else if y <= 0real {
        assert(y * y <= x * x && p <= 0real && q <= 0real) by (nonlinear_arith)
            requires
                x <= y <= 0real,
                p == x * sy,
                q == y * sx,
                sx > 0real,
                sy > 0real,
        ;
        assert(p <= q) by (nonlinear_arith)
            requires
                q * q <= p * p,
                p <= 0real,
                q <= 0real,
        ;
    } else {
        assert(p <= 0real && q >= 0real) by (nonlinear_arith)
            requires
                x <= 0real <= y,
                p == x * sy,
                q == y * sx,
                sx > 0real,
                sy > 0real,
        ;
    }
    let a = 1real / sx;
    let b = 1real / sy;
    assert(a > 0real && b > 0real && a * sx == 1real && b * sy == 1real) by (nonlinear_arith)
        requires
            a == 1real / sx,
            b == 1real / sy,
            sx > 0real,
            sy > 0real,
    ;
    let ab = a * b;
    assert(ab > 0real) by (nonlinear_arith)
        requires
            ab == a * b,
            a > 0real,
            b > 0real,
    ;
    assert(x * a == p * ab && y * b == q * ab) by (nonlinear_arith)
        requires
            p == x * sy,
            q == y * sx,
            ab == a * b,
            a * sx == 1real,
            b * sy == 1real,
    ;
    assert(p * ab <= q * ab) by (nonlinear_arith)
        requires
            p <= q,
            ab > 0real,
    ;
}

/// The sharp core has the sign of its argument, and its square is the soft core of the square.
proof fn lemma_sharp_square(x: real, s1: real, d: real)
    requires
        is_root((x * x) * (x * x) + 1real, s1),
        s1 > 0real,
        is_root(1real / s1, d),
    ensures
        (x * d) * (x * d) == (x * x) * (1real / s1),
        x >= 0real ==> x * d >= 0real,
        x <= 0real ==> x * d <= 0real,
{
    let e = 1real / s1;
    assert((x * d) * (x * d) == (x * x) * e) by (nonlinear_arith)
        requires
            d * d == e,
    ;
    assert((x >= 0real ==> x * d >= 0real) && (x <= 0real ==> x * d <= 0real)) by (nonlinear_arith)
        requires
            d >= 0real,
    ;
}

/// The sharp core never decreases.
proof fn lemma_sharp_monotone(x: real, y: real, sx: real, dx: real, sy: real, dy: real)
    requires
        x <= y,
        is_root((x * x) * (x * x) + 1real, sx),
        is_root((y * y) * (y * y) + 1real, sy),
        sx > 0real,
        sy > 0real,
        is_root(1real / sx, dx),
        is_root(1real / sy, dy),
    ensures
        x * dx <= y * dy,
{
    lemma_sharp_square(x, sx, dx);
    lemma_sharp_square(y, sy, dy);
    let t = x * dx;
    let u = y * dy;
    if x >= 0real {
        assert(x * x <= y * y) by (nonlinear_arith)
            requires
                0real <= x <= y,
        ;
        lemma_soft_monotone(x * x, y * y, sx, sy);
        assert(t <= u) by (nonlinear_arith)
            requires
                t * t <= u * u,
                t >= 0real,
                u >= 0real,
        ;
    } else if y <= 0real {
        assert(y * y <= x * x) by (nonlinear_arith)
            requires
                x <= y <= 0real,
        ;
        lemma_soft_monotone(y * y, x * x, sy, sx);
        assert(t <= u) by (nonlinear_arith)
            requires
                u * u <= t * t,
                t <= 0real,
                u <= 0real,
        ;
    }
}

/// A bounded output never decreases with its raw output.
pub proof fn law_bound_monotone(lane: int, x: real, y: real)
    requires
        0 <= lane < 8,
        x <= y,
        defined(lane_bound(lane, x)),
        defined(lane_bound(lane, y)),
    ensures
        exact(lane_bound(lane, x)) <= exact(lane_bound(lane, y)),
{
    let half = f32_value(bound_half_widths()[lane]);
    lemma_bound_core(lane, x);
    lemma_bound_core(lane, y);
    lemma_half_width(lane);
    let t = bound_core(lane, x);
    let u = bound_core(lane, y);
    assert(t <= u) by {
        if lane >= 3 {
            let sx = root((x * x) * (x * x) + 1real);
            let sy = root((y * y) * (y * y) + 1real);
            lemma_sharp_monotone(x, y, sx, root(1real / sx), sy, root(1real / sy));
        } else {
            lemma_soft_monotone(x, y, root(x * x + 1real), root(y * y + 1real));
        }
    }
    assert(half * t <= half * u) by (nonlinear_arith)
        requires
            half >= 0real,
            t <= u,
    ;
}

/// A root is at most any number whose square is not below the number under the root.
proof fn lemma_root_at_most(n: real, s: real, t: real)
    requires
        is_root(n, s),
        t >= 0real,
        n <= t * t,
    ensures
        s <= t,
{
    assert(s <= t) by (nonlinear_arith)
        requires
            s * s == n,
            s >= 0real,
            t >= 0real,
            n <= t * t,
    ;
}

/// The soft core comes as close to one as `x / (1 + x)` does.
proof fn lemma_soft_limit(x: real, s: real)
    requires
        x >= 0real,
        is_root(x * x + 1real, s),
    ensures
        s > 0real,
        x * (1real / s) >= x / (1real + x),
{
    lemma_soft_core(x, s);
    let t = 1real + x;
    assert(x * x + 1real <= t * t) by (nonlinear_arith)
        requires
            t == 1real + x,
            x >= 0real,
    ;
    lemma_root_at_most(x * x + 1real, s, t);
    assert(x * (1real / s) >= x / t) by (nonlinear_arith)
        requires
            x >= 0real,
            0real < s <= t,
    ;
}

/// The sharp core comes as close to one as `x / (1 + x)` does.
proof fn lemma_sharp_limit(x: real, s: real, d: real)
    requires
        x >= 0real,
        is_root((x * x) * (x * x) + 1real, s),
        s > 0real,
        is_root(1real / s, d),
    ensures
        x * d >= x / (1real + x),
{
    let t = 1real + x;
    let u = t * t;
    let a = x * x;
    assert(u == 1real + 2real * x + a && a >= 0real) by (nonlinear_arith)
        requires
            u == t * t,
            t == 1real + x,
            a == x * x,
    ;
    assert(a * a + 1real <= u * u) by (nonlinear_arith)
        requires
            u >= a + 1real,
            a >= 0real,
    ;
    lemma_root_at_most(a * a + 1real, s, u);
    let e = 1real / t;
    let g = e * e;
    assert(e > 0real && e * t == 1real) by (nonlinear_arith)
        requires
            e == 1real / t,
            t >= 1real,
    ;
    assert(g * u == 1real && g >= 0real) by (nonlinear_arith)
        requires
            g == e * e,
            u == t * t,
            e * t == 1real,
    ;
    let i = 1real / s;
    assert(i * s == 1real && i > 0real) by (nonlinear_arith)
        requires
            i == 1real / s,
            s > 0real,
    ;
    assert(g <= i) by (nonlinear_arith)
        requires
            g * u == 1real,
            i * s == 1real,
            0real < s <= u,
            i > 0real,
            g >= 0real,
    ;
    assert(e <= d) by (nonlinear_arith)
        requires
            e * e <= d * d,
            d >= 0real,
            e > 0real,
    ;
    assert(x * d >= x / t) by (nonlinear_arith)
        requires
            e <= d,
            x >= 0real,
            e == 1real / t,
            t >= 1real,
    ;
}

/// A bounded output tends to the ends of its range: for a raw output of size `x` it lies within
/// `half / (1 + x)` of the end on its side.
///
/// In a number type of limited range this holds as long as the power of the raw output does not
/// overflow: see [`bound_formula`].
pub proof fn law_bound_limit(lane: int, x: real)
    requires
        0 <= lane < 8,
        defined(lane_bound(lane, x)),
    ensures
        ({
            let mid = f32_value(bound_midpoints()[lane]);
            let half = f32_value(bound_half_widths()[lane]);
            &&& x >= 0real ==> mid + half - half / (1real + x) <= exact(lane_bound(lane, x)) <= mid + half
            &&& x <= 0real ==> mid - half <= exact(lane_bound(lane, x)) <= mid - half + half / (1real - x)
        }),
{
    let mid = f32_value(bound_midpoints()[lane]);
    let half = f32_value(bound_half_widths()[lane]);
    let m = Formula::<real, real>::Const(bound_midpoints()[lane]);
    let h = Formula::<real, real>::Const(bound_half_widths()[lane]);
    lemma_bound_core(lane, x);
    lemma_half_width(lane);
    assert(exact(m) == mid && exact(h) == half);
    law_bound_range(Formula::Val(x), m, h, Formula::Const(bound_sharpness()[lane]));
    let c = bound_core(lane, x);
    let y = if x >= 0real {
        x
    } else {
        0real - x
    };
    let t = if x >= 0real {
        c
    } else {
        0real - c
    };
    assert(t >= y / (1real + y)) by {
        assert(y * y == x * x) by (nonlinear_arith)
            requires
                y == x || y == 0real - x,
        ;
        if lane >= 3 {
            let s = root((x * x) * (x * x) + 1real);
            let d = root(1real / s);
            lemma_sharp_limit(y, s, d);
            assert((0real - x) * d == 0real - x * d) by (nonlinear_arith);
        } else {
            let s = root(x * x + 1real);
            lemma_soft_limit(y, s);
            let d = 1real / s;
            assert((0real - x) * d == 0real - x * d) by (nonlinear_arith);
        }
    }
    assert(half * t >= half - half / (1real + y)) by (nonlinear_arith)
        requires
            t >= y / (1real + y),
            half >= 0real,
            y >= 0real,
    ;
    assert(half * (0real - c) == 0real - half * c) by (nonlinear_arith);
}

/// The squashing core of a lane: `x / sqrt(1 + x^2)`, or the sharp `x / (1 + x^4)^(1/4)`.
pub open spec fn bound_core(lane: int, x: real) -> real {
    if lane >= 3 {
        x * root(1real / root((x * x) * (x * x) + 1real))
    } else {
        x * (1real / root(x * x + 1real))
    }
}

/// Half-widths are not negative.
proof fn lemma_half_width(lane: int)
    requires
        0 <= lane < 8,
    ensures
        f32_value(bound_half_widths()[lane]) >= 0real,
{
    lemma2_to64();
    let half = bound_half_widths()[lane];
    lemma_f32_value(half);
    assert(lane == 0 ==> f32_value(half) == 16441672real / 33554432real);
    assert(lane == 1 || lane == 2 ==> f32_value(half) == 12582912real / 1048576real);
    assert(lane == 3 || lane == 4 ==> f32_value(half) == 8388608real / 16777216real);
    assert(lane == 5 ==> f32_value(half) == 9830400real / 65536real);
    assert(lane == 6 ==> f32_value(half) == 9502720real / 131072real);
    assert(lane == 7 ==> f32_value(half) == 13421773real / 16777216real);
}

/// A bound is its midpoint plus its half-width times the core of its lane.
pub proof fn lemma_bound_core(lane: int, x: real)
    requires
        0 <= lane < 8,
        defined(lane_bound(lane, x)),
    ensures
        exact(lane_bound(lane, x)) == f32_value(bound_midpoints()[lane]) + f32_value(bound_half_widths()[lane])
            * bound_core(lane, x),
        lane >= 3 ==> {
            let s = root((x * x) * (x * x) + 1real);
            is_root((x * x) * (x * x) + 1real, s) && s > 0real && is_root(1real / s, root(1real / s))
        },
        lane < 3 ==> is_root(x * x + 1real, root(x * x + 1real)),
{
    reveal_with_fuel(exact, 9);
    reveal_with_fuel(exact_holds, 2);
    reveal_with_fuel(defined, 9);
    reveal_with_fuel(defined_condition, 2);
    lemma_unit_values();
    let h = f32_value(bound_half_widths()[lane]);
    if lane >= 3 {
        let base = (x * x) * (x * x) + 1real;
        let s = root(base);
        assert(is_root(base, s));
        assert(base >= 1real) by (nonlinear_arith)
            requires
                base == (x * x) * (x * x) + 1real,
        ;
        lemma_root_positive(base, s);
        let d = root(1real / s);
        assert(is_root(1real / s, d));
        assert(d * (h * x) == h * (x * d)) by (nonlinear_arith);
    } else {
        let s = root(x * x + 1real);
        assert(is_root(x * x + 1real, s));
        let d = 1real / s;
        assert(d * (h * x) == h * (x * d)) by (nonlinear_arith);
    }
}

/// The algebraic hyperbolic tangent lies in `-1..=1`, and is defined where roots exist.
pub proof fn law_tanh_range(x: real)
    requires
        roots_exist(),
    ensures
        defined(tanh_formula(Formula::<real, real>::Val(x))),
        -1real <= exact(tanh_formula(Formula::<real, real>::Val(x))) <= 1real,
{
    reveal_with_fuel(exact, 6);
    reveal_with_fuel(defined, 6);
    lemma_unit_values();
    let base = x * x + 1real;
    assert(base >= 1real) by (nonlinear_arith)
        requires
            base == x * x + 1real,
    ;
    assert(1real + x * x == base);
    assert(has_root(base));
    let s = root(base);
    lemma_soft_core(x, s);
    assert(x / s == x * (1real / s)) by (nonlinear_arith)
        requires
            s > 0real,
    ;
}

} // verus!
