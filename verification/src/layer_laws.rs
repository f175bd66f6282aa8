//! Laws of the linear layers, in exact arithmetic.

use crate::formula::{defined, exact, has_root, is_root, root, Formula};
use crate::ieee::{f32_exponent, f32_mantissa, f32_negative, f32_value, lemma_f32_value};
use crate::layer::{
    balanced_sum, lemma_top_half, outputs_formula, partial_sum, partial_sums, silu_formula,
    top_half, MINUS_QUARTER, THREE_QUARTERS,
};
use crate::params_laws::lemma_unit_values;
use vstd::arithmetic::power2::lemma2_to64;
use vstd::prelude::*;

verus! {

// ----------------------------------------------------------------------------
// Sums
// ----------------------------------------------------------------------------

/// The sum of the numbers that formulas denote.
pub open spec fn total(parts: Seq<Formula<real, real>>) -> real
    decreases parts.len(),
{
    if parts.len() == 0 {
        0real
    } else {
        total(parts.drop_last()) + exact(parts.last())
    }
}

proof fn lemma_total_concat(a: Seq<Formula<real, real>>, b: Seq<Formula<real, real>>)
    ensures
        total(a + b) == total(a) + total(b),
    decreases b.len(),
{
    if b.len() == 0 {
        assert(a + b =~= a);
    } else {
        lemma_total_concat(a, b.drop_last());
        assert((a + b).drop_last() =~= a + b.drop_last());
    }
}

/// Adding up in a balanced tree gives the sum.
pub proof fn law_balanced_sum(parts: Seq<Formula<real, real>>)
    requires
        parts.len() >= 1,
    ensures
        exact(balanced_sum(parts)) == total(parts),
    decreases parts.len(),
{
    reveal_with_fuel(exact, 2);
    if parts.len() == 1 {
        reveal_with_fuel(total, 2);
        assert(parts.drop_last().len() == 0);
    } else {
        let h = top_half(parts.len());
        lemma_top_half(parts.len());
        let a = parts.take(h as int);
        let b = parts.skip(h as int);
        law_balanced_sum(a);
        law_balanced_sum(b);
        lemma_total_concat(a, b);
        assert(a + b =~= parts);
    }
}

/// The sum of the first `n` products of columns and inputs.
pub open spec fn dot(cols: Seq<real>, x: Seq<real>, n: nat) -> real
    decreases n,
{
    if n == 0 {
        0real
    } else {
        dot(cols, x, (n - 1) as nat) + cols[n - 1] * x[n - 1]
    }
}

/// The first `m` of `split` partial sums over the first `n` inputs.
spec fn partials(bias: real, cols: Seq<real>, x: Seq<real>, split: int, m: nat, n: nat) -> Seq<Formula<real, real>> {
    Seq::new(m, |s: int| partial_sum(bias, cols, x, split, s, n))
}

/// One more input adds its product to one of the partial sums.
proof fn lemma_partials_step(bias: real, cols: Seq<real>, x: Seq<real>, split: int, m: nat, n: nat)
    requires
        n >= 1,
        split >= 1,
    ensures
        total(partials(bias, cols, x, split, m, n)) == total(
            partials(bias, cols, x, split, m, (n - 1) as nat),
        ) + if (n - 1) % split < m {
            cols[n - 1] * x[n - 1]
        } else {
            0real
        },
    decreases m,
{
    let now = partials(bias, cols, x, split, m, n);
    let before = partials(bias, cols, x, split, m, (n - 1) as nat);
    if m > 0 {
        let k = (m - 1) as nat;
        lemma_partials_step(bias, cols, x, split, k, n);
        assert(now.drop_last() =~= partials(bias, cols, x, split, k, n));
        assert(before.drop_last() =~= partials(bias, cols, x, split, k, (n - 1) as nat));
        reveal_with_fuel(exact, 2);
    }
}

/// With no inputs the first partial sum is the bias and the others are zero.
proof fn lemma_partials_start(bias: real, cols: Seq<real>, x: Seq<real>, split: int, m: nat)
    ensures
        total(partials(bias, cols, x, split, m, 0)) == if m > 0 {
            bias
        } else {
            0real
        },
    decreases m,
{
    if m > 0 {
        let parts = partials(bias, cols, x, split, m, 0);
        lemma_partials_start(bias, cols, x, split, (m - 1) as nat);
        assert(parts.drop_last() =~= partials(bias, cols, x, split, (m - 1) as nat, 0));
        reveal_with_fuel(exact, 2);
        lemma_unit_values();
    }
}

proof fn lemma_partials(bias: real, cols: Seq<real>, x: Seq<real>, split: nat, n: nat)
    requires
        split >= 1,
    ensures
        total(partials(bias, cols, x, split as int, split, n)) == bias + dot(cols, x, n),
    decreases n,
{
    if n == 0 {
        lemma_partials_start(bias, cols, x, split as int, split);
    } else {
        lemma_partials(bias, cols, x, split, (n - 1) as nat);
        lemma_partials_step(bias, cols, x, split as int, split, n);
    }
}

/// A layer is affine before its activation: an output is its bias plus the inputs times their
/// weights, however the sum is split.
pub proof fn law_layer_affine(fast: bool, split: nat, bias: real, cols: Seq<real>, x: Seq<real>)
    requires
        split >= 1,
        cols.len() == x.len(),
    ensures
        exact(outputs_formula(false, fast, split, bias, cols, x)) == bias + dot(cols, x, x.len()),
{
    let parts = partial_sums(bias, cols, x, split);
    assert(parts =~= partials(bias, cols, x, split as int, split, x.len()));
    lemma_partials(bias, cols, x, split, x.len());
    law_balanced_sum(parts);
}

// ----------------------------------------------------------------------------
// Activation
// ----------------------------------------------------------------------------

/// The constants of the Newton step.
proof fn lemma_newton_values()
    ensures
        f32_value(MINUS_QUARTER) == 0real - 1real / 4real,
        f32_value(THREE_QUARTERS) == 3real / 4real,
{
    lemma2_to64();
    lemma_f32_value(MINUS_QUARTER);
    lemma_f32_value(THREE_QUARTERS);
    assert(f32_exponent(MINUS_QUARTER) == 125 && f32_mantissa(MINUS_QUARTER) == 0 && f32_negative(
        MINUS_QUARTER,
    ));
    assert(f32_exponent(THREE_QUARTERS) == 126 && f32_mantissa(THREE_QUARTERS) == 4194304);
    assert(f32_value(MINUS_QUARTER) == 0real - 8388608real / 33554432real);
    assert(f32_value(THREE_QUARTERS) == 12582912real / 16777216real);
}

/// Both forms of the activation compute the algebraic SiLU `a * (1/2 + a / (2 * sqrt(1 + a^2)))`: the
/// Newton step leaves an exact inverse root as it is.
pub proof fn law_silu(fast: bool, e: Formula<real, real>)
    requires
        has_root(exact(e) * exact(e) + 1real),
    ensures
        exact(silu_formula(fast, e)) == exact(e) * (1real / 2real + exact(e) / (2real * root(
            exact(e) * exact(e) + 1real,
        ))),
        defined(e) ==> defined(silu_formula(fast, e)),
{
    let a = exact(e);
    let x = a * a + 1real;
    let s = root(x);
    assert(is_root(x, s));
    assert(x >= 1real && s > 0real) by (nonlinear_arith)
        requires
            x == a * a + 1real,
            s >= 0real,
            s * s == x,
    ;
    reveal_with_fuel(exact, 7);
    reveal_with_fuel(defined, 7);
    lemma_unit_values();
    lemma_newton_values();
    let y = 1real / s;
    let g = a / s;
    assert(a / (2real * s) == g * (1real / 2real) && a * y == g && y * y * x == 1real) by (nonlinear_arith)
        requires
            y == 1real / s,
            g == a / s,
            s > 0real,
            s * s == x,
    ;
    if fast {
        let nf = (y * y) * (x * (0real - 1real / 4real)) + 3real / 4real;
        assert(nf == 1real / 2real) by (nonlinear_arith)
            requires
                nf == (y * y) * (x * (0real - 1real / 4real)) + 3real / 4real,
                y * y * x == 1real,
        ;
        assert(a * ((a * y) * nf + 1real / 2real) == a * (1real / 2real + g * (1real / 2real))) by (nonlinear_arith)
            requires
                nf == 1real / 2real,
                a * y == g,
        ;
    } else {
        assert(a * (g * (1real / 2real) + 1real / 2real) == a * (1real / 2real + g * (1real / 2real)));
    }
}

/// The activation keeps zero and lies between `0` and its argument for a positive argument, and
/// between half its argument and `0` for a negative one.
pub proof fn law_silu_range(fast: bool, e: Formula<real, real>)
    requires
        has_root(exact(e) * exact(e) + 1real),
    ensures
        exact(e) >= 0real ==> exact(e) / 2real <= exact(silu_formula(fast, e)) <= exact(e),
        exact(e) <= 0real ==> exact(e) / 2real <= exact(silu_formula(fast, e)) <= 0real,
{
    law_silu(fast, e);
    let a = exact(e);
    let s = root(a * a + 1real);
    assert(is_root(a * a + 1real, s));
    assert(s > 0real && -s <= a <= s) by (nonlinear_arith)
        requires
            s >= 0real,
            s * s == a * a + 1real,
    ;
    let t = a / (2real * s);
    assert(2real * t * s == a && -1real <= 2real * t <= 1real) by (nonlinear_arith)
        requires
            t == a / (2real * s),
            s > 0real,
            -s <= a <= s,
    ;
    let v = a * (1real / 2real + t);
    assert(v == a * (1real / 2real) + 2real * t * t * s) by (nonlinear_arith)
        requires
            v == a * (1real / 2real + t),
            2real * t * s == a,
    ;
    let w = t * t * s;
    assert(w >= 0real && 2real * t * t * s == 2real * w) by (nonlinear_arith)
        requires
            w == t * t * s,
            s > 0real,
    ;
    assert(a >= 0real ==> v <= a) by (nonlinear_arith)
        requires
            v == a * (1real / 2real + t),
            -1real <= 2real * t <= 1real,
    ;
    assert(a <= 0real ==> v <= 0real) by (nonlinear_arith)
        requires
            v == a * (1real / 2real + t),
            -1real <= 2real * t <= 1real,
    ;
}

} // verus!
