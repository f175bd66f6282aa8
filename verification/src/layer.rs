//! One linear layer with its activation.
//!
//! Weights are column-major: the weights that input `i` has in all outputs are contiguous, so an
//! input is broadcast and multiplied into a whole vector of outputs. Outputs are computed one vector
//! at a time. Where a layer has few outputs the sum over its inputs is split into several partial sums,
//! which are independent of each other until they are added up at the end.

use crate::formula::{evals, Formula, Lanes, NnVector, Scalar};
use crate::ieee::{HALF, ONE, ZERO};
use crate::lanes::{load, vector_of};
use crate::term::Term;
use vstd::prelude::*;

verus! {

/// `-0.25`
pub const MINUS_QUARTER: u32 = 0xBE80_0000;

/// `0.75`
pub const THREE_QUARTERS: u32 = 0x3F40_0000;

/// The algebraic SiLU `a * (0.5 + 0.5 * a / sqrt(1 + a^2))`. With a fast approximation `y` of
/// `1 / sqrt(x)`, one Newton step refines it, with the factor one half folded into its constants.
pub open spec fn silu_formula<T, S>(fast: bool, a: Formula<T, S>) -> Formula<T, S> {
    let x = a.mul_adde(a, Formula::Const(ONE));
    if fast {
        let y = x.rsqrt();
        let nf = y.mul(y).mul_adde(x.mul(Formula::Const(MINUS_QUARTER)), Formula::Const(THREE_QUARTERS));
        a.mul(a.mul(y).mul_adde(nf, Formula::Const(HALF)))
    } else {
        let g = a.div(x.sqrt());
        a.mul(g.mul_adde(Formula::Const(HALF), Formula::Const(HALF)))
    }
}

/// Algebraic SiLU on a vector.
pub fn alg_silu_v<V: NnVector>(a: Term<V>) -> (r: Term<V>)
    ensures
        exists|fast: bool| #[trigger]
            call_ensures(V::has_approx_rsqrt, (), fast) && r.formula() == silu_formula(fast, a.formula()),
{
    let x = a.mul_adde(a, Term::constant(ONE));
    let fast: bool = V::has_approx_rsqrt();
    if fast {
        let y = x.rsqrt();
        let nf = y.mul(y).mul_adde(x.mul(Term::constant(MINUS_QUARTER)), Term::constant(THREE_QUARTERS));
        a.mul(a.mul(y).mul_adde(nf, Term::constant(HALF)))
    } else {
        let g = a.div(x.sqrt());
        a.mul(g.mul_adde(Term::constant(HALF), Term::constant(HALF)))
    }
}

/// The largest power of two below `n`, which is at least 2.
pub open spec fn top_half(n: nat) -> nat
    decreases n,
{
    if n <= 2 {
        1
    } else {
        2 * top_half((n + 1) / 2)
    }
}

/// The larger half of a sequence of at least two is not all of it.
pub proof fn lemma_top_half(n: nat)
    requires
        n >= 2,
    ensures
        0 < top_half(n) < n,
    decreases n,
{
    if n > 2 {
        lemma_top_half((n + 1) / 2);
    }
}

/// The sum of a sequence with additions in a balanced tree: the first half, up to the largest power
/// of two, plus the rest.
pub open spec fn balanced_sum<T, S>(parts: Seq<Formula<T, S>>) -> Formula<T, S>
    decreases parts.len(),
{
    if parts.len() <= 1 {
        parts[0]
    } else {
        let h = top_half(parts.len());
        proof {
            lemma_top_half(parts.len());
        }
        balanced_sum(parts.take(h as int)).add(balanced_sum(parts.skip(h as int)))
    }
}

/// The formulas of a sequence of terms.
pub open spec fn formulas<V: NnVector>(terms: Seq<Term<V>>) -> Seq<Formula<V, V::Element>> {
    Seq::new(terms.len(), |i: int| terms[i].formula())
}

/// Adds up a sequence of vectors, into its first element, through
/// `thermite::math::algorithms::reduce_in_place`.
///
/// That function combines neighbours at distance 1, then at distance 2, then 4, and so on, each with
/// the earlier element as the left operand, until the whole is in the first element. What is claimed
/// here is the tree of additions that this makes. What it leaves in the other elements is not stated.
/// The bound on the length keeps its distances within `usize`.
#[verifier::external_body]
fn reduce_sum<V: NnVector>(parts: &mut Vec<Term<V>>)
    requires
        1 <= old(parts)@.len() <= usize::MAX / 2,
    ensures
        final(parts)@.len() == old(parts)@.len(),
        final(parts)@[0].formula() == balanced_sum(formulas(old(parts)@)),
{
    thermite::math::algorithms::reduce_in_place(parts, |a: Term<V>, b: Term<V>| a.add(b));
}

/// Partial sum `s` of `split`, over the first `n` inputs: those whose number leaves the remainder
/// `s`, each times its column. The bias starts the first partial sum.
pub open spec fn partial_sum<T, S>(bias: T, cols: Seq<T>, x: Seq<S>, split: int, s: int, n: nat) -> Formula<T, S>
    decreases n,
{
    if n == 0 {
        if s == 0 {
            Formula::Val(bias)
        } else {
            Formula::Const(ZERO)
        }
    } else {
        let before = partial_sum(bias, cols, x, split, s, (n - 1) as nat);
        if (n - 1) % split == s {
            Formula::Val(cols[n - 1]).mul_adde(Formula::Splat(x[n - 1]), before)
        } else {
            before
        }
    }
}

/// All partial sums.
pub open spec fn partial_sums<T, S>(bias: T, cols: Seq<T>, x: Seq<S>, split: nat) -> Seq<Formula<T, S>> {
    Seq::new(split, |s: int| partial_sum(bias, cols, x, split as int, s, x.len()))
}

/// A vector of outputs: the bias plus the inputs times their columns, through the activation where
/// the layer has one.
pub open spec fn outputs_formula<T, S>(act: bool, fast: bool, split: nat, bias: T, cols: Seq<T>, x: Seq<S>) -> Formula<
    T,
    S,
> {
    let sum = balanced_sum(partial_sums(bias, cols, x, split));
    if act {
        silu_formula(fast, sum)
    } else {
        sum
    }
}

/// `cols` are, input by input, the weights of the `L` outputs from number `at` on, of the `out` outputs
/// that the weights `w` are for.
pub open spec fn are_columns<F: Scalar, V: Lanes<L, Element = F>, const L: usize>(
    w: Seq<F>,
    out: int,
    at: int,
    cols: Seq<V>,
) -> bool {
    forall|i: int|
        0 <= i < cols.len() ==> #[trigger] vector_of::<V, L>(
            cols[i],
            w.subrange(i * out + at, i * out + at + L),
        )
}

/// The steps that lead to a vector of outputs: their biases and columns as vectors, the vector of outputs, and
/// its lanes.
pub open spec fn outputs_steps<F: Scalar, V: Lanes<L, Element = F>, const L: usize>(
    act: bool,
    split: nat,
    w: Seq<F>,
    b: Seq<F>,
    x: Seq<F>,
    at: int,
    fast: bool,
    bias: V,
    cols: Seq<V>,
    out: V,
    y: [F; L],
) -> bool {
    &&& act ==> call_ensures(V::has_approx_rsqrt, (), fast)
    &&& vector_of::<V, L>(bias, b.subrange(at, at + L))
    &&& cols.len() == x.len()
    &&& are_columns::<F, V, L>(w, b.len() as int, at, cols)
    &&& evals(outputs_formula(act, fast, split, bias, cols, x), out)
    &&& call_ensures(V::into_array, (out,), y)
}

/// `y` are the `L` outputs of a layer from number `at` on.
pub open spec fn are_outputs<F: Scalar, V: Lanes<L, Element = F>, const L: usize>(
    act: bool,
    split: nat,
    w: Seq<F>,
    b: Seq<F>,
    x: Seq<F>,
    at: int,
    y: [F; L],
) -> bool {
    exists|fast: bool, bias: V, cols: Seq<V>, out: V| #[trigger]
        outputs_steps::<F, V, L>(act, split, w, b, x, at, fast, bias, cols, out, y)
}

/// A vector of outputs within all outputs of a layer.
pub open spec fn outputs_at<F: Scalar, V: Lanes<L, Element = F>, const L: usize>(
    act: bool,
    split: nat,
    w: Seq<F>,
    b: Seq<F>,
    x: Seq<F>,
    at: int,
    y: Seq<F>,
) -> bool {
    exists|lanes: [F; L]| #[trigger]
        are_outputs::<F, V, L>(act, split, w, b, x, at, lanes) && lanes@ == y.subrange(at, at + L)
}

/// `y` are the outputs of the layer with weights `w` and biases `b` on the inputs `x`.
pub open spec fn is_layer<F: Scalar, V: Lanes<L, Element = F>, const L: usize>(
    act: bool,
    split: nat,
    w: Seq<F>,
    b: Seq<F>,
    x: Seq<F>,
    y: Seq<F>,
) -> bool {
    &&& y.len() == b.len()
    &&& forall|j: int|
        0 <= j < b.len() / (L as nat) ==> #[trigger] outputs_at::<F, V, L>(act, split, w, b, x, j * L, y)
}

/// A partial sum depends on no more columns than inputs that it runs over.
proof fn lemma_partial_sum_prefix<T, S>(
    bias: T,
    cols: Seq<T>,
    more: Seq<T>,
    x: Seq<S>,
    split: int,
    s: int,
    n: nat,
)
    requires
        n <= cols.len(),
    ensures
        partial_sum(bias, cols + more, x, split, s, n) == partial_sum(bias, cols, x, split, s, n),
    decreases n,
{
    if n > 0 {
        lemma_partial_sum_prefix(bias, cols, more, x, split, s, (n - 1) as nat);
    }
}

/// The place of a column lies within the weights.
proof fn lemma_column_bound(i: int, n_in: int, out: int)
    requires
        0 <= i < n_in,
        0 <= out,
    ensures
        0 <= i * out,
        i * out + out <= n_in * out,
{
    assert(0 <= i * out && i * out + out <= n_in * out) by (nonlinear_arith)
        requires
            0 <= i < n_in,
            0 <= out,
    ;
}

/// The `L` outputs from number `at` on.
fn outputs<
    F: Scalar,
    V: Lanes<L, Element = F>,
    const L: usize,
    const ACT: bool,
    const IN: usize,
    const OUT: usize,
    const SPLIT: usize,
>(
    w: &[F],
    b: &[F],
    x: &[F],
    at: usize,
) -> (r: [F; L])
    requires
        1 <= L,
        1 <= SPLIT <= usize::MAX / 2,
        w@.len() >= IN * OUT,
        b@.len() >= OUT,
        x@.len() >= IN,
        at + L <= OUT,
    ensures
        are_outputs::<F, V, L>(
            ACT,
            SPLIT as nat,
            w@.take(IN * OUT),
            b@.take(OUT as int),
            x@.take(IN as int),
            at as int,
            r,
        ),
{
    let ghost ws = w@.take(IN * OUT);
    let ghost bs = b@.take(OUT as int);
    let ghost xs = x@.take(IN as int);
    let size: usize = w.len();
    let bias: V = load(b, at);
    assert(b@.subrange(at as int, at + L) =~= bs.subrange(at as int, at + L));
    let mut acc: Vec<Term<V>> = Vec::new();
    acc.push(Term::val(bias));
    let mut s: usize = 1;
    while s < SPLIT
        invariant
            1 <= s <= SPLIT,
            acc@.len() == s,
            forall|k: int|
                0 <= k < s ==> (#[trigger] acc@[k]).formula() == partial_sum(
                    bias,
                    Seq::<V>::empty(),
                    xs,
                    SPLIT as int,
                    k,
                    0,
                ),
        decreases SPLIT - s,
    {
        acc.push(Term::constant(ZERO));
        s = s + 1;
    }
    let ghost mut cols: Seq<V> = Seq::empty();
    let mut i: usize = 0;
    while i < IN
        invariant
            1 <= L,
            1 <= SPLIT,
            i <= IN,
            size == w@.len(),
            w@.len() >= IN * OUT,
            x@.len() >= IN,
            ws == w@.take(IN * OUT),
            xs == x@.take(IN as int),
            at + L <= OUT,
            acc@.len() == SPLIT,
            cols.len() == i,
            are_columns::<F, V, L>(ws, OUT as int, at as int, cols),
            forall|k: int|
                0 <= k < SPLIT ==> (#[trigger] acc@[k]).formula() == partial_sum(
                    bias,
                    cols,
                    xs,
                    SPLIT as int,
                    k,
                    i as nat,
                ),
        decreases IN - i,
    {
        proof {
            lemma_column_bound(i as int, IN as int, OUT as int);
        }
        let base: usize = i * OUT;
        let col: V = load(w, base + at);
        assert(w@.subrange(base + at, base + at + L) =~= ws.subrange(i * OUT + at, i * OUT + at + L));
        let k: usize = i % SPLIT;
        let sum = Term::val(col).mul_adde(Term::splat(x[i]), acc[k]);
        acc.set(k, sum);
        proof {
            let before = cols;
            cols = before.push(col);
            assert(cols =~= before + seq![col]);
            assert forall|q: int| 0 <= q < SPLIT implies (#[trigger] acc@[q]).formula() == partial_sum(
                bias,
                cols,
                xs,
                SPLIT as int,
                q,
                (i + 1) as nat,
            ) by {
                lemma_partial_sum_prefix(bias, before, seq![col], xs, SPLIT as int, q, i as nat);
            }
            assert forall|q: int| 0 <= q < cols.len() implies #[trigger] vector_of::<V, L>(
                cols[q],
                ws.subrange(q * OUT + at, q * OUT + at + L),
            ) by {
                if q < i {
                    assert(vector_of::<V, L>(before[q], ws.subrange(q * OUT + at, q * OUT + at + L)));
                }
            }
        }
        i = i + 1;
    }
    assert(formulas(acc@) =~= partial_sums(bias, cols, xs, SPLIT as nat));
    reduce_sum(&mut acc);
    let sum = acc[0];
    if ACT {
        let y = alg_silu_v(sum);
        let ghost fast = choose|fast: bool| #[trigger]
            call_ensures(V::has_approx_rsqrt, (), fast) && y.formula() == silu_formula(fast, sum.formula());
        let out = y.value();
        let r = out.into_array();
        assert(outputs_steps::<F, V, L>(ACT, SPLIT as nat, ws, bs, xs, at as int, fast, bias, cols, out, r));
        r
    } else {
        let out = sum.value();
        let r = out.into_array();
        assert(outputs_steps::<F, V, L>(ACT, SPLIT as nat, ws, bs, xs, at as int, false, bias, cols, out, r));
        r
    }
}

/// The outputs of a layer, with the algebraic SiLU where `ACT` is set. The weights of input `i` are
/// `w[i * OUT..(i + 1) * OUT]`. What the slices hold beyond the `IN * OUT` weights, the `OUT` biases and
/// the `IN` inputs is not read.
///
/// `NCH` is the number of vectors of outputs, and `SPLIT` the number of partial sums that a sum over
/// the inputs is split into: partial sum `s` runs over the inputs `s, s + SPLIT, ..`.
pub fn matvec_act<
    F: Scalar,
    V: Lanes<L, Element = F>,
    const L: usize,
    const ACT: bool,
    const IN: usize,
    const OUT: usize,
    const NCH: usize,
    const SPLIT: usize,
>(w: &[F], b: &[F], x: &[F]) -> (y: Vec<F>)
    requires
        1 <= L,
        NCH * L == OUT,
        1 <= SPLIT <= usize::MAX / 2,
        w@.len() >= IN * OUT,
        b@.len() >= OUT,
        x@.len() >= IN,
    ensures
        is_layer::<F, V, L>(
            ACT,
            SPLIT as nat,
            w@.take(IN * OUT),
            b@.take(OUT as int),
            x@.take(IN as int),
            y@,
        ),
{
    let ghost ws = w@.take(IN * OUT);
    let ghost bs = b@.take(OUT as int);
    let ghost xs = x@.take(IN as int);
    let mut y: Vec<F> = Vec::new();
    let mut j: usize = 0;
    let mut at: usize = 0;
    while j < NCH
        invariant
            j <= NCH,
            1 <= L,
            NCH * L == OUT,
            1 <= SPLIT <= usize::MAX / 2,
            w@.len() >= IN * OUT,
            b@.len() >= OUT,
            x@.len() >= IN,
            ws == w@.take(IN * OUT),
            bs == b@.take(OUT as int),
            xs == x@.take(IN as int),
            at == j * L,
            y@.len() == at,
            forall|k: int|
                0 <= k < j ==> #[trigger] outputs_at::<F, V, L>(ACT, SPLIT as nat, ws, bs, xs, k * L, y@),
        decreases NCH - j,
    {
        proof {
            lemma_column_bound(j as int, NCH as int, L as int);
        }
        let lanes: [F; L] = outputs::<F, V, L, ACT, IN, OUT, SPLIT>(w, b, x, at);
        let ghost before = y@;
        let mut l: usize = 0;
        while l < L
            invariant
                l <= L,
                y@ == before + lanes@.take(l as int),
                lanes@.len() == L,
            decreases L - l,
        {
            y.push(lanes[l]);
            assert(lanes@.take(l + 1) =~= lanes@.take(l as int).push(lanes@[l as int]));
            l = l + 1;
        }
        proof {
            assert(lanes@.take(L as int) =~= lanes@);
            assert forall|k: int| 0 <= k < j + 1 implies #[trigger] outputs_at::<F, V, L>(
                ACT,
                SPLIT as nat,
                ws,
                bs,
                xs,
                k * L,
                y@,
            ) by {
                if k < j {
                    lemma_column_bound(k, j as int, L as int);
                    assert(outputs_at::<F, V, L>(ACT, SPLIT as nat, ws, bs, xs, k * L, before));
                    assert(y@.subrange(k * L, k * L + L) =~= before.subrange(k * L, k * L + L));
                } else {
                    assert(y@.subrange(k * L, k * L + L) =~= lanes@);
                    assert(are_outputs::<F, V, L>(ACT, SPLIT as nat, ws, bs, xs, k * L, lanes));
                }
            }
            assert((j + 1) * L == j * L + L) by (nonlinear_arith);
        }
        at = at + L;
        j = j + 1;
    }
    proof {
        vstd::arithmetic::div_mod::lemma_div_multiples_vanish(NCH as int, L as int);
        assert(L * NCH == NCH * L) by (nonlinear_arith);
    }
    y
}

} // verus!
