//! Laws of repeated calls, where the vector operations are functions.
//!
//! The contracts say which operations lead to a result. Where each operation returns the same on the
//! same operands, so do the kernels, bit for bit, and two ways to a result that apply the same
//! operations agree.

use crate::formula::{
    and_result, binary_result, chebyshev_result, evals, holds, relation_result, select_result, ternary_result,
    unary_result, zz_result, Binary, Condition, Formula, Lanes, NnVector, Relation, Scalar, Ternary, Unary,
};
use crate::lanes::{are_constants, constant_vector, is_constant, vector_of};
use vstd::prelude::*;

verus! {

/// Constants, integers and broadcasts are functions of what they are made of.
pub open spec fn unique_leaves<V: NnVector>() -> bool {
    &&& forall|x: V::Element, r: V, q: V|
        #![trigger call_ensures(V::splat, (x,), r), call_ensures(V::splat, (x,), q)]
        call_ensures(V::splat, (x,), r) && call_ensures(V::splat, (x,), q) ==> r == q
    &&& forall|b: u32, r: V, q: V|
        #![trigger call_ensures(V::from_bits, (b,), r), call_ensures(V::from_bits, (b,), q)]
        call_ensures(V::from_bits, (b,), r) && call_ensures(V::from_bits, (b,), q) ==> r == q
    &&& forall|i: i64, r: V, q: V|
        #![trigger call_ensures(V::from_int, (i,), r), call_ensures(V::from_int, (i,), q)]
        call_ensures(V::from_int, (i,), r) && call_ensures(V::from_int, (i,), q) ==> r == q
    &&& forall|r: bool, q: bool|
        #![trigger call_ensures(V::has_approx_rsqrt, (), r), call_ensures(V::has_approx_rsqrt, (), q)]
        call_ensures(V::has_approx_rsqrt, (), r) && call_ensures(V::has_approx_rsqrt, (), q) ==> r == q
}

/// Arithmetic is a function of its operands.
pub open spec fn unique_arithmetic<V: NnVector>() -> bool {
    &&& forall|op: Unary, x: V, r: V, q: V|
        #![trigger unary_result(op, x, r), unary_result(op, x, q)]
        unary_result(op, x, r) && unary_result(op, x, q) ==> r == q
    &&& forall|op: Binary, x: V, y: V, r: V, q: V|
        #![trigger binary_result(op, x, y, r), binary_result(op, x, y, q)]
        binary_result(op, x, y, r) && binary_result(op, x, y, q) ==> r == q
    &&& forall|op: Ternary, x: V, y: V, z: V, r: V, q: V|
        #![trigger ternary_result(op, x, y, z, r), ternary_result(op, x, y, z, q)]
        ternary_result(op, x, y, z, r) && ternary_result(op, x, y, z, q) ==> r == q
    &&& forall|c: [V::Element; 7], x: V, r: V, q: V|
        #![trigger chebyshev_result(c, x, r), chebyshev_result(c, x, q)]
        chebyshev_result(c, x, r) && chebyshev_result(c, x, q) ==> r == q
}

/// Comparisons and choices are functions of their operands.
pub open spec fn unique_choices<V: NnVector>() -> bool {
    &&& forall|op: Relation, x: V, y: V, r: V::Mask, q: V::Mask|
        #![trigger relation_result(op, x, y, r), relation_result(op, x, y, q)]
        relation_result(op, x, y, r) && relation_result(op, x, y, q) ==> r == q
    &&& forall|a: V::Mask, b: V::Mask, r: V::Mask, q: V::Mask|
        #![trigger and_result::<V>(a, b, r), and_result::<V>(a, b, q)]
        and_result::<V>(a, b, r) && and_result::<V>(a, b, q) ==> r == q
    &&& forall|m: V::Mask, x: V, y: V, r: V, q: V|
        #![trigger select_result::<V>(m, x, y, r), select_result::<V>(m, x, y, q)]
        select_result::<V>(m, x, y, r) && select_result::<V>(m, x, y, q) ==> r == q
    &&& forall|m: V::Mask, x: V, r: V, q: V|
        #![trigger zz_result::<V>(m, x, r), zz_result::<V>(m, x, q)]
        zz_result::<V>(m, x, r) && zz_result::<V>(m, x, q) ==> r == q
}

/// Every operation returns the same on the same operands.
pub open spec fn is_function<V: NnVector>() -> bool {
    unique_leaves::<V>() && unique_arithmetic::<V>() && unique_choices::<V>()
}

/// Making a vector of lanes, and taking it apart, return the same on the same operands too.
pub open spec fn lanes_are_function<V: Lanes<L>, const L: usize>() -> bool {
    &&& is_function::<V>()
    &&& forall|a: [V::Element; L], r: V, q: V|
        #![trigger call_ensures(V::new, (a,), r), call_ensures(V::new, (a,), q)]
        call_ensures(V::new, (a,), r) && call_ensures(V::new, (a,), q) ==> r == q
    &&& forall|v: V, a: [V::Element; L], b: [V::Element; L]|
        #![trigger call_ensures(V::into_array, (v,), a), call_ensures(V::into_array, (v,), b)]
        call_ensures(V::into_array, (v,), a) && call_ensures(V::into_array, (v,), b) ==> a == b
}

/// Taking a vector apart gives back the lanes that it was made of.
pub open spec fn keeps_lanes<V: Lanes<L>, const L: usize>() -> bool {
    forall|a: [V::Element; L], v: V, b: [V::Element; L]|
        #![trigger call_ensures(V::new, (a,), v), call_ensures(V::into_array, (v,), b)]
        call_ensures(V::new, (a,), v) && call_ensures(V::into_array, (v,), b) ==> a == b
}

/// A formula evaluates to one value.
pub proof fn law_evals_unique<V: NnVector>(e: Formula<V, V::Element>, r: V, q: V)
    requires
        is_function::<V>(),
        evals(e, r),
        evals(e, q),
    ensures
        r == q,
    decreases e,
{
    match e {
        Formula::Val(v) => {},
        Formula::Splat(s) => {},
        Formula::Const(b) => {},
        Formula::Int(i) => {},
        Formula::Un(op, a) => {
            let x = choose|x: V| evals(*a, x) && #[trigger] unary_result(op, x, r);
            let y = choose|x: V| evals(*a, x) && #[trigger] unary_result(op, x, q);
            law_evals_unique(*a, x, y);
        },
        Formula::Bin(op, a, b) => {
            let (x1, y1) = choose|x: V, y: V|
                evals(*a, x) && evals(*b, y) && #[trigger] binary_result(op, x, y, r);
            let (x2, y2) = choose|x: V, y: V|
                evals(*a, x) && evals(*b, y) && #[trigger] binary_result(op, x, y, q);
            law_evals_unique(*a, x1, x2);
            law_evals_unique(*b, y1, y2);
        },
        Formula::Tri(op, a, b, c) => {
            let (x1, y1, z1) = choose|x: V, y: V, z: V|
                evals(*a, x) && evals(*b, y) && evals(*c, z) && #[trigger] ternary_result(op, x, y, z, r);
            let (x2, y2, z2) = choose|x: V, y: V, z: V|
                evals(*a, x) && evals(*b, y) && evals(*c, z) && #[trigger] ternary_result(op, x, y, z, q);
            law_evals_unique(*a, x1, x2);
            law_evals_unique(*b, y1, y2);
            law_evals_unique(*c, z1, z2);
        },
        Formula::Chebyshev(c, a) => {
            let x = choose|x: V| evals(*a, x) && #[trigger] chebyshev_result(c, x, r);
            let y = choose|x: V| evals(*a, x) && #[trigger] chebyshev_result(c, x, q);
            law_evals_unique(*a, x, y);
        },
        Formula::Select(t, a, b) => {
            let (k1, x1, y1) = choose|k: V::Mask, x: V, y: V|
                holds::<V>(*t, k) && evals(*a, x) && evals(*b, y) && #[trigger] select_result::<V>(k, x, y, r);
            let (k2, x2, y2) = choose|k: V::Mask, x: V, y: V|
                holds::<V>(*t, k) && evals(*a, x) && evals(*b, y) && #[trigger] select_result::<V>(k, x, y, q);
            lemma_holds_unique::<V>(*t, k1, k2);
            law_evals_unique(*a, x1, x2);
            law_evals_unique(*b, y1, y2);
        },
        Formula::Zz(t, a) => {
            let (k1, x1) = choose|k: V::Mask, x: V|
                holds::<V>(*t, k) && evals(*a, x) && #[trigger] zz_result::<V>(k, x, r);
            let (k2, x2) = choose|k: V::Mask, x: V|
                holds::<V>(*t, k) && evals(*a, x) && #[trigger] zz_result::<V>(k, x, q);
            lemma_holds_unique::<V>(*t, k1, k2);
            law_evals_unique(*a, x1, x2);
        },
    }
}

/// A condition evaluates to one mask.
proof fn lemma_holds_unique<V: NnVector>(c: Condition<V, V::Element>, r: V::Mask, q: V::Mask)
    requires
        is_function::<V>(),
        holds::<V>(c, r),
        holds::<V>(c, q),
    ensures
        r == q,
    decreases c,
{
    match c {
        Condition::Rel(op, a, b) => {
            let (x1, y1) = choose|x: V, y: V|
                evals(*a, x) && evals(*b, y) && #[trigger] relation_result(op, x, y, r);
            let (x2, y2) = choose|x: V, y: V|
                evals(*a, x) && evals(*b, y) && #[trigger] relation_result(op, x, y, q);
            law_evals_unique(*a, x1, x2);
            law_evals_unique(*b, y1, y2);
        },
        Condition::And(a, b) => {
            let (x1, y1) = choose|x: V::Mask, y: V::Mask|
                holds::<V>(*a, x) && holds::<V>(*b, y) && #[trigger] and_result::<V>(x, y, r);
            let (x2, y2) = choose|x: V::Mask, y: V::Mask|
                holds::<V>(*a, x) && holds::<V>(*b, y) && #[trigger] and_result::<V>(x, y, q);
            lemma_holds_unique::<V>(*a, x1, x2);
            lemma_holds_unique::<V>(*b, y1, y2);
        },
    }
}

/// Given lanes make one vector.
pub proof fn lemma_vector_unique<V: Lanes<L>, const L: usize>(v: V, w: V, lanes: Seq<V::Element>)
    requires
        lanes_are_function::<V, L>(),
        vector_of::<V, L>(v, lanes),
        vector_of::<V, L>(w, lanes),
    ensures
        v == w,
{
    let a = choose|a: [V::Element; L]| a@ == lanes && #[trigger] call_ensures(V::new, (a,), v);
    let b = choose|a: [V::Element; L]| a@ == lanes && #[trigger] call_ensures(V::new, (a,), w);
    assert(a =~= b);
}

/// Given bit patterns make one vector.
pub proof fn lemma_constants_unique<V: Lanes<L, Element = F>, F: Scalar, const L: usize>(
    v: V,
    w: V,
    bits: Seq<u32>,
)
    requires
        is_function::<F>(),
        lanes_are_function::<V, L>(),
        constant_vector::<V, F, L>(v, bits),
        constant_vector::<V, F, L>(w, bits),
    ensures
        v == w,
{
    let a = choose|a: [F; L]| are_constants(bits, a@) && #[trigger] call_ensures(V::new, (a,), v);
    let b = choose|a: [F; L]| are_constants(bits, a@) && #[trigger] call_ensures(V::new, (a,), w);
    assert forall|i: int| 0 <= i < L implies a[i] == b[i] by {
        assert(is_constant(bits[i], a@[i]));
        assert(is_constant(bits[i], b@[i]));
    }
    assert(a =~= b);
}

} // verus!
