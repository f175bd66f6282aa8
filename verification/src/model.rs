//! From what the kernels compute to what their formulas denote.
//!
//! A [`Model`] reads one lane of a vector type as real numbers. Where every operation of the vector
//! type is exact under it, a value that a formula evaluates to is the number that the formula
//! denotes, so what the laws say of formulas holds of the results of the kernels.

use crate::formula::{
    and_result, binary_result, chebyshev_result, chebyshev_sum, cube_root, defined, defined_condition,
    evals, exact, exact_holds, has_cube_root, has_root, holds, is_cube_root, is_root, relation_result,
    root, select_result, ternary_result, unary_defined, unary_result, unary_value, zz_result, Condition,
    Formula, Lanes, NnVector, Scalar, Unary,
};
use crate::ieee::{f32_finite, f32_value};
use crate::lanes::{are_constants, constant_vector, is_constant, vector_of};
use crate::trig::{arc_tangent, is_angle, tangent};
use vstd::prelude::*;

verus! {

/// A reading of single numbers, of one lane of the vectors, and of one lane of the masks.
#[verifier::reject_recursive_types(V)]
pub struct Model<V: NnVector> {
    pub elem: spec_fn(V::Element) -> real,
    pub lane: spec_fn(V) -> real,
    pub mask: spec_fn(V::Mask) -> bool,
}

/// The readings of seven coefficients.
pub open spec fn map7<A>(f: spec_fn(A) -> real, c: [A; 7]) -> [real; 7] {
    [f(c[0]), f(c[1]), f(c[2]), f(c[3]), f(c[4]), f(c[5]), f(c[6])]
}

impl<V: NnVector> Model<V> {
    /// Constants, integers and broadcast numbers are read as what they are.
    pub open spec fn exact_leaves(self) -> bool {
        &&& forall|x: V::Element, r: V| #[trigger]
            call_ensures(V::splat, (x,), r) ==> (self.lane)(r) == (self.elem)(x)
        &&& forall|b: u32, r: V| #[trigger]
            call_ensures(V::from_bits, (b,), r) && f32_finite(b) ==> (self.lane)(r) == f32_value(b)
        &&& forall|i: i64, r: V| #[trigger]
            call_ensures(V::from_int, (i,), r) ==> (self.lane)(r) == i as real
    }

    /// Addition, subtraction, multiplication, division, the larger of two and the opposite are exact.
    pub open spec fn exact_arithmetic(self) -> bool {
        &&& forall|x: V, y: V, r: V| #[trigger]
            call_ensures(V::add, (x, y), r) ==> (self.lane)(r) == (self.lane)(x) + (self.lane)(y)
        &&& forall|x: V, y: V, r: V| #[trigger]
            call_ensures(V::sub, (x, y), r) ==> (self.lane)(r) == (self.lane)(x) - (self.lane)(y)
        &&& forall|x: V, y: V, r: V| #[trigger]
            call_ensures(V::mul, (x, y), r) ==> (self.lane)(r) == (self.lane)(x) * (self.lane)(y)
        &&& forall|x: V, y: V, r: V| #[trigger]
            call_ensures(V::div, (x, y), r) && (self.lane)(y) != 0real ==> (self.lane)(r) == (self.lane)(x) / (
            self.lane)(y)
        &&& forall|x: V, y: V, r: V| #[trigger]
            call_ensures(V::max, (x, y), r) ==> (self.lane)(r) == if (self.lane)(x) < (self.lane)(y) {
                (self.lane)(y)
            } else {
                (self.lane)(x)
            }
        &&& forall|x: V, r: V| #[trigger] call_ensures(V::neg, (x,), r) ==> (self.lane)(r) == 0real - (self.lane)(x)
        &&& forall|x: V, r: V| #[trigger]
            call_ensures(V::reciprocal, (x,), r) && (self.lane)(x) != 0real ==> (self.lane)(r) == 1real / (self.lane)(
                x,
            )
    }

    /// The operations on three numbers are exact.
    pub open spec fn exact_combinations(self) -> bool {
        &&& forall|x: V, y: V, z: V, r: V| #[trigger]
            call_ensures(V::mul_adde, (x, y, z), r) ==> (self.lane)(r) == (self.lane)(x) * (self.lane)(y) + (
            self.lane)(z)
        &&& forall|x: V, y: V, z: V, r: V| #[trigger]
            call_ensures(V::mul_sube, (x, y, z), r) ==> (self.lane)(r) == (self.lane)(x) * (self.lane)(y) - (
            self.lane)(z)
        &&& forall|x: V, y: V, z: V, r: V| #[trigger]
            call_ensures(V::nmul_adde, (x, y, z), r) ==> (self.lane)(r) == (self.lane)(z) - (self.lane)(x) * (
            self.lane)(y)
        &&& forall|x: V, y: V, z: V, r: V| #[trigger]
            call_ensures(V::mix, (x, y, z), r) ==> (self.lane)(r) == (self.lane)(y) * (1real - (self.lane)(x)) + (
            self.lane)(z) * (self.lane)(x)
        &&& forall|x: V, y: V, z: V, r: V| #[trigger]
            call_ensures(V::clamp, (x, y, z), r) ==> (self.lane)(r) == if (self.lane)(x) < (self.lane)(y) {
                (self.lane)(y)
            } else if (self.lane)(z) < (self.lane)(x) {
                (self.lane)(z)
            } else {
                (self.lane)(x)
            }
    }

    /// Roots, angles and the Chebyshev series are exact wherever there is a result.
    pub open spec fn exact_functions(self) -> bool {
        &&& forall|x: V, r: V| #[trigger]
            call_ensures(V::sqrt, (x,), r) && has_root((self.lane)(x)) ==> is_root((self.lane)(x), (self.lane)(r))
        &&& forall|x: V, r: V| #[trigger]
            call_ensures(V::rsqrt, (x,), r) && (self.lane)(x) > 0real && has_root((self.lane)(x)) ==> is_inverse_root(
                (self.lane)(x),
                (self.lane)(r),
            )
        &&& forall|x: V, r: V| #[trigger]
            call_ensures(V::inverse_sqrt, (x,), r) && (self.lane)(x) > 0real && has_root((self.lane)(x))
                ==> is_inverse_root((self.lane)(x), (self.lane)(r))
        &&& forall|x: V, r: V| #[trigger]
            call_ensures(V::cbrt, (x,), r) && has_cube_root((self.lane)(x)) ==> is_cube_root(
                (self.lane)(x),
                (self.lane)(r),
            )
        &&& forall|x: V, r: V| #[trigger]
            call_ensures(V::tan, (x,), r) && is_angle((self.lane)(x)) ==> (self.lane)(r) == tangent((self.lane)(x))
        &&& forall|x: V, r: V| #[trigger]
            call_ensures(V::atan, (x,), r) ==> (self.lane)(r) == arc_tangent((self.lane)(x))
        &&& forall|c: [V::Element; 7], x: V, r: V| #[trigger]
            call_ensures(V::chebyshev, (x, &c), r) ==> (self.lane)(r) == chebyshev_sum(
                map7(self.elem, c)@,
                7,
                (self.lane)(x),
            )
    }

    /// Comparisons and choices go by the numbers.
    pub open spec fn exact_choices(self) -> bool {
        &&& forall|x: V, y: V, r: V::Mask| #[trigger]
            call_ensures(V::lanes_gt, (x, y), r) ==> (self.mask)(r) == ((self.lane)(x) > (self.lane)(y))
        &&& forall|x: V, y: V, r: V::Mask| #[trigger]
            call_ensures(V::lanes_ge, (x, y), r) ==> (self.mask)(r) == ((self.lane)(x) >= (self.lane)(y))
        &&& forall|x: V, y: V, r: V::Mask| #[trigger]
            call_ensures(V::lanes_lt, (x, y), r) ==> (self.mask)(r) == ((self.lane)(x) < (self.lane)(y))
        &&& forall|x: V, y: V, r: V::Mask| #[trigger]
            call_ensures(V::lanes_le, (x, y), r) ==> (self.mask)(r) == ((self.lane)(x) <= (self.lane)(y))
        &&& forall|a: V::Mask, b: V::Mask, r: V::Mask| #[trigger]
            call_ensures(V::mask_and, (a, b), r) ==> (self.mask)(r) == ((self.mask)(a) && (self.mask)(b))
        &&& forall|m: V::Mask, x: V, y: V, r: V| #[trigger]
            call_ensures(V::select, (m, x, y), r) ==> (self.lane)(r) == if (self.mask)(m) {
                (self.lane)(x)
            } else {
                (self.lane)(y)
            }
        &&& forall|m: V::Mask, x: V, r: V| #[trigger]
            call_ensures(V::zz, (x, m), r) ==> (self.lane)(r) == if (self.mask)(m) {
                (self.lane)(x)
            } else {
                0real
            }
    }

    /// Every operation is exact.
    pub open spec fn is_exact(self) -> bool {
        &&& self.exact_leaves()
        &&& self.exact_arithmetic()
        &&& self.exact_combinations()
        &&& self.exact_functions()
        &&& self.exact_choices()
    }

    /// The formula over the numbers that the values of a formula are read as.
    pub open spec fn denote(self, e: Formula<V, V::Element>) -> Formula<real, real>
        decreases e,
    {
        match e {
            Formula::Val(v) => Formula::Val((self.lane)(v)),
            Formula::Splat(s) => Formula::Splat((self.elem)(s)),
            Formula::Const(b) => Formula::Const(b),
            Formula::Int(i) => Formula::Int(i),
            Formula::Un(op, a) => self.denote(*a).un(op),
            Formula::Bin(op, a, b) => self.denote(*a).bin(op, self.denote(*b)),
            Formula::Tri(op, a, b, c) => self.denote(*a).tri(op, self.denote(*b), self.denote(*c)),
            Formula::Chebyshev(c, a) => self.denote(*a).chebyshev(map7(self.elem, c)),
            Formula::Select(t, a, b) => self.denote_condition(*t).select(self.denote(*a), self.denote(*b)),
            Formula::Zz(t, a) => self.denote(*a).zz(self.denote_condition(*t)),
        }
    }

    /// The condition over the numbers that the values of a condition are read as.
    pub open spec fn denote_condition(self, c: Condition<V, V::Element>) -> Condition<real, real>
        decreases c,
    {
        match c {
            Condition::Rel(op, a, b) => self.denote(*a).rel(op, self.denote(*b)),
            Condition::And(a, b) => self.denote_condition(*a).and(self.denote_condition(*b)),
        }
    }
}

/// `r` is one over the square root of `x`.
pub open spec fn is_inverse_root(x: real, r: real) -> bool {
    r > 0real && r * r * x == 1real
}

/// A number has one square root.
pub proof fn lemma_root_unique(x: real, s: real)
    requires
        is_root(x, s),
    ensures
        root(x) == s,
{
    let t = root(x);
    assert(is_root(x, t));
    assert(t == s) by (nonlinear_arith)
        requires
            s >= 0real,
            t >= 0real,
            s * s == t * t,
    ;
}

/// A number has one cube root.
pub proof fn lemma_cube_root_unique(x: real, s: real)
    requires
        is_cube_root(x, s),
    ensures
        cube_root(x) == s,
{
    let t = cube_root(x);
    assert(is_cube_root(x, t));
    let d = s - t;
    let q = s * s + s * t + t * t;
    assert(d * q == 0real && 4real * q == (2real * s + t) * (2real * s + t) + 3real * (t * t)) by (nonlinear_arith)
        requires
            s * s * s == t * t * t,
            d == s - t,
            q == s * s + s * t + t * t,
    ;
    if d != 0real {
        assert(q == 0real) by (nonlinear_arith)
            requires
                d * q == 0real,
                d != 0real,
        ;
        let u = 2real * s + t;
        assert(t == 0real && u == 0real) by (nonlinear_arith)
            requires
                u * u + 3real * (t * t) == 0real,
        ;
    }
}

/// One over the square root.
pub proof fn lemma_inverse_root(x: real, r: real)
    requires
        x > 0real,
        has_root(x),
        is_inverse_root(x, r),
    ensures
        root(x) > 0real,
        r == 1real / root(x),
{
    let s = root(x);
    assert(is_root(x, s));
    assert(s > 0real) by (nonlinear_arith)
        requires
            s >= 0real,
            s * s == x,
            x > 0real,
    ;
    let p = r * s;
    assert(p * p == 1real && p > 0real) by (nonlinear_arith)
        requires
            p == r * s,
            r * r * x == 1real,
            s * s == x,
            r > 0real,
            s > 0real,
    ;
    assert(p == 1real) by (nonlinear_arith)
        requires
            p * p == 1real,
            p > 0real,
    ;
    assert(r == 1real / s) by (nonlinear_arith)
        requires
            r * s == 1real,
            s > 0real,
    ;
}

/// An operation on one number is exact.
proof fn lemma_unary_exact<V: NnVector>(m: Model<V>, op: Unary, x: V, r: V)
    requires
        m.is_exact(),
        unary_result(op, x, r),
        unary_defined(op, (m.lane)(x)),
    ensures
        (m.lane)(r) == unary_value(op, (m.lane)(x)),
{
    let a = (m.lane)(x);
    let b = (m.lane)(r);
    match op {
        Unary::Sqrt => {
            lemma_root_unique(a, b);
        },
        Unary::Rsqrt => {
            lemma_inverse_root(a, b);
        },
        Unary::InverseSqrt => {
            lemma_inverse_root(a, b);
        },
        Unary::Cbrt => {
            lemma_cube_root_unique(a, b);
        },
        _ => {},
    }
}

/// What a formula evaluates to is what it denotes, where the operations are exact.
pub proof fn law_evals_exact<V: NnVector>(m: Model<V>, e: Formula<V, V::Element>, r: V)
    requires
        m.is_exact(),
        evals(e, r),
        defined(m.denote(e)),
    ensures
        (m.lane)(r) == exact(m.denote(e)),
    decreases e,
{
    match e {
        Formula::Val(v) => {},
        Formula::Splat(s) => {},
        Formula::Const(b) => {},
        Formula::Int(i) => {},
        Formula::Un(op, a) => {
            let x = choose|x: V| evals(*a, x) && #[trigger] unary_result(op, x, r);
            law_evals_exact(m, *a, x);
            lemma_unary_exact(m, op, x, r);
        },
        Formula::Bin(op, a, b) => {
            let (x, y) = choose|x: V, y: V|
                evals(*a, x) && evals(*b, y) && #[trigger] binary_result(op, x, y, r);
            law_evals_exact(m, *a, x);
            law_evals_exact(m, *b, y);
        },
        Formula::Tri(op, a, b, c) => {
            let (x, y, z) = choose|x: V, y: V, z: V|
                evals(*a, x) && evals(*b, y) && evals(*c, z) && #[trigger] ternary_result(op, x, y, z, r);
            law_evals_exact(m, *a, x);
            law_evals_exact(m, *b, y);
            law_evals_exact(m, *c, z);
        },
        Formula::Chebyshev(c, a) => {
            let x = choose|x: V| evals(*a, x) && #[trigger] chebyshev_result(c, x, r);
            law_evals_exact(m, *a, x);
        },
        Formula::Select(t, a, b) => {
            let (k, x, y) = choose|k: V::Mask, x: V, y: V|
                holds::<V>(*t, k) && evals(*a, x) && evals(*b, y) && #[trigger] select_result::<V>(k, x, y, r);
            lemma_holds_exact(m, *t, k);
            law_evals_exact(m, *a, x);
            law_evals_exact(m, *b, y);
        },
        Formula::Zz(t, a) => {
            let (k, x) = choose|k: V::Mask, x: V|
                holds::<V>(*t, k) && evals(*a, x) && #[trigger] zz_result::<V>(k, x, r);
            lemma_holds_exact(m, *t, k);
            law_evals_exact(m, *a, x);
        },
    }
}

/// What a condition evaluates to is whether it holds, where the operations are exact.
pub proof fn lemma_holds_exact<V: NnVector>(m: Model<V>, c: Condition<V, V::Element>, r: V::Mask)
    requires
        m.is_exact(),
        holds::<V>(c, r),
        defined_condition(m.denote_condition(c)),
    ensures
        (m.mask)(r) == exact_holds(m.denote_condition(c)),
    decreases c,
{
    match c {
        Condition::Rel(op, a, b) => {
            let (x, y) = choose|x: V, y: V|
                evals(*a, x) && evals(*b, y) && #[trigger] relation_result(op, x, y, r);
            law_evals_exact(m, *a, x);
            law_evals_exact(m, *b, y);
        },
        Condition::And(a, b) => {
            let (x, y) = choose|x: V::Mask, y: V::Mask|
                holds::<V>(*a, x) && holds::<V>(*b, y) && #[trigger] and_result::<V>(x, y, r);
            lemma_holds_exact(m, *a, x);
            lemma_holds_exact(m, *b, y);
        },
    }
}

/// The model reads lane `l`.
pub open spec fn reads_lane<V: Lanes<L>, const L: usize>(m: Model<V>, l: int) -> bool {
    &&& forall|arr: [V::Element; L], v: V| #[trigger]
        call_ensures(V::new, (arr,), v) ==> (m.lane)(v) == (m.elem)(arr[l])
    &&& forall|v: V, arr: [V::Element; L]| #[trigger]
        call_ensures(V::into_array, (v,), arr) ==> (m.elem)(arr[l]) == (m.lane)(v)
}

/// Every number that is not negative has a square root.
pub open spec fn roots_exist() -> bool {
    forall|x: real| x >= 0real ==> #[trigger] has_root(x)
}

/// Every number has a cube root.
pub open spec fn cube_roots_exist() -> bool {
    forall|x: real| #[trigger] has_cube_root(x)
}

/// Numbers read as real numbers.
pub open spec fn read_all<A>(f: spec_fn(A) -> real, xs: Seq<A>) -> Seq<real> {
    Seq::new(xs.len(), |i: int| f(xs[i]))
}

/// An exact reading of single numbers.
pub open spec fn reads_numbers<F: Scalar>(s: Model<F>) -> bool {
    s.is_exact() && s.elem == s.lane
}

/// Exact readings of all lanes of a vector type, which read single numbers as `s` does.
pub open spec fn reads_lanes<F: Scalar, V: Lanes<L, Element = F>, const L: usize>(
    s: Model<F>,
    v: spec_fn(int) -> Model<V>,
) -> bool {
    forall|l: int|
        0 <= l < L ==> (#[trigger] v(l)).is_exact() && v(l).elem == s.elem && reads_lane::<V, L>(v(l), l)
}

/// A lane of a vector that was made of given lanes.
pub proof fn lemma_lane_of<F: Scalar, V: Lanes<L, Element = F>, const L: usize>(
    s: Model<F>,
    v: spec_fn(int) -> Model<V>,
    x: V,
    lanes: Seq<F>,
    l: int,
)
    requires
        reads_lanes::<F, V, L>(s, v),
        vector_of::<V, L>(x, lanes),
        0 <= l < L,
    ensures
        (v(l).lane)(x) == (s.elem)(lanes[l]),
{
    let arr = choose|arr: [F; L]| arr@ == lanes && #[trigger] call_ensures(V::new, (arr,), x);
    assert(v(l).is_exact());
    assert((v(l).lane)(x) == (v(l).elem)(arr[l]));
}

/// A lane of a vector of constants.
pub proof fn lemma_constant_lane<F: Scalar, V: Lanes<L, Element = F>, const L: usize>(
    s: Model<F>,
    v: spec_fn(int) -> Model<V>,
    x: V,
    bits: Seq<u32>,
    l: int,
)
    requires
        reads_numbers(s),
        reads_lanes::<F, V, L>(s, v),
        constant_vector::<V, F, L>(x, bits),
        0 <= l < L,
        f32_finite(bits[l]),
    ensures
        (v(l).lane)(x) == f32_value(bits[l]),
{
    let arr = choose|arr: [F; L]| are_constants(bits, arr@) && #[trigger] call_ensures(V::new, (arr,), x);
    assert(v(l).is_exact());
    assert((v(l).lane)(x) == (v(l).elem)(arr[l]));
    assert(is_constant(bits[l], arr@[l]));
}

} // verus!
