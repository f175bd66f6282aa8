//! Formulas, and the two ways to read one.
//!
//! The numeric kernels of this crate are written over vectors whose arithmetic is supplied from
//! outside (see [`NnVector`]). A [`Formula`] is the tree of the operations that produced a value.
//! It is read in two ways:
//!
//! * [`evals`] relates it to the results that the vector operations returned, operation by
//!   operation, operand by operand. This is what the contracts of the kernels state, and it holds
//!   for every arithmetic, rounding included.
//! * [`exact`] gives the real number that it denotes. This is what the laws about the kernels are
//!   stated over.

use crate::ieee::{f32_finite, f32_value};
use crate::trig::{arc_tangent, is_angle, tangent};
use vstd::prelude::*;

verus! {

/// The vector operations that the kernels are built from, lane by lane over binary32 numbers.
///
/// Nothing is promised of what an operation returns. The contracts of this crate say which
/// operations were applied to which operands.
pub trait NnVector: Copy {
    /// One lane.
    type Element: Copy;

    /// One truth value per lane.
    type Mask: Copy;

    /// Whether [`rsqrt`](Self::rsqrt) is a fast approximation rather than a division and a root.
    fn has_approx_rsqrt() -> bool;

    /// The same number in every lane.
    fn splat(x: Self::Element) -> Self;

    /// The binary32 number with this bit pattern in every lane.
    fn from_bits(bits: u32) -> Self;

    /// The integer, rounded to binary32, in every lane.
    fn from_int(i: i64) -> Self;

    fn add(self, rhs: Self) -> Self;

    fn sub(self, rhs: Self) -> Self;

    fn mul(self, rhs: Self) -> Self;

    fn div(self, rhs: Self) -> Self;

    /// The larger of the two.
    fn max(self, rhs: Self) -> Self;

    /// `self * rhs + acc`, fused where that is fast.
    fn mul_adde(self, rhs: Self, acc: Self) -> Self;

    /// `self * rhs - acc`, fused where that is fast.
    fn mul_sube(self, rhs: Self, acc: Self) -> Self;

    /// `acc - self * rhs`, fused where that is fast.
    fn nmul_adde(self, rhs: Self, acc: Self) -> Self;

    /// `a` where `self` is 0 and `b` where it is 1, linear between.
    fn mix(self, a: Self, b: Self) -> Self;

    /// `self` confined to `lo..=hi`.
    fn clamp(self, lo: Self, hi: Self) -> Self;

    fn neg(self) -> Self;

    fn sqrt(self) -> Self;

    /// `1 / sqrt(self)`, approximately where that is fast.
    fn rsqrt(self) -> Self;

    /// `1 / sqrt(self)`.
    fn inverse_sqrt(self) -> Self;

    /// `1 / self`.
    fn reciprocal(self) -> Self;

    fn cbrt(self) -> Self;

    fn tan(self) -> Self;

    fn atan(self) -> Self;

    /// The Chebyshev series of the first kind with these coefficients, at `self`.
    fn chebyshev(self, coeffs: &[Self::Element; 7]) -> Self;

    fn lanes_gt(self, rhs: Self) -> Self::Mask;

    fn lanes_ge(self, rhs: Self) -> Self::Mask;

    fn lanes_lt(self, rhs: Self) -> Self::Mask;

    fn lanes_le(self, rhs: Self) -> Self::Mask;

    fn mask_and(a: Self::Mask, b: Self::Mask) -> Self::Mask;

    /// `a` where the mask is set and `b` elsewhere.
    fn select(mask: Self::Mask, a: Self, b: Self) -> Self;

    /// `self` where the mask is set and zero elsewhere.
    fn zz(self, mask: Self::Mask) -> Self;
}

/// A vector of `L` lanes.
pub trait Lanes<const L: usize>: NnVector {
    fn new(lanes: [Self::Element; L]) -> Self;

    fn into_array(self) -> [Self::Element; L];
}

/// A single number, seen as a vector of one lane.
pub trait Scalar: NnVector<Element = Self> {
    /// The number rounded towards zero, confined to the range of `usize`.
    fn to_index(self) -> usize;
}

/// The vector types of one instruction set, all over the same numbers.
pub trait NnBackend {
    type F32: Scalar;

    type F32x4: Lanes<4, Element = Self::F32>;

    type F32x8: Lanes<8, Element = Self::F32>;

    type F32x16: Lanes<16, Element = Self::F32>;

    /// Sixteen halves.
    type U16x16: Copy;

    /// Round sixteen numbers to halves.
    fn pack_half(values: Self::F32x16) -> Self::U16x16;

    /// Widen sixteen halves.
    fn unpack_half(packed: Self::U16x16) -> Self::F32x16;
}

pub enum Unary {
    Neg,
    Sqrt,
    Rsqrt,
    InverseSqrt,
    Reciprocal,
    Cbrt,
    Tan,
    Atan,
}

pub enum Binary {
    Add,
    Sub,
    Mul,
    Div,
    Max,
}

pub enum Ternary {
    MulAdde,
    MulSube,
    NmulAdde,
    Mix,
    Clamp,
}

pub enum Relation {
    Gt,
    Ge,
    Lt,
    Le,
}

/// The tree of operations that produced a value. `T` is the type of the values and `S` that of
/// single numbers.
pub enum Formula<T, S> {
    /// A value at hand.
    Val(T),
    /// A number in every lane.
    Splat(S),
    /// A binary32 constant, by its bit pattern.
    Const(u32),
    /// An integer.
    Int(int),
    Un(Unary, Box<Formula<T, S>>),
    Bin(Binary, Box<Formula<T, S>>, Box<Formula<T, S>>),
    Tri(Ternary, Box<Formula<T, S>>, Box<Formula<T, S>>, Box<Formula<T, S>>),
    Chebyshev([S; 7], Box<Formula<T, S>>),
    Select(Box<Condition<T, S>>, Box<Formula<T, S>>, Box<Formula<T, S>>),
    Zz(Box<Condition<T, S>>, Box<Formula<T, S>>),
}

/// The tree of comparisons that produced a mask.
pub enum Condition<T, S> {
    Rel(Relation, Box<Formula<T, S>>, Box<Formula<T, S>>),
    And(Box<Condition<T, S>>, Box<Condition<T, S>>),
}

// ----------------------------------------------------------------------------
// Building formulas
// ----------------------------------------------------------------------------

impl<T, S> Formula<T, S> {
    pub open spec fn un(self, op: Unary) -> Self {
        Formula::Un(op, Box::new(self))
    }

    pub open spec fn bin(self, op: Binary, rhs: Self) -> Self {
        Formula::Bin(op, Box::new(self), Box::new(rhs))
    }

    pub open spec fn tri(self, op: Ternary, b: Self, c: Self) -> Self {
        Formula::Tri(op, Box::new(self), Box::new(b), Box::new(c))
    }

    pub open spec fn rel(self, op: Relation, rhs: Self) -> Condition<T, S> {
        Condition::Rel(op, Box::new(self), Box::new(rhs))
    }

    pub open spec fn add(self, rhs: Self) -> Self {
        self.bin(Binary::Add, rhs)
    }

    pub open spec fn sub(self, rhs: Self) -> Self {
        self.bin(Binary::Sub, rhs)
    }

    pub open spec fn mul(self, rhs: Self) -> Self {
        self.bin(Binary::Mul, rhs)
    }

    pub open spec fn div(self, rhs: Self) -> Self {
        self.bin(Binary::Div, rhs)
    }

    pub open spec fn max(self, rhs: Self) -> Self {
        self.bin(Binary::Max, rhs)
    }

    pub open spec fn mul_adde(self, rhs: Self, acc: Self) -> Self {
        self.tri(Ternary::MulAdde, rhs, acc)
    }

    pub open spec fn mul_sube(self, rhs: Self, acc: Self) -> Self {
        self.tri(Ternary::MulSube, rhs, acc)
    }

    pub open spec fn nmul_adde(self, rhs: Self, acc: Self) -> Self {
        self.tri(Ternary::NmulAdde, rhs, acc)
    }

    pub open spec fn mix(self, a: Self, b: Self) -> Self {
        self.tri(Ternary::Mix, a, b)
    }

    pub open spec fn clamp(self, lo: Self, hi: Self) -> Self {
        self.tri(Ternary::Clamp, lo, hi)
    }

    pub open spec fn neg(self) -> Self {
        self.un(Unary::Neg)
    }

    pub open spec fn sqrt(self) -> Self {
        self.un(Unary::Sqrt)
    }

    pub open spec fn rsqrt(self) -> Self {
        self.un(Unary::Rsqrt)
    }

    pub open spec fn inverse_sqrt(self) -> Self {
        self.un(Unary::InverseSqrt)
    }

    pub open spec fn reciprocal(self) -> Self {
        self.un(Unary::Reciprocal)
    }

    pub open spec fn cbrt(self) -> Self {
        self.un(Unary::Cbrt)
    }

    pub open spec fn tan(self) -> Self {
        self.un(Unary::Tan)
    }

    pub open spec fn atan(self) -> Self {
        self.un(Unary::Atan)
    }

    pub open spec fn chebyshev(self, coeffs: [S; 7]) -> Self {
        Formula::Chebyshev(coeffs, Box::new(self))
    }

    pub open spec fn zz(self, c: Condition<T, S>) -> Self {
        Formula::Zz(Box::new(c), Box::new(self))
    }

    pub open spec fn gt(self, rhs: Self) -> Condition<T, S> {
        self.rel(Relation::Gt, rhs)
    }

    pub open spec fn ge(self, rhs: Self) -> Condition<T, S> {
        self.rel(Relation::Ge, rhs)
    }

    pub open spec fn lt(self, rhs: Self) -> Condition<T, S> {
        self.rel(Relation::Lt, rhs)
    }

    pub open spec fn le(self, rhs: Self) -> Condition<T, S> {
        self.rel(Relation::Le, rhs)
    }
}

impl<T, S> Condition<T, S> {
    pub open spec fn and(self, rhs: Self) -> Self {
        Condition::And(Box::new(self), Box::new(rhs))
    }

    pub open spec fn select(self, a: Formula<T, S>, b: Formula<T, S>) -> Formula<T, S> {
        Formula::Select(Box::new(self), Box::new(a), Box::new(b))
    }
}

// ----------------------------------------------------------------------------
// Reading a formula as the operations of a vector type
// ----------------------------------------------------------------------------

/// `r` is what the operation returned on `x`.
pub open spec fn unary_result<V: NnVector>(op: Unary, x: V, r: V) -> bool {
    match op {
        Unary::Neg => call_ensures(V::neg, (x,), r),
        Unary::Sqrt => call_ensures(V::sqrt, (x,), r),
        Unary::Rsqrt => call_ensures(V::rsqrt, (x,), r),
        Unary::InverseSqrt => call_ensures(V::inverse_sqrt, (x,), r),
        Unary::Reciprocal => call_ensures(V::reciprocal, (x,), r),
        Unary::Cbrt => call_ensures(V::cbrt, (x,), r),
        Unary::Tan => call_ensures(V::tan, (x,), r),
        Unary::Atan => call_ensures(V::atan, (x,), r),
    }
}

/// `r` is what the operation returned on `x` and `y`.
pub open spec fn binary_result<V: NnVector>(op: Binary, x: V, y: V, r: V) -> bool {
    match op {
        Binary::Add => call_ensures(V::add, (x, y), r),
        Binary::Sub => call_ensures(V::sub, (x, y), r),
        Binary::Mul => call_ensures(V::mul, (x, y), r),
        Binary::Div => call_ensures(V::div, (x, y), r),
        Binary::Max => call_ensures(V::max, (x, y), r),
    }
}

/// `r` is what the operation returned on `x`, `y` and `z`.
pub open spec fn ternary_result<V: NnVector>(op: Ternary, x: V, y: V, z: V, r: V) -> bool {
    match op {
        Ternary::MulAdde => call_ensures(V::mul_adde, (x, y, z), r),
        Ternary::MulSube => call_ensures(V::mul_sube, (x, y, z), r),
        Ternary::NmulAdde => call_ensures(V::nmul_adde, (x, y, z), r),
        Ternary::Mix => call_ensures(V::mix, (x, y, z), r),
        Ternary::Clamp => call_ensures(V::clamp, (x, y, z), r),
    }
}

/// `r` is what the comparison returned on `x` and `y`.
pub open spec fn relation_result<V: NnVector>(op: Relation, x: V, y: V, r: V::Mask) -> bool {
    match op {
        Relation::Gt => call_ensures(V::lanes_gt, (x, y), r),
        Relation::Ge => call_ensures(V::lanes_ge, (x, y), r),
        Relation::Lt => call_ensures(V::lanes_lt, (x, y), r),
        Relation::Le => call_ensures(V::lanes_le, (x, y), r),
    }
}

/// `r` is what the series returned at `x`.
pub open spec fn chebyshev_result<V: NnVector>(c: [V::Element; 7], x: V, r: V) -> bool {
    call_ensures(V::chebyshev, (x, &c), r)
}

/// `r` is what the choice between `x` and `y` returned.
pub open spec fn select_result<V: NnVector>(m: V::Mask, x: V, y: V, r: V) -> bool {
    call_ensures(V::select, (m, x, y), r)
}

/// `r` is what zeroing `x` outside the mask returned.
pub open spec fn zz_result<V: NnVector>(m: V::Mask, x: V, r: V) -> bool {
    call_ensures(V::zz, (x, m), r)
}

/// `r` is what the conjunction of two masks returned.
pub open spec fn and_result<V: NnVector>(a: V::Mask, b: V::Mask, r: V::Mask) -> bool {
    call_ensures(V::mask_and, (a, b), r)
}

/// `r` came out of applying the operations of the formula, innermost first.
pub open spec fn evals<V: NnVector>(e: Formula<V, V::Element>, r: V) -> bool
    decreases e,
{
    match e {
        Formula::Val(v) => r == v,
        Formula::Splat(s) => call_ensures(V::splat, (s,), r),
        Formula::Const(b) => call_ensures(V::from_bits, (b,), r),
        Formula::Int(i) => i64::MIN <= i <= i64::MAX && call_ensures(V::from_int, (i as i64,), r),
        Formula::Un(op, a) => exists|x: V| evals(*a, x) && #[trigger] unary_result(op, x, r),
        Formula::Bin(op, a, b) => exists|x: V, y: V|
            evals(*a, x) && evals(*b, y) && #[trigger] binary_result(op, x, y, r),
        Formula::Tri(op, a, b, c) => exists|x: V, y: V, z: V|
            evals(*a, x) && evals(*b, y) && evals(*c, z) && #[trigger] ternary_result(op, x, y, z, r),
        Formula::Chebyshev(c, a) => exists|x: V| evals(*a, x) && #[trigger] chebyshev_result(c, x, r),
        Formula::Select(t, a, b) => exists|m: V::Mask, x: V, y: V|
            holds::<V>(*t, m) && evals(*a, x) && evals(*b, y) && #[trigger] select_result::<V>(m, x, y, r),
        Formula::Zz(t, a) => exists|m: V::Mask, x: V|
            holds::<V>(*t, m) && evals(*a, x) && #[trigger] zz_result::<V>(m, x, r),
    }
}

/// `r` came out of making the comparisons of the condition.
pub open spec fn holds<V: NnVector>(c: Condition<V, V::Element>, r: V::Mask) -> bool
    decreases c,
{
    match c {
        Condition::Rel(op, a, b) => exists|x: V, y: V|
            evals(*a, x) && evals(*b, y) && #[trigger] relation_result(op, x, y, r),
        Condition::And(a, b) => exists|x: V::Mask, y: V::Mask|
            holds::<V>(*a, x) && holds::<V>(*b, y) && #[trigger] and_result::<V>(x, y, r),
    }
}

// ----------------------------------------------------------------------------
// Reading a formula as a real number
// ----------------------------------------------------------------------------

/// `s` is the square root of `x`.
pub open spec fn is_root(x: real, s: real) -> bool {
    s >= 0real && s * s == x
}

/// `s` is the cube root of `x`.
pub open spec fn is_cube_root(x: real, s: real) -> bool {
    s * s * s == x
}

pub open spec fn has_root(x: real) -> bool {
    exists|s: real| is_root(x, s)
}

pub open spec fn has_cube_root(x: real) -> bool {
    exists|s: real| is_cube_root(x, s)
}

/// The square root of a number that has one.
pub open spec fn root(x: real) -> real {
    choose|s: real| is_root(x, s)
}

/// The cube root of a number that has one.
pub open spec fn cube_root(x: real) -> real {
    choose|s: real| is_cube_root(x, s)
}

/// The Chebyshev polynomial of the first kind and of degree `n`, at `x`.
pub open spec fn chebyshev_t(n: nat, x: real) -> real
    decreases n,
{
    if n == 0 {
        1real
    } else if n == 1 {
        x
    } else {
        2real * x * chebyshev_t((n - 1) as nat, x) - chebyshev_t((n - 2) as nat, x)
    }
}

/// The sum of the first `n` terms of a Chebyshev series, at `x`.
pub open spec fn chebyshev_sum(c: Seq<real>, n: nat, x: real) -> real
    decreases n,
{
    if n == 0 {
        0real
    } else {
        chebyshev_sum(c, (n - 1) as nat, x) + c[n - 1] * chebyshev_t((n - 1) as nat, x)
    }
}

/// The result of an operation on a real number that it is defined on.
pub open spec fn unary_value(op: Unary, x: real) -> real {
    match op {
        Unary::Neg => 0real - x,
        Unary::Sqrt => root(x),
        Unary::Rsqrt => 1real / root(x),
        Unary::InverseSqrt => 1real / root(x),
        Unary::Reciprocal => 1real / x,
        Unary::Cbrt => cube_root(x),
        Unary::Tan => tangent(x),
        Unary::Atan => arc_tangent(x),
    }
}

/// Whether an operation is defined on a real number.
pub open spec fn unary_defined(op: Unary, x: real) -> bool {
    match op {
        Unary::Neg => true,
        Unary::Sqrt => has_root(x),
        Unary::Rsqrt => x > 0real && has_root(x),
        Unary::InverseSqrt => x > 0real && has_root(x),
        Unary::Reciprocal => x != 0real,
        Unary::Cbrt => has_cube_root(x),
        Unary::Tan => is_angle(x),
        Unary::Atan => true,
    }
}

/// The result of an operation on two real numbers.
pub open spec fn binary_value(op: Binary, x: real, y: real) -> real {
    match op {
        Binary::Add => x + y,
        Binary::Sub => x - y,
        Binary::Mul => x * y,
        Binary::Div => x / y,
        Binary::Max => if x < y {
            y
        } else {
            x
        },
    }
}

/// Whether an operation is defined on two real numbers, of which `y` is the second.
pub open spec fn binary_defined(op: Binary, y: real) -> bool {
    op is Div ==> y != 0real
}

/// The result of an operation on three real numbers.
pub open spec fn ternary_value(op: Ternary, x: real, y: real, z: real) -> real {
    match op {
        Ternary::MulAdde => x * y + z,
        Ternary::MulSube => x * y - z,
        Ternary::NmulAdde => z - x * y,
        Ternary::Mix => y * (1real - x) + z * x,
        Ternary::Clamp => if x < y {
            y
        } else if z < x {
            z
        } else {
            x
        },
    }
}

/// Whether a relation holds between two real numbers.
pub open spec fn relation_value(op: Relation, x: real, y: real) -> bool {
    match op {
        Relation::Gt => x > y,
        Relation::Ge => x >= y,
        Relation::Lt => x < y,
        Relation::Le => x <= y,
    }
}

/// The real number that a formula denotes, where [`defined`] holds.
pub open spec fn exact(e: Formula<real, real>) -> real
    decreases e,
{
    match e {
        Formula::Val(v) => v,
        Formula::Splat(s) => s,
        Formula::Const(b) => f32_value(b),
        Formula::Int(i) => i as real,
        Formula::Un(op, a) => unary_value(op, exact(*a)),
        Formula::Bin(op, a, b) => binary_value(op, exact(*a), exact(*b)),
        Formula::Tri(op, a, b, c) => ternary_value(op, exact(*a), exact(*b), exact(*c)),
        Formula::Chebyshev(c, a) => chebyshev_sum(c@, 7, exact(*a)),
        Formula::Select(t, a, b) => if exact_holds(*t) {
            exact(*a)
        } else {
            exact(*b)
        },
        Formula::Zz(t, a) => if exact_holds(*t) {
            exact(*a)
        } else {
            0real
        },
    }
}

/// Whether a condition holds of the real numbers that its formulas denote.
pub open spec fn exact_holds(c: Condition<real, real>) -> bool
    decreases c,
{
    match c {
        Condition::Rel(op, a, b) => relation_value(op, exact(*a), exact(*b)),
        Condition::And(a, b) => exact_holds(*a) && exact_holds(*b),
    }
}

/// Whether a formula denotes a real number: finite constants, no division by zero, no root of a
/// number that has none, and no tangent of a number that is no angle.
pub open spec fn defined(e: Formula<real, real>) -> bool
    decreases e,
{
    match e {
        Formula::Val(v) => true,
        Formula::Splat(s) => true,
        Formula::Const(b) => f32_finite(b),
        Formula::Int(i) => true,
        Formula::Un(op, a) => defined(*a) && unary_defined(op, exact(*a)),
        Formula::Bin(op, a, b) => defined(*a) && defined(*b) && binary_defined(op, exact(*b)),
        Formula::Tri(op, a, b, c) => defined(*a) && defined(*b) && defined(*c),
        Formula::Chebyshev(c, a) => defined(*a),
        Formula::Select(t, a, b) => defined_condition(*t) && defined(*a) && defined(*b),
        Formula::Zz(t, a) => defined_condition(*t) && defined(*a),
    }
}

/// Whether the formulas of a condition denote real numbers.
pub open spec fn defined_condition(c: Condition<real, real>) -> bool
    decreases c,
{
    match c {
        Condition::Rel(op, a, b) => defined(*a) && defined(*b),
        Condition::And(a, b) => defined_condition(*a) && defined_condition(*b),
    }
}

} // verus!
