//! Values that carry their formula.
//!
//! A [`Term`] is a vector together with the [`Formula`] of the operations that produced it, and a
//! [`Cond`] is a mask together with its [`Condition`]. The formulas are ghost: a term is the bare
//! vector once compiled. Each operation applies the vector operation and extends the formula, so a
//! kernel written over terms ends with a value that its formula evaluates to.

use crate::formula::{
    and_result, binary_result, chebyshev_result, evals, holds, relation_result, select_result,
    ternary_result, unary_result, zz_result, Binary, Condition, Formula, NnVector, Relation,
    Ternary, Unary,
};
use vstd::prelude::*;

verus! {

/// A vector and the formula that it evaluates.
pub struct Term<V: NnVector> {
    value: V,
    ghost_formula: Ghost<Formula<V, V::Element>>,
}

/// A mask and the condition that it evaluates.
pub struct Cond<V: NnVector> {
    mask: V::Mask,
    ghost_condition: Ghost<Condition<V, V::Element>>,
}

impl<V: NnVector> Copy for Term<V> {

}

impl<V: NnVector> Clone for Term<V> {
    fn clone(&self) -> (r: Self)
        ensures
            r == *self,
    {
        *self
    }
}

impl<V: NnVector> Copy for Cond<V> {

}

impl<V: NnVector> Clone for Cond<V> {
    fn clone(&self) -> (r: Self)
        ensures
            r == *self,
    {
        *self
    }
}

impl<V: NnVector> Term<V> {
    pub closed spec fn formula(self) -> Formula<V, V::Element> {
        self.ghost_formula@
    }

    #[verifier::type_invariant]
    spec fn inv(self) -> bool {
        evals(self.ghost_formula@, self.value)
    }

    /// The value.
    pub fn value(self) -> (r: V)
        ensures
            evals(self.formula(), r),
    {
        proof {
            use_type_invariant(self);
        }
        self.value
    }

    /// A value at hand.
    pub fn val(value: V) -> (r: Self)
        ensures
            r.formula() == Formula::<V, V::Element>::Val(value),
    {
        Term { value, ghost_formula: Ghost(Formula::Val(value)) }
    }

    /// A number in every lane.
    pub fn splat(x: V::Element) -> (r: Self)
        ensures
            r.formula() == Formula::<V, V::Element>::Splat(x),
    {
        let value = V::splat(x);
        Term { value, ghost_formula: Ghost(Formula::Splat(x)) }
    }

    /// A binary32 constant, by its bit pattern.
    pub fn constant(bits: u32) -> (r: Self)
        ensures
            r.formula() == Formula::<V, V::Element>::Const(bits),
    {
        let value = V::from_bits(bits);
        Term { value, ghost_formula: Ghost(Formula::Const(bits)) }
    }

    /// An integer.
    pub fn integer(i: i64) -> (r: Self)
        ensures
            r.formula() == Formula::<V, V::Element>::Int(i as int),
    {
        let value = V::from_int(i);
        let ghost f = Formula::<V, V::Element>::Int(i as int);
        assert(evals(f, value));
        Term { value, ghost_formula: Ghost(f) }
    }

    pub fn neg(self) -> (r: Self)
        ensures
            r.formula() == self.formula().neg(),
    {
        proof {
            use_type_invariant(self);
        }
        let value = self.value.neg();
        assert(unary_result(Unary::Neg, self.value, value));
        Term { value, ghost_formula: Ghost(self.ghost_formula@.neg()) }
    }

    pub fn sqrt(self) -> (r: Self)
        ensures
            r.formula() == self.formula().sqrt(),
    {
        proof {
            use_type_invariant(self);
        }
        let value = self.value.sqrt();
        assert(unary_result(Unary::Sqrt, self.value, value));
        Term { value, ghost_formula: Ghost(self.ghost_formula@.sqrt()) }
    }

    pub fn rsqrt(self) -> (r: Self)
        ensures
            r.formula() == self.formula().rsqrt(),
    {
        proof {
            use_type_invariant(self);
        }
        let value = self.value.rsqrt();
        assert(unary_result(Unary::Rsqrt, self.value, value));
        Term { value, ghost_formula: Ghost(self.ghost_formula@.rsqrt()) }
    }

    pub fn inverse_sqrt(self) -> (r: Self)
        ensures
            r.formula() == self.formula().inverse_sqrt(),
    {
        proof {
            use_type_invariant(self);
        }
        let value = self.value.inverse_sqrt();
        assert(unary_result(Unary::InverseSqrt, self.value, value));
        Term { value, ghost_formula: Ghost(self.ghost_formula@.inverse_sqrt()) }
    }

    pub fn reciprocal(self) -> (r: Self)
        ensures
            r.formula() == self.formula().reciprocal(),
    {
        proof {
            use_type_invariant(self);
        }
        let value = self.value.reciprocal();
        assert(unary_result(Unary::Reciprocal, self.value, value));
        Term { value, ghost_formula: Ghost(self.ghost_formula@.reciprocal()) }
    }

    pub fn cbrt(self) -> (r: Self)
        ensures
            r.formula() == self.formula().cbrt(),
    {
        proof {
            use_type_invariant(self);
        }
        let value = self.value.cbrt();
        assert(unary_result(Unary::Cbrt, self.value, value));
        Term { value, ghost_formula: Ghost(self.ghost_formula@.cbrt()) }
    }

    pub fn tan(self) -> (r: Self)
        ensures
            r.formula() == self.formula().tan(),
    {
        proof {
            use_type_invariant(self);
        }
        let value = self.value.tan();
        assert(unary_result(Unary::Tan, self.value, value));
        Term { value, ghost_formula: Ghost(self.ghost_formula@.tan()) }
    }

    pub fn atan(self) -> (r: Self)
        ensures
            r.formula() == self.formula().atan(),
    {
        proof {
            use_type_invariant(self);
        }
        let value = self.value.atan();
        assert(unary_result(Unary::Atan, self.value, value));
        Term { value, ghost_formula: Ghost(self.ghost_formula@.atan()) }
    }

    pub fn add(self, rhs: Self) -> (r: Self)
        ensures
            r.formula() == self.formula().add(rhs.formula()),
    {
        proof {
            use_type_invariant(self);
            use_type_invariant(rhs);
        }
        let value = self.value.add(rhs.value);
        assert(binary_result(Binary::Add, self.value, rhs.value, value));
        Term { value, ghost_formula: Ghost(self.ghost_formula@.add(rhs.ghost_formula@)) }
    }

    pub fn sub(self, rhs: Self) -> (r: Self)
        ensures
            r.formula() == self.formula().sub(rhs.formula()),
    {
        proof {
            use_type_invariant(self);
            use_type_invariant(rhs);
        }
        let value = self.value.sub(rhs.value);
        assert(binary_result(Binary::Sub, self.value, rhs.value, value));
        Term { value, ghost_formula: Ghost(self.ghost_formula@.sub(rhs.ghost_formula@)) }
    }

    pub fn mul(self, rhs: Self) -> (r: Self)
        ensures
            r.formula() == self.formula().mul(rhs.formula()),
    {
        proof {
            use_type_invariant(self);
            use_type_invariant(rhs);
        }
        let value = self.value.mul(rhs.value);
        assert(binary_result(Binary::Mul, self.value, rhs.value, value));
        Term { value, ghost_formula: Ghost(self.ghost_formula@.mul(rhs.ghost_formula@)) }
    }

    pub fn div(self, rhs: Self) -> (r: Self)
        ensures
            r.formula() == self.formula().div(rhs.formula()),
    {
        proof {
            use_type_invariant(self);
            use_type_invariant(rhs);
        }
        let value = self.value.div(rhs.value);
        assert(binary_result(Binary::Div, self.value, rhs.value, value));
        Term { value, ghost_formula: Ghost(self.ghost_formula@.div(rhs.ghost_formula@)) }
    }

    pub fn max(self, rhs: Self) -> (r: Self)
        ensures
            r.formula() == self.formula().max(rhs.formula()),
    {
        proof {
            use_type_invariant(self);
            use_type_invariant(rhs);
        }
        let value = self.value.max(rhs.value);
        assert(binary_result(Binary::Max, self.value, rhs.value, value));
        Term { value, ghost_formula: Ghost(self.ghost_formula@.max(rhs.ghost_formula@)) }
    }

    pub fn mul_adde(self, rhs: Self, acc: Self) -> (r: Self)
        ensures
            r.formula() == self.formula().mul_adde(rhs.formula(), acc.formula()),
    {
        proof {
            use_type_invariant(self);
            use_type_invariant(rhs);
            use_type_invariant(acc);
        }
        let value = self.value.mul_adde(rhs.value, acc.value);
        assert(ternary_result(Ternary::MulAdde, self.value, rhs.value, acc.value, value));
        Term { value, ghost_formula: Ghost(self.ghost_formula@.mul_adde(rhs.ghost_formula@, acc.ghost_formula@)) }
    }

    pub fn mul_sube(self, rhs: Self, acc: Self) -> (r: Self)
        ensures
            r.formula() == self.formula().mul_sube(rhs.formula(), acc.formula()),
    {
        proof {
            use_type_invariant(self);
            use_type_invariant(rhs);
            use_type_invariant(acc);
        }
        let value = self.value.mul_sube(rhs.value, acc.value);
        assert(ternary_result(Ternary::MulSube, self.value, rhs.value, acc.value, value));
        Term { value, ghost_formula: Ghost(self.ghost_formula@.mul_sube(rhs.ghost_formula@, acc.ghost_formula@)) }
    }

    pub fn nmul_adde(self, rhs: Self, acc: Self) -> (r: Self)
        ensures
            r.formula() == self.formula().nmul_adde(rhs.formula(), acc.formula()),
    {
        proof {
            use_type_invariant(self);
            use_type_invariant(rhs);
            use_type_invariant(acc);
        }
        let value = self.value.nmul_adde(rhs.value, acc.value);
        assert(ternary_result(Ternary::NmulAdde, self.value, rhs.value, acc.value, value));
        Term { value, ghost_formula: Ghost(self.ghost_formula@.nmul_adde(rhs.ghost_formula@, acc.ghost_formula@)) }
    }

    pub fn mix(self, a: Self, b: Self) -> (r: Self)
        ensures
            r.formula() == self.formula().mix(a.formula(), b.formula()),
    {
        proof {
            use_type_invariant(self);
            use_type_invariant(a);
            use_type_invariant(b);
        }
        let value = self.value.mix(a.value, b.value);
        assert(ternary_result(Ternary::Mix, self.value, a.value, b.value, value));
        Term { value, ghost_formula: Ghost(self.ghost_formula@.mix(a.ghost_formula@, b.ghost_formula@)) }
    }

    pub fn clamp(self, lo: Self, hi: Self) -> (r: Self)
        ensures
            r.formula() == self.formula().clamp(lo.formula(), hi.formula()),
    {
        proof {
            use_type_invariant(self);
            use_type_invariant(lo);
            use_type_invariant(hi);
        }
        let value = self.value.clamp(lo.value, hi.value);
        assert(ternary_result(Ternary::Clamp, self.value, lo.value, hi.value, value));
        Term { value, ghost_formula: Ghost(self.ghost_formula@.clamp(lo.ghost_formula@, hi.ghost_formula@)) }
    }

    pub fn chebyshev(self, coeffs: &[V::Element; 7]) -> (r: Self)
        ensures
            r.formula() == self.formula().chebyshev(*coeffs),
    {
        proof {
            use_type_invariant(self);
        }
        let value = self.value.chebyshev(coeffs);
        let ghost c = *coeffs;
        let ghost f = self.ghost_formula@.chebyshev(c);
        assert(chebyshev_result(c, self.value, value));
        assert(f matches Formula::Chebyshev(d, a) && d == c && *a == self.ghost_formula@);
        Term { value, ghost_formula: Ghost(f) }
    }

    pub fn zz(self, c: Cond<V>) -> (r: Self)
        ensures
            r.formula() == self.formula().zz(c.condition()),
    {
        proof {
            use_type_invariant(self);
            use_type_invariant(c);
        }
        let value = self.value.zz(c.mask);
        assert(zz_result::<V>(c.mask, self.value, value));
        Term { value, ghost_formula: Ghost(self.ghost_formula@.zz(c.ghost_condition@)) }
    }

    pub fn gt(self, rhs: Self) -> (r: Cond<V>)
        ensures
            r.condition() == self.formula().gt(rhs.formula()),
    {
        proof {
            use_type_invariant(self);
            use_type_invariant(rhs);
        }
        let mask = self.value.lanes_gt(rhs.value);
        assert(relation_result(Relation::Gt, self.value, rhs.value, mask));
        Cond { mask, ghost_condition: Ghost(self.ghost_formula@.gt(rhs.ghost_formula@)) }
    }

    pub fn ge(self, rhs: Self) -> (r: Cond<V>)
        ensures
            r.condition() == self.formula().ge(rhs.formula()),
    {
        proof {
            use_type_invariant(self);
            use_type_invariant(rhs);
        }
        let mask = self.value.lanes_ge(rhs.value);
        assert(relation_result(Relation::Ge, self.value, rhs.value, mask));
        Cond { mask, ghost_condition: Ghost(self.ghost_formula@.ge(rhs.ghost_formula@)) }
    }

    pub fn lt(self, rhs: Self) -> (r: Cond<V>)
        ensures
            r.condition() == self.formula().lt(rhs.formula()),
    {
        proof {
            use_type_invariant(self);
            use_type_invariant(rhs);
        }
        let mask = self.value.lanes_lt(rhs.value);
        assert(relation_result(Relation::Lt, self.value, rhs.value, mask));
        Cond { mask, ghost_condition: Ghost(self.ghost_formula@.lt(rhs.ghost_formula@)) }
    }

    pub fn le(self, rhs: Self) -> (r: Cond<V>)
        ensures
            r.condition() == self.formula().le(rhs.formula()),
    {
        proof {
            use_type_invariant(self);
            use_type_invariant(rhs);
        }
        let mask = self.value.lanes_le(rhs.value);
        assert(relation_result(Relation::Le, self.value, rhs.value, mask));
        Cond { mask, ghost_condition: Ghost(self.ghost_formula@.le(rhs.ghost_formula@)) }
    }
}

impl<V: NnVector> Cond<V> {
    pub closed spec fn condition(self) -> Condition<V, V::Element> {
        self.ghost_condition@
    }

    #[verifier::type_invariant]
    spec fn inv(self) -> bool {
        holds::<V>(self.ghost_condition@, self.mask)
    }

    pub fn and(self, rhs: Self) -> (r: Self)
        ensures
            r.condition() == self.condition().and(rhs.condition()),
    {
        proof {
            use_type_invariant(self);
            use_type_invariant(rhs);
        }
        let mask = V::mask_and(self.mask, rhs.mask);
        assert(and_result::<V>(self.mask, rhs.mask, mask));
        Cond { mask, ghost_condition: Ghost(self.ghost_condition@.and(rhs.ghost_condition@)) }
    }

    pub fn select(self, a: Term<V>, b: Term<V>) -> (r: Term<V>)
        ensures
            r.formula() == self.condition().select(a.formula(), b.formula()),
    {
        proof {
            use_type_invariant(self);
            use_type_invariant(a);
            use_type_invariant(b);
        }
        let value = V::select(self.mask, a.value, b.value);
        assert(select_result::<V>(self.mask, a.value, b.value, value));
        Term {
            value,
            ghost_formula: Ghost(self.ghost_condition@.select(a.ghost_formula@, b.ghost_formula@)),
        }
    }
}

} // verus!
