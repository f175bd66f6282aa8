//! Vectors made of given lanes.

use crate::formula::{Lanes, Scalar};
use vstd::prelude::*;

verus! {

/// The vector was made of these lanes.
pub open spec fn vector_of<V: Lanes<L>, const L: usize>(v: V, lanes: Seq<V::Element>) -> bool {
    exists|arr: [V::Element; L]| arr@ == lanes && #[trigger] call_ensures(V::new, (arr,), v)
}

/// The number has this bit pattern.
pub open spec fn is_constant<F: Scalar>(bits: u32, x: F) -> bool {
    call_ensures(F::from_bits, (bits,), x)
}

/// The numbers have these bit patterns.
pub open spec fn are_constants<F: Scalar>(bits: Seq<u32>, xs: Seq<F>) -> bool {
    &&& xs.len() == bits.len()
    &&& forall|i: int| 0 <= i < bits.len() ==> #[trigger] is_constant(bits[i], xs[i])
}

/// The vector was made of lanes with these bit patterns.
pub open spec fn constant_vector<V: Lanes<L, Element = F>, F: Scalar, const L: usize>(
    v: V,
    bits: Seq<u32>,
) -> bool {
    exists|arr: [F; L]| are_constants(bits, arr@) && #[trigger] call_ensures(V::new, (arr,), v)
}

/// A vector of these bit patterns.
pub fn constants4<F: Scalar, V: Lanes<4, Element = F>>(b: [u32; 4]) -> (r: V)
    ensures
        constant_vector::<V, F, 4>(r, b@),
{
    let arr: [F; 4] = [
        F::from_bits(b[0]),
        F::from_bits(b[1]),
        F::from_bits(b[2]),
        F::from_bits(b[3]),
    ];
    assert(are_constants(b@, arr@)) by {
        assert forall|i: int| 0 <= i < 4 implies #[trigger] is_constant(b@[i], arr@[i]) by {
            assert(i == 0 || i == 1 || i == 2 || i == 3);
        }
    }
    V::new(arr)
}

/// A vector of these bit patterns.
pub fn constants8<F: Scalar, V: Lanes<8, Element = F>>(b: [u32; 8]) -> (r: V)
    ensures
        constant_vector::<V, F, 8>(r, b@),
{
    let arr: [F; 8] = [
        F::from_bits(b[0]),
        F::from_bits(b[1]),
        F::from_bits(b[2]),
        F::from_bits(b[3]),
        F::from_bits(b[4]),
        F::from_bits(b[5]),
        F::from_bits(b[6]),
        F::from_bits(b[7]),
    ];
    assert(are_constants(b@, arr@)) by {
        assert forall|i: int| 0 <= i < 8 implies #[trigger] is_constant(b@[i], arr@[i]) by {
            assert(i == 0 || i == 1 || i == 2 || i == 3 || i == 4 || i == 5 || i == 6 || i == 7);
        }
    }
    V::new(arr)
}

/// The vector of the `L` numbers from an offset on.
pub fn load<F: Scalar, V: Lanes<L, Element = F>, const L: usize>(data: &[F], at: usize) -> (r: V)
    requires
        1 <= L,
        at + L <= data@.len(),
    ensures
        vector_of::<V, L>(r, data@.subrange(at as int, at + L)),
{
    let n: usize = data.len();
    let mut arr: [F; L] = [data[at];L];
    let mut i: usize = 0;
    while i < L
        invariant
            i <= L,
            n == data@.len(),
            at + L <= n,
            forall|k: int| 0 <= k < i ==> #[trigger] arr@[k] == data@[at + k],
        decreases L - i,
    {
        arr[i] = data[at + i];
        i = i + 1;
    }
    assert(arr@ =~= data@.subrange(at as int, at + L));
    V::new(arr)
}

} // verus!
