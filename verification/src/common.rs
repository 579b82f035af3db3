//! Small helpers shared by the crate.
use vstd::prelude::*;
use vstd::std_specs::cmp::PartialEqSpec;

verus! {

/// Two sequences are element-wise equal under `T`'s `==`.
pub open spec fn seq_eq_spec<T: PartialEq>(a: Seq<T>, b: Seq<T>) -> bool {
    a.len() == b.len() && forall|i: int| 0 <= i < a.len() ==> a[i].eq_spec(&b[i])
}

/// Compares two Vectors
pub fn cmp_vec<T: PartialEq>(vec: &[T], vec2: &[T]) -> (r: bool)
    ensures
        T::obeys_eq_spec() ==> r == seq_eq_spec(vec@, vec2@),
{
    if vec.len() != vec2.len() {
        return false;
    }
    let mut i: usize = 0;
    while i < vec.len()
        invariant
            vec@.len() == vec2@.len(),
            i <= vec@.len(),
            T::obeys_eq_spec() ==> forall|j: int| 0 <= j < i ==> vec@[j].eq_spec(&vec2@[j]),
        decreases vec.len() - i,
    {
        if !(vec[i] == vec2[i]) {
            return false;
        }
        i = i + 1;
    }
    true
}

} // verus!
