//! How the deep view of a vector follows what is done to the vector.
use vstd::prelude::*;

verus! {

/// Pushing onto a vector pushes the element's deep view onto the vector's.
pub broadcast proof fn deep_view_push<T: DeepView>(before: Vec<T>, after: Vec<T>, x: T)
    requires
        after@ == before@.push(x),
    ensures
        #![trigger after.deep_view(), before@.push(x)]
        after.deep_view() == before.deep_view().push(x.deep_view()),
{
    assert(after.deep_view() =~= before.deep_view().push(x.deep_view()));
}

/// A vector without elements has a deep view without elements.
pub broadcast proof fn deep_view_empty<T: DeepView>(v: Vec<T>)
    requires
        v@ == Seq::<T>::empty(),
    ensures
        #[trigger] v.deep_view() == Seq::<T::V>::empty(),
{
    assert(v.deep_view() =~= Seq::<T::V>::empty());
}

/// Takes the elements out of a vector, which is left without any.
pub fn take_vec<T>(v: &mut Vec<T>) -> (taken: Vec<T>)
    ensures
        taken == *old(v),
        final(v)@ == Seq::<T>::empty(),
{
    let mut taken: Vec<T> = Vec::new();
    std::mem::swap(&mut taken, v);
    taken
}

pub broadcast group group_deep_view {
    deep_view_push,
    deep_view_empty,
}

} // verus!
