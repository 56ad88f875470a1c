//! From lists of running values to lists of their models.

use vstd::prelude::*;

verus! {

/// The models of the values of a list, in the list's order.
pub open spec fn views<T: View>(values: Seq<T>) -> Seq<T::V> {
    values.map_values(|value: T| value@)
}

/// The models of no values are no models.
pub proof fn lemma_views_empty<T: View>()
    ensures
        views(Seq::<T>::empty()) == Seq::<T::V>::empty(),
{
}

/// The models of a list with one more value are the models of the list with
/// that value's model after them.
pub proof fn lemma_views_push<T: View>(values: Seq<T>, value: T)
    ensures
        views(values.push(value)) == views(values).push(value@),
{
}

/// Two lists of equal length whose values agree in their models, position
/// by position, have the same models.
pub proof fn lemma_views_equal<T: View>(left: Seq<T>, right: Seq<T>)
    requires
        left.len() == right.len(),
        forall|i: int| 0 <= i < left.len() ==> left[i]@ == right[i]@,
    ensures
        views(left) == views(right),
{
}

/// The models of two lists, one after the other, are the models of the
/// first with the models of the second after them.
pub proof fn lemma_views_add<T: View>(left: Seq<T>, right: Seq<T>)
    ensures
        views(left + right) == views(left) + views(right),
{
}

} // verus!
