//! What ties executable values to their mathematical models.
use vstd::prelude::*;
use crate::error::StructuralError;

verus! {

/// The models of a sequence of values.
pub open spec fn views<T: View>(items: Seq<T>) -> Seq<T::V> {
    Seq::new(items.len(), |i: int| items[i]@)
}

/// Appending a value appends its model.
pub proof fn lemma_views_push<T: View>(items: Seq<T>, item: T)
    ensures
        views(items.push(item)) == views(items).push(item@),
{
    assert(views(items.push(item)) =~= views(items).push(item@));
}

/// An empty sequence has no models.
pub proof fn lemma_views_empty<T: View>(items: Seq<T>)
    requires
        items.len() == 0,
    ensures
        views(items) == Seq::<T::V>::empty(),
{
    assert(views(items) =~= Seq::<T::V>::empty());
}

/// Whether a lowering step returned what the model asks for: the value
/// whose model it gives, or the very error.
pub open spec fn lowered<T: View>(r: Result<T, StructuralError>, m: Result<T::V, StructuralError>)
    -> bool {
    match r {
        Ok(value) => m == Ok::<T::V, StructuralError>(value@),
        Err(error) => m == Err::<T::V, StructuralError>(error),
    }
}

} // verus!
