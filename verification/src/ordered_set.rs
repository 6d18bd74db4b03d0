//! Sets that remember the order in which their items first came, kept in
//! `indexmap`'s `IndexSet`.
use crate::text::views;
use vstd::prelude::*;

verus! {

#[verifier::external_type_specification]
#[verifier::external_body]
#[verifier::reject_recursive_types(T)]
#[verifier::reject_recursive_types(S)]
pub struct ExIndexSet<T, S>(indexmap::IndexSet<T, S>);

/// The texts an `IndexSet` holds, in the order they were first inserted.
pub uninterp spec fn index_set_items(s: indexmap::IndexSet<String>) -> Seq<Seq<char>>;

/// An empty set: calls `indexmap::IndexSet::new`. Trusted: the new set
/// holds nothing.
#[verifier::external_body]
pub(crate) fn index_set_new() -> (res: indexmap::IndexSet<String>)
    ensures
        index_set_items(res) == Seq::<Seq<char>>::empty(),
{
    indexmap::IndexSet::new()
}

/// Puts `value` in the set: calls `IndexSet::insert`. Trusted: as the
/// crate documents, a text already in the set leaves the set as it was
/// (its first place kept) and gives `false`; a new one goes last and gives
/// `true`.
#[verifier::external_body]
pub(crate) fn index_set_insert(s: &mut indexmap::IndexSet<String>, value: String) -> (res: bool)
    ensures
        index_set_items(*final(s)) == if index_set_items(*old(s)).contains(value@) {
            index_set_items(*old(s))
        } else {
            index_set_items(*old(s)).push(value@)
        },
        res == !index_set_items(*old(s)).contains(value@),
{
    s.insert(value)
}

/// The set's texts in their order: calls `IndexSet::into_iter` and
/// collects. Trusted: as the crate documents, the iterator gives the items
/// in their order.
#[verifier::external_body]
pub(crate) fn index_set_into_vec(s: indexmap::IndexSet<String>) -> (res: Vec<String>)
    ensures
        views(res@) == index_set_items(s),
{
    s.into_iter().collect()
}

} // verus!
