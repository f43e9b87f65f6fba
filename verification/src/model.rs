//! The mathematical model of a heap of shared values.

use vstd::prelude::*;

verus! {

/// What a heap holds for one shared value: the identities of the handles that
/// are alive for it, and the payload.
pub struct Shared<T: ?Sized> {
    pub owners: Set<int>,
    pub value: Box<T>,
}

/// A heap as a map from the index of an allocation to what it holds.
pub type Model<T> = Map<int, Shared<T>>;

/// What holds of every heap: each live allocation has finitely many handles,
/// and at least one.
pub open spec fn valid<T: ?Sized>(m: Model<T>) -> bool {
    forall|b: int| #[trigger]
        m.dom().contains(b) ==> m[b].owners.finite() && m[b].owners.len() >= 1
}

/// The number of handles that share allocation `block`.
pub open spec fn count_in<T: ?Sized>(m: Model<T>, block: int) -> nat {
    m[block].owners.len()
}

/// The model after `value` was adopted as allocation `block`, with `id` as its
/// only handle.
pub open spec fn adopted<T: ?Sized>(m: Model<T>, block: int, id: int, value: Box<T>) -> Model<T> {
    m.insert(block, Shared { owners: set![id], value })
}

/// The model after handle `id` was added to allocation `block`.
pub open spec fn duplicated<T: ?Sized>(m: Model<T>, block: int, id: int) -> Model<T> {
    m.insert(block, Shared { owners: m[block].owners.insert(id), value: m[block].value })
}

/// The model after handle `id` of allocation `block` was torn down: the last
/// handle takes the allocation with it.
pub open spec fn released<T: ?Sized>(m: Model<T>, block: int, id: int) -> Model<T> {
    if m[block].owners.remove(id).is_empty() {
        m.remove(block)
    } else {
        m.insert(block, Shared { owners: m[block].owners.remove(id), value: m[block].value })
    }
}

/// The model after one handle for each of `ids` was added to allocation
/// `block`, the first of them first.
pub open spec fn duplicated_all<T: ?Sized>(m: Model<T>, block: int, ids: Seq<int>) -> Model<T>
    decreases ids.len(),
{
    if ids.len() == 0 {
        m
    } else {
        duplicated(duplicated_all(m, block, ids.drop_last()), block, ids.last())
    }
}

/// The model after the handles `ids` of allocation `block` were torn down,
/// the first of them first.
pub open spec fn released_all<T: ?Sized>(m: Model<T>, block: int, ids: Seq<int>) -> Model<T>
    decreases ids.len(),
{
    if ids.len() == 0 {
        m
    } else {
        released(released_all(m, block, ids.drop_last()), block, ids.last())
    }
}

} // verus!
