//! What the operations on a heap do to the counts, proved of the model that
//! their contracts are written in.

use vstd::prelude::*;
use crate::model::{Model, adopted, count_in, duplicated, duplicated_all, released, released_all, valid};

verus! {

/// A value that was just adopted has a count of one, and no other allocation
/// is touched.
pub proof fn lemma_adopted_counts_one<T: ?Sized>(m: Model<T>, block: int, id: int, value: Box<T>)
    requires
        valid(m),
    ensures
        valid(adopted(m, block, id, value)),
        count_in(adopted(m, block, id, value), block) == 1,
        adopted(m, block, id, value)[block].value == value,
        forall|b: int|
            b != block && m.dom().contains(b) ==> adopted(m, block, id, value).dom().contains(b)
                && adopted(m, block, id, value)[b] == m[b],
{
}

/// A new handle raises the count of its allocation by one and leaves the
/// value as it is.
pub proof fn lemma_duplicated_adds_one<T: ?Sized>(m: Model<T>, block: int, id: int)
    requires
        valid(m),
        m.dom().contains(block),
        !m[block].owners.contains(id),
    ensures
        valid(duplicated(m, block, id)),
        duplicated(m, block, id).dom() == m.dom(),
        count_in(duplicated(m, block, id), block) == count_in(m, block) + 1,
        duplicated(m, block, id)[block].value == m[block].value,
        forall|b: int| b != block && m.dom().contains(b) ==> duplicated(m, block, id)[b] == m[b],
{
    assert(duplicated(m, block, id).dom() =~= m.dom());
}

/// A teardown lowers the count of its allocation by one. The allocation is
/// released by the teardown of its last handle, and by no other.
pub proof fn lemma_released_takes_one<T: ?Sized>(m: Model<T>, block: int, id: int)
    requires
        valid(m),
        m.dom().contains(block),
        m[block].owners.contains(id),
    ensures
        valid(released(m, block, id)),
        count_in(m, block) == 1 <==> !released(m, block, id).dom().contains(block),
        count_in(m, block) == 1 <==> m[block].owners == set![id],
        count_in(m, block) == 1 ==> released(m, block, id) == m.remove(block),
        count_in(m, block) > 1 ==> {
            &&& count_in(released(m, block, id), block) == count_in(m, block) - 1
            &&& released(m, block, id)[block].value == m[block].value
            &&& released(m, block, id).dom() == m.dom()
        },
        forall|b: int| b != block && m.dom().contains(b) ==> released(m, block, id)[b] == m[b],
{
    let rest = m[block].owners.remove(id);
    if rest.len() == 0 {
        assert(rest.is_empty());
        assert(m[block].owners =~= set![id]);
    } else {
        assert(rest.len() > 0);
        assert(!rest.is_empty());
        assert(released(m, block, id).dom() =~= m.dom());
    }
}

/// A teardown takes nothing from the handles that stay: each of them still
/// has its allocation, with the value that it had.
pub proof fn lemma_release_spares_others<T: ?Sized>(
    m: Model<T>,
    block: int,
    id: int,
    other_block: int,
    other_id: int,
)
    requires
        valid(m),
        m.dom().contains(block),
        m[block].owners.contains(id),
        m.dom().contains(other_block),
        m[other_block].owners.contains(other_id),
        other_block != block || other_id != id,
    ensures
        released(m, block, id).dom().contains(other_block),
        released(m, block, id)[other_block].owners.contains(other_id),
        released(m, block, id)[other_block].value == m[other_block].value,
{
    if other_block == block {
        assert(m[block].owners.remove(id).contains(other_id));
    }
}

/// After `n` new handles the count is `n` more than before.
pub proof fn lemma_duplicated_all_counts<T: ?Sized>(m: Model<T>, block: int, ids: Seq<int>)
    requires
        valid(m),
        m.dom().contains(block),
        ids.no_duplicates(),
        forall|i: int| 0 <= i < ids.len() ==> !m[block].owners.contains(ids[i]),
    ensures
        valid(duplicated_all(m, block, ids)),
        duplicated_all(m, block, ids).dom() == m.dom(),
        count_in(duplicated_all(m, block, ids), block) == count_in(m, block) + ids.len(),
        duplicated_all(m, block, ids)[block].value == m[block].value,
        forall|b: int| b != block && m.dom().contains(b) ==> duplicated_all(m, block, ids)[b] == m[b],
        forall|x: int|
            #![trigger duplicated_all(m, block, ids)[block].owners.contains(x)]
            duplicated_all(m, block, ids)[block].owners.contains(x) <==> m[block].owners.contains(
                x,
            ) || ids.contains(x),
    decreases ids.len(),
{
    if ids.len() > 0 {
        let front = ids.drop_last();
        let before = duplicated_all(m, block, front);
        lemma_duplicated_all_counts(m, block, front);
        assert(!front.contains(ids.last())) by {
            if front.contains(ids.last()) {
                let i = choose|i: int| 0 <= i < front.len() && front[i] == ids.last();
                assert(ids[i] == ids[ids.len() - 1]);
            }
        }
        lemma_duplicated_adds_one(before, block, ids.last());
        assert forall|x: int|
            #![trigger duplicated_all(m, block, ids)[block].owners.contains(x)]
            duplicated_all(m, block, ids)[block].owners.contains(x) <==> m[block].owners.contains(
                x,
            ) || ids.contains(x) by {
            if front.contains(x) {
                let i = choose|i: int| 0 <= i < front.len() && front[i] == x;
                assert(ids[i] == x);
            }
            if ids.contains(x) {
                let i = choose|i: int| 0 <= i < ids.len() && ids[i] == x;
                if i < ids.len() - 1 {
                    assert(front[i] == x);
                } else {
                    assert(x == ids.last());
                }
            }
            assert(ids[ids.len() - 1] == ids.last());
        }
    } else {
        assert forall|x: int| !ids.contains(x) by {}
    }
}

/// Tearing down `n` handles of an allocation that has more than `n` lowers
/// its count by one with each of them, and the value stays.
pub proof fn lemma_released_all_counts<T: ?Sized>(m: Model<T>, block: int, ids: Seq<int>)
    requires
        valid(m),
        m.dom().contains(block),
        ids.no_duplicates(),
        forall|i: int| 0 <= i < ids.len() ==> m[block].owners.contains(ids[i]),
        count_in(m, block) > ids.len(),
    ensures
        valid(released_all(m, block, ids)),
        released_all(m, block, ids).dom() == m.dom(),
        count_in(released_all(m, block, ids), block) == count_in(m, block) - ids.len(),
        released_all(m, block, ids)[block].value == m[block].value,
        forall|b: int| b != block && m.dom().contains(b) ==> released_all(m, block, ids)[b] == m[b],
        forall|x: int|
            #![trigger released_all(m, block, ids)[block].owners.contains(x)]
            released_all(m, block, ids)[block].owners.contains(x) <==> m[block].owners.contains(x)
                && !ids.contains(x),
    decreases ids.len(),
{
    if ids.len() > 0 {
        let front = ids.drop_last();
        let before = released_all(m, block, front);
        lemma_released_all_counts(m, block, front);
        assert(!front.contains(ids.last())) by {
            if front.contains(ids.last()) {
                let i = choose|i: int| 0 <= i < front.len() && front[i] == ids.last();
                assert(ids[i] == ids[ids.len() - 1]);
            }
        }
        assert(m[block].owners.contains(ids[ids.len() - 1]));
        lemma_released_takes_one(before, block, ids.last());
        assert forall|x: int|
            #![trigger released_all(m, block, ids)[block].owners.contains(x)]
            released_all(m, block, ids)[block].owners.contains(x) <==> m[block].owners.contains(x)
                && !ids.contains(x) by {
            if front.contains(x) {
                let i = choose|i: int| 0 <= i < front.len() && front[i] == x;
                assert(ids[i] == x);
            }
            if ids.contains(x) {
                let i = choose|i: int| 0 <= i < ids.len() && ids[i] == x;
                if i < ids.len() - 1 {
                    assert(front[i] == x);
                } else {
                    assert(x == ids.last());
                }
            }
            assert(ids[ids.len() - 1] == ids.last());
        }
    } else {
        assert forall|x: int| !ids.contains(x) by {}
    }
}

/// The life of a shared value. With `n` duplicates of its first handle the
/// count is `n + 1`. Each teardown of a duplicate takes one from it, so that
/// after `k` of them it is `n + 1 - k`. With the duplicates gone, the
/// teardown of the first handle releases the allocation.
pub proof fn lemma_count_over_a_life<T: ?Sized>(
    m: Model<T>,
    block: int,
    first: int,
    value: Box<T>,
    ids: Seq<int>,
)
    requires
        valid(m),
        !m.dom().contains(block),
        ids.no_duplicates(),
        !ids.contains(first),
    ensures
        count_in(duplicated_all(adopted(m, block, first, value), block, ids), block) == ids.len()
            + 1,
        forall|k: int|
            0 <= k <= ids.len() ==> count_in(
                #[trigger] released_all(
                    duplicated_all(adopted(m, block, first, value), block, ids),
                    block,
                    ids.take(k),
                ),
                block,
            ) == ids.len() + 1 - k,
        released(
            released_all(duplicated_all(adopted(m, block, first, value), block, ids), block, ids),
            block,
            first,
        ) == m,
{
    let born = adopted(m, block, first, value);
    let full = duplicated_all(born, block, ids);
    lemma_adopted_counts_one(m, block, first, value);
    assert forall|i: int| 0 <= i < ids.len() implies !born[block].owners.contains(ids[i]) by {
        assert(ids.contains(ids[i]));
    }
    lemma_duplicated_all_counts(born, block, ids);
    assert forall|k: int| 0 <= k <= ids.len() implies count_in(
        #[trigger] released_all(full, block, ids.take(k)),
        block,
    ) == ids.len() + 1 - k by {
        let some = ids.take(k);
        assert forall|i: int| 0 <= i < some.len() implies full[block].owners.contains(some[i]) by {
            assert(ids[i] == some[i]);
            assert(ids.contains(some[i]));
        }
        lemma_released_all_counts(full, block, some);
    }
    assert(ids.take(ids.len() as int) =~= ids);
    assert forall|i: int| 0 <= i < ids.len() implies full[block].owners.contains(ids[i]) by {
        assert(ids.contains(ids[i]));
    }
    lemma_released_all_counts(full, block, ids);
    let last = released_all(full, block, ids);
    assert(last[block].owners.contains(first));
    lemma_released_takes_one(last, block, first);
    assert(last.dom() =~= born.dom());
    assert(released(last, block, first) =~= m);
}

} // verus!
