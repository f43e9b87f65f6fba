//! The heap of shared allocations and the handles into it.

use vstd::prelude::*;
use core::hash::{Hash, Hasher};
use vstd::std_specs::cmp::PartialEqSpec;
use crate::convert::{hash_value, slice_to_owned, string_into_boxed, vec_into_boxed};
use crate::model::{Model, Shared, adopted, count_in, duplicated, released, valid};

verus! {

/// The allocations behind a family of handles.
///
/// Counter and payload of one shared value stand at the same index of two
/// stores. An index is used once: after its release both entries stay empty.
/// A handle that goes out of scope without [`Rc::drop`] leaves its count
/// standing, and the payload is then released together with the heap.
pub struct Heap<T: ?Sized> {
    counts: Vec<Option<usize>>,
    data: Vec<Option<Box<T>>>,
    owners: Ghost<Seq<Set<int>>>,
    next_id: Ghost<int>,
}

/// A handle on a shared value: a reference to its counter and a reference to
/// its payload. It is neither `Send` nor `Sync`.
pub struct Rc<T: ?Sized> {
    count: usize,
    data: usize,
    id: Ghost<int>,
    confined: core::marker::PhantomData<std::rc::Rc<T>>,
}

impl<T: ?Sized> Heap<T> {
    /// The number of allocations made so far, released ones included.
    pub closed spec fn issued(&self) -> int {
        self.counts@.len() as int
    }

    /// The live allocations.
    pub closed spec fn view(&self) -> Model<T> {
        Map::new(
            |b: int| 0 <= b < self.counts@.len() && self.counts@[b].is_some(),
            |b: int| Shared { owners: self.owners@[b], value: self.data@[b].unwrap() },
        )
    }

    /// The invariant of a heap: each live counter has its payload and equals
    /// the number of handles alive for it, which is at least one.
    pub closed spec fn wf(&self) -> bool {
        &&& self.counts@.len() == self.data@.len()
        &&& self.counts@.len() == self.owners@.len()
        &&& forall|b: int|
            0 <= b < self.counts@.len() ==> (#[trigger] self.counts@[b]).is_some()
                == self.data@[b].is_some()
        &&& forall|b: int|
            0 <= b < self.counts@.len() && (#[trigger] self.counts@[b]).is_some() ==> {
                &&& self.owners@[b].finite()
                &&& self.owners@[b].len() == self.counts@[b].unwrap()
                &&& self.counts@[b].unwrap() >= 1
            }
        &&& forall|b: int, id: int|
            0 <= b < self.owners@.len() && #[trigger] self.owners@[b].contains(id) ==> id
                < self.next_id@
    }

    /// Whether `rc` is a live handle into this heap.
    pub open spec fn holds(&self, rc: &Rc<T>) -> bool {
        &&& rc.well_formed()
        &&& self@.dom().contains(rc.block())
        &&& self@[rc.block()].owners.contains(rc.id())
    }

    /// What the invariant says of the model: a live allocation has a handle,
    /// and its index is one that was given out.
    pub proof fn lemma_invariant(&self)
        requires
            self.wf(),
        ensures
            valid(self@),
            forall|b: int| self@.dom().contains(b) ==> 0 <= b < self.issued(),
    {
    }

    /// An empty heap.
    pub fn new() -> (heap: Heap<T>)
        ensures
            heap.wf(),
            heap@ == Map::<int, Shared<T>>::empty(),
            heap.issued() == 0,
    {
        let heap = Heap {
            counts: Vec::new(),
            data: Vec::new(),
            owners: Ghost(Seq::empty()),
            next_id: Ghost(0),
        };
        assert(heap@ =~= Map::<int, Shared<T>>::empty());
        heap
    }
}

impl<T: ?Sized> Rc<T> {
    /// The index of the allocation that this handle shares.
    pub closed spec fn block(&self) -> int {
        self.count as int
    }

    /// The identity of this handle among those of its allocation.
    pub closed spec fn id(&self) -> int {
        self.id@
    }

    /// The two references of a handle go to the same allocation.
    pub closed spec fn well_formed(&self) -> bool {
        self.count == self.data
    }

    /// Takes over a value that is boxed already, without moving it: the new
    /// allocation has a counter of its own, which starts at one.
    pub fn from(heap: &mut Heap<T>, boxed_value: Box<T>) -> (rc: Rc<T>)
        requires
            old(heap).wf(),
        ensures
            final(heap).wf(),
            final(heap).holds(&rc),
            rc.block() == old(heap).issued(),
            final(heap).issued() == old(heap).issued() + 1,
            !old(heap)@.dom().contains(rc.block()),
            final(heap)@ == adopted(old(heap)@, rc.block(), rc.id(), boxed_value),
            count_in(final(heap)@, rc.block()) == 1,
    {
        let ghost id = heap.next_id@;
        let slot = heap.counts.len();
        heap.counts.push(Some(1));
        heap.data.push(Some(boxed_value));
        proof {
            heap.owners@ = heap.owners@.push(set![id]);
            heap.next_id@ = id + 1;
        }
        let rc = Rc { count: slot, data: slot, id: Ghost(id), confined: core::marker::PhantomData };
        proof {
            assert(heap@ =~= adopted(old(heap)@, rc.block(), rc.id(), boxed_value));
        }
        rc
    }

    /// The number of handles that share this handle's value, itself included.
    pub fn count(&self, heap: &Heap<T>) -> (n: usize)
        requires
            heap.wf(),
            heap.holds(self),
        ensures
            n == count_in(heap@, self.block()),
            n >= 1,
    {
        heap.counts[self.count].unwrap()
    }

    /// Lowers the counter by one for the handle that is leaving. A counter of
    /// one becomes zero, which only a teardown may leave behind for a moment.
    fn dec_count(&self, heap: &mut Heap<T>)
        requires
            old(heap).wf(),
            old(heap).holds(self),
        ensures
            final(heap).counts@ == old(heap).counts@.update(
                self.block(),
                Some((old(heap).counts@[self.block()].unwrap() - 1) as usize),
            ),
            final(heap).data == old(heap).data,
            final(heap).owners@ == old(heap).owners@.update(
                self.block(),
                old(heap).owners@[self.block()].remove(self.id()),
            ),
            final(heap).next_id == old(heap).next_id,
    {
        let n = self.count(heap);
        heap.counts.set(self.count, Some(n - 1));
        proof {
            heap.owners@ = heap.owners@.update(
                self.block(),
                heap.owners@[self.block()].remove(self.id()),
            );
        }
    }

    /// Raises the counter by one for a handle that is being made, and gives
    /// that handle its identity.
    fn inc_count(&self, heap: &mut Heap<T>) -> (id: Ghost<int>)
        requires
            old(heap).wf(),
            old(heap).holds(self),
            count_in(old(heap)@, self.block()) < usize::MAX,
        ensures
            final(heap).wf(),
            final(heap).issued() == old(heap).issued(),
            !old(heap)@[self.block()].owners.contains(id@),
            final(heap)@ == duplicated(old(heap)@, self.block(), id@),
            count_in(final(heap)@, self.block()) == count_in(old(heap)@, self.block()) + 1,
    {
        let ghost id = heap.next_id@;
        let n = self.count(heap);
        heap.counts.set(self.count, Some(n + 1));
        proof {
            heap.owners@ = heap.owners@.update(
                self.block(),
                heap.owners@[self.block()].insert(id),
            );
            heap.next_id@ = id + 1;
            assert(heap@ =~= duplicated(old(heap)@, self.block(), id));
        }
        Ghost(id)
    }

    /// The shared value, for as long as the handle and the heap are borrowed.
    pub fn borrow<'a>(&'a self, heap: &'a Heap<T>) -> (value: &'a T)
        requires
            heap.wf(),
            heap.holds(self),
        ensures
            value == heap@[self.block()].value,
    {
        self.deref(heap)
    }

    /// A second handle on the same value. Nothing is copied: the counter goes
    /// up by one.
    pub fn clone(&self, heap: &mut Heap<T>) -> (rc: Rc<T>)
        requires
            old(heap).wf(),
            old(heap).holds(self),
            count_in(old(heap)@, self.block()) < usize::MAX,
        ensures
            final(heap).wf(),
            final(heap).holds(self),
            final(heap).holds(&rc),
            final(heap).issued() == old(heap).issued(),
            rc.block() == self.block(),
            rc.id() != self.id(),
            !old(heap)@[self.block()].owners.contains(rc.id()),
            final(heap)@ == duplicated(old(heap)@, self.block(), rc.id()),
            count_in(final(heap)@, self.block()) == count_in(old(heap)@, self.block()) + 1,
    {
        let id = self.inc_count(heap);

        Rc { count: self.count, data: self.data, id, confined: core::marker::PhantomData }
    }

    /// The shared value. It is read and never written.
    pub fn deref<'a>(&'a self, heap: &'a Heap<T>) -> (value: &'a T)
        requires
            heap.wf(),
            heap.holds(self),
        ensures
            value == heap@[self.block()].value,
    {
        let boxed_value: &Box<T> = heap.data[self.data].as_ref().unwrap();
        &**boxed_value
    }

    /// Tears the handle down. The counter goes down by one; where it reaches
    /// zero the counter is released and then the payload, whose own teardown
    /// runs now and at no other time.
    pub fn drop(self, heap: &mut Heap<T>)
        requires
            old(heap).wf(),
            old(heap).holds(&self),
        ensures
            final(heap).wf(),
            final(heap).issued() == old(heap).issued(),
            final(heap)@ == released(old(heap)@, self.block(), self.id()),
            final(heap)@.dom().contains(self.block()) <==> count_in(old(heap)@, self.block()) > 1,
            count_in(old(heap)@, self.block()) > 1 ==> count_in(final(heap)@, self.block())
                == count_in(old(heap)@, self.block()) - 1,
    {
        self.dec_count(heap);

        if heap.counts[self.count].unwrap() == 0 {
            heap.counts.set(self.count, None);
            heap.data.set(self.data, None);
        }
        proof {
            assert(heap@ =~= released(old(heap)@, self.block(), self.id()));
        }
    }
}

impl<T: ?Sized> Rc<T> {
    /// Whether the two shared values are equal, as `T` compares them: the
    /// allocations may differ.
    pub fn eq(&self, rhs: &Rc<T>, heap: &Heap<T>) -> (equal: bool) where T: PartialEq
        requires
            heap.wf(),
            heap.holds(self),
            heap.holds(rhs),
        ensures
            T::obeys_eq_spec() ==> equal == T::eq_spec(
                &*heap@[self.block()].value,
                &*heap@[rhs.block()].value,
            ),
    {
        PartialEq::eq(self.deref(heap), rhs.deref(heap))
    }

    /// Feeds the shared value to `state`, as `T` hashes itself.
    pub fn hash<H>(&self, heap: &Heap<T>, state: &mut H) where T: Hash, H: Hasher
        requires
            heap.wf(),
            heap.holds(self),
    {
        hash_value(self.deref(heap), state)
    }
}

impl<T> Rc<T> {
    /// Puts `value` on the heap under a counter of one.
    pub fn new(heap: &mut Heap<T>, value: T) -> (rc: Rc<T>)
        requires
            old(heap).wf(),
        ensures
            final(heap).wf(),
            final(heap).holds(&rc),
            rc.block() == old(heap).issued(),
            final(heap).issued() == old(heap).issued() + 1,
            !old(heap)@.dom().contains(rc.block()),
            final(heap)@ == adopted(old(heap)@, rc.block(), rc.id(), Box::new(value)),
            count_in(final(heap)@, rc.block()) == 1,
    {
        Rc::from(heap, Box::new(value))
    }
}

impl<T> Rc<[T]> {
    /// Copies `slice` into a buffer of its own and shares that: each element
    /// of the shared sequence is a clone of the element at the same place.
    pub fn from_slice(heap: &mut Heap<[T]>, slice: &[T]) -> (rc: Rc<[T]>) where T: Clone
        requires
            old(heap).wf(),
        ensures
            final(heap).wf(),
            final(heap).holds(&rc),
            rc.block() == old(heap).issued(),
            final(heap).issued() == old(heap).issued() + 1,
            final(heap)@ == adopted(
                old(heap)@,
                rc.block(),
                rc.id(),
                final(heap)@[rc.block()].value,
            ),
            count_in(final(heap)@, rc.block()) == 1,
            final(heap)@[rc.block()].value@.len() == slice@.len(),
            forall|i: int|
                0 <= i < slice@.len() ==> cloned::<T>(
                    #[trigger] slice@[i],
                    final(heap)@[rc.block()].value@[i],
                ),
    {
        Rc::from_vec(heap, slice_to_owned(slice))
    }

    /// Shares the elements of `vec`, in a buffer cut down to their number.
    pub fn from_vec(heap: &mut Heap<[T]>, vec: Vec<T>) -> (rc: Rc<[T]>)
        requires
            old(heap).wf(),
        ensures
            final(heap).wf(),
            final(heap).holds(&rc),
            rc.block() == old(heap).issued(),
            final(heap).issued() == old(heap).issued() + 1,
            final(heap)@ == adopted(
                old(heap)@,
                rc.block(),
                rc.id(),
                final(heap)@[rc.block()].value,
            ),
            count_in(final(heap)@, rc.block()) == 1,
            final(heap)@[rc.block()].value@ == vec@,
    {
        Rc::from(heap, vec_into_boxed(vec))
    }
}

impl Rc<str> {
    /// Copies `string` into a buffer of its own and shares that.
    pub fn from_str(heap: &mut Heap<str>, string: &str) -> (rc: Rc<str>)
        requires
            old(heap).wf(),
        ensures
            final(heap).wf(),
            final(heap).holds(&rc),
            rc.block() == old(heap).issued(),
            final(heap).issued() == old(heap).issued() + 1,
            final(heap)@ == adopted(
                old(heap)@,
                rc.block(),
                rc.id(),
                final(heap)@[rc.block()].value,
            ),
            count_in(final(heap)@, rc.block()) == 1,
            final(heap)@[rc.block()].value@ == string@,
    {
        Rc::from_string(heap, string.to_owned())
    }

    /// Shares the text of `string`, in a buffer cut down to its length. The
    /// text is taken as it is: it was valid in the `String`.
    pub fn from_string(heap: &mut Heap<str>, string: String) -> (rc: Rc<str>)
        requires
            old(heap).wf(),
        ensures
            final(heap).wf(),
            final(heap).holds(&rc),
            rc.block() == old(heap).issued(),
            final(heap).issued() == old(heap).issued() + 1,
            final(heap)@ == adopted(
                old(heap)@,
                rc.block(),
                rc.id(),
                final(heap)@[rc.block()].value,
            ),
            count_in(final(heap)@, rc.block()) == 1,
            final(heap)@[rc.block()].value@ == string@,
    {
        Rc::from(heap, string_into_boxed(string))
    }
}

} // verus!
