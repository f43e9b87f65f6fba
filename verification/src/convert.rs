//! Conversions of owned buffers that the standard library performs.

use vstd::prelude::*;
use core::hash::{Hash, Hasher};

verus! {

/// `<[T]>::to_vec`: a new vector that holds a clone of each element of
/// `slice`, in order.
#[verifier::external_body]
pub(crate) fn slice_to_owned<T: Clone>(slice: &[T]) -> (out: Vec<T>)
    ensures
        out@.len() == slice@.len(),
        forall|i: int| 0 <= i < slice@.len() ==> cloned::<T>(#[trigger] slice@[i], out@[i]),
{
    slice.to_vec()
}

/// `Vec::into_boxed_slice`: the same elements in the same order, in a buffer
/// of exactly their length.
#[verifier::external_body]
pub(crate) fn vec_into_boxed<T>(vec: Vec<T>) -> (out: Box<[T]>)
    ensures
        out@ == vec@,
{
    vec.into_boxed_slice()
}

/// `String::into_boxed_str`: the same text, in a buffer of exactly its length.
#[verifier::external_body]
pub(crate) fn string_into_boxed(text: String) -> (out: Box<str>)
    ensures
        out@ == text@,
{
    text.into_boxed_str()
}

/// `Hash::hash`: writes `value` into `state`. What the state becomes is up to
/// the two implementations, so nothing is claimed of it.
#[verifier::external_body]
pub(crate) fn hash_value<T: Hash + ?Sized, H: Hasher>(value: &T, state: &mut H) {
    value.hash(state)
}

} // verus!
