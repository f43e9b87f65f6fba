//! Shared ownership of immutable values, sized or not, counted by hand.
//!
//! A [`Heap`](rc::Heap) keeps the allocations: for each shared value one
//! counter and one boxed payload, held apart so that a box that already exists
//! is taken over as it is. An [`Rc`](rc::Rc) is a handle into a heap. Handles
//! move and are never copied: a handle that was torn down is gone, so no
//! payload is released twice.

pub mod convert;
pub mod laws;
pub mod model;
pub mod rc;
