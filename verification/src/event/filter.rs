//! The [`Filter`] trait and the permissive [`DummyFilter`].

use crate::event::entry::EventEntry;
use crate::event::{Id, Msg};
use core::marker::PhantomData;
use vstd::prelude::*;

verus! {

/// A filter consulted by the publisher's capture entry point: an entry is
/// captured only if the filter allows it. Control identifiers bypass the
/// filter.
pub trait Filter<K: Id, M: Msg, T: EventEntry<K, M>> {
    /// Whether the filter lets the given entry pass.
    spec fn spec_allow(&self, entry: T) -> bool;

    /// Return `true` if the entry is allowed to be captured.
    fn allow_entry(&self, entry: &T) -> (r: bool)
        ensures
            r == self.spec_allow(*entry),
    ;
}

/// A permissive filter that allows every entry, used where no custom
/// filter is set.
pub struct DummyFilter<K, M> {
    v1: PhantomData<K>,
    v2: PhantomData<M>,
}

impl<K, M> DummyFilter<K, M> {
    /// Create the permissive filter.
    pub fn new() -> DummyFilter<K, M> {
        DummyFilter { v1: PhantomData, v2: PhantomData }
    }
}

impl<K: Id, M: Msg, T: EventEntry<K, M>> Filter<K, M, T> for DummyFilter<K, M> {
    open spec fn spec_allow(&self, entry: T) -> bool {
        true
    }

    fn allow_entry(&self, entry: &T) -> (r: bool) {
        true
    }
}

} // verus!
