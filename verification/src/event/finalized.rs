//! The [`FinalizedEvent`] structure returned when an intermediary event is
//! finalized.

use crate::event::Id;
use vstd::prelude::*;

verus! {

/// Returned once an event is captured through finalization. It stores only
/// the event identifier and the entry identifier, to avoid cloning the
/// whole entry.
#[derive(Debug, Clone, PartialEq, Eq)]
pub struct FinalizedEvent<K: Id> {
    /// The identifier of the associated event.
    pub event_id: K,
    /// The identifier of the associated event entry.
    pub entry_id: uuid::Uuid,
}

impl<K: Id> FinalizedEvent<K> {
    /// Create a new [`FinalizedEvent`].
    pub fn new(event_id: K, entry_id: uuid::Uuid) -> (r: FinalizedEvent<K>)
        ensures
            r.event_id == event_id,
            r.entry_id == entry_id,
    {
        FinalizedEvent { event_id, entry_id }
    }

    /// Convert this finalized event into the associated event identifier.
    pub fn into_event_id(self) -> (r: K)
        ensures
            r == self.event_id,
    {
        self.event_id
    }

    /// The associated event identifier.
    pub fn get_event_id(&self) -> (r: &K)
        ensures
            *r == self.event_id,
    {
        &self.event_id
    }

    /// The associated entry identifier.
    pub fn get_entry_id(&self) -> (r: &uuid::Uuid)
        ensures
            *r == self.entry_id,
    {
        &self.entry_id
    }
}

} // verus!
