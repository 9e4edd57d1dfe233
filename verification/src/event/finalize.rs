//! A numbered variant of the finalized-event value, for hosts whose entry
//! identifiers are plain numbers rather than generated identifiers.

use crate::event::entry::EventEntry;
use crate::event::intermediary::IntermediaryEvent;
use crate::event::{Id, Msg};
use vstd::prelude::*;

verus! {

/// Finalization for intermediary events whose entries are numbered: the
/// result carries the entry number instead of an entry identifier.
pub trait FinalizeEvent<K: Id, M: Msg, T: EventEntry<K, M>>: IntermediaryEvent<K, M, T> {
    /// Capture this event and return its identifier pair.
    fn finalize(self) -> FinalizedEvent<K>;

    /// Capture this event and return the event identifier.
    fn into_event_id(self) -> (r: K);
}

/// The value returned by [`FinalizeEvent::finalize`]: the event identifier
/// and the number of the entry that was captured.
#[derive(Debug, Clone, PartialEq, Eq)]
pub struct FinalizedEvent<K: Id> {
    /// The identifier of the associated event.
    pub event_id: K,
    /// The number of the associated event entry.
    pub entry_nr: u64,
}

impl<K: Id> FinalizedEvent<K> {
    /// Create a new [`FinalizedEvent`].
    pub fn new(event_id: K, entry_nr: u64) -> (r: FinalizedEvent<K>)
        ensures
            r.event_id == event_id,
            r.entry_nr == entry_nr,
    {
        FinalizedEvent { event_id, entry_nr }
    }

    /// Convert this finalized event into the associated event identifier.
    pub fn into_event_id(self) -> (r: K)
        ensures
            r == self.event_id,
    {
        self.event_id
    }

    /// The associated event identifier.
    pub fn get_event_id(&self) -> (r: &K)
        ensures
            *r == self.event_id,
    {
        &self.event_id
    }

    /// The associated entry number.
    pub fn get_entry_nr(&self) -> (r: u64)
        ensures
            r == self.entry_nr,
    {
        self.entry_nr
    }
}

} // verus!
