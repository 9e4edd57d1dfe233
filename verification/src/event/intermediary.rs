//! The [`IntermediaryEvent`] trait: a producer-held handle on an event
//! entry between setting the event and capturing it.

use crate::event::entry::EventEntry;
use crate::event::origin::Origin;
use crate::event::{Id, Msg};
use vstd::prelude::*;

verus! {

/// A producer-visible handle holding exactly one event entry.
///
/// The handle starts out *live*; taking the entry out, which happens at
/// most once, leaves it *drained*. The publisher's capture entry point
/// takes the entry and the handle never yields it again.
pub trait IntermediaryEvent<K: Id, M: Msg, T: EventEntry<K, M>>: Sized {
    /// The entry enclosed in this handle.
    spec fn spec_entry(&self) -> T;

    /// Whether the entry is still enclosed: `false` once it was taken out.
    spec fn spec_live(&self) -> bool;

    /// Create a new intermediary event enclosing a fresh entry for the
    /// given identifier, message and origin.
    fn new(event_id: K, msg: Option<M>, origin: Origin) -> (r: Self)
        ensures
            r.spec_live(),
            r.spec_entry().spec_event_id() == event_id,
            r.spec_entry().spec_msg() == msg,
            r.spec_entry().spec_origin() == origin,
    ;

    /// The entry enclosed in this handle, read-only.
    fn get_entry(&self) -> (r: &T)
        requires
            self.spec_live(),
        ensures
            *r == self.spec_entry(),
    ;

    /// Move the entry out of this handle, leaving it drained.
    fn take_entry(&mut self) -> (r: T)
        requires
            old(self).spec_live(),
        ensures
            r == old(self).spec_entry(),
            !final(self).spec_live(),
    ;

    /// The event identifier of the enclosed entry.
    fn get_event_id(&self) -> (r: &K)
        requires
            self.spec_live(),
        ensures
            *r == self.spec_entry().spec_event_id(),
    {
        self.get_entry().get_event_id()
    }
}

} // verus!
