//! The [`EventEntry`] trait: the data payload of an event.

use crate::event::origin::Origin;
use crate::event::{Id, Msg};
use vstd::prelude::*;

verus! {

/// The payload of an event: its identifier, an optional message, a unique
/// entry identifier generated per intermediary event, and the origin the
/// event was set at.
///
/// A host implements this trait for its own entry type; the implementation
/// may carry additional fields. The spec functions name the four pieces of
/// payload that every entry carries, and the methods are bound to them.
pub trait EventEntry<K: Id, M: Msg>: Sized + 'static {
    /// The event identifier held by this entry.
    spec fn spec_event_id(&self) -> K;

    /// The unique entry identifier generated when the event was set.
    spec fn spec_entry_id(&self) -> uuid::Uuid;

    /// The optional main message of this entry.
    spec fn spec_msg(&self) -> Option<M>;

    /// The origin the event was set at.
    spec fn spec_origin(&self) -> Origin;

    /// Create a new entry for the given identifier, message and origin.
    /// The entry identifier is generated by the implementation.
    fn new(event_id: K, msg: Option<M>, origin: Origin) -> (r: Self)
        ensures
            r.spec_event_id() == event_id,
            r.spec_msg() == msg,
            r.spec_origin() == origin,
    ;

    /// The event identifier of this entry.
    fn get_event_id(&self) -> (r: &K)
        ensures
            *r == self.spec_event_id(),
    ;

    /// Consume the entry, returning the event identifier.
    fn into_event_id(self) -> (r: K)
        ensures
            r == self.spec_event_id(),
    ;

    /// The entry identifier generated when the event was set.
    fn get_entry_id(&self) -> (r: uuid::Uuid)
        ensures
            r == self.spec_entry_id(),
    ;

    /// The main message of the event, or `None` if no message was given.
    fn get_msg(&self) -> (r: Option<&M>)
        ensures
            match r {
                Some(m) => self.spec_msg() == Some(*m),
                None => self.spec_msg() is None,
            },
    ;

    /// The origin the event was set at.
    fn get_origin(&self) -> (r: &Origin)
        ensures
            *r == self.spec_origin(),
    ;
}

} // verus!
