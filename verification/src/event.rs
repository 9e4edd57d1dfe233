//! The event value types and the traits a host instantiates them with.

pub mod entry;
pub mod filter;
pub mod finalize;
pub mod finalized;
pub mod intermediary;
pub mod origin;

use crate::event::entry::EventEntry;
use crate::event::intermediary::IntermediaryEvent;
use crate::event::origin::Origin;
use core::marker::PhantomData;
use vstd::prelude::*;

verus! {

/// An event identifier. A host supplies the identifier type; the bus
/// clones identifiers on every fan-out, so they should be cheap to clone.
pub trait Id: Sized + 'static {
    /// Equality of identifiers.
    fn eq_id(&self, other: &Self) -> (r: bool)
        ensures
            r == (self == other),
    ;

    /// An identical copy of this identifier.
    fn clone_id(&self) -> (r: Self)
        ensures
            r == *self,
    ;
}

impl Id for u32 {
    fn eq_id(&self, other: &Self) -> (r: bool) {
        *self == *other
    }

    fn clone_id(&self) -> (r: Self) {
        *self
    }
}

impl Id for u64 {
    fn eq_id(&self, other: &Self) -> (r: bool) {
        *self == *other
    }

    fn clone_id(&self) -> (r: Self) {
        *self
    }
}

impl Id for usize {
    fn eq_id(&self, other: &Self) -> (r: bool) {
        *self == *other
    }

    fn clone_id(&self) -> (r: Self) {
        *self
    }
}

/// An event message. A host supplies the message type; the bus never reads
/// into messages, it only carries them.
pub trait Msg: Sized + 'static {

}

impl Msg for String {

}

/// Data a producer supplies when it sets or captures an event: the current
/// wall-clock instant in ticks, and the identifier and optional name of
/// the producing thread.
pub struct EventContext {
    /// The current wall-clock instant, in ticks since some fixed start.
    pub now: u64,
    /// The identifier of the producing thread.
    pub thread_id: u64,
    /// The name of the producing thread, if it has one.
    pub thread_name: Option<String>,
}

/// Set an event for an identifier with an explicit message. Returns the
/// intermediary event that a producer may enrich before capture.
pub fn set_event_with_msg<K: Id, M: Msg, E: EventEntry<K, M>, I: IntermediaryEvent<K, M, E>>(
    event_id: K,
    msg: M,
    origin: Origin,
) -> (r: I)
    ensures
        r.spec_live(),
        r.spec_entry().spec_event_id() == event_id,
        r.spec_entry().spec_msg() == Some(msg),
        r.spec_entry().spec_origin() == origin,
{
    I::new(event_id, Some(msg), origin)
}

/// Set an event for an identifier without a message. Returns the
/// intermediary event that a producer may enrich before capture.
pub fn set_event<K: Id, M: Msg, E: EventEntry<K, M>, I: IntermediaryEvent<K, M, E>>(
    event_id: K,
    origin: Origin,
) -> (r: I)
    ensures
        r.spec_live(),
        r.spec_entry().spec_event_id() == event_id,
        r.spec_entry().spec_msg() is None,
        r.spec_entry().spec_origin() == origin,
{
    I::new(event_id, None, origin)
}

/// The value dispatched to subscribers: an entry together with the
/// producing thread's identifier and optional name, and an optional
/// timestamp assigned per the publisher's timestamp policy.
#[derive(Clone, PartialEq, Eq)]
pub struct Event<K, M, T> where K: Id, M: Msg, T: EventEntry<K, M> {
    /// The entry of the event.
    pub entry: T,
    /// Marks the identifier type as part of this event's type.
    pub phantom_k: PhantomData<K>,
    /// Marks the message type as part of this event's type.
    pub phantom_m: PhantomData<M>,
    /// The identifier of the thread the event was set in.
    pub thread_id: u64,
    /// The name of the thread the event was set in, if it had one.
    pub thread_name: Option<String>,
    /// The instant the event was set or captured, in ticks, per the
    /// publisher's timestamp policy; `None` until assigned.
    pub timestamp: Option<u64>,
}

impl<K: Id, M: Msg, T: EventEntry<K, M>> Event<K, M, T> {
    /// Create a new event from an entry and the producing thread's data.
    /// The timestamp starts out unassigned.
    pub fn new(entry: T, thread_id: u64, thread_name: Option<String>) -> (r: Event<K, M, T>)
        ensures
            r.entry == entry,
            r.thread_id == thread_id,
            r.thread_name == thread_name,
            r.timestamp is None,
    {
        Event { entry, phantom_k: PhantomData, phantom_m: PhantomData, thread_id, thread_name, timestamp: None }
    }

    /// The identifier of this event.
    pub fn get_event_id(&self) -> (r: &K)
        ensures
            *r == self.entry.spec_event_id(),
    {
        self.entry.get_event_id()
    }

    /// The entry of this event.
    pub fn get_entry(&self) -> (r: &T)
        ensures
            *r == self.entry,
    {
        &self.entry
    }

    /// The entry identifier that was generated when the event was set.
    pub fn get_entry_id(&self) -> (r: uuid::Uuid)
        ensures
            r == self.entry.spec_entry_id(),
    {
        self.entry.get_entry_id()
    }

    /// The main message given when the event was set, or `None`.
    pub fn get_msg(&self) -> (r: Option<&M>)
        ensures
            match r {
                Some(m) => self.entry.spec_msg() == Some(*m),
                None => self.entry.spec_msg() is None,
            },
    {
        self.entry.get_msg()
    }

    /// The origin the event was set at.
    pub fn get_origin(&self) -> (r: &Origin)
        ensures
            *r == self.entry.spec_origin(),
    {
        self.entry.get_origin()
    }

    /// The identifier of the thread the event was set in.
    pub fn get_thread_id(&self) -> (r: u64)
        ensures
            r == self.thread_id,
    {
        self.thread_id
    }

    /// The name of the thread the event was set in, if it had one.
    pub fn get_thread_name(&self) -> (r: &Option<String>)
        ensures
            *r == self.thread_name,
    {
        &self.thread_name
    }

    /// The timestamp of the event, if one was assigned.
    pub fn get_timestamp(&self) -> (r: Option<u64>)
        ensures
            r == self.timestamp,
    {
        self.timestamp
    }
}

} // verus!
