//! The publisher: capture pipeline, dispatcher step and subscription
//! registry, modelled as one sequential state machine.
//!
//! In a threaded deployment the dispatcher runs on a thread of its own,
//! with a bounded channel between producers and the dispatcher and one
//! bounded channel per subscription. Here the whole bus is one value:
//! producers enqueue into the capture queue through the capture entry
//! points, and each [`EvidentPublisher::process_next`] step dispatches the
//! oldest captured event to every matching subscription queue. A blocking
//! submission always enqueues, standing for a producer that waits until
//! the dispatcher makes room; a non-blocking submission on a full queue is
//! counted and dropped.

use crate::event::entry::EventEntry;
use crate::event::filter::Filter;
use crate::event::finalized::FinalizedEvent;
use crate::event::intermediary::IntermediaryEvent;
use crate::event::origin::Origin;
use crate::event::{Event, EventContext, Id, Msg};
use crate::subscription::{Subscription, SubscriptionError};
use crate::trusted::{arc_clone, new_uuid, uuid_eq};
use core::marker::PhantomData;
use std::sync::Arc;
use vstd::prelude::*;

verus! {

/// Implemented by identifier types to control the publisher and all
/// listeners: two reserved identifier values start and stop capturing.
pub trait CaptureControl: Sized {
    /// Whether the given identifier signals the start of event capturing.
    spec fn spec_start(id: Self) -> bool;

    /// Whether the given identifier signals the end of event capturing.
    spec fn spec_stop(id: Self) -> bool;

    /// Return `true` if the given identifier is the start identifier.
    fn start(id: &Self) -> (r: bool)
        ensures
            r == Self::spec_start(*id),
    ;

    /// The start identifier.
    fn start_id() -> (r: Self)
        ensures
            Self::spec_start(r),
    ;

    /// Return `true` if the given identifier is the stop identifier.
    fn stop(id: &Self) -> (r: bool)
        ensures
            r == Self::spec_stop(*id),
    ;

    /// The stop identifier.
    fn stop_id() -> (r: Self)
        ensures
            Self::spec_stop(r),
    ;
}

/// Whether the given identifier is reserved for capture control.
pub open spec fn spec_is_control_id<K: CaptureControl>(id: K) -> bool {
    K::spec_stop(id) || K::spec_start(id)
}

/// Return `true` if the given identifier is used to control capturing.
pub fn is_control_id<K: CaptureControl>(id: &K) -> (r: bool)
    ensures
        r == spec_is_control_id(*id),
{
    K::stop(id) || K::start(id)
}

/// The producer-side back-pressure policy: block on a full capture queue,
/// or drop the event and count it.
#[derive(Debug, Clone, Copy, PartialEq, Eq, Structural)]
pub enum CaptureMode {
    Blocking,
    NonBlocking,
}

/// When an event's timestamp is assigned: when the dispatcher takes the
/// event up, or when the producer sets it.
#[derive(Debug, Clone, Copy, PartialEq, Eq, Structural)]
pub enum EventTimestampKind {
    /// Assign the timestamp when the event is taken up by the dispatcher.
    Captured,
    /// Assign the timestamp when the event is created by the producer.
    Created,
}

/// One subscription queue, owned by the publisher: the subscription handle
/// reads from it through the publisher by channel identifier.
pub(crate) struct SubChannel<K: Id, M: Msg, T: EventEntry<K, M>> {
    /// The identifier of the channel between publisher and subscription.
    pub channel_id: uuid::Uuid,
    /// The configured queue bound: non-blocking deliveries beyond it are
    /// dropped for this subscriber.
    pub bound: usize,
    /// The queued envelopes, oldest first.
    pub queue: Vec<Arc<Event<K, M, T>>>,
}

/// An `EvidentPublisher` captures events, dispatches them, and manages
/// subscriptions.
pub struct EvidentPublisher<K, M, T, F> where
    K: Id + CaptureControl,
    M: Msg,
    T: EventEntry<K, M>,
    F: Filter<K, M, T>,
 {
    /// Registered interests of subscribers in specific events: one pair per
    /// subscribed identifier and subscribing channel.
    pub(crate) subscriptions: Vec<(K, uuid::Uuid)>,
    /// The channels of subscribers listening to all events.
    pub(crate) any_event: Vec<uuid::Uuid>,
    /// The subscription queues, one per live subscription.
    pub(crate) channels: Vec<SubChannel<K, M, T>>,
    /// The capture queue between producers and the dispatcher.
    pub(crate) capture_queue: Vec<Event<K, M, T>>,
    /// Optional filter applied when capturing events.
    filter: Option<F>,
    /// Whether capturing is active; toggled by control events that the
    /// dispatcher observes.
    capturing: bool,
    /// Whether submissions and deliveries block rather than drop.
    capture_blocking: bool,
    /// The size of the capture queue.
    capture_channel_bound: usize,
    /// The additive part of each subscription queue's size.
    subscription_channel_bound: usize,
    /// Number of captures missed in non-blocking mode since the last reset.
    missed_captures: usize,
    /// When event timestamps are assigned.
    timestamp_kind: EventTimestampKind,
}

impl<K, M, T, F> EvidentPublisher<K, M, T, F> where
    K: Id + CaptureControl,
    M: Msg,
    T: EventEntry<K, M>,
    F: Filter<K, M, T>,
 {
    /// Whether capturing is active.
    pub closed spec fn spec_capturing(self) -> bool {
        self.capturing
    }

    /// Whether the capture mode is blocking.
    pub closed spec fn spec_blocking(self) -> bool {
        self.capture_blocking
    }

    /// The number of captures missed in non-blocking mode since the last
    /// reset.
    pub closed spec fn spec_missed(self) -> nat {
        self.missed_captures as nat
    }

    /// The size of the capture queue.
    pub closed spec fn spec_cap_bound(self) -> nat {
        self.capture_channel_bound as nat
    }

    /// The additive part of each subscription queue's size.
    pub closed spec fn spec_sub_bound(self) -> nat {
        self.subscription_channel_bound as nat
    }

    /// When event timestamps are assigned.
    pub closed spec fn spec_ts_kind(self) -> EventTimestampKind {
        self.timestamp_kind
    }

    /// The configured filter, if one is set.
    pub closed spec fn spec_filter(self) -> Option<F> {
        self.filter
    }

    /// The contents of the capture queue, oldest first.
    pub closed spec fn spec_queue(self) -> Seq<Event<K, M, T>> {
        self.capture_queue@
    }

    /// Whether the channel `cid` is registered for the identifier `k`.
    pub closed spec fn spec_registered(self, k: K, cid: uuid::Uuid) -> bool {
        exists|i: int| 0 <= i < self.subscriptions@.len() && self.subscriptions@[i] == (k, cid)
    }

    /// Whether the channel `cid` is registered for all events.
    pub closed spec fn spec_any_registered(self, cid: uuid::Uuid) -> bool {
        self.any_event@.contains(cid)
    }

    /// Whether a subscription queue with the given channel identifier
    /// exists.
    pub closed spec fn spec_has_channel(self, cid: uuid::Uuid) -> bool {
        exists|i: int|
            0 <= i < self.channels@.len() && self.channels@[i].channel_id == cid
    }

    /// The index of the subscription queue with the given channel
    /// identifier.
    pub(crate) closed spec fn spec_channel_index(self, cid: uuid::Uuid) -> int {
        choose|i: int| 0 <= i < self.channels@.len() && self.channels@[i].channel_id == cid
    }

    /// The contents of the subscription queue of channel `cid`, oldest
    /// first.
    pub closed spec fn spec_channel_queue(self, cid: uuid::Uuid) -> Seq<Event<K, M, T>> {
        self.channels@[self.spec_channel_index(cid)].queue@.map_values(
            |a: Arc<Event<K, M, T>>| *a,
        )
    }

    /// The configured bound of the subscription queue of channel `cid`.
    pub closed spec fn spec_channel_bound(self, cid: uuid::Uuid) -> nat {
        self.channels@[self.spec_channel_index(cid)].bound as nat
    }

    /// Well-formedness of the publisher state: positive bounds, no
    /// registered pair twice, and distinct channel identifiers.
    pub closed spec fn wf(self) -> bool {
        &&& self.capture_channel_bound >= 1
        &&& self.subscription_channel_bound >= 1
        &&& self.subscriptions@.no_duplicates()
        &&& self.any_event@.no_duplicates()
        &&& forall|i: int, j: int|
            0 <= i < j < self.channels@.len() ==> self.channels@[i].channel_id != self.channels@[
                j
            ].channel_id
    }

    /// Whether the filter (if any) lets the given entry pass.
    pub open spec fn spec_filter_allows(self, entry: T) -> bool {
        match self.spec_filter() {
            Option::None => true,
            Option::Some(f) => f.spec_allow(entry),
        }
    }

    /// Whether a capture attempt for the given entry passes the gates: a
    /// control identifier always passes; any other entry passes only while
    /// capturing is active and the filter (if any) allows it.
    pub open spec fn spec_entry_allowed(self, entry: T) -> bool {
        spec_is_control_id(entry.spec_event_id()) || (self.spec_capturing()
            && self.spec_filter_allows(entry))
    }

    /// The registries, queues and configuration other than the capture
    /// queue and the missed-capture counter are the same in `pre` and
    /// `post`.
    pub open spec fn spec_delivery_unchanged(pre: Self, post: Self) -> bool {
        &&& forall|k: K, cid: uuid::Uuid|
            post.spec_registered(k, cid) == pre.spec_registered(k, cid)
        &&& forall|cid: uuid::Uuid| post.spec_any_registered(cid) == pre.spec_any_registered(cid)
        &&& forall|cid: uuid::Uuid| post.spec_has_channel(cid) == pre.spec_has_channel(cid)
        &&& forall|cid: uuid::Uuid|
            pre.spec_has_channel(cid) ==> post.spec_channel_queue(cid) == pre.spec_channel_queue(
                cid,
            ) && post.spec_channel_bound(cid) == pre.spec_channel_bound(cid)
    }

    /// The configuration of `pre` and `post` is the same: mode, bounds,
    /// timestamp policy and filter.
    pub open spec fn spec_config_unchanged(pre: Self, post: Self) -> bool {
        &&& post.spec_blocking() == pre.spec_blocking()
        &&& post.spec_cap_bound() == pre.spec_cap_bound()
        &&& post.spec_sub_bound() == pre.spec_sub_bound()
        &&& post.spec_ts_kind() == pre.spec_ts_kind()
        &&& post.spec_filter() == pre.spec_filter()
    }

    /// Two states with the same registries and channels deliver the same:
    /// membership and queues are functions of those fields alone.
    proof fn lemma_same_delivery(pre: Self, post: Self)
        requires
            post.subscriptions@ == pre.subscriptions@,
            post.any_event@ == pre.any_event@,
            post.channels@ == pre.channels@,
        ensures
            Self::spec_delivery_unchanged(pre, post),
    {
        assert forall|k: K, cid: uuid::Uuid|
            post.spec_registered(k, cid) == pre.spec_registered(k, cid) by {
            if pre.spec_registered(k, cid) {
                let i = choose|i: int|
                    0 <= i < pre.subscriptions@.len() && pre.subscriptions@[i] == (k, cid);
                assert(post.subscriptions@[i] == (k, cid));
            }
            if post.spec_registered(k, cid) {
                let i = choose|i: int|
                    0 <= i < post.subscriptions@.len() && post.subscriptions@[i] == (k, cid);
                assert(pre.subscriptions@[i] == (k, cid));
            }
        }
        assert forall|cid: uuid::Uuid|
            post.spec_has_channel(cid) == pre.spec_has_channel(cid) by {
            if pre.spec_has_channel(cid) {
                let i = choose|i: int|
                    0 <= i < pre.channels@.len() && pre.channels@[i].channel_id == cid;
                assert(post.channels@[i].channel_id == cid);
            }
            if post.spec_has_channel(cid) {
                let i = choose|i: int|
                    0 <= i < post.channels@.len() && post.channels@[i].channel_id == cid;
                assert(pre.channels@[i].channel_id == cid);
            }
        }
    }

    /// Create a new publisher without an event filter. Capturing starts
    /// out active, the missed-capture counter at zero, and all registries
    /// and queues empty.
    pub fn new(
        capture_mode: CaptureMode,
        capture_channel_bound: usize,
        subscription_channel_bound: usize,
        timestamp_kind: EventTimestampKind,
    ) -> (r: Self)
        requires
            capture_channel_bound >= 1,
            subscription_channel_bound >= 1,
        ensures
            r.wf(),
            r.spec_capturing(),
            r.spec_missed() == 0,
            r.spec_blocking() == (capture_mode == CaptureMode::Blocking),
            r.spec_cap_bound() == capture_channel_bound as nat,
            r.spec_sub_bound() == subscription_channel_bound as nat,
            r.spec_ts_kind() == timestamp_kind,
            r.spec_filter() is None,
            r.spec_queue() == Seq::<Event<K, M, T>>::empty(),
            forall|k: K, cid: uuid::Uuid| !r.spec_registered(k, cid),
            forall|cid: uuid::Uuid| !r.spec_any_registered(cid),
            forall|cid: uuid::Uuid| !r.spec_has_channel(cid),
    {
        Self::create(
            None,
            capture_mode,
            capture_channel_bound,
            subscription_channel_bound,
            timestamp_kind,
        )
    }

    /// Create a new publisher with an event filter. Capturing starts out
    /// active, the missed-capture counter at zero, and all registries and
    /// queues empty.
    pub fn with(
        filter: F,
        capture_mode: CaptureMode,
        capture_channel_bound: usize,
        subscription_channel_bound: usize,
        timestamp_kind: EventTimestampKind,
    ) -> (r: Self)
        requires
            capture_channel_bound >= 1,
            subscription_channel_bound >= 1,
        ensures
            r.wf(),
            r.spec_capturing(),
            r.spec_missed() == 0,
            r.spec_blocking() == (capture_mode == CaptureMode::Blocking),
            r.spec_cap_bound() == capture_channel_bound as nat,
            r.spec_sub_bound() == subscription_channel_bound as nat,
            r.spec_ts_kind() == timestamp_kind,
            r.spec_filter() == Some(filter),
            r.spec_queue() == Seq::<Event<K, M, T>>::empty(),
            forall|k: K, cid: uuid::Uuid| !r.spec_registered(k, cid),
            forall|cid: uuid::Uuid| !r.spec_any_registered(cid),
            forall|cid: uuid::Uuid| !r.spec_has_channel(cid),
    {
        Self::create(
            Some(filter),
            capture_mode,
            capture_channel_bound,
            subscription_channel_bound,
            timestamp_kind,
        )
    }

    /// Create a new publisher with an optional event filter.
    fn create(
        filter: Option<F>,
        capture_mode: CaptureMode,
        capture_channel_bound: usize,
        subscription_channel_bound: usize,
        timestamp_kind: EventTimestampKind,
    ) -> (r: Self)
        requires
            capture_channel_bound >= 1,
            subscription_channel_bound >= 1,
        ensures
            r.wf(),
            r.spec_capturing(),
            r.spec_missed() == 0,
            r.spec_blocking() == (capture_mode == CaptureMode::Blocking),
            r.spec_cap_bound() == capture_channel_bound as nat,
            r.spec_sub_bound() == subscription_channel_bound as nat,
            r.spec_ts_kind() == timestamp_kind,
            r.spec_filter() == filter,
            r.spec_queue() == Seq::<Event<K, M, T>>::empty(),
            forall|k: K, cid: uuid::Uuid| !r.spec_registered(k, cid),
            forall|cid: uuid::Uuid| !r.spec_any_registered(cid),
            forall|cid: uuid::Uuid| !r.spec_has_channel(cid),
    {
        let capture_blocking = capture_mode == CaptureMode::Blocking;
        let r = EvidentPublisher {
            subscriptions: Vec::new(),
            any_event: Vec::new(),
            channels: Vec::new(),
            capture_queue: Vec::new(),
            filter,
            capturing: true,
            capture_blocking,
            capture_channel_bound,
            subscription_channel_bound,
            missed_captures: 0,
            timestamp_kind,
        };
        proof {
            assert(r.spec_queue() =~= Seq::<Event<K, M, T>>::empty());
        }
        r
    }

    /// The event filter, or `None` if no filter is set.
    pub fn get_filter(&self) -> (r: &Option<F>)
        ensures
            *r == self.spec_filter(),
    {
        &self.filter
    }

    /// Return `true` if the given entry passes the capture gates: its
    /// identifier is a control identifier, or capturing is active and the
    /// filter (if any) allows the entry.
    pub fn entry_allowed(&self, entry: &T) -> (r: bool)
        ensures
            r == self.spec_entry_allowed(*entry),
    {
        if !is_control_id(entry.get_event_id()) {
            if !self.capturing {
                return false;
            }
            match &self.filter {
                Some(filter) => {
                    if !filter.allow_entry(entry) {
                        return false;
                    }
                },
                None => {},
            }
        }
        true
    }

    /// The current capture mode.
    pub fn get_capture_mode(&self) -> (r: CaptureMode)
        ensures
            r == (if self.spec_blocking() {
                CaptureMode::Blocking
            } else {
                CaptureMode::NonBlocking
            }),
    {
        if self.capture_blocking {
            CaptureMode::Blocking
        } else {
            CaptureMode::NonBlocking
        }
    }

    /// Change the capture mode.
    pub fn set_capture_mode(&mut self, mode: CaptureMode)
        requires
            old(self).wf(),
        ensures
            final(self).wf(),
            final(self).spec_blocking() == (mode == CaptureMode::Blocking),
            Self::spec_delivery_unchanged(*old(self), *final(self)),
            final(self).spec_capturing() == old(self).spec_capturing(),
            final(self).spec_missed() == old(self).spec_missed(),
            final(self).spec_queue() == old(self).spec_queue(),
            final(self).spec_cap_bound() == old(self).spec_cap_bound(),
            final(self).spec_sub_bound() == old(self).spec_sub_bound(),
            final(self).spec_ts_kind() == old(self).spec_ts_kind(),
            final(self).spec_filter() == old(self).spec_filter(),
    {
        self.capture_blocking = mode == CaptureMode::Blocking;
        proof {
            Self::lemma_same_delivery(*old(self), *self);
        }
    }

    /// The number of captures missed in non-blocking mode since the last
    /// reset.
    pub fn get_missed_captures(&self) -> (r: usize)
        ensures
            r as nat == self.spec_missed(),
    {
        self.missed_captures
    }

    /// Reset the number of missed captures to zero.
    pub fn reset_missed_captures(&mut self)
        requires
            old(self).wf(),
        ensures
            final(self).wf(),
            final(self).spec_missed() == 0,
            Self::spec_delivery_unchanged(*old(self), *final(self)),
            Self::spec_config_unchanged(*old(self), *final(self)),
            final(self).spec_capturing() == old(self).spec_capturing(),
            final(self).spec_queue() == old(self).spec_queue(),
    {
        self.missed_captures = 0;
        proof {
            Self::lemma_same_delivery(*old(self), *self);
        }
    }

    /// Return `true` if capturing is active.
    pub fn is_capturing(&self) -> (r: bool)
        ensures
            r == self.spec_capturing(),
    {
        self.capturing
    }
}

/// The event a capture attempt builds from an entry: the producing
/// thread's data is recorded, and the timestamp is assigned now exactly if
/// the policy stamps events at creation.
pub open spec fn spec_captured_event<K: Id, M: Msg, T: EventEntry<K, M>>(
    entry: T,
    ctx: EventContext,
    kind: EventTimestampKind,
) -> Event<K, M, T> {
    Event {
        entry,
        phantom_k: PhantomData,
        phantom_m: PhantomData,
        thread_id: ctx.thread_id,
        thread_name: ctx.thread_name,
        timestamp: if kind == EventTimestampKind::Created {
            Some(ctx.now)
        } else {
            None
        },
    }
}

impl<K, M, T, F> EvidentPublisher<K, M, T, F> where
    K: Id + CaptureControl,
    M: Msg,
    T: EventEntry<K, M>,
    F: Filter<K, M, T>,
 {
    /// What one capture attempt for `entry` does to the publisher state:
    /// registries, channels and configuration stay as they are; a gated
    /// entry changes nothing; an allowed entry enqueues the event built
    /// from it, except that in non-blocking mode a full capture queue
    /// drops the event and adds one missed capture, saturating.
    pub open spec fn spec_capture_post(pre: Self, post: Self, entry: T, ctx: EventContext) -> bool {
        &&& Self::spec_delivery_unchanged(pre, post)
        &&& Self::spec_config_unchanged(pre, post)
        &&& post.spec_capturing() == pre.spec_capturing()
        &&& (!pre.spec_entry_allowed(entry) ==> post.spec_queue() == pre.spec_queue()
            && post.spec_missed() == pre.spec_missed())
        &&& (pre.spec_entry_allowed(entry) && (pre.spec_blocking() || pre.spec_queue().len()
            < pre.spec_cap_bound()) ==> post.spec_queue() == pre.spec_queue().push(
            spec_captured_event(entry, ctx, pre.spec_ts_kind()),
        ) && post.spec_missed() == pre.spec_missed())
        &&& (pre.spec_entry_allowed(entry) && !pre.spec_blocking() && pre.spec_queue().len()
            >= pre.spec_cap_bound() ==> post.spec_queue() == pre.spec_queue() && post.spec_missed()
            == (if pre.spec_missed() < usize::MAX as nat {
            pre.spec_missed() + 1
        } else {
            pre.spec_missed()
        }))
    }

    /// Capture an intermediary event: take its entry, and submit the event
    /// built from it to the capture queue, subject to the gates.
    ///
    /// Exactly one capture attempt is made per intermediary event; the
    /// intermediary is drained by it. If the entry's identifier is not a
    /// control identifier, the attempt is gated by the capturing flag and
    /// the filter. In blocking mode an allowed event always enqueues,
    /// standing for a producer that waits for room; in non-blocking mode a
    /// full capture queue drops the event and adds one missed capture,
    /// saturating at the counter's maximum.
    pub fn _capture<I: IntermediaryEvent<K, M, T>>(
        &mut self,
        interm_event: &mut I,
        ctx: EventContext,
    )
        requires
            old(self).wf(),
            old(interm_event).spec_live(),
        ensures
            final(self).wf(),
            !final(interm_event).spec_live(),
            Self::spec_capture_post(*old(self), *final(self), old(interm_event).spec_entry(), ctx),
    {
        let entry = interm_event.take_entry();
        if !self.entry_allowed(&entry) {
            return ;
        }
        let EventContext { now, thread_id, thread_name } = ctx;
        let mut event = Event::new(entry, thread_id, thread_name);
        if self.timestamp_kind == EventTimestampKind::Created {
            event.timestamp = Some(now);
        }
        if self.capture_blocking {
            self.capture_queue.push(event);
        } else {
            if self.capture_queue.len() < self.capture_channel_bound {
                self.capture_queue.push(event);
            } else {
                if self.missed_captures < usize::MAX {
                    self.missed_captures = self.missed_captures + 1;
                }
            }
        }
    }

    /// Finalize an intermediary event: capture it now, and return the pair
    /// of its event identifier and its entry identifier.
    pub fn finalize<I: IntermediaryEvent<K, M, T>>(&mut self, interm_event: I, ctx: EventContext) -> (r:
        FinalizedEvent<K>)
        requires
            old(self).wf(),
            interm_event.spec_live(),
        ensures
            final(self).wf(),
            r.event_id == interm_event.spec_entry().spec_event_id(),
            r.entry_id == interm_event.spec_entry().spec_entry_id(),
            Self::spec_capture_post(*old(self), *final(self), interm_event.spec_entry(), ctx),
    {
        let event_id = interm_event.get_event_id().clone_id();
        let entry_id = interm_event.get_entry().get_entry_id();
        let mut ie = interm_event;
        self._capture(&mut ie, ctx);
        FinalizedEvent::new(event_id, entry_id)
    }

    /// Submit a synthetic start event through the capture queue. The
    /// capturing flag itself is toggled by the dispatcher when it observes
    /// the event, so that all listeners observe the transition in the
    /// global event order.
    pub fn start(&mut self, ctx: EventContext)
        requires
            old(self).wf(),
        ensures
            final(self).wf(),
            Self::spec_delivery_unchanged(*old(self), *final(self)),
            Self::spec_config_unchanged(*old(self), *final(self)),
            final(self).spec_capturing() == old(self).spec_capturing(),
            final(self).spec_missed() == old(self).spec_missed(),
            final(self).spec_queue().len() == old(self).spec_queue().len() + 1,
            final(self).spec_queue().drop_last() == old(self).spec_queue(),
            K::spec_start(final(self).spec_queue().last().entry.spec_event_id()),
            final(self).spec_queue().last().entry.spec_msg() is None,
            final(self).spec_queue().last().timestamp is None,
            final(self).spec_queue().last().thread_id == ctx.thread_id,
            final(self).spec_queue().last().thread_name == ctx.thread_name,
    {
        let EventContext { now: _, thread_id, thread_name } = ctx;
        let entry = T::new(K::start_id(), None, Origin::empty());
        let event = Event::new(entry, thread_id, thread_name);
        self.capture_queue.push(event);
        proof {
            Self::lemma_same_delivery(*old(self), *self);
            assert(self.spec_queue().drop_last() =~= old(self).spec_queue());
        }
    }

    /// Submit a synthetic stop event through the capture queue. The
    /// capturing flag itself is toggled by the dispatcher when it observes
    /// the event, so every live subscriber still sees the stop event.
    pub fn stop(&mut self, ctx: EventContext)
        requires
            old(self).wf(),
        ensures
            final(self).wf(),
            Self::spec_delivery_unchanged(*old(self), *final(self)),
            Self::spec_config_unchanged(*old(self), *final(self)),
            final(self).spec_capturing() == old(self).spec_capturing(),
            final(self).spec_missed() == old(self).spec_missed(),
            final(self).spec_queue().len() == old(self).spec_queue().len() + 1,
            final(self).spec_queue().drop_last() == old(self).spec_queue(),
            K::spec_stop(final(self).spec_queue().last().entry.spec_event_id()),
            final(self).spec_queue().last().entry.spec_msg() is None,
            final(self).spec_queue().last().timestamp is None,
            final(self).spec_queue().last().thread_id == ctx.thread_id,
            final(self).spec_queue().last().thread_name == ctx.thread_name,
    {
        let EventContext { now: _, thread_id, thread_name } = ctx;
        let entry = T::new(K::stop_id(), None, Origin::empty());
        let event = Event::new(entry, thread_id, thread_name);
        self.capture_queue.push(event);
        proof {
            Self::lemma_same_delivery(*old(self), *self);
            assert(self.spec_queue().drop_last() =~= old(self).spec_queue());
        }
    }
}

impl<K, M, T, F> EvidentPublisher<K, M, T, F> where
    K: Id + CaptureControl,
    M: Msg,
    T: EventEntry<K, M>,
    F: Filter<K, M, T>,
 {
    /// The channel at index `i` is the channel its identifier selects.
    proof fn lemma_channel_at(self, i: int)
        requires
            forall|a: int, b: int|
                0 <= a < b < self.channels@.len() ==> self.channels@[a].channel_id
                    != self.channels@[b].channel_id,
            0 <= i < self.channels@.len(),
        ensures
            self.spec_has_channel(self.channels@[i].channel_id),
            self.spec_channel_index(self.channels@[i].channel_id) == i,
            self.spec_channel_queue(self.channels@[i].channel_id) == self.channels@[
                i
            ].queue@.map_values(|a: Arc<Event<K, M, T>>| *a),
            self.spec_channel_bound(self.channels@[i].channel_id) == self.channels@[i].bound as nat,
    {
        let cid = self.channels@[i].channel_id;
        assert(self.spec_has_channel(cid));
        let j = self.spec_channel_index(cid);
        assert(0 <= j < self.channels@.len() && self.channels@[j].channel_id == cid);
        if i < j {
            assert(false);
        }
        if j < i {
            assert(false);
        }
    }

    /// Two states with the same registry fields register the same pairs.
    proof fn lemma_same_registry(pre: Self, post: Self)
        requires
            post.subscriptions@ == pre.subscriptions@,
            post.any_event@ == pre.any_event@,
        ensures
            forall|k: K, cid: uuid::Uuid|
                post.spec_registered(k, cid) == pre.spec_registered(k, cid),
            forall|cid: uuid::Uuid| post.spec_any_registered(cid) == pre.spec_any_registered(cid),
    {
        assert forall|k: K, cid: uuid::Uuid|
            post.spec_registered(k, cid) == pre.spec_registered(k, cid) by {
            if pre.spec_registered(k, cid) {
                let i = choose|i: int|
                    0 <= i < pre.subscriptions@.len() && pre.subscriptions@[i] == (k, cid);
                assert(post.subscriptions@[i] == (k, cid));
            }
            if post.spec_registered(k, cid) {
                let i = choose|i: int|
                    0 <= i < post.subscriptions@.len() && post.subscriptions@[i] == (k, cid);
                assert(pre.subscriptions@[i] == (k, cid));
            }
        }
    }

    /// Two states with the same channels field have the same queues.
    proof fn lemma_same_channels(pre: Self, post: Self)
        requires
            post.channels@ == pre.channels@,
        ensures
            forall|cid: uuid::Uuid| post.spec_has_channel(cid) == pre.spec_has_channel(cid),
            forall|cid: uuid::Uuid|
                pre.spec_has_channel(cid) ==> post.spec_channel_queue(cid)
                    == pre.spec_channel_queue(cid) && post.spec_channel_bound(cid)
                    == pre.spec_channel_bound(cid),
    {
        assert forall|cid: uuid::Uuid|
            post.spec_has_channel(cid) == pre.spec_has_channel(cid) by {
            if pre.spec_has_channel(cid) {
                let i = choose|i: int|
                    0 <= i < pre.channels@.len() && pre.channels@[i].channel_id == cid;
                assert(post.channels@[i].channel_id == cid);
            }
            if post.spec_has_channel(cid) {
                let i = choose|i: int|
                    0 <= i < post.channels@.len() && post.channels@[i].channel_id == cid;
                assert(pre.channels@[i].channel_id == cid);
            }
        }
    }

    /// Return `true` if the pair of identifier and channel is registered.
    pub(crate) fn is_registered(&self, k: &K, cid: &uuid::Uuid) -> (r: bool)
        ensures
            r == self.spec_registered(*k, *cid),
    {
        let n = self.subscriptions.len();
        let mut i: usize = 0;
        while i < n
            invariant
                n == self.subscriptions@.len(),
                i <= n,
                forall|j: int| 0 <= j < i ==> self.subscriptions@[j] != (*k, *cid),
            decreases n - i,
        {
            if self.subscriptions[i].0.eq_id(k) && uuid_eq(&self.subscriptions[i].1, cid) {
                proof {
                    assert(self.subscriptions@[i as int] == (*k, *cid));
                }
                return true;
            }
            i += 1;
        }
        false
    }

    /// Register the pair of identifier and channel, if it is not yet
    /// registered.
    pub(crate) fn register_pair(&mut self, k: &K, cid: &uuid::Uuid)
        requires
            old(self).wf(),
        ensures
            final(self).wf(),
            final(self).spec_registered(*k, *cid),
            forall|k2: K, c2: uuid::Uuid|
                !(k2 == *k && c2 == *cid) ==> final(self).spec_registered(k2, c2) == old(self).spec_registered(k2, c2),
            forall|cid2: uuid::Uuid|
                final(self).spec_any_registered(cid2) == old(self).spec_any_registered(cid2),
            forall|cid2: uuid::Uuid|
                final(self).spec_has_channel(cid2) == old(self).spec_has_channel(cid2),
            forall|cid2: uuid::Uuid|
                old(self).spec_has_channel(cid2) ==> final(self).spec_channel_queue(cid2) == old(self).spec_channel_queue(cid2) && final(self).spec_channel_bound(cid2) == old(self).spec_channel_bound(cid2),
            Self::spec_config_unchanged(*old(self), *final(self)),
            final(self).spec_capturing() == old(self).spec_capturing(),
            final(self).spec_missed() == old(self).spec_missed(),
            final(self).spec_queue() == old(self).spec_queue(),
    {
        let already = self.is_registered(k, cid);
        if !already {
            let id2 = k.clone_id();
            let c2 = cid.clone();
            self.subscriptions.push((id2, c2));
            proof {
                let s0 = old(self).subscriptions@;
                let s1 = self.subscriptions@;
                assert(s1 == s0.push((*k, *cid)));
                assert forall|j: int, l: int|
                    0 <= j < l < s1.len() implies s1[j] != s1[l] by {
                    if l < s1.len() - 1 {
                        assert(s1[j] == s0[j] && s1[l] == s0[l]);
                    } else {
                        assert(s1[l] == (*k, *cid));
                        assert(s1[j] == s0[j]);
                        if s0[j] == (*k, *cid) {
                            assert(old(self).spec_registered(*k, *cid));
                        }
                    }
                }
                assert(s1[s1.len() - 1] == (*k, *cid));
                assert(self.spec_registered(*k, *cid));
                assert forall|k2: K, c2x: uuid::Uuid|
                    !(k2 == *k && c2x == *cid) implies self.spec_registered(k2, c2x) == old(self).spec_registered(k2, c2x) by {
                    if old(self).spec_registered(k2, c2x) {
                        let j = choose|j: int| 0 <= j < s0.len() && s0[j] == (k2, c2x);
                        assert(s1[j] == (k2, c2x));
                    }
                    if self.spec_registered(k2, c2x) {
                        let j = choose|j: int| 0 <= j < s1.len() && s1[j] == (k2, c2x);
                        assert(j < s1.len() - 1);
                        assert(s0[j] == (k2, c2x));
                    }
                }
                Self::lemma_same_channels(*old(self), *self);
            }
        } else {
            proof {
                Self::lemma_same_registry(*old(self), *self);
                Self::lemma_same_channels(*old(self), *self);
            }
        }
    }

    /// Remove the pair of identifier and channel from the registry, where
    /// present.
    pub(crate) fn remove_pair(&mut self, k: &K, cid: &uuid::Uuid)
        requires
            old(self).wf(),
        ensures
            final(self).wf(),
            !final(self).spec_registered(*k, *cid),
            forall|k2: K, c2: uuid::Uuid|
                !(k2 == *k && c2 == *cid) ==> final(self).spec_registered(k2, c2) == old(self).spec_registered(k2, c2),
            forall|cid2: uuid::Uuid|
                final(self).spec_any_registered(cid2) == old(self).spec_any_registered(cid2),
            forall|cid2: uuid::Uuid|
                final(self).spec_has_channel(cid2) == old(self).spec_has_channel(cid2),
            forall|cid2: uuid::Uuid|
                old(self).spec_has_channel(cid2) ==> final(self).spec_channel_queue(cid2) == old(self).spec_channel_queue(cid2) && final(self).spec_channel_bound(cid2) == old(self).spec_channel_bound(cid2),
            Self::spec_config_unchanged(*old(self), *final(self)),
            final(self).spec_capturing() == old(self).spec_capturing(),
            final(self).spec_missed() == old(self).spec_missed(),
            final(self).spec_queue() == old(self).spec_queue(),
    {
        let ghost s0 = self.subscriptions@;
        let mut kept: Vec<(K, uuid::Uuid)> = Vec::new();
        let n = self.subscriptions.len();
        let mut i: usize = 0;
        while i < n
            invariant
                n == self.subscriptions@.len(),
                i <= n,
                s0 == self.subscriptions@,
                self.subscriptions@.no_duplicates(),
                kept@.no_duplicates(),
                forall|p: (K, uuid::Uuid)|
                    #[trigger] kept@.contains(p) == (s0.take(i as int).contains(p) && p != (
                        *k,
                        *cid,
                    )),
            decreases n - i,
        {
            let ghost kept0 = kept@;
            let keep = !(self.subscriptions[i].0.eq_id(k) && uuid_eq(
                &self.subscriptions[i].1,
                cid,
            ));
            if keep {
                let id2 = self.subscriptions[i].0.clone_id();
                let c2 = self.subscriptions[i].1.clone();
                kept.push((id2, c2));
            }
            proof {
                let ix = i as int;
                assert(s0.take(ix + 1) =~= s0.take(ix).push(s0[ix]));
                if keep {
                    assert(kept@ == kept0.push(s0[ix]));
                    assert(!kept0.contains(s0[ix])) by {
                        if kept0.contains(s0[ix]) {
                            let j = choose|j: int|
                                0 <= j < s0.take(ix).len() && s0.take(ix)[j] == s0[ix];
                            assert(s0[j] == s0[ix]);
                        }
                    }
                    assert forall|p: (K, uuid::Uuid)|
                        #[trigger] kept@.contains(p) == (s0.take(ix + 1).contains(p) && p != (
                        *k,
                        *cid,
                    )) by {
                        if kept@.contains(p) {
                            let j = choose|j: int| 0 <= j < kept@.len() && kept@[j] == p;
                            if j < kept@.len() - 1 {
                                assert(kept0[j] == p);
                                assert(kept0.contains(p));
                            } else {
                                assert(p == s0[ix]);
                                assert(s0.take(ix + 1)[ix] == s0[ix]);
                                assert(s0.take(ix + 1).contains(p));
                            }
                        }
                        if s0.take(ix + 1).contains(p) && p != (*k, *cid) {
                            let t = s0.take(ix + 1);
                            let j = choose|j: int| 0 <= j < t.len() && t[j] == p;
                            if j < ix {
                                assert(s0.take(ix)[j] == p);
                                assert(s0.take(ix).contains(p));
                                assert(kept0.contains(p));
                                let l = choose|l: int| 0 <= l < kept0.len() && kept0[l] == p;
                                assert(kept@[l] == p);
                            } else {
                                assert(p == s0[ix]);
                                assert(kept@[kept@.len() - 1] == p);
                            }
                            assert(kept@.contains(p));
                        }
                    }
                } else {
                    assert(s0[ix] == (*k, *cid));
                    assert forall|p: (K, uuid::Uuid)|
                        #[trigger] kept@.contains(p) == (s0.take(ix + 1).contains(p) && p != (
                        *k,
                        *cid,
                    )) by {
                        if s0.take(ix + 1).contains(p) && p != (*k, *cid) {
                            let t = s0.take(ix + 1);
                            let j = choose|j: int| 0 <= j < t.len() && t[j] == p;
                            assert(j < ix);
                            assert(s0.take(ix)[j] == p);
                            assert(s0.take(ix).contains(p));
                        }
                        if kept@.contains(p) {
                            let t = s0.take(ix);
                            let j = choose|j: int| 0 <= j < t.len() && t[j] == p;
                            assert(s0.take(ix + 1)[j] == p);
                            assert(s0.take(ix + 1).contains(p));
                        }
                    }
                }
            }
            i += 1;
        }
        proof {
            assert(s0.take(n as int) =~= s0);
        }
        self.subscriptions = kept;
        proof {
            assert(!self.spec_registered(*k, *cid)) by {
                if self.spec_registered(*k, *cid) {
                    let j = choose|j: int|
                        0 <= j < self.subscriptions@.len() && self.subscriptions@[j] == (*k, *cid);
                    assert(self.subscriptions@.contains((*k, *cid)));
                }
            }
            assert forall|k2: K, c2: uuid::Uuid|
                !(k2 == *k && c2 == *cid) implies self.spec_registered(k2, c2) == old(self).spec_registered(k2, c2) by {
                if old(self).spec_registered(k2, c2) {
                    let j = choose|j: int| 0 <= j < s0.len() && s0[j] == (k2, c2);
                    assert(s0.contains((k2, c2)));
                    assert(self.subscriptions@.contains((k2, c2)));
                    let l = choose|l: int|
                        0 <= l < self.subscriptions@.len() && self.subscriptions@[l] == (k2, c2);
                }
                if self.spec_registered(k2, c2) {
                    let j = choose|j: int|
                        0 <= j < self.subscriptions@.len() && self.subscriptions@[j] == (k2, c2);
                    assert(self.subscriptions@.contains((k2, c2)));
                    assert(s0.contains((k2, c2)));
                    let l = choose|l: int| 0 <= l < s0.len() && s0[l] == (k2, c2);
                }
            }
            Self::lemma_same_channels(*old(self), *self);
        }
    }
}


impl<K, M, T, F> EvidentPublisher<K, M, T, F> where
    K: Id + CaptureControl,
    M: Msg,
    T: EventEntry<K, M>,
    F: Filter<K, M, T>,
 {
    /// The index of the channel with the given identifier, if one exists.
    fn find_channel(channels: &Vec<SubChannel<K, M, T>>, cid: &uuid::Uuid) -> (r: Option<usize>)
        ensures
            match r {
                Some(i) => 0 <= i < channels@.len() && channels@[i as int].channel_id == *cid,
                None => forall|j: int| 0 <= j < channels@.len() ==> channels@[j].channel_id != *cid,
            },
    {
        let n = channels.len();
        let mut i: usize = 0;
        while i < n
            invariant
                n == channels@.len(),
                i <= n,
                forall|j: int| 0 <= j < i ==> channels@[j].channel_id != *cid,
            decreases n - i,
        {
            if uuid_eq(&channels[i].channel_id, cid) {
                return Some(i);
            }
            i += 1;
        }
        None
    }

    /// Whether the given channel identifier occurs in the list.
    fn contains_uuid(v: &Vec<uuid::Uuid>, x: &uuid::Uuid) -> (r: bool)
        ensures
            r == v@.contains(*x),
    {
        let n = v.len();
        let mut i: usize = 0;
        while i < n
            invariant
                n == v@.len(),
                i <= n,
                forall|j: int| 0 <= j < i ==> v@[j] != *x,
            decreases n - i,
        {
            if uuid_eq(&v[i], x) {
                proof {
                    assert(v@[i as int] == *x);
                }
                return true;
            }
            i += 1;
        }
        false
    }

    /// Whether the given identifier occurs in the list.
    fn contains_id(v: &Vec<K>, x: &K) -> (r: bool)
        ensures
            r == v@.contains(*x),
    {
        let n = v.len();
        let mut i: usize = 0;
        while i < n
            invariant
                n == v@.len(),
                i <= n,
                forall|j: int| 0 <= j < i ==> v@[j] != *x,
            decreases n - i,
        {
            if v[i].eq_id(x) {
                proof {
                    assert(v@[i as int] == *x);
                }
                return true;
            }
            i += 1;
        }
        false
    }

    /// Two states with the same pair registry register the same pairs.
    proof fn lemma_same_registry_pairs(pre: Self, post: Self)
        requires
            post.subscriptions@ == pre.subscriptions@,
        ensures
            forall|k: K, cid: uuid::Uuid|
                post.spec_registered(k, cid) == pre.spec_registered(k, cid),
    {
        assert forall|k: K, cid: uuid::Uuid|
            post.spec_registered(k, cid) == pre.spec_registered(k, cid) by {
            if pre.spec_registered(k, cid) {
                let i = choose|i: int|
                    0 <= i < pre.subscriptions@.len() && pre.subscriptions@[i] == (k, cid);
                assert(post.subscriptions@[i] == (k, cid));
            }
            if post.spec_registered(k, cid) {
                let i = choose|i: int|
                    0 <= i < post.subscriptions@.len() && post.subscriptions@[i] == (k, cid);
                assert(pre.subscriptions@[i] == (k, cid));
            }
        }
    }

    /// Register the channel for all events. The caller establishes that it
    /// is not yet registered there.
    pub(crate) fn register_any(&mut self, cid: &uuid::Uuid)
        requires
            old(self).wf(),
            !old(self).spec_any_registered(*cid),
        ensures
            final(self).wf(),
            forall|c: uuid::Uuid|
                final(self).spec_any_registered(c) == (old(self).spec_any_registered(c) || c
                    == *cid),
            forall|k2: K, c2: uuid::Uuid|
                final(self).spec_registered(k2, c2) == old(self).spec_registered(k2, c2),
            forall|c: uuid::Uuid| final(self).spec_has_channel(c) == old(self).spec_has_channel(c),
            forall|c: uuid::Uuid|
                old(self).spec_has_channel(c) ==> final(self).spec_channel_queue(c) == old(self).spec_channel_queue(c) && final(self).spec_channel_bound(c) == old(self).spec_channel_bound(c),
            Self::spec_config_unchanged(*old(self), *final(self)),
            final(self).spec_capturing() == old(self).spec_capturing(),
            final(self).spec_missed() == old(self).spec_missed(),
            final(self).spec_queue() == old(self).spec_queue(),
    {
        let c2 = cid.clone();
        self.any_event.push(c2);
        proof {
            let a0 = old(self).any_event@;
            let a1 = self.any_event@;
            assert(a1 == a0.push(*cid));
            assert forall|j: int, l: int| 0 <= j < l < a1.len() implies a1[j] != a1[l] by {
                if l < a1.len() - 1 {
                    assert(a1[j] == a0[j] && a1[l] == a0[l]);
                } else {
                    assert(a1[l] == *cid);
                    assert(a1[j] == a0[j]);
                    if a0[j] == *cid {
                        assert(a0.contains(*cid));
                    }
                }
            }
            assert forall|c: uuid::Uuid|
                self.spec_any_registered(c) == (old(self).spec_any_registered(c) || c
                    == *cid) by {
                if old(self).spec_any_registered(c) {
                    let j = choose|j: int| 0 <= j < a0.len() && a0[j] == c;
                    assert(a1[j] == c);
                }
                if c == *cid {
                    assert(a1[a1.len() - 1] == c);
                }
                if self.spec_any_registered(c) {
                    let j = choose|j: int| 0 <= j < a1.len() && a1[j] == c;
                    if j < a1.len() - 1 {
                        assert(a0[j] == c);
                    }
                }
            }
            Self::lemma_same_registry_pairs(*old(self), *self);
            Self::lemma_same_channels(*old(self), *self);
        }
    }

    /// Add a fresh, empty channel with the given bound. The caller
    /// establishes that no channel with this identifier exists.
    pub(crate) fn add_channel(&mut self, cid: &uuid::Uuid, bound: usize)
        requires
            old(self).wf(),
            !old(self).spec_has_channel(*cid),
        ensures
            final(self).wf(),
            final(self).spec_has_channel(*cid),
            final(self).spec_channel_queue(*cid) == Seq::<Event<K, M, T>>::empty(),
            final(self).spec_channel_bound(*cid) == bound as nat,
            forall|c: uuid::Uuid|
                c != *cid ==> final(self).spec_has_channel(c) == old(self).spec_has_channel(c),
            forall|c: uuid::Uuid|
                c != *cid && old(self).spec_has_channel(c) ==> final(self).spec_channel_queue(c)
                    == old(self).spec_channel_queue(c) && final(self).spec_channel_bound(c) == old(self).spec_channel_bound(c),
            forall|k2: K, c2: uuid::Uuid|
                final(self).spec_registered(k2, c2) == old(self).spec_registered(k2, c2),
            forall|c: uuid::Uuid|
                final(self).spec_any_registered(c) == old(self).spec_any_registered(c),
            Self::spec_config_unchanged(*old(self), *final(self)),
            final(self).spec_capturing() == old(self).spec_capturing(),
            final(self).spec_missed() == old(self).spec_missed(),
            final(self).spec_queue() == old(self).spec_queue(),
    {
        let c2 = cid.clone();
        let queue: Vec<Arc<Event<K, M, T>>> = Vec::new();
        self.channels.push(SubChannel { channel_id: c2, bound, queue });
        proof {
            let ch0 = old(self).channels@;
            let ch1 = self.channels@;
            let last = ch1.len() - 1;
            assert(ch1 == ch0.push(ch1[last]));
            assert(ch1[last].channel_id == *cid);
            assert forall|a: int, b: int|
                0 <= a < b < ch1.len() implies ch1[a].channel_id != ch1[b].channel_id by {
                if b < last {
                    assert(ch1[a] == ch0[a] && ch1[b] == ch0[b]);
                } else {
                    assert(ch1[a] == ch0[a]);
                    if ch0[a].channel_id == *cid {
                        assert(old(self).spec_has_channel(*cid));
                    }
                }
            }
            self.lemma_channel_at(last);
            assert(self.spec_channel_queue(*cid) =~= Seq::<Event<K, M, T>>::empty());
            assert forall|c: uuid::Uuid|
                c != *cid implies self.spec_has_channel(c) == old(self).spec_has_channel(c) by {
                if old(self).spec_has_channel(c) {
                    let i = choose|i: int| 0 <= i < ch0.len() && ch0[i].channel_id == c;
                    assert(ch1[i].channel_id == c);
                }
                if self.spec_has_channel(c) {
                    let i = choose|i: int| 0 <= i < ch1.len() && ch1[i].channel_id == c;
                    assert(i < last);
                    assert(ch0[i].channel_id == c);
                }
            }
            assert forall|c: uuid::Uuid|
                c != *cid && old(self).spec_has_channel(c) implies self.spec_channel_queue(c)
                == old(self).spec_channel_queue(c) && self.spec_channel_bound(c) == old(self).spec_channel_bound(c) by {
                let i = choose|i: int| 0 <= i < ch0.len() && ch0[i].channel_id == c;
                old(self).lemma_channel_at(i);
                self.lemma_channel_at(i);
            }
            Self::lemma_same_registry(*old(self), *self);
        }
    }

    /// Remove the channel with the given identifier, where present.
    pub(crate) fn take_out_channel(&mut self, cid: &uuid::Uuid)
        requires
            old(self).wf(),
        ensures
            final(self).wf(),
            !final(self).spec_has_channel(*cid),
            forall|c: uuid::Uuid|
                c != *cid ==> final(self).spec_has_channel(c) == old(self).spec_has_channel(c),
            forall|c: uuid::Uuid|
                c != *cid && old(self).spec_has_channel(c) ==> final(self).spec_channel_queue(c)
                    == old(self).spec_channel_queue(c) && final(self).spec_channel_bound(c) == old(self).spec_channel_bound(c),
            forall|k2: K, c2: uuid::Uuid|
                final(self).spec_registered(k2, c2) == old(self).spec_registered(k2, c2),
            forall|c: uuid::Uuid|
                final(self).spec_any_registered(c) == old(self).spec_any_registered(c),
            Self::spec_config_unchanged(*old(self), *final(self)),
            final(self).spec_capturing() == old(self).spec_capturing(),
            final(self).spec_missed() == old(self).spec_missed(),
            final(self).spec_queue() == old(self).spec_queue(),
    {
        let found = Self::find_channel(&self.channels, cid);
        match found {
            None => {
                proof {
                    Self::lemma_same_registry(*old(self), *self);
                    Self::lemma_same_channels(*old(self), *self);
                    if self.spec_has_channel(*cid) {
                        let i = choose|i: int|
                            0 <= i < self.channels@.len() && self.channels@[i].channel_id == *cid;
                    }
                }
            },
            Some(i) => {
                self.channels.remove(i);
                proof {
                    let ch0 = old(self).channels@;
                    let ch1 = self.channels@;
                    let ix = i as int;
                    assert(ch1 == ch0.remove(ix));
                    assert(ch1.len() == ch0.len() - 1);
                    assert forall|j: int| 0 <= j < ch1.len() implies ch1[j] == (if j < ix {
                        ch0[j]
                    } else {
                        ch0[j + 1]
                    }) by {}
                    assert forall|a: int, b: int|
                        0 <= a < b < ch1.len() implies ch1[a].channel_id != ch1[b].channel_id by {}
                    assert(!self.spec_has_channel(*cid)) by {
                        if self.spec_has_channel(*cid) {
                            let j = choose|j: int|
                                0 <= j < ch1.len() && ch1[j].channel_id == *cid;
                        }
                    }
                    assert forall|c: uuid::Uuid|
                        c != *cid implies self.spec_has_channel(c) == old(self).spec_has_channel(
                        c,
                    ) by {
                        if old(self).spec_has_channel(c) {
                            let j = choose|j: int|
                                0 <= j < ch0.len() && ch0[j].channel_id == c;
                            if j < ix {
                                assert(ch1[j].channel_id == c);
                            } else {
                                assert(j > ix);
                                assert(ch1[j - 1].channel_id == c);
                            }
                        }
                        if self.spec_has_channel(c) {
                            let j = choose|j: int|
                                0 <= j < ch1.len() && ch1[j].channel_id == c;
                        }
                    }
                    assert forall|c: uuid::Uuid|
                        c != *cid && old(self).spec_has_channel(c) implies self.spec_channel_queue(
                        c,
                    ) == old(self).spec_channel_queue(c) && self.spec_channel_bound(c) == old(self).spec_channel_bound(c) by {
                        let j = choose|j: int| 0 <= j < ch0.len() && ch0[j].channel_id == c;
                        old(self).lemma_channel_at(j);
                        if j < ix {
                            self.lemma_channel_at(j);
                        } else {
                            assert(j > ix);
                            assert(ch1[j - 1] == ch0[j]);
                            self.lemma_channel_at(j - 1);
                        }
                    }
                    Self::lemma_same_registry(*old(self), *self);
                }
            },
        }
    }
}

impl<K, M, T, F> EvidentPublisher<K, M, T, F> where
    K: Id + CaptureControl,
    M: Msg,
    T: EventEntry<K, M>,
    F: Filter<K, M, T>,
 {
    /// Remove every registered pair that names the given channel.
    fn purge_pairs(&mut self, cid: &uuid::Uuid)
        requires
            old(self).wf(),
        ensures
            final(self).wf(),
            forall|k2: K, c2: uuid::Uuid|
                final(self).spec_registered(k2, c2) == (old(self).spec_registered(k2, c2) && c2
                    != *cid),
            forall|c: uuid::Uuid|
                final(self).spec_any_registered(c) == old(self).spec_any_registered(c),
            forall|c: uuid::Uuid| final(self).spec_has_channel(c) == old(self).spec_has_channel(c),
            forall|c: uuid::Uuid|
                old(self).spec_has_channel(c) ==> final(self).spec_channel_queue(c) == old(self).spec_channel_queue(c) && final(self).spec_channel_bound(c) == old(self).spec_channel_bound(c),
            Self::spec_config_unchanged(*old(self), *final(self)),
            final(self).spec_capturing() == old(self).spec_capturing(),
            final(self).spec_missed() == old(self).spec_missed(),
            final(self).spec_queue() == old(self).spec_queue(),
    {
        let ghost s0 = self.subscriptions@;
        let mut kept: Vec<(K, uuid::Uuid)> = Vec::new();
        let n = self.subscriptions.len();
        let mut i: usize = 0;
        while i < n
            invariant
                n == self.subscriptions@.len(),
                i <= n,
                s0 == self.subscriptions@,
                self.subscriptions@.no_duplicates(),
                kept@.no_duplicates(),
                forall|p: (K, uuid::Uuid)|
                    #[trigger] kept@.contains(p) == (s0.take(i as int).contains(p) && p.1 != *cid),
            decreases n - i,
        {
            let ghost kept0 = kept@;
            let keep = !uuid_eq(&self.subscriptions[i].1, cid);
            if keep {
                let id2 = self.subscriptions[i].0.clone_id();
                let c2 = self.subscriptions[i].1.clone();
                kept.push((id2, c2));
            }
            proof {
                let ix = i as int;
                assert(s0.take(ix + 1) =~= s0.take(ix).push(s0[ix]));
                if keep {
                    assert(kept@ == kept0.push(s0[ix]));
                    assert(!kept0.contains(s0[ix])) by {
                        if kept0.contains(s0[ix]) {
                            let t = s0.take(ix);
                            let j = choose|j: int| 0 <= j < t.len() && t[j] == s0[ix];
                            assert(s0[j] == s0[ix]);
                        }
                    }
                    assert forall|p: (K, uuid::Uuid)|
                        #[trigger] kept@.contains(p) == (s0.take(ix + 1).contains(p) && p.1
                        != *cid) by {
                        if kept@.contains(p) {
                            let j = choose|j: int| 0 <= j < kept@.len() && kept@[j] == p;
                            if j < kept@.len() - 1 {
                                assert(kept0[j] == p);
                                assert(kept0.contains(p));
                            } else {
                                assert(p == s0[ix]);
                                assert(s0.take(ix + 1)[ix] == s0[ix]);
                                assert(s0.take(ix + 1).contains(p));
                            }
                        }
                        if s0.take(ix + 1).contains(p) && p.1 != *cid {
                            let t = s0.take(ix + 1);
                            let j = choose|j: int| 0 <= j < t.len() && t[j] == p;
                            if j < ix {
                                assert(s0.take(ix)[j] == p);
                                assert(s0.take(ix).contains(p));
                                assert(kept0.contains(p));
                                let l = choose|l: int| 0 <= l < kept0.len() && kept0[l] == p;
                                assert(kept@[l] == p);
                            } else {
                                assert(p == s0[ix]);
                                assert(kept@[kept@.len() - 1] == p);
                            }
                            assert(kept@.contains(p));
                        }
                    }
                } else {
                    assert(s0[ix].1 == *cid);
                    assert forall|p: (K, uuid::Uuid)|
                        #[trigger] kept@.contains(p) == (s0.take(ix + 1).contains(p) && p.1
                        != *cid) by {
                        if s0.take(ix + 1).contains(p) && p.1 != *cid {
                            let t = s0.take(ix + 1);
                            let j = choose|j: int| 0 <= j < t.len() && t[j] == p;
                            assert(j < ix);
                            assert(s0.take(ix)[j] == p);
                            assert(s0.take(ix).contains(p));
                        }
                        if kept@.contains(p) {
                            let t = s0.take(ix);
                            let j = choose|j: int| 0 <= j < t.len() && t[j] == p;
                            assert(s0.take(ix + 1)[j] == p);
                            assert(s0.take(ix + 1).contains(p));
                        }
                    }
                }
            }
            i += 1;
        }
        proof {
            assert(s0.take(n as int) =~= s0);
        }
        self.subscriptions = kept;
        proof {
            assert forall|k2: K, c2: uuid::Uuid|
                self.spec_registered(k2, c2) == (old(self).spec_registered(k2, c2) && c2
                    != *cid) by {
                if old(self).spec_registered(k2, c2) && c2 != *cid {
                    let j = choose|j: int| 0 <= j < s0.len() && s0[j] == (k2, c2);
                    assert(s0.contains((k2, c2)));
                    assert(self.subscriptions@.contains((k2, c2)));
                    let l = choose|l: int|
                        0 <= l < self.subscriptions@.len() && self.subscriptions@[l] == (k2, c2);
                }
                if self.spec_registered(k2, c2) {
                    let j = choose|j: int|
                        0 <= j < self.subscriptions@.len() && self.subscriptions@[j] == (k2, c2);
                    assert(self.subscriptions@.contains((k2, c2)));
                    assert(s0.contains((k2, c2)) && c2 != *cid);
                    let l = choose|l: int| 0 <= l < s0.len() && s0[l] == (k2, c2);
                }
            }
            Self::lemma_same_channels(*old(self), *self);
        }
    }

    /// Remove the given channel from the all-events registry.
    fn purge_any(&mut self, cid: &uuid::Uuid)
        requires
            old(self).wf(),
        ensures
            final(self).wf(),
            forall|c: uuid::Uuid|
                final(self).spec_any_registered(c) == (old(self).spec_any_registered(c) && c
                    != *cid),
            forall|k2: K, c2: uuid::Uuid|
                final(self).spec_registered(k2, c2) == old(self).spec_registered(k2, c2),
            forall|c: uuid::Uuid| final(self).spec_has_channel(c) == old(self).spec_has_channel(c),
            forall|c: uuid::Uuid|
                old(self).spec_has_channel(c) ==> final(self).spec_channel_queue(c) == old(self).spec_channel_queue(c) && final(self).spec_channel_bound(c) == old(self).spec_channel_bound(c),
            Self::spec_config_unchanged(*old(self), *final(self)),
            final(self).spec_capturing() == old(self).spec_capturing(),
            final(self).spec_missed() == old(self).spec_missed(),
            final(self).spec_queue() == old(self).spec_queue(),
    {
        let ghost a0 = self.any_event@;
        let mut kept: Vec<uuid::Uuid> = Vec::new();
        let n = self.any_event.len();
        let mut i: usize = 0;
        while i < n
            invariant
                n == self.any_event@.len(),
                i <= n,
                a0 == self.any_event@,
                self.any_event@.no_duplicates(),
                kept@.no_duplicates(),
                forall|c: uuid::Uuid|
                    #[trigger] kept@.contains(c) == (a0.take(i as int).contains(c) && c != *cid),
            decreases n - i,
        {
            let ghost kept0 = kept@;
            let keep = !uuid_eq(&self.any_event[i], cid);
            if keep {
                let c2 = self.any_event[i].clone();
                kept.push(c2);
            }
            proof {
                let ix = i as int;
                assert(a0.take(ix + 1) =~= a0.take(ix).push(a0[ix]));
                if keep {
                    assert(kept@ == kept0.push(a0[ix]));
                    assert(!kept0.contains(a0[ix])) by {
                        if kept0.contains(a0[ix]) {
                            let t = a0.take(ix);
                            let j = choose|j: int| 0 <= j < t.len() && t[j] == a0[ix];
                            assert(a0[j] == a0[ix]);
                        }
                    }
                    assert forall|c: uuid::Uuid|
                        #[trigger] kept@.contains(c) == (a0.take(ix + 1).contains(c) && c
                        != *cid) by {
                        if kept@.contains(c) {
                            let j = choose|j: int| 0 <= j < kept@.len() && kept@[j] == c;
                            if j < kept@.len() - 1 {
                                assert(kept0[j] == c);
                                assert(kept0.contains(c));
                            } else {
                                assert(c == a0[ix]);
                                assert(a0.take(ix + 1)[ix] == a0[ix]);
                                assert(a0.take(ix + 1).contains(c));
                            }
                        }
                        if a0.take(ix + 1).contains(c) && c != *cid {
                            let t = a0.take(ix + 1);
                            let j = choose|j: int| 0 <= j < t.len() && t[j] == c;
                            if j < ix {
                                assert(a0.take(ix)[j] == c);
                                assert(a0.take(ix).contains(c));
                                assert(kept0.contains(c));
                                let l = choose|l: int| 0 <= l < kept0.len() && kept0[l] == c;
                                assert(kept@[l] == c);
                            } else {
                                assert(c == a0[ix]);
                                assert(kept@[kept@.len() - 1] == c);
                            }
                            assert(kept@.contains(c));
                        }
                    }
                } else {
                    assert(a0[ix] == *cid);
                    assert forall|c: uuid::Uuid|
                        #[trigger] kept@.contains(c) == (a0.take(ix + 1).contains(c) && c
                        != *cid) by {
                        if a0.take(ix + 1).contains(c) && c != *cid {
                            let t = a0.take(ix + 1);
                            let j = choose|j: int| 0 <= j < t.len() && t[j] == c;
                            assert(j < ix);
                            assert(a0.take(ix)[j] == c);
                            assert(a0.take(ix).contains(c));
                        }
                        if kept@.contains(c) {
                            let t = a0.take(ix);
                            let j = choose|j: int| 0 <= j < t.len() && t[j] == c;
                            assert(a0.take(ix + 1)[j] == c);
                            assert(a0.take(ix + 1).contains(c));
                        }
                    }
                }
            }
            i += 1;
        }
        proof {
            assert(a0.take(n as int) =~= a0);
        }
        self.any_event = kept;
        proof {
            Self::lemma_same_registry_pairs(*old(self), *self);
            Self::lemma_same_channels(*old(self), *self);
        }
    }

    /// Remove every trace of a channel: its registered pairs, its
    /// all-events registration, and the channel itself.
    pub(crate) fn purge_channel(&mut self, cid: &uuid::Uuid)
        requires
            old(self).wf(),
        ensures
            final(self).wf(),
            forall|k2: K, c2: uuid::Uuid|
                final(self).spec_registered(k2, c2) == (old(self).spec_registered(k2, c2) && c2
                    != *cid),
            forall|c: uuid::Uuid|
                final(self).spec_any_registered(c) == (old(self).spec_any_registered(c) && c
                    != *cid),
            forall|c: uuid::Uuid|
                final(self).spec_has_channel(c) == (old(self).spec_has_channel(c) && c != *cid),
            forall|c: uuid::Uuid|
                c != *cid && old(self).spec_has_channel(c) ==> final(self).spec_channel_queue(c)
                    == old(self).spec_channel_queue(c) && final(self).spec_channel_bound(c) == old(self).spec_channel_bound(c),
            Self::spec_config_unchanged(*old(self), *final(self)),
            final(self).spec_capturing() == old(self).spec_capturing(),
            final(self).spec_missed() == old(self).spec_missed(),
            final(self).spec_queue() == old(self).spec_queue(),
    {
        self.purge_pairs(cid);
        self.purge_any(cid);
        self.take_out_channel(cid);
    }

    /// Take the oldest queued envelope out of the given channel, if the
    /// channel exists and its queue is not empty.
    pub(crate) fn channel_pop(&mut self, cid: &uuid::Uuid) -> (r: Option<Arc<Event<K, M, T>>>)
        requires
            old(self).wf(),
        ensures
            final(self).wf(),
            old(self).spec_has_channel(*cid) && old(self).spec_channel_queue(*cid).len() > 0 ==> {
                &&& r matches Some(e) && e == old(self).spec_channel_queue(*cid)[0]
                &&& final(self).spec_channel_queue(*cid) == old(self).spec_channel_queue(
                    *cid,
                ).drop_first()
                &&& final(self).spec_has_channel(*cid)
                &&& final(self).spec_channel_bound(*cid) == old(self).spec_channel_bound(*cid)
            },
            !(old(self).spec_has_channel(*cid) && old(self).spec_channel_queue(*cid).len() > 0)
                ==> r is None && *final(self) == *old(self),
            forall|c: uuid::Uuid| final(self).spec_has_channel(c) == old(self).spec_has_channel(c),
            forall|c: uuid::Uuid|
                c != *cid && old(self).spec_has_channel(c) ==> final(self).spec_channel_queue(c)
                    == old(self).spec_channel_queue(c) && final(self).spec_channel_bound(c) == old(self).spec_channel_bound(c),
            forall|k2: K, c2: uuid::Uuid|
                final(self).spec_registered(k2, c2) == old(self).spec_registered(k2, c2),
            forall|c: uuid::Uuid|
                final(self).spec_any_registered(c) == old(self).spec_any_registered(c),
            Self::spec_config_unchanged(*old(self), *final(self)),
            final(self).spec_capturing() == old(self).spec_capturing(),
            final(self).spec_missed() == old(self).spec_missed(),
            final(self).spec_queue() == old(self).spec_queue(),
    {
        let found = Self::find_channel(&self.channels, cid);
        match found {
            None => {
                proof {
                    if old(self).spec_has_channel(*cid) {
                        let j = choose|j: int|
                            0 <= j < old(self).channels@.len() && old(self).channels@[
                                j
                            ].channel_id == *cid;
                    }
                    Self::lemma_same_registry(*old(self), *self);
                    Self::lemma_same_channels(*old(self), *self);
                }
                None
            },
            Some(i) => {
                proof {
                    old(self).lemma_channel_at(i as int);
                }
                if self.channels[i].queue.len() == 0 {
                    proof {
                        Self::lemma_same_registry(*old(self), *self);
                        Self::lemma_same_channels(*old(self), *self);
                    }
                    None
                } else {
                    let c = &mut self.channels[i];
                    let e = c.queue.remove(0);
                    proof {
                        let ch0 = old(self).channels@;
                        let ch1 = self.channels@;
                        let ix = i as int;
                        assert(ch1[ix].channel_id == ch0[ix].channel_id);
                        assert(ch1[ix].bound == ch0[ix].bound);
                        assert(ch1[ix].queue@ =~= ch0[ix].queue@.drop_first());
                        assert(forall|j: int| 0 <= j < ch1.len() && j != ix ==> ch1[j] == ch0[j]);
                        assert forall|a: int, b: int|
                            0 <= a < b < ch1.len() implies ch1[a].channel_id != ch1[
                            b
                        ].channel_id by {
                            assert(ch1[a].channel_id == ch0[a].channel_id);
                            assert(ch1[b].channel_id == ch0[b].channel_id);
                        }
                        self.lemma_channel_at(ix);
                        assert forall|c2: uuid::Uuid|
                            self.spec_has_channel(c2) == old(self).spec_has_channel(c2) by {
                            if old(self).spec_has_channel(c2) {
                                let j = choose|j: int|
                                    0 <= j < ch0.len() && ch0[j].channel_id == c2;
                                assert(ch1[j].channel_id == c2);
                            }
                            if self.spec_has_channel(c2) {
                                let j = choose|j: int|
                                    0 <= j < ch1.len() && ch1[j].channel_id == c2;
                                assert(ch0[j].channel_id == c2);
                            }
                        }
                        assert forall|c2: uuid::Uuid|
                            c2 != *cid && old(self).spec_has_channel(c2) implies self
                            .spec_channel_queue(c2) == old(self).spec_channel_queue(c2) && self
                            .spec_channel_bound(c2) == old(self).spec_channel_bound(c2) by {
                            let j = choose|j: int| 0 <= j < ch0.len() && ch0[j].channel_id == c2;
                            assert(j != ix);
                            assert(ch1[j] == ch0[j]);
                            old(self).lemma_channel_at(j);
                            self.lemma_channel_at(j);
                        }
                        Self::lemma_same_registry(*old(self), *self);
                    }
                    Some(e)
                }
            },
        }
    }
}

impl<K, M, T, F> EvidentPublisher<K, M, T, F> where
    K: Id + CaptureControl,
    M: Msg,
    T: EventEntry<K, M>,
    F: Filter<K, M, T>,
 {
    /// Subscribe to events with the given identifiers. A fresh channel is
    /// created, sized by the number of requested identifiers plus the
    /// configured additive bound, and registered under every requested
    /// identifier. An empty list yields a subscription that receives
    /// nothing.
    pub fn subscribe_to_many(&mut self, ids: Vec<K>) -> (r: Result<
        Subscription<K>,
        SubscriptionError<K>,
    >)
        requires
            old(self).wf(),
            ids@.len() + old(self).spec_sub_bound() <= usize::MAX,
        ensures
            final(self).wf(),
            r is Ok,
            r matches Ok(s) ==> {
                &&& s.wf()
                &&& !s.spec_sub_to_all()
                &&& s.spec_has_ids()
                &&& s.spec_ids().no_duplicates()
                &&& forall|k2: K| #[trigger] s.spec_ids().contains(k2) == ids@.contains(k2)
                &&& forall|k2: K| #[trigger]
                    final(self).spec_registered(k2, s.spec_channel_id()) == ids@.contains(k2)
                &&& s.spec_linked(*final(self))
                &&& forall|k2: K, c2: uuid::Uuid|
                    c2 != s.spec_channel_id() ==> final(self).spec_registered(k2, c2) == old(self).spec_registered(k2, c2)
                &&& !final(self).spec_any_registered(s.spec_channel_id())
                &&& forall|c: uuid::Uuid|
                    c != s.spec_channel_id() ==> final(self).spec_any_registered(c) == old(self).spec_any_registered(c)
                &&& final(self).spec_has_channel(s.spec_channel_id())
                &&& final(self).spec_channel_queue(s.spec_channel_id()) == Seq::<Event<K, M, T>>::empty()
                &&& final(self).spec_channel_bound(s.spec_channel_id()) == ids@.len() + old(self).spec_sub_bound()
                &&& forall|c: uuid::Uuid|
                    c != s.spec_channel_id() ==> final(self).spec_has_channel(c) == old(self).spec_has_channel(c)
                &&& forall|c: uuid::Uuid|
                    c != s.spec_channel_id() && old(self).spec_has_channel(c) ==> final(self).spec_channel_queue(c) == old(self).spec_channel_queue(c) && final(self).spec_channel_bound(c) == old(self).spec_channel_bound(c)
            },
            Self::spec_config_unchanged(*old(self), *final(self)),
            final(self).spec_capturing() == old(self).spec_capturing(),
            final(self).spec_missed() == old(self).spec_missed(),
            final(self).spec_queue() == old(self).spec_queue(),
    {
        let cid = new_uuid();
        self.purge_channel(&cid);
        let ghost mid = *self;
        let mut subs: Vec<K> = Vec::new();
        let n = ids.len();
        let mut i: usize = 0;
        while i < n
            invariant
                self.wf(),
                n == ids@.len(),
                i <= n,
                forall|k2: K| #[trigger]
                    self.spec_registered(k2, cid) == ids@.take(i as int).contains(k2),
                forall|k2: K, c2: uuid::Uuid|
                    c2 != cid ==> self.spec_registered(k2, c2) == mid.spec_registered(k2, c2),
                forall|c: uuid::Uuid| self.spec_any_registered(c) == mid.spec_any_registered(c),
                forall|c: uuid::Uuid| self.spec_has_channel(c) == mid.spec_has_channel(c),
                forall|c: uuid::Uuid|
                    mid.spec_has_channel(c) ==> self.spec_channel_queue(c)
                        == mid.spec_channel_queue(c) && self.spec_channel_bound(c)
                        == mid.spec_channel_bound(c),
                Self::spec_config_unchanged(mid, *self),
                self.spec_capturing() == mid.spec_capturing(),
                self.spec_missed() == mid.spec_missed(),
                self.spec_queue() == mid.spec_queue(),
                subs@.no_duplicates(),
                forall|k2: K| #[trigger] subs@.contains(k2) == ids@.take(i as int).contains(k2),
            decreases n - i,
        {
            let ghost pre_reg = *self;
            let ghost subs0 = subs@;
            self.register_pair(&ids[i], &cid);
            let already = Self::contains_id(&subs, &ids[i]);
            if !already {
                subs.push(ids[i].clone_id());
            }
            proof {
                let ix = i as int;
                assert(ids@.take(ix + 1) =~= ids@.take(ix).push(ids@[ix]));
                assert forall|k2: K| #[trigger]
                    self.spec_registered(k2, cid) == ids@.take(ix + 1).contains(k2) by {
                    let t = ids@.take(ix + 1);
                    if k2 == ids@[ix] {
                        assert(t[ix] == k2);
                        assert(t.contains(k2));
                        assert(self.spec_registered(k2, cid));
                    } else {
                        assert(self.spec_registered(k2, cid) == pre_reg.spec_registered(k2, cid));
                        if t.contains(k2) {
                            let j = choose|j: int| 0 <= j < t.len() && t[j] == k2;
                            assert(j < ix);
                            assert(ids@.take(ix)[j] == k2);
                            assert(ids@.take(ix).contains(k2));
                        }
                        if ids@.take(ix).contains(k2) {
                            let j = choose|j: int|
                                0 <= j < ids@.take(ix).len() && ids@.take(ix)[j] == k2;
                            assert(t[j] == k2);
                            assert(t.contains(k2));
                        }
                    }
                }
                if !already {
                    assert(subs@ == subs0.push(ids@[ix]));
                    assert forall|j: int, l: int|
                        0 <= j < l < subs@.len() implies subs@[j] != subs@[l] by {
                        if l < subs@.len() - 1 {
                            assert(subs@[j] == subs0[j] && subs@[l] == subs0[l]);
                        } else {
                            assert(subs@[l] == ids@[ix]);
                            assert(subs@[j] == subs0[j]);
                            if subs0[j] == ids@[ix] {
                                assert(subs0.contains(ids@[ix]));
                            }
                        }
                    }
                }
                assert forall|k2: K| #[trigger]
                    subs@.contains(k2) == ids@.take(ix + 1).contains(k2) by {
                    let t = ids@.take(ix + 1);
                    if k2 == ids@[ix] {
                        assert(t[ix] == k2);
                        assert(t.contains(k2));
                        if already {
                            assert(subs0.contains(k2));
                        } else {
                            assert(subs@[subs@.len() - 1] == k2);
                        }
                        assert(subs@.contains(k2));
                    } else {
                        if subs@.contains(k2) {
                            let j = choose|j: int| 0 <= j < subs@.len() && subs@[j] == k2;
                            if !already {
                                assert(j < subs@.len() - 1);
                                assert(subs0[j] == k2);
                            }
                            assert(subs0.contains(k2));
                            assert(ids@.take(ix).contains(k2));
                            let l = choose|l: int|
                                0 <= l < ids@.take(ix).len() && ids@.take(ix)[l] == k2;
                            assert(t[l] == k2);
                            assert(t.contains(k2));
                        }
                        if t.contains(k2) {
                            let j = choose|j: int| 0 <= j < t.len() && t[j] == k2;
                            assert(j < ix);
                            assert(ids@.take(ix)[j] == k2);
                            assert(ids@.take(ix).contains(k2));
                            assert(subs0.contains(k2));
                            if !already {
                                let l = choose|l: int| 0 <= l < subs0.len() && subs0[l] == k2;
                                assert(subs@[l] == k2);
                            }
                            assert(subs@.contains(k2));
                        }
                    }
                }
            }
            i += 1;
        }
        proof {
            assert(ids@.take(n as int) =~= ids@);
        }
        proof {
            assert(!mid.spec_has_channel(cid));
            assert(!self.spec_has_channel(cid));
        }
        let bound = ids.len() + self.subscription_channel_bound;
        self.add_channel(&cid, bound);
        proof {
            assert(!mid.spec_any_registered(cid));
            assert(!self.spec_any_registered(cid));
        }
        let s = Subscription::make(cid, false, Some(subs));
        proof {
            assert forall|j: int|
                0 <= j < s.spec_ids().len() implies self.spec_registered(
                s.spec_ids()[j],
                s.spec_channel_id(),
            ) by {
                assert(s.spec_ids().contains(s.spec_ids()[j]));
            }
        }
        Ok(s)
    }

    /// Subscribe to events with the given identifier.
    pub fn subscribe(&mut self, id: K) -> (r: Result<Subscription<K>, SubscriptionError<K>>)
        requires
            old(self).wf(),
            1 + old(self).spec_sub_bound() <= usize::MAX,
        ensures
            final(self).wf(),
            r is Ok,
            r matches Ok(s) ==> {
                &&& s.wf()
                &&& !s.spec_sub_to_all()
                &&& s.spec_has_ids()
                &&& forall|k2: K| #[trigger] s.spec_ids().contains(k2) == (k2 == id)
                &&& forall|k2: K| #[trigger]
                    final(self).spec_registered(k2, s.spec_channel_id()) == (k2 == id)
                &&& s.spec_linked(*final(self))
                &&& forall|k2: K, c2: uuid::Uuid|
                    c2 != s.spec_channel_id() ==> final(self).spec_registered(k2, c2) == old(self).spec_registered(k2, c2)
                &&& !final(self).spec_any_registered(s.spec_channel_id())
                &&& forall|c: uuid::Uuid|
                    c != s.spec_channel_id() ==> final(self).spec_any_registered(c) == old(self).spec_any_registered(c)
                &&& final(self).spec_has_channel(s.spec_channel_id())
                &&& final(self).spec_channel_queue(s.spec_channel_id()) == Seq::<Event<K, M, T>>::empty()
                &&& final(self).spec_channel_bound(s.spec_channel_id()) == 1 + old(self).spec_sub_bound()
                &&& forall|c: uuid::Uuid|
                    c != s.spec_channel_id() ==> final(self).spec_has_channel(c) == old(self).spec_has_channel(c)
                &&& forall|c: uuid::Uuid|
                    c != s.spec_channel_id() && old(self).spec_has_channel(c) ==> final(self).spec_channel_queue(c) == old(self).spec_channel_queue(c) && final(self).spec_channel_bound(c) == old(self).spec_channel_bound(c)
            },
            Self::spec_config_unchanged(*old(self), *final(self)),
            final(self).spec_capturing() == old(self).spec_capturing(),
            final(self).spec_missed() == old(self).spec_missed(),
            final(self).spec_queue() == old(self).spec_queue(),
    {
        let ghost idv = id;
        let ids = vec![id];
        proof {
            assert(ids@.len() == 1);
            assert(ids@[0] == idv);
            assert forall|k2: K| #[trigger] ids@.contains(k2) == (k2 == idv) by {
                if ids@.contains(k2) {
                    let j = choose|j: int| 0 <= j < ids@.len() && ids@[j] == k2;
                    assert(j == 0);
                }
                if k2 == idv {
                    assert(ids@[0] == k2);
                }
            }
        }
        self.subscribe_to_many(ids)
    }

    /// Subscribe to all captured events. A fresh channel is created, sized
    /// by the capture queue bound, and registered in the all-events
    /// registry.
    pub fn subscribe_to_all_events(&mut self) -> (r: Result<
        Subscription<K>,
        SubscriptionError<K>,
    >)
        requires
            old(self).wf(),
        ensures
            final(self).wf(),
            r is Ok,
            r matches Ok(s) ==> {
                &&& s.wf()
                &&& s.spec_sub_to_all()
                &&& !s.spec_has_ids()
                &&& final(self).spec_any_registered(s.spec_channel_id())
                &&& forall|c: uuid::Uuid|
                    c != s.spec_channel_id() ==> final(self).spec_any_registered(c) == old(self).spec_any_registered(c)
                &&& forall|k2: K| !final(self).spec_registered(k2, s.spec_channel_id())
                &&& forall|k2: K, c2: uuid::Uuid|
                    c2 != s.spec_channel_id() ==> final(self).spec_registered(k2, c2) == old(self).spec_registered(k2, c2)
                &&& final(self).spec_has_channel(s.spec_channel_id())
                &&& final(self).spec_channel_queue(s.spec_channel_id()) == Seq::<Event<K, M, T>>::empty()
                &&& final(self).spec_channel_bound(s.spec_channel_id()) == old(self).spec_cap_bound()
                &&& forall|c: uuid::Uuid|
                    c != s.spec_channel_id() ==> final(self).spec_has_channel(c) == old(self).spec_has_channel(c)
                &&& forall|c: uuid::Uuid|
                    c != s.spec_channel_id() && old(self).spec_has_channel(c) ==> final(self).spec_channel_queue(c) == old(self).spec_channel_queue(c) && final(self).spec_channel_bound(c) == old(self).spec_channel_bound(c)
            },
            Self::spec_config_unchanged(*old(self), *final(self)),
            final(self).spec_capturing() == old(self).spec_capturing(),
            final(self).spec_missed() == old(self).spec_missed(),
            final(self).spec_queue() == old(self).spec_queue(),
    {
        let cid = new_uuid();
        self.purge_channel(&cid);
        self.register_any(&cid);
        let bound = self.capture_channel_bound;
        self.add_channel(&cid, bound);
        let s = Subscription::make(cid, true, None);
        Ok(s)
    }
}

/// The event `e` stamped per the timestamp policy at dispatch: a policy
/// that stamps at capture assigns `now` to an event that has no timestamp
/// yet; any other event is unchanged.
pub open spec fn spec_stamped<K: Id, M: Msg, T: EventEntry<K, M>>(
    e: Event<K, M, T>,
    now: u64,
    kind: EventTimestampKind,
) -> Event<K, M, T> {
    if kind == EventTimestampKind::Captured && e.timestamp is None {
        Event { timestamp: Some(now), ..e }
    } else {
        e
    }
}

impl<K, M, T, F> EvidentPublisher<K, M, T, F> where
    K: Id + CaptureControl,
    M: Msg,
    T: EventEntry<K, M>,
    F: Filter<K, M, T>,
 {
    /// Whether the channel `cid` is a delivery target for events with
    /// identifier `key`: it is registered for `key`, or for all events.
    pub open spec fn spec_targeted(self, key: K, cid: uuid::Uuid) -> bool {
        self.spec_registered(key, cid) || self.spec_any_registered(cid)
    }

    /// What dispatching the event `e` does to the publisher state.
    ///
    /// Every channel survives with its bound. A targeted channel receives
    /// exactly one envelope holding `e`, appended to its queue, unless
    /// delivery is non-blocking and its queue is full, in which case that
    /// channel alone misses the event. Registered pairs naming `e`'s
    /// identifier and a channel that no longer exists are reaped, as are
    /// all-events registrations without a channel. A stop identifier
    /// clears the capturing flag, a start identifier sets it, and any
    /// other identifier leaves it alone.
    pub open spec fn spec_fanout_post(pre: Self, post: Self, e: Event<K, M, T>) -> bool {
        let key = e.entry.spec_event_id();
        &&& forall|cid: uuid::Uuid| post.spec_has_channel(cid) == pre.spec_has_channel(cid)
        &&& forall|cid: uuid::Uuid|
            pre.spec_has_channel(cid) ==> post.spec_channel_bound(cid) == pre.spec_channel_bound(
                cid,
            )
        &&& forall|cid: uuid::Uuid|
            pre.spec_has_channel(cid) ==> post.spec_channel_queue(cid) == (if pre.spec_targeted(
                key,
                cid,
            ) && (pre.spec_blocking() || pre.spec_channel_queue(cid).len()
                < pre.spec_channel_bound(cid)) {
                pre.spec_channel_queue(cid).push(e)
            } else {
                pre.spec_channel_queue(cid)
            })
        &&& forall|k2: K, c2: uuid::Uuid|
            post.spec_registered(k2, c2) == (pre.spec_registered(k2, c2) && !(k2 == key
                && !pre.spec_has_channel(c2)))
        &&& forall|c2: uuid::Uuid|
            post.spec_any_registered(c2) == (pre.spec_any_registered(c2) && pre.spec_has_channel(
                c2,
            ))
        &&& post.spec_capturing() == (if K::spec_stop(key) {
            false
        } else if K::spec_start(key) {
            true
        } else {
            pre.spec_capturing()
        })
    }

    /// Dispatch one event to every matching subscription queue.
    ///
    /// The event is wrapped once in a shared envelope; every targeted
    /// channel receives that envelope, except that in non-blocking mode a
    /// full queue misses it. Registrations that name the event's
    /// identifier but a vanished channel are reaped, as are all-events
    /// registrations without a channel. A start identifier sets the
    /// capturing flag before fan-out; a stop identifier clears it after
    /// fan-out, so every live subscriber still sees the stop event.
    pub fn on_event(&mut self, event: Event<K, M, T>)
        requires
            old(self).wf(),
        ensures
            final(self).wf(),
            Self::spec_fanout_post(*old(self), *final(self), event),
            Self::spec_config_unchanged(*old(self), *final(self)),
            final(self).spec_missed() == old(self).spec_missed(),
            final(self).spec_queue() == old(self).spec_queue(),
    {
        let key: K = event.get_event_id().clone_id();
        let ghost keyv = key;
        let is_start = K::start(&key);
        let is_stop = K::stop(&key);
        if is_start {
            self.capturing = true;
        }
        let env: Arc<Event<K, M, T>> = Arc::new(event);
        let ghost pre = *old(self);
        let n = self.channels.len();
        let mut i: usize = 0;
        while i < n
            invariant
                self.wf(),
                n == self.channels@.len(),
                n == pre.channels@.len(),
                i <= n,
                env == event,
                key == keyv,
                keyv == event.entry.spec_event_id(),
                self.subscriptions@ == pre.subscriptions@,
                self.any_event@ == pre.any_event@,
                self.capture_queue@ == pre.capture_queue@,
                self.spec_filter() == pre.spec_filter(),
                self.spec_blocking() == pre.spec_blocking(),
                self.spec_cap_bound() == pre.spec_cap_bound(),
                self.spec_sub_bound() == pre.spec_sub_bound(),
                self.spec_ts_kind() == pre.spec_ts_kind(),
                self.spec_missed() == pre.spec_missed(),
                self.spec_capturing() == (if K::spec_start(keyv) {
                    true
                } else {
                    pre.spec_capturing()
                }),
                forall|j: int| i <= j < n ==> self.channels@[j] == pre.channels@[j],
                forall|j: int|
                    0 <= j < i ==> (#[trigger] self.channels@[j]).channel_id == pre.channels@[
                        j
                    ].channel_id && self.channels@[j].bound == pre.channels@[j].bound
                        && self.channels@[j].queue@ == (if pre.spec_targeted(
                        keyv,
                        pre.channels@[j].channel_id,
                    ) && (pre.spec_blocking() || pre.channels@[j].queue@.len() < pre.channels@[
                        j
                    ].bound as nat) {
                        pre.channels@[j].queue@.push(env)
                    } else {
                        pre.channels@[j].queue@
                    }),
            decreases n - i,
        {
            let registered = self.is_registered(&key, &self.channels[i].channel_id);
            let any_t = Self::contains_uuid(&self.any_event, &self.channels[i].channel_id);
            proof {
                Self::lemma_same_registry(pre, *self);
            }
            let ghost chans_before = self.channels@;
            let ghost targeted = pre.spec_targeted(keyv, pre.channels@[i as int].channel_id);
            let ghost room = pre.spec_blocking() || pre.channels@[i as int].queue@.len()
                < pre.channels@[i as int].bound as nat;
            if registered || any_t {
                let roomy = self.capture_blocking || self.channels[i].queue.len()
                    < self.channels[i].bound;
                if roomy {
                    let a = arc_clone(&env);
                    let c = &mut self.channels[i];
                    c.queue.push(a);
                }
            }
            proof {
                let ix = i as int;
                assert(chans_before[ix] == pre.channels@[ix]);
                assert((registered || any_t) == targeted);
                if targeted && room {
                    assert(self.channels@[ix].queue@ == pre.channels@[ix].queue@.push(env));
                } else {
                    assert(self.channels@ == chans_before);
                    assert(self.channels@[ix] == pre.channels@[ix]);
                }
                assert forall|j: int| 0 <= j < ix + 1 implies (#[trigger] self.channels@[
                    j
                ]).channel_id == pre.channels@[j].channel_id && self.channels@[j].bound
                    == pre.channels@[j].bound && self.channels@[j].queue@ == (
                if pre.spec_targeted(keyv, pre.channels@[j].channel_id) && (pre.spec_blocking()
                    || pre.channels@[j].queue@.len() < pre.channels@[j].bound as nat) {
                    pre.channels@[j].queue@.push(env)
                } else {
                    pre.channels@[j].queue@
                }) by {
                    if j < ix {
                        assert(self.channels@[j] == chans_before[j]);
                    }
                }
            }
            i += 1;
        }
        let ghost delivered = *self;
        let mut kept: Vec<(K, uuid::Uuid)> = Vec::new();
        let ghost s0 = self.subscriptions@;
        let np = self.subscriptions.len();
        let mut p: usize = 0;
        while p < np
            invariant
                np == self.subscriptions@.len(),
                p <= np,
                s0 == self.subscriptions@,
                self.subscriptions@.no_duplicates(),
                kept@.no_duplicates(),
                *self == delivered,
                key == keyv,
                forall|q: (K, uuid::Uuid)|
                    #[trigger] kept@.contains(q) == (s0.take(p as int).contains(q) && !(q.0 == keyv
                        && !delivered.spec_has_channel(q.1))),
            decreases np - p,
        {
            let ghost kept0 = kept@;
            let ghost px = p as int;
            let mut dead = false;
            if self.subscriptions[p].0.eq_id(&key) {
                let found = Self::find_channel(&self.channels, &self.subscriptions[p].1);
                if found.is_none() {
                    dead = true;
                    proof {
                        if delivered.spec_has_channel(s0[px].1) {
                            let j = choose|j: int|
                                0 <= j < delivered.channels@.len() && delivered.channels@[
                                    j
                                ].channel_id == s0[px].1;
                        }
                    }
                } else {
                    proof {
                        let j = choose|j: int|
                            0 <= j < self.channels@.len() && self.channels@[j].channel_id == s0[
                                px
                            ].1;
                        assert(delivered.spec_has_channel(s0[px].1));
                    }
                }
            }
            if !dead {
                let id2 = self.subscriptions[p].0.clone_id();
                let c2 = self.subscriptions[p].1.clone();
                kept.push((id2, c2));
            }
            proof {
                assert(s0.take(px + 1) =~= s0.take(px).push(s0[px]));
                if !dead {
                    assert(kept@ == kept0.push(s0[px]));
                    assert(!kept0.contains(s0[px])) by {
                        if kept0.contains(s0[px]) {
                            let t = s0.take(px);
                            let j = choose|j: int| 0 <= j < t.len() && t[j] == s0[px];
                            assert(s0[j] == s0[px]);
                        }
                    }
                    assert forall|q: (K, uuid::Uuid)|
                        #[trigger] kept@.contains(q) == (s0.take(px + 1).contains(q) && !(q.0
                        == keyv && !delivered.spec_has_channel(q.1))) by {
                        if kept@.contains(q) {
                            let j = choose|j: int| 0 <= j < kept@.len() && kept@[j] == q;
                            if j < kept@.len() - 1 {
                                assert(kept0[j] == q);
                                assert(kept0.contains(q));
                            } else {
                                assert(q == s0[px]);
                                assert(s0.take(px + 1)[px] == s0[px]);
                                assert(s0.take(px + 1).contains(q));
                            }
                        }
                        if s0.take(px + 1).contains(q) && !(q.0 == keyv
                            && !delivered.spec_has_channel(q.1)) {
                            let t = s0.take(px + 1);
                            let j = choose|j: int| 0 <= j < t.len() && t[j] == q;
                            if j < px {
                                assert(s0.take(px)[j] == q);
                                assert(s0.take(px).contains(q));
                                assert(kept0.contains(q));
                                let l = choose|l: int| 0 <= l < kept0.len() && kept0[l] == q;
                                assert(kept@[l] == q);
                            } else {
                                assert(q == s0[px]);
                                assert(kept@[kept@.len() - 1] == q);
                            }
                            assert(kept@.contains(q));
                        }
                    }
                } else {
                    assert(s0[px].0 == keyv && !delivered.spec_has_channel(s0[px].1));
                    assert forall|q: (K, uuid::Uuid)|
                        #[trigger] kept@.contains(q) == (s0.take(px + 1).contains(q) && !(q.0
                        == keyv && !delivered.spec_has_channel(q.1))) by {
                        if s0.take(px + 1).contains(q) && !(q.0 == keyv
                            && !delivered.spec_has_channel(q.1)) {
                            let t = s0.take(px + 1);
                            let j = choose|j: int| 0 <= j < t.len() && t[j] == q;
                            assert(j < px || q == s0[px]);
                            assert(j < px);
                            assert(s0.take(px)[j] == q);
                            assert(s0.take(px).contains(q));
                        }
                        if kept@.contains(q) {
                            let t = s0.take(px);
                            let j = choose|j: int| 0 <= j < t.len() && t[j] == q;
                            assert(s0.take(px + 1)[j] == q);
                            assert(s0.take(px + 1).contains(q));
                        }
                    }
                }
            }
            p += 1;
        }
        proof {
            assert(s0.take(np as int) =~= s0);
        }
        self.subscriptions = kept;
        let ghost reaped = *self;
        let mut kepta: Vec<uuid::Uuid> = Vec::new();
        let ghost a0 = self.any_event@;
        let na = self.any_event.len();
        let mut q: usize = 0;
        while q < na
            invariant
                na == self.any_event@.len(),
                q <= na,
                a0 == self.any_event@,
                self.any_event@.no_duplicates(),
                kepta@.no_duplicates(),
                *self == reaped,
                self.channels@ == delivered.channels@,
                forall|c: uuid::Uuid|
                    #[trigger] kepta@.contains(c) == (a0.take(q as int).contains(c)
                        && delivered.spec_has_channel(c)),
            decreases na - q,
        {
            let ghost kepta0 = kepta@;
            let ghost qx = q as int;
            let found = Self::find_channel(&self.channels, &self.any_event[q]);
            let alive = found.is_some();
            proof {
                if alive {
                    let j = choose|j: int|
                        0 <= j < self.channels@.len() && self.channels@[j].channel_id == a0[qx];
                    assert(delivered.channels@[j].channel_id == a0[qx]);
                    assert(delivered.spec_has_channel(a0[qx]));
                } else {
                    if delivered.spec_has_channel(a0[qx]) {
                        let j = choose|j: int|
                            0 <= j < delivered.channels@.len() && delivered.channels@[
                                j
                            ].channel_id == a0[qx];
                        assert(self.channels@[j].channel_id == a0[qx]);
                    }
                }
            }
            if alive {
                let c2 = self.any_event[q].clone();
                kepta.push(c2);
            }
            proof {
                assert(a0.take(qx + 1) =~= a0.take(qx).push(a0[qx]));
                if alive {
                    assert(kepta@ == kepta0.push(a0[qx]));
                    assert(!kepta0.contains(a0[qx])) by {
                        if kepta0.contains(a0[qx]) {
                            let t = a0.take(qx);
                            let j = choose|j: int| 0 <= j < t.len() && t[j] == a0[qx];
                            assert(a0[j] == a0[qx]);
                        }
                    }
                    assert forall|c: uuid::Uuid|
                        #[trigger] kepta@.contains(c) == (a0.take(qx + 1).contains(c)
                        && delivered.spec_has_channel(c)) by {
                        if kepta@.contains(c) {
                            let j = choose|j: int| 0 <= j < kepta@.len() && kepta@[j] == c;
                            if j < kepta@.len() - 1 {
                                assert(kepta0[j] == c);
                                assert(kepta0.contains(c));
                            } else {
                                assert(c == a0[qx]);
                                assert(a0.take(qx + 1)[qx] == a0[qx]);
                                assert(a0.take(qx + 1).contains(c));
                            }
                        }
                        if a0.take(qx + 1).contains(c) && delivered.spec_has_channel(c) {
                            let t = a0.take(qx + 1);
                            let j = choose|j: int| 0 <= j < t.len() && t[j] == c;
                            if j < qx {
                                assert(a0.take(qx)[j] == c);
                                assert(a0.take(qx).contains(c));
                                assert(kepta0.contains(c));
                                let l = choose|l: int| 0 <= l < kepta0.len() && kepta0[l] == c;
                                assert(kepta@[l] == c);
                            } else {
                                assert(c == a0[qx]);
                                assert(kepta@[kepta@.len() - 1] == c);
                            }
                            assert(kepta@.contains(c));
                        }
                    }
                } else {
                    assert(!delivered.spec_has_channel(a0[qx]));
                    assert forall|c: uuid::Uuid|
                        #[trigger] kepta@.contains(c) == (a0.take(qx + 1).contains(c)
                        && delivered.spec_has_channel(c)) by {
                        if a0.take(qx + 1).contains(c) && delivered.spec_has_channel(c) {
                            let t = a0.take(qx + 1);
                            let j = choose|j: int| 0 <= j < t.len() && t[j] == c;
                            assert(j < qx);
                            assert(a0.take(qx)[j] == c);
                            assert(a0.take(qx).contains(c));
                        }
                        if kepta@.contains(c) {
                            let t = a0.take(qx);
                            let j = choose|j: int| 0 <= j < t.len() && t[j] == c;
                            assert(a0.take(qx + 1)[j] == c);
                            assert(a0.take(qx + 1).contains(c));
                        }
                    }
                }
            }
            q += 1;
        }
        proof {
            assert(a0.take(na as int) =~= a0);
        }
        self.any_event = kepta;
        if is_stop {
            self.capturing = false;
        }
        proof {
            let post = *self;
            assert(post.channels@ == delivered.channels@);
            assert forall|cid: uuid::Uuid|
                post.spec_has_channel(cid) == pre.spec_has_channel(cid) by {
                if pre.spec_has_channel(cid) {
                    let j = choose|j: int|
                        0 <= j < pre.channels@.len() && pre.channels@[j].channel_id == cid;
                    assert(post.channels@[j].channel_id == cid);
                }
                if post.spec_has_channel(cid) {
                    let j = choose|j: int|
                        0 <= j < post.channels@.len() && post.channels@[j].channel_id == cid;
                    assert(pre.channels@[j].channel_id == cid);
                }
            }
            assert forall|cid: uuid::Uuid|
                pre.spec_has_channel(cid) implies post.spec_channel_bound(cid)
                == pre.spec_channel_bound(cid) && post.spec_channel_queue(cid) == (
            if pre.spec_targeted(keyv, cid) && (pre.spec_blocking() || pre.spec_channel_queue(
                cid,
            ).len() < pre.spec_channel_bound(cid)) {
                pre.spec_channel_queue(cid).push(event)
            } else {
                pre.spec_channel_queue(cid)
            }) by {
                let j = choose|j: int|
                    0 <= j < pre.channels@.len() && pre.channels@[j].channel_id == cid;
                pre.lemma_channel_at(j);
                post.lemma_channel_at(j);
                assert(pre.spec_channel_queue(cid).len() == pre.channels@[j].queue@.len());
                if pre.spec_targeted(keyv, cid) && (pre.spec_blocking()
                    || pre.spec_channel_queue(cid).len() < pre.spec_channel_bound(cid)) {
                    assert(post.channels@[j].queue@ == pre.channels@[j].queue@.push(env));
                    assert(post.spec_channel_queue(cid) =~= pre.spec_channel_queue(cid).push(
                        event,
                    ));
                } else {
                    assert(post.channels@[j].queue@ == pre.channels@[j].queue@);
                    assert(post.spec_channel_queue(cid) =~= pre.spec_channel_queue(cid));
                }
            }
            assert forall|k2: K, c2: uuid::Uuid|
                post.spec_registered(k2, c2) == (pre.spec_registered(k2, c2) && !(k2 == keyv
                    && !pre.spec_has_channel(c2))) by {
                assert(delivered.spec_has_channel(c2) == pre.spec_has_channel(c2)) by {
                    if pre.spec_has_channel(c2) {
                        let j = choose|j: int|
                            0 <= j < pre.channels@.len() && pre.channels@[j].channel_id == c2;
                        assert(delivered.channels@[j].channel_id == c2);
                    }
                    if delivered.spec_has_channel(c2) {
                        let j = choose|j: int|
                            0 <= j < delivered.channels@.len() && delivered.channels@[
                                j
                            ].channel_id == c2;
                        assert(pre.channels@[j].channel_id == c2);
                    }
                }
                if pre.spec_registered(k2, c2) && !(k2 == keyv && !pre.spec_has_channel(c2)) {
                    let j = choose|j: int| 0 <= j < s0.len() && s0[j] == (k2, c2);
                    assert(s0.contains((k2, c2)));
                    assert(post.subscriptions@.contains((k2, c2)));
                    let l = choose|l: int|
                        0 <= l < post.subscriptions@.len() && post.subscriptions@[l] == (k2, c2);
                }
                if post.spec_registered(k2, c2) {
                    let j = choose|j: int|
                        0 <= j < post.subscriptions@.len() && post.subscriptions@[j] == (k2, c2);
                    assert(post.subscriptions@.contains((k2, c2)));
                    assert(s0.contains((k2, c2)));
                    let l = choose|l: int| 0 <= l < s0.len() && s0[l] == (k2, c2);
                }
            }
            assert forall|c2: uuid::Uuid|
                post.spec_any_registered(c2) == (pre.spec_any_registered(c2)
                    && pre.spec_has_channel(c2)) by {
                assert(delivered.spec_has_channel(c2) == pre.spec_has_channel(c2)) by {
                    if pre.spec_has_channel(c2) {
                        let j = choose|j: int|
                            0 <= j < pre.channels@.len() && pre.channels@[j].channel_id == c2;
                        assert(delivered.channels@[j].channel_id == c2);
                    }
                    if delivered.spec_has_channel(c2) {
                        let j = choose|j: int|
                            0 <= j < delivered.channels@.len() && delivered.channels@[
                                j
                            ].channel_id == c2;
                        assert(pre.channels@[j].channel_id == c2);
                    }
                }
            }
        }
    }

    /// Take up the oldest captured event, if there is one, and dispatch
    /// it: the dispatcher's single step. Returns whether an event was
    /// processed. Under a policy that stamps at capture, an event without
    /// a timestamp is stamped with `now` first.
    pub fn process_next(&mut self, now: u64) -> (processed: bool)
        requires
            old(self).wf(),
        ensures
            final(self).wf(),
            old(self).spec_queue().len() == 0 ==> !processed && *final(self) == *old(self),
            old(self).spec_queue().len() > 0 ==> processed && {
                let e = spec_stamped(old(self).spec_queue()[0], now, old(self).spec_ts_kind());
                &&& final(self).spec_queue() == old(self).spec_queue().drop_first()
                &&& Self::spec_fanout_post(*old(self), *final(self), e)
                &&& Self::spec_config_unchanged(*old(self), *final(self))
                &&& final(self).spec_missed() == old(self).spec_missed()
            },
    {
        if self.capture_queue.len() == 0 {
            return false;
        }
        let mut e = self.capture_queue.remove(0);
        if self.timestamp_kind == EventTimestampKind::Captured && e.timestamp.is_none() {
            e.timestamp = Some(now);
            proof {
                assert(e == spec_stamped(
                    old(self).spec_queue()[0],
                    now,
                    old(self).spec_ts_kind(),
                ));
            }
        }
        let ghost mid = *self;
        self.on_event(e);
        proof {
            Self::lemma_fanout_same_pre(*old(self), mid, *self, e);
            assert(self.spec_queue() =~= old(self).spec_queue().drop_first());
        }
        true
    }

    /// Fan-out relates the same way to any earlier state with the same
    /// registries, channels and flags.
    proof fn lemma_fanout_same_pre(pre1: Self, pre2: Self, post: Self, e: Event<K, M, T>)
        requires
            Self::spec_fanout_post(pre2, post, e),
            pre2.subscriptions@ == pre1.subscriptions@,
            pre2.any_event@ == pre1.any_event@,
            pre2.channels@ == pre1.channels@,
            pre2.capturing == pre1.capturing,
            pre2.capture_blocking == pre1.capture_blocking,
        ensures
            Self::spec_fanout_post(pre1, post, e),
    {
        let key = e.entry.spec_event_id();
        Self::lemma_same_registry(pre1, pre2);
        Self::lemma_same_channels(pre1, pre2);
        assert forall|cid: uuid::Uuid|
            pre1.spec_has_channel(cid) implies post.spec_channel_queue(cid) == (
        if pre1.spec_targeted(key, cid) && (pre1.spec_blocking() || pre1.spec_channel_queue(
            cid,
        ).len() < pre1.spec_channel_bound(cid)) {
            pre1.spec_channel_queue(cid).push(e)
        } else {
            pre1.spec_channel_queue(cid)
        }) by {
            assert(pre2.spec_has_channel(cid));
            assert(pre2.spec_targeted(key, cid) == pre1.spec_targeted(key, cid));
            assert(pre2.spec_channel_queue(cid) == pre1.spec_channel_queue(cid));
            assert(pre2.spec_channel_bound(cid) == pre1.spec_channel_bound(cid));
        }
    }
}

impl<K, M, T, F> EvidentPublisher<K, M, T, F> where
    K: Id + CaptureControl,
    M: Msg,
    T: EventEntry<K, M>,
    F: Filter<K, M, T>,
 {
    /// A subscriber targeted by a dispatched event either receives exactly
    /// one copy of it, appended to its queue, or — only with non-blocking
    /// delivery and a full queue — misses it with its queue unchanged. It
    /// never observes a duplicate or an altered copy.
    pub proof fn lemma_delivery_exactly_once(pre: Self, post: Self, e: Event<K, M, T>, cid: uuid::Uuid)
        requires
            Self::spec_fanout_post(pre, post, e),
            pre.spec_has_channel(cid),
            pre.spec_targeted(e.entry.spec_event_id(), cid),
        ensures
            pre.spec_blocking() || pre.spec_channel_queue(cid).len() < pre.spec_channel_bound(cid)
                ==> post.spec_channel_queue(cid) == pre.spec_channel_queue(cid).push(e),
            !pre.spec_blocking() && pre.spec_channel_queue(cid).len() >= pre.spec_channel_bound(
                cid,
            ) ==> post.spec_channel_queue(cid) == pre.spec_channel_queue(cid),
    {
    }

    /// A subscriber not targeted by a dispatched event does not receive
    /// it.
    pub proof fn lemma_no_delivery_untargeted(pre: Self, post: Self, e: Event<K, M, T>, cid: uuid::Uuid)
        requires
            Self::spec_fanout_post(pre, post, e),
            pre.spec_has_channel(cid),
            !pre.spec_targeted(e.entry.spec_event_id(), cid),
        ensures
            post.spec_channel_queue(cid) == pre.spec_channel_queue(cid),
    {
    }

    /// Dispatching never reorders a subscription queue: what was queued
    /// stays queued, in the same order, in front of anything new.
    pub proof fn lemma_delivery_preserves_order(
        pre: Self,
        post: Self,
        e: Event<K, M, T>,
        cid: uuid::Uuid,
    )
        requires
            Self::spec_fanout_post(pre, post, e),
            pre.spec_has_channel(cid),
        ensures
            pre.spec_channel_queue(cid).is_prefix_of(post.spec_channel_queue(cid)),
    {
        let q0 = pre.spec_channel_queue(cid);
        let q1 = post.spec_channel_queue(cid);
        if q1 == q0.push(e) {
            assert(q0.is_prefix_of(q1)) by {
                assert(q1.subrange(0, q0.len() as int) =~= q0);
            }
        } else {
            assert(q1 == q0);
            assert(q0.is_prefix_of(q1)) by {
                assert(q1.subrange(0, q0.len() as int) =~= q0);
            }
        }
    }

    /// Two events dispatched one after the other arrive at a common
    /// subscriber in dispatch order: the subscriber reads its queue from
    /// the front, so it receives `e1` before `e2`.
    pub proof fn lemma_reception_order(
        s0: Self,
        s1: Self,
        s2: Self,
        e1: Event<K, M, T>,
        e2: Event<K, M, T>,
        cid: uuid::Uuid,
    )
        requires
            Self::spec_fanout_post(s0, s1, e1),
            Self::spec_fanout_post(s1, s2, e2),
            s0.spec_has_channel(cid),
            s0.spec_targeted(e1.entry.spec_event_id(), cid),
            s1.spec_targeted(e2.entry.spec_event_id(), cid),
            s0.spec_blocking() || s0.spec_channel_queue(cid).len() < s0.spec_channel_bound(cid),
            s1.spec_blocking() || s1.spec_channel_queue(cid).len() < s1.spec_channel_bound(cid),
        ensures
            s2.spec_channel_queue(cid) == s0.spec_channel_queue(cid).push(e1).push(e2),
    {
        assert(s1.spec_has_channel(cid));
        assert(s1.spec_channel_queue(cid) == s0.spec_channel_queue(cid).push(e1));
    }

    /// A dispatched stop event reaches every targeted live subscriber
    /// with room (like any event), and only then is capturing cleared, so
    /// everyone who receives at all receives the stop event.
    pub proof fn lemma_stop_event(pre: Self, post: Self, e: Event<K, M, T>, cid: uuid::Uuid)
        requires
            Self::spec_fanout_post(pre, post, e),
            K::spec_stop(e.entry.spec_event_id()),
            pre.spec_has_channel(cid),
            pre.spec_targeted(e.entry.spec_event_id(), cid),
            pre.spec_blocking() || pre.spec_channel_queue(cid).len() < pre.spec_channel_bound(cid),
        ensures
            post.spec_channel_queue(cid) == pre.spec_channel_queue(cid).push(e),
            !post.spec_capturing(),
    {
    }

    /// A dispatched start event sets capturing again.
    pub proof fn lemma_start_event(pre: Self, post: Self, e: Event<K, M, T>)
        requires
            Self::spec_fanout_post(pre, post, e),
            K::spec_start(e.entry.spec_event_id()),
            !K::spec_stop(e.entry.spec_event_id()),
        ensures
            post.spec_capturing(),
    {
    }

    /// While capturing is stopped, a capture attempt for an ordinary
    /// (non-control) entry enqueues nothing: after a stop event, ordinary
    /// events are never captured until a start event is processed.
    pub proof fn lemma_stopped_captures_nothing(pre: Self, post: Self, entry: T, ctx: EventContext)
        requires
            Self::spec_capture_post(pre, post, entry, ctx),
            !pre.spec_capturing(),
            !spec_is_control_id(entry.spec_event_id()),
        ensures
            post.spec_queue() == pre.spec_queue(),
    {
    }

    /// The missed-capture counter never decreases across a capture
    /// attempt, and it increases only in non-blocking capture mode when
    /// the capture queue is full.
    pub proof fn lemma_missed_captures_monotonic(pre: Self, post: Self, entry: T, ctx: EventContext)
        requires
            Self::spec_capture_post(pre, post, entry, ctx),
        ensures
            post.spec_missed() >= pre.spec_missed(),
            post.spec_missed() > pre.spec_missed() ==> !pre.spec_blocking() && pre.spec_queue().len()
                >= pre.spec_cap_bound(),
    {
    }

    /// Once a subscription's channel is gone, dispatching delivers nothing
    /// to it and never brings it back.
    pub proof fn lemma_dropped_channel_stays_dropped(
        pre: Self,
        post: Self,
        e: Event<K, M, T>,
        cid: uuid::Uuid,
    )
        requires
            Self::spec_fanout_post(pre, post, e),
            !pre.spec_has_channel(cid),
        ensures
            !post.spec_has_channel(cid),
    {
    }

    /// Round trip: a captured event's entry — identifier, entry
    /// identifier, message and origin — and its thread data reach every
    /// receiving subscriber's envelope unchanged. Here the capture queue
    /// starts empty, the entry passes the gates and has room, `s1` is the
    /// state after the capture, and `s2` the state after the dispatch
    /// step that takes the event up.
    pub proof fn lemma_round_trip(
        s0: Self,
        s1: Self,
        s2: Self,
        entry: T,
        ctx: EventContext,
        now: u64,
        cid: uuid::Uuid,
    )
        requires
            Self::spec_capture_post(s0, s1, entry, ctx),
            s0.spec_queue().len() == 0,
            s0.spec_entry_allowed(entry),
            s0.spec_blocking() || s0.spec_cap_bound() > 0,
            Self::spec_fanout_post(
                s1,
                s2,
                spec_stamped(s1.spec_queue()[0], now, s1.spec_ts_kind()),
            ),
            s1.spec_has_channel(cid),
            s1.spec_targeted(entry.spec_event_id(), cid),
            s1.spec_blocking() || s1.spec_channel_queue(cid).len() < s1.spec_channel_bound(cid),
        ensures
            s2.spec_channel_queue(cid).len() == s1.spec_channel_queue(cid).len() + 1,
            s2.spec_channel_queue(cid).last().entry == entry,
            s2.spec_channel_queue(cid).last().thread_id == ctx.thread_id,
            s2.spec_channel_queue(cid).last().thread_name == ctx.thread_name,
    {
        let e0 = spec_captured_event(entry, ctx, s0.spec_ts_kind());
        assert(s1.spec_queue() == s0.spec_queue().push(e0));
        assert(s1.spec_queue()[0] == e0);
        let e = spec_stamped(e0, now, s1.spec_ts_kind());
        assert(e.entry == entry);
        assert(s2.spec_channel_queue(cid) == s1.spec_channel_queue(cid).push(e));
    }
}

} // verus!
