//! The [`Subscription`] handle and its errors.

use crate::event::entry::EventEntry;
use crate::event::filter::Filter;
use crate::event::{Event, Id, Msg};
use crate::publisher::{CaptureControl, EvidentPublisher};
use std::sync::Arc;
use vstd::prelude::*;

verus! {

/// Possible errors of the subscribe and unsubscribe operations.
#[derive(Debug, Clone)]
pub enum SubscriptionError<K: Id> {
    /// The subscription listens to all events and cannot be modified.
    AllEventsSubscriptionNotModifiable,
    /// The identifier is not subscribed, so it cannot be unsubscribed.
    /// It is carried at tuple position 0.
    IdNotSubscribed(K),
    /// The identifier is already subscribed, so it cannot be subscribed
    /// again. It is carried at tuple position 0.
    IdAlreadySubscribed(K),
    /// Unsubscribing would remove every subscribed identifier, leaving the
    /// subscription without any connection to the publisher.
    UnsubscribeWouldDeleteSubscription,
    /// The publisher's registry could not be accessed.
    CouldNotAccessPublisher,
    /// The publisher holds no subscription channel for this subscription.
    NoSubscriptionChannelAvailable,
}

/// A subscription to events captured by a publisher: the identifier of the
/// queue the publisher delivers into, and the set of subscribed
/// identifiers (absent for an all-events subscription).
pub struct Subscription<K: Id> {
    /// The identifier of the channel between publisher and subscription.
    pub(crate) channel_id: uuid::Uuid,
    /// Whether this subscription receives all captured events.
    pub(crate) sub_to_all: bool,
    /// The subscribed identifiers; `None` for an all-events subscription.
    pub(crate) subscriptions: Option<Vec<K>>,
}

impl<K: Id> Subscription<K> {
    /// The identifier of this subscription's channel.
    pub closed spec fn spec_channel_id(self) -> uuid::Uuid {
        self.channel_id
    }

    /// Whether this subscription receives all captured events.
    pub closed spec fn spec_sub_to_all(self) -> bool {
        self.sub_to_all
    }

    /// Whether this subscription carries a set of subscribed identifiers.
    pub closed spec fn spec_has_ids(self) -> bool {
        self.subscriptions is Some
    }

    /// The subscribed identifiers; empty for an all-events subscription.
    pub closed spec fn spec_ids(self) -> Seq<K> {
        match self.subscriptions {
            Option::Some(v) => v@,
            Option::None => Seq::empty(),
        }
    }

    /// Well-formedness: an all-events subscription carries no identifier
    /// set, a specific subscription carries one without duplicates.
    pub closed spec fn wf(self) -> bool {
        &&& self.sub_to_all <==> self.subscriptions is None
        &&& self.spec_ids().no_duplicates()
    }

    /// Create a subscription handle from its parts.
    pub(crate) fn make(channel_id: uuid::Uuid, sub_to_all: bool, subscriptions: Option<Vec<K>>) -> (r:
        Subscription<K>)
        requires
            sub_to_all <==> subscriptions is None,
            (subscriptions matches Some(v) ==> v@.no_duplicates()),
        ensures
            r.wf(),
            r.spec_channel_id() == channel_id,
            r.spec_sub_to_all() == sub_to_all,
            r.spec_has_ids() == (subscriptions is Some),
            (subscriptions matches Some(v) ==> r.spec_ids() == v@),
            (subscriptions is None ==> r.spec_ids() == Seq::<K>::empty()),
    {
        Subscription { channel_id, sub_to_all, subscriptions }
    }
}

/// Whether every element of `a` occurs in `b`.
fn seq_subset<K: Id>(a: &Vec<K>, b: &Vec<K>) -> (r: bool)
    ensures
        r == (forall|j: int| 0 <= j < a@.len() ==> b@.contains(a@[j])),
{
    let n = a.len();
    let mut i: usize = 0;
    while i < n
        invariant
            n == a@.len(),
            i <= n,
            forall|j: int| 0 <= j < i ==> b@.contains(a@[j]),
        decreases n - i,
    {
        if !contains_id(b, &a[i]) {
            return false;
        }
        i += 1;
    }
    true
}

/// Whether the given identifier occurs in the list.
fn contains_id<K: Id>(v: &Vec<K>, x: &K) -> (r: bool)
    ensures
        r == v@.contains(*x),
{
    let n = v.len();
    let mut i: usize = 0;
    while i < n
        invariant
            n == v@.len(),
            i <= n,
            forall|j: int| 0 <= j < i ==> v@[j] != *x,
        decreases n - i,
    {
        if v[i].eq_id(x) {
            proof {
                assert(v@[i as int] == *x);
            }
            return true;
        }
        i += 1;
    }
    false
}

impl<K: Id> Subscription<K> {
    /// Unsubscribing these identifiers would leave the subscribed set
    /// empty.
    pub open spec fn spec_would_delete(self, ids: Seq<K>) -> bool {
        forall|j: int| 0 <= j < self.spec_ids().len() ==> ids.contains(self.spec_ids()[j])
    }

    /// Every one of these identifiers is subscribed.
    pub open spec fn spec_all_subscribed(self, ids: Seq<K>) -> bool {
        forall|j: int| 0 <= j < ids.len() ==> self.spec_ids().contains(ids[j])
    }

    /// None of these identifiers is subscribed yet.
    pub open spec fn spec_none_subscribed(self, ids: Seq<K>) -> bool {
        forall|j: int| 0 <= j < ids.len() ==> !self.spec_ids().contains(ids[j])
    }

    /// The back-reference invariant between a subscription and its
    /// publisher: every subscribed identifier is registered for this
    /// subscription's channel.
    pub open spec fn spec_linked<M, T, F>(self, p: EvidentPublisher<K, M, T, F>) -> bool where
        K: CaptureControl,
        M: Msg,
        T: EventEntry<K, M>,
        F: Filter<K, M, T>,
     {
        forall|j: int|
            0 <= j < self.spec_ids().len() ==> p.spec_registered(
                self.spec_ids()[j],
                self.spec_channel_id(),
            )
    }

    /// Read the oldest undelivered event of this subscription, if there is
    /// one.
    pub fn try_recv<M, T, F>(&self, publisher: &mut EvidentPublisher<K, M, T, F>) -> (r: Option<
        Arc<Event<K, M, T>>,
    >) where K: CaptureControl, M: Msg, T: EventEntry<K, M>, F: Filter<K, M, T>
        requires
            old(publisher).wf(),
        ensures
            final(publisher).wf(),
            old(publisher).spec_has_channel(self.spec_channel_id()) && old(publisher).spec_channel_queue(self.spec_channel_id()).len() > 0 ==> {
                &&& r matches Some(e) && e == old(publisher).spec_channel_queue(
                    self.spec_channel_id(),
                )[0]
                &&& final(publisher).spec_channel_queue(self.spec_channel_id()) == old(publisher).spec_channel_queue(self.spec_channel_id()).drop_first()
            },
            !(old(publisher).spec_has_channel(self.spec_channel_id()) && old(publisher).spec_channel_queue(self.spec_channel_id()).len() > 0) ==> r is None && *final(publisher) == *old(publisher),
            forall|c: uuid::Uuid|
                final(publisher).spec_has_channel(c) == old(publisher).spec_has_channel(c),
            forall|c: uuid::Uuid|
                c != self.spec_channel_id() && old(publisher).spec_has_channel(c) ==> final(publisher).spec_channel_queue(c) == old(publisher).spec_channel_queue(c),
            forall|k2: K, c2: uuid::Uuid|
                final(publisher).spec_registered(k2, c2) == old(publisher).spec_registered(k2, c2),
            forall|c: uuid::Uuid|
                final(publisher).spec_any_registered(c) == old(publisher).spec_any_registered(c),
            final(publisher).spec_capturing() == old(publisher).spec_capturing(),
            final(publisher).spec_missed() == old(publisher).spec_missed(),
            final(publisher).spec_queue() == old(publisher).spec_queue(),
    {
        publisher.channel_pop(&self.channel_id)
    }

    /// Unsubscribe this subscription: every registration of its channel is
    /// removed from the publisher, and its queue is dropped.
    pub fn unsubscribe<M, T, F>(self, publisher: &mut EvidentPublisher<K, M, T, F>) where
        K: CaptureControl,
        M: Msg,
        T: EventEntry<K, M>,
        F: Filter<K, M, T>,

        requires
            old(publisher).wf(),
        ensures
            final(publisher).wf(),
            forall|k2: K, c2: uuid::Uuid|
                final(publisher).spec_registered(k2, c2) == (old(publisher).spec_registered(
                    k2,
                    c2,
                ) && c2 != self.spec_channel_id()),
            forall|c: uuid::Uuid|
                final(publisher).spec_any_registered(c) == (old(publisher).spec_any_registered(c)
                    && c != self.spec_channel_id()),
            forall|c: uuid::Uuid|
                final(publisher).spec_has_channel(c) == (old(publisher).spec_has_channel(c) && c
                    != self.spec_channel_id()),
            forall|c: uuid::Uuid|
                c != self.spec_channel_id() && old(publisher).spec_has_channel(c) ==> final(publisher).spec_channel_queue(c) == old(publisher).spec_channel_queue(c),
            final(publisher).spec_capturing() == old(publisher).spec_capturing(),
            final(publisher).spec_missed() == old(publisher).spec_missed(),
            final(publisher).spec_queue() == old(publisher).spec_queue(),
    {
        publisher.purge_channel(&self.channel_id);
    }

    /// Drop this handle without unsubscribing: the queue is dropped, but
    /// the registrations stay until the dispatcher reaps them on a failed
    /// delivery. This models dropping the handle while the registry is
    /// contended.
    pub fn detach<M, T, F>(self, publisher: &mut EvidentPublisher<K, M, T, F>) where
        K: CaptureControl,
        M: Msg,
        T: EventEntry<K, M>,
        F: Filter<K, M, T>,

        requires
            old(publisher).wf(),
        ensures
            final(publisher).wf(),
            !final(publisher).spec_has_channel(self.spec_channel_id()),
            forall|c: uuid::Uuid|
                c != self.spec_channel_id() ==> final(publisher).spec_has_channel(c) == old(publisher).spec_has_channel(c),
            forall|c: uuid::Uuid|
                c != self.spec_channel_id() && old(publisher).spec_has_channel(c) ==> final(publisher).spec_channel_queue(c) == old(publisher).spec_channel_queue(c),
            forall|k2: K, c2: uuid::Uuid|
                final(publisher).spec_registered(k2, c2) == old(publisher).spec_registered(k2, c2),
            forall|c: uuid::Uuid|
                final(publisher).spec_any_registered(c) == old(publisher).spec_any_registered(c),
            final(publisher).spec_capturing() == old(publisher).spec_capturing(),
            final(publisher).spec_missed() == old(publisher).spec_missed(),
            final(publisher).spec_queue() == old(publisher).spec_queue(),
    {
        publisher.take_out_channel(&self.channel_id);
    }
}

impl<K: Id> Subscription<K> {
    /// Unsubscribe from the given event identifier.
    ///
    /// Only possible for subscriptions to specific identifiers; see
    /// [`Subscription::unsubscribe_many`] for the errors.
    pub fn unsubscribe_id<M, T, F>(
        &mut self,
        publisher: &mut EvidentPublisher<K, M, T, F>,
        id: K,
    ) -> (r: Result<(), SubscriptionError<K>>) where
        K: CaptureControl,
        M: Msg,
        T: EventEntry<K, M>,
        F: Filter<K, M, T>,

        requires
            old(publisher).wf(),
            old(self).wf(),
        ensures
            final(self).wf(),
            final(publisher).wf(),
            old(self).spec_sub_to_all() ==> (r matches Err(
                SubscriptionError::AllEventsSubscriptionNotModifiable,
            ) && *final(self) == *old(self) && *final(publisher) == *old(publisher)),
            !old(self).spec_sub_to_all() && old(self).spec_would_delete(seq![id]) ==> (r matches
            Err(SubscriptionError::UnsubscribeWouldDeleteSubscription) && *final(self) == *old(
                self,
            ) && *final(publisher) == *old(publisher)),
            !old(self).spec_sub_to_all() && !old(self).spec_would_delete(seq![id]) && !old(
                self,
            ).spec_all_subscribed(seq![id]) ==> (r matches Err(
                SubscriptionError::IdNotSubscribed(k),
            ) && k == id && !old(self).spec_ids().contains(id) && *final(self) == *old(self)
                && *final(publisher) == *old(publisher)),
            !old(self).spec_sub_to_all() && !old(self).spec_would_delete(seq![id]) && old(
                self,
            ).spec_all_subscribed(seq![id]) ==> r is Ok && {
                &&& final(self).spec_channel_id() == old(self).spec_channel_id()
                &&& !final(self).spec_sub_to_all()
                &&& forall|k2: K| #[trigger]
                    final(self).spec_ids().contains(k2) == (old(self).spec_ids().contains(k2) && k2
                        != id)
                &&& forall|k2: K| #[trigger]
                    final(publisher).spec_registered(k2, old(self).spec_channel_id()) == (old(
                        publisher,
                    ).spec_registered(k2, old(self).spec_channel_id()) && k2 != id)
                &&& forall|k2: K, c2: uuid::Uuid|
                    c2 != old(self).spec_channel_id() ==> final(publisher).spec_registered(k2, c2)
                        == old(publisher).spec_registered(k2, c2)
                &&& forall|c: uuid::Uuid|
                    final(publisher).spec_any_registered(c) == old(publisher).spec_any_registered(
                        c,
                    )
                &&& forall|c: uuid::Uuid|
                    final(publisher).spec_has_channel(c) == old(publisher).spec_has_channel(c)
                &&& forall|c: uuid::Uuid|
                    old(publisher).spec_has_channel(c) ==> final(publisher).spec_channel_queue(c)
                        == old(publisher).spec_channel_queue(c)
                &&& final(publisher).spec_capturing() == old(publisher).spec_capturing()
                &&& final(publisher).spec_missed() == old(publisher).spec_missed()
                &&& final(publisher).spec_queue() == old(publisher).spec_queue()
            },
    {
        let ghost idv = id;
        let ids = vec![id];
        proof {
            assert(ids@ =~= seq![idv]);
            assert forall|k2: K| #[trigger] ids@.contains(k2) == (k2 == idv) by {
                if ids@.contains(k2) {
                    let j = choose|j: int| 0 <= j < ids@.len() && ids@[j] == k2;
                    assert(j == 0);
                }
                if k2 == idv {
                    assert(ids@[0] == k2);
                }
            }
        }
        let r = self.unsubscribe_many(publisher, ids);
        proof {
            assert(seq![idv].contains(idv)) by {
                assert(seq![idv][0] == idv);
            }
        }
        r
    }

    /// Unsubscribe from the given event identifiers.
    ///
    /// Only possible for subscriptions to specific identifiers. Errors:
    /// an all-events subscription is not modifiable; removing the
    /// requested identifiers must not leave the subscribed set empty; and
    /// every requested identifier must be subscribed.
    pub fn unsubscribe_many<M, T, F>(
        &mut self,
        publisher: &mut EvidentPublisher<K, M, T, F>,
        ids: Vec<K>,
    ) -> (r: Result<(), SubscriptionError<K>>) where
        K: CaptureControl,
        M: Msg,
        T: EventEntry<K, M>,
        F: Filter<K, M, T>,

        requires
            old(publisher).wf(),
            old(self).wf(),
        ensures
            final(self).wf(),
            final(publisher).wf(),
            old(self).spec_sub_to_all() ==> (r matches Err(
                SubscriptionError::AllEventsSubscriptionNotModifiable,
            ) && *final(self) == *old(self) && *final(publisher) == *old(publisher)),
            !old(self).spec_sub_to_all() && old(self).spec_would_delete(ids@) ==> (r matches Err(
                SubscriptionError::UnsubscribeWouldDeleteSubscription,
            ) && *final(self) == *old(self) && *final(publisher) == *old(publisher)),
            !old(self).spec_sub_to_all() && !old(self).spec_would_delete(ids@) && !old(
                self,
            ).spec_all_subscribed(ids@) ==> (r matches Err(SubscriptionError::IdNotSubscribed(k))
                && ids@.contains(k) && !old(self).spec_ids().contains(k) && *final(self) == *old(
                self,
            ) && *final(publisher) == *old(publisher)),
            !old(self).spec_sub_to_all() && !old(self).spec_would_delete(ids@) && old(
                self,
            ).spec_all_subscribed(ids@) ==> r is Ok && {
                &&& final(self).spec_channel_id() == old(self).spec_channel_id()
                &&& !final(self).spec_sub_to_all()
                &&& forall|k2: K| #[trigger]
                    final(self).spec_ids().contains(k2) == (old(self).spec_ids().contains(k2)
                        && !ids@.contains(k2))
                &&& forall|k2: K| #[trigger]
                    final(publisher).spec_registered(k2, old(self).spec_channel_id()) == (old(
                        publisher,
                    ).spec_registered(k2, old(self).spec_channel_id()) && !ids@.contains(k2))
                &&& forall|k2: K, c2: uuid::Uuid|
                    c2 != old(self).spec_channel_id() ==> final(publisher).spec_registered(k2, c2)
                        == old(publisher).spec_registered(k2, c2)
                &&& forall|c: uuid::Uuid|
                    final(publisher).spec_any_registered(c) == old(publisher).spec_any_registered(
                        c,
                    )
                &&& forall|c: uuid::Uuid|
                    final(publisher).spec_has_channel(c) == old(publisher).spec_has_channel(c)
                &&& forall|c: uuid::Uuid|
                    old(publisher).spec_has_channel(c) ==> final(publisher).spec_channel_queue(c)
                        == old(publisher).spec_channel_queue(c)
                &&& final(publisher).spec_capturing() == old(publisher).spec_capturing()
                &&& final(publisher).spec_missed() == old(publisher).spec_missed()
                &&& final(publisher).spec_queue() == old(publisher).spec_queue()
                &&& old(self).spec_linked(*old(publisher)) ==> final(self).spec_linked(
                    *final(publisher),
                )
            },
    {
        if self.sub_to_all {
            return Err(SubscriptionError::AllEventsSubscriptionNotModifiable);
        }
        let would_delete = match &self.subscriptions {
            Some(subs) => seq_subset(subs, &ids),
            None => true,
        };
        if would_delete {
            return Err(SubscriptionError::UnsubscribeWouldDeleteSubscription);
        }
        let n = ids.len();
        let mut i: usize = 0;
        while i < n
            invariant
                n == ids@.len(),
                i <= n,
                *self == *old(self),
                *publisher == *old(publisher),
                self.wf(),
                publisher.wf(),
                !self.sub_to_all,
                !old(self).spec_sub_to_all(),
                !old(self).spec_would_delete(ids@),
                forall|j: int| 0 <= j < i ==> self.spec_ids().contains(ids@[j]),
            decreases n - i,
        {
            let missing = match &self.subscriptions {
                Some(subs) => !contains_id(subs, &ids[i]),
                None => true,
            };
            if missing {
                return Err(SubscriptionError::IdNotSubscribed(ids[i].clone_id()));
            }
            i += 1;
        }
        let ghost cid = self.channel_id;
        let ghost pub0 = *old(publisher);
        let mut i: usize = 0;
        while i < n
            invariant
                n == ids@.len(),
                i <= n,
                publisher.wf(),
                cid == self.channel_id,
                forall|k2: K| #[trigger]
                    publisher.spec_registered(k2, cid) == (pub0.spec_registered(k2, cid)
                        && !ids@.take(i as int).contains(k2)),
                forall|k2: K, c2: uuid::Uuid|
                    c2 != cid ==> publisher.spec_registered(k2, c2) == pub0.spec_registered(
                        k2,
                        c2,
                    ),
                forall|c: uuid::Uuid|
                    publisher.spec_any_registered(c) == pub0.spec_any_registered(c),
                forall|c: uuid::Uuid| publisher.spec_has_channel(c) == pub0.spec_has_channel(c),
                forall|c: uuid::Uuid|
                    pub0.spec_has_channel(c) ==> publisher.spec_channel_queue(c)
                        == pub0.spec_channel_queue(c) && publisher.spec_channel_bound(c)
                        == pub0.spec_channel_bound(c),
                EvidentPublisher::<K, M, T, F>::spec_config_unchanged(pub0, *publisher),
                publisher.spec_capturing() == pub0.spec_capturing(),
                publisher.spec_missed() == pub0.spec_missed(),
                publisher.spec_queue() == pub0.spec_queue(),
            decreases n - i,
        {
            let ghost before = *publisher;
            publisher.remove_pair(&ids[i], &self.channel_id);
            proof {
                let ix = i as int;
                assert(ids@.take(ix + 1) =~= ids@.take(ix).push(ids@[ix]));
                assert forall|k2: K| #[trigger]
                    publisher.spec_registered(k2, cid) == (pub0.spec_registered(k2, cid)
                        && !ids@.take(ix + 1).contains(k2)) by {
                    let t = ids@.take(ix + 1);
                    if k2 == ids@[ix] {
                        assert(t[ix] == k2);
                        assert(t.contains(k2));
                        assert(!publisher.spec_registered(k2, cid));
                    } else {
                        assert(publisher.spec_registered(k2, cid) == before.spec_registered(
                            k2,
                            cid,
                        ));
                        if t.contains(k2) {
                            let j = choose|j: int| 0 <= j < t.len() && t[j] == k2;
                            assert(j < ix);
                            assert(ids@.take(ix)[j] == k2);
                            assert(ids@.take(ix).contains(k2));
                        }
                        if ids@.take(ix).contains(k2) {
                            let j = choose|j: int|
                                0 <= j < ids@.take(ix).len() && ids@.take(ix)[j] == k2;
                            assert(t[j] == k2);
                            assert(t.contains(k2));
                        }
                    }
                }
            }
            i += 1;
        }
        proof {
            assert(ids@.take(n as int) =~= ids@);
        }
        let mut kept: Vec<K> = Vec::new();
        let ghost subs0 = self.spec_ids();
        match &self.subscriptions {
            Some(subs) => {
                let m = subs.len();
                let mut j: usize = 0;
                while j < m
                    invariant
                        m == subs@.len(),
                        j <= m,
                        subs@ == subs0,
                        subs@.no_duplicates(),
                        kept@.no_duplicates(),
                        forall|k2: K|
                            #[trigger] kept@.contains(k2) == (subs0.take(j as int).contains(k2)
                                && !ids@.contains(k2)),
                    decreases m - j,
                {
                    let ghost kept0 = kept@;
                    let keep = !contains_id(&ids, &subs[j]);
                    if keep {
                        kept.push(subs[j].clone_id());
                    }
                    proof {
                        let jx = j as int;
                        assert(subs0.take(jx + 1) =~= subs0.take(jx).push(subs0[jx]));
                        if keep {
                            assert(kept@ == kept0.push(subs0[jx]));
                            assert(!kept0.contains(subs0[jx])) by {
                                if kept0.contains(subs0[jx]) {
                                    let t = subs0.take(jx);
                                    let l = choose|l: int| 0 <= l < t.len() && t[l] == subs0[jx];
                                    assert(subs0[l] == subs0[jx]);
                                }
                            }
                            assert forall|k2: K|
                                #[trigger] kept@.contains(k2) == (subs0.take(jx + 1).contains(k2)
                                && !ids@.contains(k2)) by {
                                if kept@.contains(k2) {
                                    let l = choose|l: int| 0 <= l < kept@.len() && kept@[l] == k2;
                                    if l < kept@.len() - 1 {
                                        assert(kept0[l] == k2);
                                        assert(kept0.contains(k2));
                                    } else {
                                        assert(k2 == subs0[jx]);
                                        assert(subs0.take(jx + 1)[jx] == subs0[jx]);
                                        assert(subs0.take(jx + 1).contains(k2));
                                    }
                                }
                                if subs0.take(jx + 1).contains(k2) && !ids@.contains(k2) {
                                    let t = subs0.take(jx + 1);
                                    let l = choose|l: int| 0 <= l < t.len() && t[l] == k2;
                                    if l < jx {
                                        assert(subs0.take(jx)[l] == k2);
                                        assert(subs0.take(jx).contains(k2));
                                        assert(kept0.contains(k2));
                                        let w = choose|w: int|
                                            0 <= w < kept0.len() && kept0[w] == k2;
                                        assert(kept@[w] == k2);
                                    } else {
                                        assert(k2 == subs0[jx]);
                                        assert(kept@[kept@.len() - 1] == k2);
                                    }
                                    assert(kept@.contains(k2));
                                }
                            }
                        } else {
                            assert(ids@.contains(subs0[jx]));
                            assert forall|k2: K|
                                #[trigger] kept@.contains(k2) == (subs0.take(jx + 1).contains(k2)
                                && !ids@.contains(k2)) by {
                                if subs0.take(jx + 1).contains(k2) && !ids@.contains(k2) {
                                    let t = subs0.take(jx + 1);
                                    let l = choose|l: int| 0 <= l < t.len() && t[l] == k2;
                                    assert(l < jx);
                                    assert(subs0.take(jx)[l] == k2);
                                    assert(subs0.take(jx).contains(k2));
                                }
                                if kept@.contains(k2) {
                                    let t = subs0.take(jx);
                                    let l = choose|l: int| 0 <= l < t.len() && t[l] == k2;
                                    assert(subs0.take(jx + 1)[l] == k2);
                                    assert(subs0.take(jx + 1).contains(k2));
                                }
                            }
                        }
                    }
                    j += 1;
                }
                proof {
                    assert(subs0.take(m as int) =~= subs0);
                }
            },
            None => {
                proof {
                    assert(false);
                }
            },
        }
        self.subscriptions = Some(kept);
        proof {
            if old(self).spec_linked(*old(publisher)) {
                assert forall|j: int| 0 <= j < self.spec_ids().len() implies publisher
                    .spec_registered(self.spec_ids()[j], self.spec_channel_id()) by {
                    let k = self.spec_ids()[j];
                    assert(self.spec_ids().contains(k));
                    assert(old(self).spec_ids().contains(k) && !ids@.contains(k));
                    let l = choose|l: int|
                        0 <= l < old(self).spec_ids().len() && old(self).spec_ids()[l] == k;
                    assert(old(publisher).spec_registered(k, old(self).spec_channel_id()));
                }
            }
        }
        Ok(())
    }
}

impl<K: Id> Subscription<K> {
    /// Subscribe to the given additional event identifier.
    ///
    /// Only possible for subscriptions to specific identifiers; see
    /// [`Subscription::subscribe_many`] for the errors.
    pub fn subscribe_id<M, T, F>(
        &mut self,
        publisher: &mut EvidentPublisher<K, M, T, F>,
        id: K,
    ) -> (r: Result<(), SubscriptionError<K>>) where
        K: CaptureControl,
        M: Msg,
        T: EventEntry<K, M>,
        F: Filter<K, M, T>,

        requires
            old(publisher).wf(),
            old(self).wf(),
        ensures
            final(self).wf(),
            final(publisher).wf(),
            old(self).spec_sub_to_all() ==> (r matches Err(
                SubscriptionError::AllEventsSubscriptionNotModifiable,
            ) && *final(self) == *old(self) && *final(publisher) == *old(publisher)),
            !old(self).spec_sub_to_all() && !old(self).spec_none_subscribed(seq![id]) ==> (r matches
            Err(SubscriptionError::IdAlreadySubscribed(k)) && k == id && old(
                self,
            ).spec_ids().contains(id) && *final(self) == *old(self) && *final(publisher) == *old(
                publisher,
            )),
            !old(self).spec_sub_to_all() && old(self).spec_none_subscribed(seq![id]) && (old(
                self,
            ).spec_ids().len() == 0 || !old(publisher).spec_registered(
                old(self).spec_ids()[0],
                old(self).spec_channel_id(),
            )) ==> (r matches Err(SubscriptionError::NoSubscriptionChannelAvailable) && *final(self)
                == *old(self) && *final(publisher) == *old(publisher)),
            !old(self).spec_sub_to_all() && old(self).spec_none_subscribed(seq![id]) && old(
                self,
            ).spec_ids().len() > 0 && old(publisher).spec_registered(
                old(self).spec_ids()[0],
                old(self).spec_channel_id(),
            ) ==> r is Ok && {
                &&& final(self).spec_channel_id() == old(self).spec_channel_id()
                &&& !final(self).spec_sub_to_all()
                &&& forall|k2: K| #[trigger]
                    final(self).spec_ids().contains(k2) == (old(self).spec_ids().contains(k2) || k2
                        == id)
                &&& forall|k2: K| #[trigger]
                    final(publisher).spec_registered(k2, old(self).spec_channel_id()) == (old(
                        publisher,
                    ).spec_registered(k2, old(self).spec_channel_id()) || k2 == id)
                &&& forall|k2: K, c2: uuid::Uuid|
                    c2 != old(self).spec_channel_id() ==> final(publisher).spec_registered(k2, c2)
                        == old(publisher).spec_registered(k2, c2)
                &&& forall|c: uuid::Uuid|
                    final(publisher).spec_any_registered(c) == old(publisher).spec_any_registered(
                        c,
                    )
                &&& forall|c: uuid::Uuid|
                    final(publisher).spec_has_channel(c) == old(publisher).spec_has_channel(c)
                &&& forall|c: uuid::Uuid|
                    old(publisher).spec_has_channel(c) ==> final(publisher).spec_channel_queue(c)
                        == old(publisher).spec_channel_queue(c)
                &&& final(publisher).spec_capturing() == old(publisher).spec_capturing()
                &&& final(publisher).spec_missed() == old(publisher).spec_missed()
                &&& final(publisher).spec_queue() == old(publisher).spec_queue()
            },
    {
        let ghost idv = id;
        let ids = vec![id];
        proof {
            assert(ids@ =~= seq![idv]);
            assert forall|k2: K| #[trigger] ids@.contains(k2) == (k2 == idv) by {
                if ids@.contains(k2) {
                    let j = choose|j: int| 0 <= j < ids@.len() && ids@[j] == k2;
                    assert(j == 0);
                }
                if k2 == idv {
                    assert(ids@[0] == k2);
                }
            }
        }
        let r = self.subscribe_many(publisher, ids);
        proof {
            assert(seq![idv].contains(idv)) by {
                assert(seq![idv][0] == idv);
            }
        }
        r
    }

    /// Subscribe to the given additional event identifiers.
    ///
    /// Only possible for subscriptions to specific identifiers. Errors:
    /// an all-events subscription is not modifiable; none of the requested
    /// identifiers may be subscribed already; and the publisher must still
    /// hold this subscription's channel under one of its identifiers,
    /// else there is no subscription channel left to register.
    pub fn subscribe_many<M, T, F>(
        &mut self,
        publisher: &mut EvidentPublisher<K, M, T, F>,
        ids: Vec<K>,
    ) -> (r: Result<(), SubscriptionError<K>>) where
        K: CaptureControl,
        M: Msg,
        T: EventEntry<K, M>,
        F: Filter<K, M, T>,

        requires
            old(publisher).wf(),
            old(self).wf(),
        ensures
            final(self).wf(),
            final(publisher).wf(),
            old(self).spec_sub_to_all() ==> (r matches Err(
                SubscriptionError::AllEventsSubscriptionNotModifiable,
            ) && *final(self) == *old(self) && *final(publisher) == *old(publisher)),
            !old(self).spec_sub_to_all() && !old(self).spec_none_subscribed(ids@) ==> (r matches
            Err(SubscriptionError::IdAlreadySubscribed(k)) && ids@.contains(k) && old(
                self,
            ).spec_ids().contains(k) && *final(self) == *old(self) && *final(publisher) == *old(
                publisher,
            )),
            !old(self).spec_sub_to_all() && old(self).spec_none_subscribed(ids@) && (old(
                self,
            ).spec_ids().len() == 0 || !old(publisher).spec_registered(
                old(self).spec_ids()[0],
                old(self).spec_channel_id(),
            )) ==> (r matches Err(SubscriptionError::NoSubscriptionChannelAvailable) && *final(self)
                == *old(self) && *final(publisher) == *old(publisher)),
            !old(self).spec_sub_to_all() && old(self).spec_none_subscribed(ids@) && old(
                self,
            ).spec_ids().len() > 0 && old(publisher).spec_registered(
                old(self).spec_ids()[0],
                old(self).spec_channel_id(),
            ) ==> r is Ok && {
                &&& final(self).spec_channel_id() == old(self).spec_channel_id()
                &&& !final(self).spec_sub_to_all()
                &&& forall|k2: K| #[trigger]
                    final(self).spec_ids().contains(k2) == (old(self).spec_ids().contains(k2)
                        || ids@.contains(k2))
                &&& forall|k2: K| #[trigger]
                    final(publisher).spec_registered(k2, old(self).spec_channel_id()) == (old(
                        publisher,
                    ).spec_registered(k2, old(self).spec_channel_id()) || ids@.contains(k2))
                &&& forall|k2: K, c2: uuid::Uuid|
                    c2 != old(self).spec_channel_id() ==> final(publisher).spec_registered(k2, c2)
                        == old(publisher).spec_registered(k2, c2)
                &&& forall|c: uuid::Uuid|
                    final(publisher).spec_any_registered(c) == old(publisher).spec_any_registered(
                        c,
                    )
                &&& forall|c: uuid::Uuid|
                    final(publisher).spec_has_channel(c) == old(publisher).spec_has_channel(c)
                &&& forall|c: uuid::Uuid|
                    old(publisher).spec_has_channel(c) ==> final(publisher).spec_channel_queue(c)
                        == old(publisher).spec_channel_queue(c)
                &&& final(publisher).spec_capturing() == old(publisher).spec_capturing()
                &&& final(publisher).spec_missed() == old(publisher).spec_missed()
                &&& final(publisher).spec_queue() == old(publisher).spec_queue()
                &&& old(self).spec_linked(*old(publisher)) ==> final(self).spec_linked(
                    *final(publisher),
                )
            },
    {
        if self.sub_to_all {
            return Err(SubscriptionError::AllEventsSubscriptionNotModifiable);
        }
        let n = ids.len();
        let mut i: usize = 0;
        while i < n
            invariant
                n == ids@.len(),
                i <= n,
                *self == *old(self),
                *publisher == *old(publisher),
                self.wf(),
                publisher.wf(),
                !self.sub_to_all,
                !old(self).spec_sub_to_all(),
                forall|j: int| 0 <= j < i ==> !self.spec_ids().contains(ids@[j]),
            decreases n - i,
        {
            let present = match &self.subscriptions {
                Some(subs) => contains_id(subs, &ids[i]),
                None => false,
            };
            if present {
                return Err(SubscriptionError::IdAlreadySubscribed(ids[i].clone_id()));
            }
            i += 1;
        }
        let has_sender = match &self.subscriptions {
            Some(subs) => {
                if subs.len() == 0 {
                    false
                } else {
                    publisher.is_registered(&subs[0], &self.channel_id)
                }
            },
            None => false,
        };
        if !has_sender {
            return Err(SubscriptionError::NoSubscriptionChannelAvailable);
        }
        let ghost cid = self.channel_id;
        let ghost pub0 = *old(publisher);
        let mut i: usize = 0;
        while i < n
            invariant
                n == ids@.len(),
                i <= n,
                publisher.wf(),
                cid == self.channel_id,
                forall|k2: K| #[trigger]
                    publisher.spec_registered(k2, cid) == (pub0.spec_registered(k2, cid)
                        || ids@.take(i as int).contains(k2)),
                forall|k2: K, c2: uuid::Uuid|
                    c2 != cid ==> publisher.spec_registered(k2, c2) == pub0.spec_registered(
                        k2,
                        c2,
                    ),
                forall|c: uuid::Uuid|
                    publisher.spec_any_registered(c) == pub0.spec_any_registered(c),
                forall|c: uuid::Uuid| publisher.spec_has_channel(c) == pub0.spec_has_channel(c),
                forall|c: uuid::Uuid|
                    pub0.spec_has_channel(c) ==> publisher.spec_channel_queue(c)
                        == pub0.spec_channel_queue(c) && publisher.spec_channel_bound(c)
                        == pub0.spec_channel_bound(c),
                EvidentPublisher::<K, M, T, F>::spec_config_unchanged(pub0, *publisher),
                publisher.spec_capturing() == pub0.spec_capturing(),
                publisher.spec_missed() == pub0.spec_missed(),
                publisher.spec_queue() == pub0.spec_queue(),
            decreases n - i,
        {
            let ghost before = *publisher;
            publisher.register_pair(&ids[i], &self.channel_id);
            proof {
                let ix = i as int;
                assert(ids@.take(ix + 1) =~= ids@.take(ix).push(ids@[ix]));
                assert forall|k2: K| #[trigger]
                    publisher.spec_registered(k2, cid) == (pub0.spec_registered(k2, cid)
                        || ids@.take(ix + 1).contains(k2)) by {
                    let t = ids@.take(ix + 1);
                    if k2 == ids@[ix] {
                        assert(t[ix] == k2);
                        assert(t.contains(k2));
                        assert(publisher.spec_registered(k2, cid));
                    } else {
                        assert(publisher.spec_registered(k2, cid) == before.spec_registered(
                            k2,
                            cid,
                        ));
                        if t.contains(k2) {
                            let j = choose|j: int| 0 <= j < t.len() && t[j] == k2;
                            assert(j < ix);
                            assert(ids@.take(ix)[j] == k2);
                            assert(ids@.take(ix).contains(k2));
                        }
                        if ids@.take(ix).contains(k2) {
                            let j = choose|j: int|
                                0 <= j < ids@.take(ix).len() && ids@.take(ix)[j] == k2;
                            assert(t[j] == k2);
                            assert(t.contains(k2));
                        }
                    }
                }
            }
            i += 1;
        }
        proof {
            assert(ids@.take(n as int) =~= ids@);
        }
        let mut kept: Vec<K> = Vec::new();
        let ghost subs0 = self.spec_ids();
        match &self.subscriptions {
            Some(subs) => {
                let m = subs.len();
                let mut j: usize = 0;
                while j < m
                    invariant
                        m == subs@.len(),
                        j <= m,
                        subs@ == subs0,
                        subs@.no_duplicates(),
                        kept@.no_duplicates(),
                        kept@ == subs0.take(j as int),
                    decreases m - j,
                {
                    kept.push(subs[j].clone_id());
                    proof {
                        assert(kept@ =~= subs0.take(j as int + 1));
                    }
                    j += 1;
                }
                proof {
                    assert(subs0.take(m as int) =~= subs0);
                }
            },
            None => {
                proof {
                    assert(false);
                }
            },
        }
        let ghost copied = kept@;
        proof {
            assert(copied == subs0);
        }
        let mut i: usize = 0;
        while i < n
            invariant
                n == ids@.len(),
                i <= n,
                subs0.no_duplicates(),
                kept@.no_duplicates(),
                forall|k2: K|
                    #[trigger] kept@.contains(k2) == (subs0.contains(k2) || ids@.take(
                        i as int,
                    ).contains(k2)),
            decreases n - i,
        {
            let ghost kept0 = kept@;
            let present = contains_id(&kept, &ids[i]);
            if !present {
                kept.push(ids[i].clone_id());
            }
            proof {
                let ix = i as int;
                assert(ids@.take(ix + 1) =~= ids@.take(ix).push(ids@[ix]));
                if !present {
                    assert(kept@ == kept0.push(ids@[ix]));
                    assert forall|l: int, w: int|
                        0 <= l < w < kept@.len() implies kept@[l] != kept@[w] by {
                        if w < kept@.len() - 1 {
                            assert(kept@[l] == kept0[l] && kept@[w] == kept0[w]);
                        } else {
                            assert(kept@[w] == ids@[ix]);
                            assert(kept@[l] == kept0[l]);
                            if kept0[l] == ids@[ix] {
                                assert(kept0.contains(ids@[ix]));
                            }
                        }
                    }
                }
                assert forall|k2: K|
                    #[trigger] kept@.contains(k2) == (subs0.contains(k2) || ids@.take(
                    ix + 1,
                ).contains(k2)) by {
                    let t = ids@.take(ix + 1);
                    if k2 == ids@[ix] {
                        assert(t[ix] == k2);
                        assert(t.contains(k2));
                        if present {
                            assert(kept0.contains(k2));
                        } else {
                            assert(kept@[kept@.len() - 1] == k2);
                        }
                        assert(kept@.contains(k2));
                    } else {
                        if kept@.contains(k2) {
                            let l = choose|l: int| 0 <= l < kept@.len() && kept@[l] == k2;
                            if !present {
                                assert(l < kept@.len() - 1);
                                assert(kept0[l] == k2);
                            }
                            assert(kept0.contains(k2));
                            if ids@.take(ix).contains(k2) {
                                let w = choose|w: int|
                                    0 <= w < ids@.take(ix).len() && ids@.take(ix)[w] == k2;
                                assert(t[w] == k2);
                                assert(t.contains(k2));
                            }
                        }
                        if subs0.contains(k2) || t.contains(k2) {
                            if t.contains(k2) {
                                let w = choose|w: int| 0 <= w < t.len() && t[w] == k2;
                                assert(w < ix);
                                assert(ids@.take(ix)[w] == k2);
                                assert(ids@.take(ix).contains(k2));
                            }
                            assert(kept0.contains(k2));
                            if !present {
                                let w = choose|w: int| 0 <= w < kept0.len() && kept0[w] == k2;
                                assert(kept@[w] == k2);
                            }
                            assert(kept@.contains(k2));
                        }
                    }
                }
            }
            i += 1;
        }
        proof {
            assert(ids@.take(n as int) =~= ids@);
        }
        self.subscriptions = Some(kept);
        proof {
            if old(self).spec_linked(*old(publisher)) {
                assert forall|j: int| 0 <= j < self.spec_ids().len() implies publisher
                    .spec_registered(self.spec_ids()[j], self.spec_channel_id()) by {
                    let k = self.spec_ids()[j];
                    assert(self.spec_ids().contains(k));
                    if old(self).spec_ids().contains(k) {
                        let l = choose|l: int|
                            0 <= l < old(self).spec_ids().len() && old(self).spec_ids()[l] == k;
                        assert(old(publisher).spec_registered(k, old(self).spec_channel_id()));
                    }
                }
            }
        }
        Ok(())
    }
}

impl<K: Id> PartialEq for Subscription<K> {
    /// Two subscriptions are equal exactly when their channel identifiers
    /// are.
    fn eq(&self, other: &Self) -> (r: bool) {
        crate::trusted::uuid_eq(&self.channel_id, &other.channel_id)
    }
}

impl<K: Id> vstd::std_specs::cmp::PartialEqSpecImpl for Subscription<K> {
    open spec fn obeys_eq_spec() -> bool {
        true
    }

    open spec fn eq_spec(&self, other: &Self) -> bool {
        self.spec_channel_id() == other.spec_channel_id()
    }
}

impl<K: Id> Eq for Subscription<K> {

}

} // verus!
