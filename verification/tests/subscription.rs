use evident::event::entry::EventEntry;
use evident::event::filter::DummyFilter;
use evident::event::intermediary::IntermediaryEvent;
use evident::event::origin::Origin;
use evident::event::EventContext;
use evident::event::Id;
use evident::publisher::{CaptureControl, CaptureMode, EventTimestampKind, EvidentPublisher};

#[derive(Debug, Clone, Copy, PartialEq, Eq)]
pub struct MinId {
    pub id: isize,
}

impl Id for MinId {
    fn eq_id(&self, other: &Self) -> bool {
        self == other
    }

    fn clone_id(&self) -> Self {
        *self
    }
}

impl CaptureControl for MinId {
    fn spec_start(id: Self) -> bool {
        id.id == -1
    }

    fn spec_stop(id: Self) -> bool {
        id.id == -2
    }

    fn start(id: &Self) -> bool {
        id.id == -1
    }

    fn start_id() -> Self {
        MinId { id: -1 }
    }

    fn stop(id: &Self) -> bool {
        id.id == -2
    }

    fn stop_id() -> Self {
        MinId { id: -2 }
    }
}

#[derive(Clone)]
pub struct MinEventEntry {
    event_id: MinId,
    msg: Option<String>,
    entry_id: uuid::Uuid,
    origin: Origin,
}

impl PartialEq for MinEventEntry {
    fn eq(&self, other: &Self) -> bool {
        self.event_id == other.event_id && self.entry_id == other.entry_id
    }
}

impl Eq for MinEventEntry {}

impl EventEntry<MinId, String> for MinEventEntry {
    fn spec_event_id(&self) -> MinId {
        self.event_id
    }

    fn spec_entry_id(&self) -> uuid::Uuid {
        self.entry_id
    }

    fn spec_msg(&self) -> Option<String> {
        self.msg.clone()
    }

    fn spec_origin(&self) -> Origin {
        self.origin.clone()
    }

    fn new(event_id: MinId, msg: Option<String>, origin: Origin) -> Self {
        MinEventEntry { event_id, msg, entry_id: uuid::Uuid::new_v4(), origin }
    }

    fn get_event_id(&self) -> &MinId {
        &self.event_id
    }

    fn into_event_id(self) -> MinId {
        self.event_id
    }

    fn get_entry_id(&self) -> uuid::Uuid {
        self.entry_id
    }

    fn get_msg(&self) -> Option<&String> {
        self.msg.as_ref()
    }

    fn get_origin(&self) -> &Origin {
        &self.origin
    }
}

pub struct MinInterimEvent {
    entry: Option<MinEventEntry>,
}

impl IntermediaryEvent<MinId, String, MinEventEntry> for MinInterimEvent {
    fn spec_entry(&self) -> MinEventEntry {
        self.entry.clone().unwrap()
    }

    fn spec_live(&self) -> bool {
        self.entry.is_some()
    }

    fn new(event_id: MinId, msg: Option<String>, origin: Origin) -> Self {
        MinInterimEvent { entry: Some(MinEventEntry::new(event_id, msg, origin)) }
    }

    fn get_entry(&self) -> &MinEventEntry {
        self.entry.as_ref().unwrap()
    }

    fn take_entry(&mut self) -> MinEventEntry {
        self.entry.take().unwrap()
    }
}

type TestPublisher = EvidentPublisher<MinId, String, MinEventEntry, DummyFilter<MinId, String>>;

fn blocking_publisher() -> TestPublisher {
    EvidentPublisher::new(CaptureMode::Blocking, 10, 10, EventTimestampKind::Created)
}

fn ctx() -> EventContext {
    EventContext { now: 0, thread_id: 0, thread_name: None }
}

fn ctx_at(now: u64, thread_id: u64) -> EventContext {
    EventContext { now, thread_id, thread_name: None }
}

fn origin_at(line_nr: u32) -> Origin {
    Origin::new("subscription".to_string(), "subscription.rs".to_string(), line_nr)
}

fn set_ev(id: isize, msg: &str, line_nr: u32) -> MinInterimEvent {
    evident::event::set_event_with_msg::<MinId, String, MinEventEntry, MinInterimEvent>(
        MinId { id },
        msg.to_string(),
        origin_at(line_nr),
    )
}

fn drain(publisher: &mut TestPublisher) {
    let mut t: u64 = 1000;
    while publisher.process_next(t) {
        t += 1;
    }
}

/// Two subscribers to two identifiers each receive their own events.
#[test]
fn two_ids_separate_receiver() {
    let mut publisher = blocking_publisher();
    let id_1 = MinId { id: 1 };
    let msg_1 = "Set first message";
    let id_2 = MinId { id: 2 };
    let msg_2 = "Set second message";

    let recv_1 = publisher.subscribe(id_1).unwrap();
    let recv_2 = publisher.subscribe(id_2).unwrap();

    let ev = set_ev(1, msg_1, 1);
    publisher.finalize(ev, ctx());
    let ev = set_ev(2, msg_2, 2);
    publisher.finalize(ev, ctx());
    drain(&mut publisher);

    let event_1 = recv_1.try_recv(&mut publisher).unwrap();
    assert_eq!(*event_1.get_event_id(), id_1, "Received event 1 has wrong Id.");
    assert_eq!(event_1.get_msg().unwrap(), msg_1, "Received event 1 has wrong msg.");

    let event_2 = recv_2.try_recv(&mut publisher).unwrap();
    assert_eq!(*event_2.get_event_id(), id_2, "Received event 2 has wrong Id.");
    assert_eq!(event_2.get_msg().unwrap(), msg_2, "Received event 2 has wrong msg.");
}

/// Two subscribers to one identifier both receive the same envelope.
#[test]
fn one_id_separate_receiver() {
    let mut publisher = blocking_publisher();
    let id = MinId { id: 1 };
    let msg = "Set message";

    let recv_1 = publisher.subscribe(id).unwrap();
    let recv_2 = publisher.subscribe(id).unwrap();

    let ev = set_ev(1, msg, 1);
    publisher.finalize(ev, ctx());
    drain(&mut publisher);

    let event_1 = recv_1.try_recv(&mut publisher).unwrap();
    assert_eq!(*event_1.get_event_id(), id, "Received event 1 has wrong Id.");
    assert_eq!(event_1.get_msg().unwrap(), msg, "Received event 1 has wrong msg.");

    let event_2 = recv_2.try_recv(&mut publisher).unwrap();
    assert_eq!(*event_2.get_event_id(), id, "Received event 2 has wrong Id.");
    assert_eq!(event_2.get_msg().unwrap(), msg, "Received event 2 has wrong msg.");

    assert!(event_1 == event_2, "Received events are not equal.");
}

/// One subscription over two identifiers receives both events, one each.
#[test]
fn subscribe_to_two_ids_at_once() {
    let mut publisher = blocking_publisher();
    let id_1 = MinId { id: 1 };
    let msg_1 = "Set first message";
    let id_2 = MinId { id: 2 };
    let msg_2 = "Set second message";

    let recv = publisher.subscribe_to_many(vec![id_1, id_2]).unwrap();

    let ev = set_ev(1, msg_1, 1);
    publisher.finalize(ev, ctx());
    let ev = set_ev(2, msg_2, 2);
    publisher.finalize(ev, ctx());
    drain(&mut publisher);

    let event_1 = recv.try_recv(&mut publisher).unwrap();
    assert!(
        *event_1.get_event_id() == id_1 || *event_1.get_event_id() == id_2,
        "Received event 1 has wrong Id."
    );
    assert!(
        event_1.get_msg().unwrap() == msg_1 || event_1.get_msg().unwrap() == msg_2,
        "Received event 1 has wrong msg."
    );

    let event_2 = recv.try_recv(&mut publisher).unwrap();
    assert!(
        *event_2.get_event_id() == id_1 || *event_2.get_event_id() == id_2,
        "Received event 2 has wrong Id."
    );
    assert!(
        event_2.get_msg().unwrap() == msg_1 || event_2.get_msg().unwrap() == msg_2,
        "Received event 2 has wrong msg."
    );
    assert_ne!(
        *event_1.get_event_id(),
        *event_2.get_event_id(),
        "Both events received the same id."
    );
}

/// An all-events subscription receives every captured event in order.
#[test]
fn receiver_for_all_events_two_events_set() {
    let mut publisher = blocking_publisher();
    let id_1 = MinId { id: 1 };
    let msg_1 = "Set first message";
    let id_2 = MinId { id: 2 };
    let msg_2 = "Set second message";

    let recv_all = publisher.subscribe_to_all_events().unwrap();

    let ev = set_ev(1, msg_1, 1);
    publisher.finalize(ev, ctx());
    let ev = set_ev(2, msg_2, 2);
    publisher.finalize(ev, ctx());
    drain(&mut publisher);

    let event_1 = recv_all.try_recv(&mut publisher).unwrap();
    assert_eq!(*event_1.get_event_id(), id_1, "Received event 1 has wrong Id.");
    assert_eq!(event_1.get_msg().unwrap(), msg_1, "Received event 1 has wrong msg.");

    let event_2 = recv_all.try_recv(&mut publisher).unwrap();
    assert_eq!(*event_2.get_event_id(), id_2, "Received event 2 has wrong Id.");
    assert_eq!(event_2.get_msg().unwrap(), msg_2, "Received event 2 has wrong msg.");
}

/// After unsubscribing one identifier, events for it no longer arrive.
#[test]
fn receiver_unsubscribes_single_id() {
    let mut publisher = blocking_publisher();
    let id_1 = MinId { id: 1 };
    let msg_1 = "Set first message";
    let id_2 = MinId { id: 2 };

    let mut recv = publisher.subscribe_to_many(vec![id_1, id_2]).unwrap();

    let ev = set_ev(1, msg_1, 1);
    publisher.finalize(ev, ctx());
    drain(&mut publisher);

    let event_1 = recv.try_recv(&mut publisher).unwrap();
    assert_eq!(*event_1.get_event_id(), id_1, "Received event 1 has wrong Id.");
    assert_eq!(event_1.get_msg().unwrap(), msg_1, "Received event 1 has wrong msg.");

    recv.unsubscribe_id(&mut publisher, id_1).unwrap();

    let ev = set_ev(1, msg_1, 2);
    publisher.finalize(ev, ctx());
    drain(&mut publisher);

    let event_2 = recv.try_recv(&mut publisher);
    assert!(event_2.is_none(), "Unsubscribed event received.");
}

/// The last subscribed identifier cannot be unsubscribed.
#[test]
fn unsubscribe_of_last_left_subscription() {
    let mut publisher = blocking_publisher();
    let id = MinId { id: 1 };

    let mut recv = publisher.subscribe(id).unwrap();
    let res = recv.unsubscribe_id(&mut publisher, id);

    assert!(res.is_err(), "Unsubscribe of last left subscription allowed.");
}

/// A subscription can take up a further identifier and then receives its
/// events too.
#[test]
fn receiver_subscribes_to_new_id() {
    let mut publisher = blocking_publisher();
    let id_1 = MinId { id: 1 };
    let msg_1 = "Set first message";
    let id_2 = MinId { id: 2 };
    let msg_2 = "Set second message";

    let mut recv = publisher.subscribe(id_1).unwrap();

    let ev = set_ev(1, msg_1, 1);
    publisher.finalize(ev, ctx());
    let ev = set_ev(2, "Id not yet subscribed", 2);
    publisher.finalize(ev, ctx());
    drain(&mut publisher);

    let event_1 = recv.try_recv(&mut publisher).unwrap();
    assert_eq!(*event_1.get_event_id(), id_1, "Received event 1 has wrong Id.");
    assert_eq!(event_1.get_msg().unwrap(), msg_1, "Received event 1 has wrong msg.");

    recv.subscribe_id(&mut publisher, id_2).unwrap();

    let ev = set_ev(2, msg_2, 3);
    publisher.finalize(ev, ctx());
    drain(&mut publisher);

    let event_2 = recv.try_recv(&mut publisher).unwrap();
    assert_eq!(*event_2.get_event_id(), id_2, "Received event 2 has wrong Id.");
    assert_eq!(event_2.get_msg().unwrap(), msg_2, "Received event 2 has wrong msg.");
}

/// An all-events subscription cannot unsubscribe an identifier.
#[test]
fn receiver_for_all_events_tries_unsubscribe_id() {
    let mut publisher = blocking_publisher();
    let id = MinId { id: 1 };
    let mut recv_all = publisher.subscribe_to_all_events().unwrap();

    let res = recv_all.unsubscribe_id(&mut publisher, id);

    assert!(res.is_err(), "All events subscription allowed unsubscribe of Id.");
}

/// An all-events subscription cannot subscribe an identifier either.
#[test]
fn receiver_for_all_events_tries_subscribe_id() {
    let mut publisher = blocking_publisher();
    let id = MinId { id: 1 };
    let mut recv_all = publisher.subscribe_to_all_events().unwrap();

    let res = recv_all.subscribe_id(&mut publisher, id);

    assert!(res.is_err(), "All events subscription allowed subscription to Id.");
}
