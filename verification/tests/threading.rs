use evident::event::entry::EventEntry;
use evident::event::filter::DummyFilter;
use evident::event::intermediary::IntermediaryEvent;
use evident::event::origin::Origin;
use evident::event::EventContext;
use evident::event::Id;
use evident::publisher::{CaptureControl, CaptureMode, EventTimestampKind, EvidentPublisher};

#[derive(Debug, Clone, Copy, PartialEq, Eq)]
pub struct MinId {
    pub id: isize,
}

impl Id for MinId {
    fn eq_id(&self, other: &Self) -> bool {
        self == other
    }

    fn clone_id(&self) -> Self {
        *self
    }
}

impl CaptureControl for MinId {
    fn spec_start(id: Self) -> bool {
        id.id == -1
    }

    fn spec_stop(id: Self) -> bool {
        id.id == -2
    }

    fn start(id: &Self) -> bool {
        id.id == -1
    }

    fn start_id() -> Self {
        MinId { id: -1 }
    }

    fn stop(id: &Self) -> bool {
        id.id == -2
    }

    fn stop_id() -> Self {
        MinId { id: -2 }
    }
}

#[derive(Clone)]
pub struct MinEventEntry {
    event_id: MinId,
    msg: Option<String>,
    entry_id: uuid::Uuid,
    origin: Origin,
}

impl PartialEq for MinEventEntry {
    fn eq(&self, other: &Self) -> bool {
        self.event_id == other.event_id && self.entry_id == other.entry_id
    }
}

impl Eq for MinEventEntry {}

impl EventEntry<MinId, String> for MinEventEntry {
    fn spec_event_id(&self) -> MinId {
        self.event_id
    }

    fn spec_entry_id(&self) -> uuid::Uuid {
        self.entry_id
    }

    fn spec_msg(&self) -> Option<String> {
        self.msg.clone()
    }

    fn spec_origin(&self) -> Origin {
        self.origin.clone()
    }

    fn new(event_id: MinId, msg: Option<String>, origin: Origin) -> Self {
        MinEventEntry { event_id, msg, entry_id: uuid::Uuid::new_v4(), origin }
    }

    fn get_event_id(&self) -> &MinId {
        &self.event_id
    }

    fn into_event_id(self) -> MinId {
        self.event_id
    }

    fn get_entry_id(&self) -> uuid::Uuid {
        self.entry_id
    }

    fn get_msg(&self) -> Option<&String> {
        self.msg.as_ref()
    }

    fn get_origin(&self) -> &Origin {
        &self.origin
    }
}

pub struct MinInterimEvent {
    entry: Option<MinEventEntry>,
}

impl IntermediaryEvent<MinId, String, MinEventEntry> for MinInterimEvent {
    fn spec_entry(&self) -> MinEventEntry {
        self.entry.clone().unwrap()
    }

    fn spec_live(&self) -> bool {
        self.entry.is_some()
    }

    fn new(event_id: MinId, msg: Option<String>, origin: Origin) -> Self {
        MinInterimEvent { entry: Some(MinEventEntry::new(event_id, msg, origin)) }
    }

    fn get_entry(&self) -> &MinEventEntry {
        self.entry.as_ref().unwrap()
    }

    fn take_entry(&mut self) -> MinEventEntry {
        self.entry.take().unwrap()
    }
}

type TestPublisher = EvidentPublisher<MinId, String, MinEventEntry, DummyFilter<MinId, String>>;

fn blocking_publisher() -> TestPublisher {
    EvidentPublisher::new(CaptureMode::Blocking, 10, 10, EventTimestampKind::Created)
}

fn ctx() -> EventContext {
    EventContext { now: 0, thread_id: 0, thread_name: None }
}

fn ctx_at(now: u64, thread_id: u64) -> EventContext {
    EventContext { now, thread_id, thread_name: None }
}

fn origin_at(line_nr: u32) -> Origin {
    Origin::new("threading".to_string(), "threading.rs".to_string(), line_nr)
}

fn set_ev(id: isize, msg: &str, line_nr: u32) -> MinInterimEvent {
    evident::event::set_event_with_msg::<MinId, String, MinEventEntry, MinInterimEvent>(
        MinId { id },
        msg.to_string(),
        origin_at(line_nr),
    )
}

fn drain(publisher: &mut TestPublisher) {
    let mut t: u64 = 1000;
    while publisher.process_next(t) {
        t += 1;
    }
}

/// Events produced on two different threads each reach the subscriber of
/// their identifier; the producing thread rides along as plain data.
#[test]
fn set_different_events_in_two_threads() {
    let mut publisher = blocking_publisher();
    let side_id = MinId { id: 1 };
    let side_msg = "Set side thread message";
    let main_id = MinId { id: 2 };
    let main_msg = "Set main thread message";

    let side_recv = publisher.subscribe(side_id).unwrap();
    let main_recv = publisher.subscribe(main_id).unwrap();

    let ev = set_ev(1, side_msg, 1);
    publisher.finalize(ev, ctx_at(0, 7));
    let ev = set_ev(2, main_msg, 2);
    publisher.finalize(ev, ctx_at(0, 0));
    drain(&mut publisher);

    let side_event = side_recv.try_recv(&mut publisher).unwrap();
    assert_eq!(*side_event.get_event_id(), side_id, "Received side event has wrong Id.");
    assert_eq!(side_event.get_msg().unwrap(), side_msg, "Received side event has wrong msg.");

    let main_event = main_recv.try_recv(&mut publisher).unwrap();
    assert_eq!(*main_event.get_event_id(), main_id, "Received main event has wrong Id.");
    assert_eq!(main_event.get_msg().unwrap(), main_msg, "Received main event has wrong msg.");
}

/// The same identifier set from two threads yields two distinct events
/// for the one subscriber.
#[test]
fn set_same_event_in_two_threads() {
    let mut publisher = blocking_publisher();
    let id = MinId { id: 1 };
    let side_msg = "Set side thread message";
    let main_msg = "Set main thread message";

    let recv = publisher.subscribe(id).unwrap();

    let ev = set_ev(1, side_msg, 1);
    publisher.finalize(ev, ctx_at(0, 7));
    let ev = set_ev(1, main_msg, 2);
    publisher.finalize(ev, ctx_at(0, 0));
    drain(&mut publisher);

    let event_1 = recv.try_recv(&mut publisher).unwrap();
    assert_eq!(*event_1.get_event_id(), id, "Received event 1 has wrong Id.");
    assert!(
        event_1.get_msg().unwrap() == side_msg || event_1.get_msg().unwrap() == main_msg,
        "Received event 1 has wrong msg."
    );

    let event_2 = recv.try_recv(&mut publisher).unwrap();
    assert_eq!(*event_2.get_event_id(), id, "Received event 2 has wrong Id.");
    assert!(
        event_2.get_msg().unwrap() == side_msg || event_2.get_msg().unwrap() == main_msg,
        "Received event 2 has wrong msg."
    );

    assert_ne!(event_1.get_msg(), event_2.get_msg(), "Both events have the same msg.");
}

/// Ten producers, each on its own thread, each with its own subscriber:
/// every subscriber receives exactly its producer's event.
#[test]
fn set_events_in_many_threads() {
    let mut publisher = EvidentPublisher::new(
        CaptureMode::Blocking,
        100,
        10,
        EventTimestampKind::Created,
    );
    let msg = "Set event message";

    let mut receivers = Vec::new();
    for k in 0..10isize {
        receivers.push(publisher.subscribe(MinId { id: k }).unwrap());
    }
    for k in 0..10isize {
        let ev = set_ev(k, msg, 1);
        publisher.finalize(ev, ctx_at(0, k as u64));
    }
    drain(&mut publisher);

    for k in 0..10usize {
        let event = receivers[k].try_recv(&mut publisher).unwrap();
        assert_eq!(
            *event.get_event_id(),
            MinId { id: k as isize },
            "Received event {} has wrong Id.",
            k
        );
    }
}

/// Ten producers, one subscriber over all their identifiers: the
/// subscriber receives all ten events.
#[test]
fn set_events_in_many_threads_for_one_subscriber() {
    let mut publisher = EvidentPublisher::new(
        CaptureMode::Blocking,
        100,
        10,
        EventTimestampKind::Created,
    );
    let msg = "Set event message";

    let mut ids = Vec::new();
    for k in 0..10isize {
        ids.push(MinId { id: k });
    }
    let recv = publisher.subscribe_to_many(ids).unwrap();

    for k in 0..10isize {
        let ev = set_ev(k, msg, 1);
        publisher.finalize(ev, ctx_at(0, k as u64));
    }
    drain(&mut publisher);

    let mut seen = Vec::new();
    for k in 0..10usize {
        let event = recv.try_recv(&mut publisher).unwrap();
        let got = event.get_event_id().id;
        assert!(
            0 <= got && got < 10 && !seen.contains(&got),
            "Received event {} has wrong Id.",
            k
        );
        seen.push(got);
    }
    assert!(recv.try_recv(&mut publisher).is_none());
}
