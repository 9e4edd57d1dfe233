use evident::event::entry::EventEntry;
use evident::event::filter::DummyFilter;
use evident::event::intermediary::IntermediaryEvent;
use evident::event::origin::Origin;
use evident::event::EventContext;
use evident::event::Id;
use evident::publisher::{CaptureControl, CaptureMode, EventTimestampKind, EvidentPublisher};

#[derive(Debug, Clone, Copy, PartialEq, Eq)]
pub struct MinId {
    pub id: isize,
}

impl Id for MinId {
    fn eq_id(&self, other: &Self) -> bool {
        self == other
    }

    fn clone_id(&self) -> Self {
        *self
    }
}

impl CaptureControl for MinId {
    fn spec_start(id: Self) -> bool {
        id.id == -1
    }

    fn spec_stop(id: Self) -> bool {
        id.id == -2
    }

    fn start(id: &Self) -> bool {
        id.id == -1
    }

    fn start_id() -> Self {
        MinId { id: -1 }
    }

    fn stop(id: &Self) -> bool {
        id.id == -2
    }

    fn stop_id() -> Self {
        MinId { id: -2 }
    }
}

#[derive(Clone)]
pub struct MinEventEntry {
    event_id: MinId,
    msg: Option<String>,
    entry_id: uuid::Uuid,
    origin: Origin,
}

impl PartialEq for MinEventEntry {
    fn eq(&self, other: &Self) -> bool {
        self.event_id == other.event_id && self.entry_id == other.entry_id
    }
}

impl Eq for MinEventEntry {}

impl EventEntry<MinId, String> for MinEventEntry {
    fn spec_event_id(&self) -> MinId {
        self.event_id
    }

    fn spec_entry_id(&self) -> uuid::Uuid {
        self.entry_id
    }

    fn spec_msg(&self) -> Option<String> {
        self.msg.clone()
    }

    fn spec_origin(&self) -> Origin {
        self.origin.clone()
    }

    fn new(event_id: MinId, msg: Option<String>, origin: Origin) -> Self {
        MinEventEntry { event_id, msg, entry_id: uuid::Uuid::new_v4(), origin }
    }

    fn get_event_id(&self) -> &MinId {
        &self.event_id
    }

    fn into_event_id(self) -> MinId {
        self.event_id
    }

    fn get_entry_id(&self) -> uuid::Uuid {
        self.entry_id
    }

    fn get_msg(&self) -> Option<&String> {
        self.msg.as_ref()
    }

    fn get_origin(&self) -> &Origin {
        &self.origin
    }
}

pub struct MinInterimEvent {
    entry: Option<MinEventEntry>,
}

impl IntermediaryEvent<MinId, String, MinEventEntry> for MinInterimEvent {
    fn spec_entry(&self) -> MinEventEntry {
        self.entry.clone().unwrap()
    }

    fn spec_live(&self) -> bool {
        self.entry.is_some()
    }

    fn new(event_id: MinId, msg: Option<String>, origin: Origin) -> Self {
        MinInterimEvent { entry: Some(MinEventEntry::new(event_id, msg, origin)) }
    }

    fn get_entry(&self) -> &MinEventEntry {
        self.entry.as_ref().unwrap()
    }

    fn take_entry(&mut self) -> MinEventEntry {
        self.entry.take().unwrap()
    }
}

pub struct MinFilter {}

impl evident::event::filter::Filter<MinId, String, MinEventEntry> for MinFilter {
    fn spec_allow(&self, entry: MinEventEntry) -> bool {
        entry.event_id.id % 2 == 0
    }

    fn allow_entry(&self, entry: &MinEventEntry) -> bool {
        entry.get_event_id().id % 2 == 0
    }
}

type TestPublisher = EvidentPublisher<MinId, String, MinEventEntry, MinFilter>;

fn filtered_publisher() -> TestPublisher {
    EvidentPublisher::with(MinFilter {}, CaptureMode::Blocking, 1, 1, EventTimestampKind::Captured)
}

fn ctx() -> EventContext {
    EventContext { now: 0, thread_id: 0, thread_name: None }
}

fn ctx_at(now: u64, thread_id: u64) -> EventContext {
    EventContext { now, thread_id, thread_name: None }
}

fn origin_at(line_nr: u32) -> Origin {
    Origin::new("min_filter".to_string(), "min_filter.rs".to_string(), line_nr)
}

fn set_ev(id: isize, msg: &str, line_nr: u32) -> MinInterimEvent {
    evident::event::set_event_with_msg::<MinId, String, MinEventEntry, MinInterimEvent>(
        MinId { id },
        msg.to_string(),
        origin_at(line_nr),
    )
}

fn drain(publisher: &mut TestPublisher) {
    let mut t: u64 = 1000;
    while publisher.process_next(t) {
        t += 1;
    }
}

/// The filter admits only even identifiers: an odd identifier is never
/// captured, an even one arrives.
#[test]
fn setup_minimal_filtered_publisher() {
    let mut publisher = filtered_publisher();
    let allowed_id = MinId { id: 2 };
    let filtered_id = MinId { id: 3 };
    let msg = "Some msg";

    let sub = publisher.subscribe_to_many(vec![filtered_id, allowed_id]).unwrap();

    let ev = set_ev(3, msg, 1);
    publisher.finalize(ev, ctx());
    let ev = set_ev(2, msg, 2);
    publisher.finalize(ev, ctx());
    drain(&mut publisher);

    let event = sub.try_recv(&mut publisher).unwrap();

    assert_eq!(*event.get_event_id(), allowed_id, "Allowed Id was not captured.");
}

/// A stop event passes the capture gates even though the filter would
/// reject its odd identifier.
#[test]
fn stop_capturing_event_not_filtered() {
    let mut publisher = filtered_publisher();
    let msg = "Some msg";

    let sub = publisher.subscribe(MinId { id: -2 }).unwrap();

    let ev = set_ev(-2, msg, 1);
    publisher.finalize(ev, ctx());
    drain(&mut publisher);

    let event = sub.try_recv(&mut publisher).unwrap();

    assert_eq!(*event.get_event_id(), MinId { id: -2 }, "Stop capturing event was filtered.");
}
