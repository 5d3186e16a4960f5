//! Notes from a MIDI device: from the bytes of the device to events for the
//! engine.

use vstd::prelude::*;
use crate::events::{Message as EngineMessage, MessageView, Timestamp};
use crate::scalar::Scalar;

verus! {

/// The status nibble of a note-off message.
pub const NOTE_OFF: u8 = 0x8;

/// The status nibble of a note-on message.
pub const NOTE_ON: u8 = 0x9;

/// The number of values of a data byte.
pub const DATA_VALUES: u8 = 128;

/// The number of entries of a velocity curve: one for each value of a byte.
pub const CURVE_LEN: usize = 256;

/// A note message.
#[derive(Clone, Copy, Debug, PartialEq, Eq, Structural)]
pub enum Message {
    NoteOff { channel: u8, key: u8, velocity: u8 },
    NoteOn { channel: u8, key: u8, velocity: u8 },
}

/// What comes from the device: a status byte, two data bytes, and the time.
#[derive(Clone, Copy, Debug, PartialEq, Eq, Structural)]
pub struct RawEvent {
    pub status: u8,
    pub data1: u8,
    pub data2: u8,
    pub timestamp: u32,
}

/// A note message and the time it came at.
#[derive(Clone, Copy, Debug, PartialEq, Eq, Structural)]
pub struct Event {
    pub timestamp: Timestamp,
    pub message: Message,
}

impl Event {
    pub fn new(timestamp: Timestamp, message: Message) -> (r: Event)
        ensures
            r == (Event { timestamp, message }),
    {
        Event { timestamp, message }
    }

    #[inline]
    pub fn timestamp(&self) -> (r: Timestamp)
        ensures
            r == self.timestamp,
    {
        self.timestamp
    }

    #[inline]
    pub fn message(&self) -> (r: Message)
        ensures
            r == self.message,
    {
        self.message
    }
}

/// The events of one device.
#[derive(Clone, Debug)]
pub struct PortEvents {
    port: String,
    events: Vec<Event>,
}

impl PortEvents {
    /// The name of the device.
    pub closed spec fn name(self) -> Seq<char> {
        self.port@
    }

    /// The events, in order.
    pub closed spec fn list(self) -> Seq<Event> {
        self.events@
    }

    pub fn new(port: &str, events: Vec<Event>) -> (r: PortEvents)
        ensures
            r.name() == port@,
            r.list() == events@,
    {
        PortEvents { port: port.to_owned(), events }
    }

    #[inline]
    pub fn port(&self) -> (r: &str)
        ensures
            r@ == self.name(),
    {
        self.port.as_str()
    }

    #[inline]
    pub fn events(&self) -> (r: &[Event])
        ensures
            r@ == self.list(),
    {
        self.events.as_slice()
    }
}

/// The note message that three bytes hold: the high half of the status byte
/// says which, the low half the channel; the data bytes, both below 128, are
/// the key and the velocity. Any other bytes hold none.
pub open spec fn decoded(status: u8, data1: u8, data2: u8) -> Option<Message> {
    if data1 >= DATA_VALUES || data2 >= DATA_VALUES {
        None
    } else if status / 16 == NOTE_ON {
        Some(Message::NoteOn { channel: status % 16, key: data1, velocity: data2 })
    } else if status / 16 == NOTE_OFF {
        Some(Message::NoteOff { channel: status % 16, key: data1, velocity: data2 })
    } else {
        None
    }
}

/// The note message that three bytes hold, if they hold one.
pub fn decode(status: u8, data1: u8, data2: u8) -> (r: Option<Message>)
    ensures
        r == decoded(status, data1, data2),
{
    if data1 >= DATA_VALUES || data2 >= DATA_VALUES {
        None
    } else if status / 16 == NOTE_ON {
        Some(Message::NoteOn { channel: status % 16, key: data1, velocity: data2 })
    } else if status / 16 == NOTE_OFF {
        Some(Message::NoteOff { channel: status % 16, key: data1, velocity: data2 })
    } else {
        None
    }
}

/// The event that a raw event holds, if it holds a note.
pub open spec fn event_of(raw: RawEvent) -> Option<Event> {
    match decoded(raw.status, raw.data1, raw.data2) {
        Some(message) => Some(Event { timestamp: raw.timestamp as Timestamp, message }),
        None => None,
    }
}

/// The notes among raw events, in the order of the raw events.
pub open spec fn notes(raw: Seq<RawEvent>) -> Seq<Event> {
    raw.filter_map(|e: RawEvent| event_of(e))
}

/// Whether an event has the timestamp `t`.
pub open spec fn is_time(t: Timestamp) -> spec_fn(Event) -> bool {
    |e: Event| e.timestamp == t
}

/// The timestamps never go down from event to event.
pub open spec fn in_time_order(events: Seq<Event>) -> bool {
    forall|i: int, j: int| 0 <= i <= j < events.len() ==> events[i].timestamp <= events[j].timestamp
}

/// `sorted` holds the events of `events` in the order of their timestamps, and
/// those of one timestamp in the order that they have in `events`.
pub open spec fn is_stable_sort(sorted: Seq<Event>, events: Seq<Event>) -> bool {
    &&& in_time_order(sorted)
    &&& forall|t: Timestamp| #[trigger] sorted.filter(is_time(t)) == events.filter(is_time(t))
}

/// The notes among raw events, in the order of their timestamps; notes of one
/// timestamp stay in the order in which they came.
pub fn decode_events(raw_events: &Vec<RawEvent>) -> (r: Vec<Event>)
    ensures
        is_stable_sort(r@, notes(raw_events@)),
{
    let mut events: Vec<Event> = Vec::new();
    let mut i: usize = 0;
    proof {
        assert(raw_events@.take(0) =~= Seq::empty());
        assert forall|t: Timestamp| #[trigger]
            events@.filter(is_time(t)) == notes(raw_events@.take(0)).filter(is_time(t)) by {
            reveal(Seq::filter);
        }
    }
    while i < raw_events.len()
        invariant
            i <= raw_events.len(),
            is_stable_sort(events@, notes(raw_events@.take(i as int))),
        decreases raw_events.len() - i,
    {
        let raw = raw_events[i];
        let ghost seen = notes(raw_events@.take(i as int));
        proof {
            let next = raw_events@.take(i + 1);
            assert(next.drop_last() =~= raw_events@.take(i as int));
            assert(next.last() == raw);
        }
        match decode(raw.status, raw.data1, raw.data2) {
            Some(message) => {
                let event = Event { timestamp: raw.timestamp as Timestamp, message };
                assert(notes(raw_events@.take(i + 1)) =~= seen.push(event));
                insert(&mut events, event);
                proof {
                    assert forall|t: Timestamp| #[trigger]
                        events@.filter(is_time(t)) == seen.push(event).filter(is_time(t)) by {
                        lemma_filter_push(seen, event, t);
                    }
                }
            },
            None => {
                assert(notes(raw_events@.take(i + 1)) =~= seen);
            },
        }
        i += 1;
    }
    assert(raw_events@.take(i as int) =~= raw_events@);
    events
}

/// Puts `event` behind the last event of `events` that is not later than it.
fn insert(events: &mut Vec<Event>, event: Event)
    requires
        in_time_order(old(events)@),
    ensures
        in_time_order(final(events)@),
        forall|t: Timestamp| #[trigger]
            final(events)@.filter(is_time(t)) == if t == event.timestamp {
                old(events)@.filter(is_time(t)).push(event)
            } else {
                old(events)@.filter(is_time(t))
            },
{
    let ghost before = events@;
    let n = events.len();
    let mut k: usize = n;
    while k > 0 && events[k - 1].timestamp > event.timestamp
        invariant
            k <= n,
            n == events@.len(),
            events@ == before,
            forall|j: int| k <= j < n ==> before[j].timestamp > event.timestamp,
        decreases k,
    {
        k -= 1;
    }
    events.insert(k, event);
    proof {
        let head = before.subrange(0, k as int);
        let tail = before.subrange(k as int, n as int);
        let one = seq![event];
        assert(before =~= head + tail);
        assert(events@ =~= head + one + tail);
        assert forall|i: int, j: int| 0 <= i <= j < events@.len() implies events@[i].timestamp
            <= events@[j].timestamp by {
            if i < k && j == k {
                assert(before[i].timestamp <= before[k - 1].timestamp);
            }
        }
        assert forall|t: Timestamp| #[trigger]
            events@.filter(is_time(t)) == if t == event.timestamp {
                before.filter(is_time(t)).push(event)
            } else {
                before.filter(is_time(t))
            } by {
            let p = is_time(t);
            Seq::filter_distributes_over_add(head, tail, p);
            Seq::filter_distributes_over_add(head + one, tail, p);
            Seq::filter_distributes_over_add(head, one, p);
            reveal_with_fuel(Seq::filter, 2);
            assert(one.drop_last() =~= Seq::<Event>::empty());
            if t == event.timestamp {
                assert(one.filter(p) =~= one);
                assert forall|j: int| 0 <= j < tail.len() implies !(#[trigger] p(tail[j])) by {
                    assert(tail[j] == before[k + j]);
                }
                crate::events::lemma_filter_range(tail, p, 0, 0);
                assert(tail.filter(p) =~= Seq::<Event>::empty());
                assert(head.filter(p) + one + Seq::<Event>::empty() =~= (head.filter(p)
                    + Seq::<Event>::empty()).push(event));
            } else {
                assert(one.filter(p) =~= Seq::<Event>::empty());
                assert(head.filter(p) + Seq::<Event>::empty() + tail.filter(p) =~= head.filter(p)
                    + tail.filter(p));
            }
        }
    }
}

/// The events of one timestamp among events with one more at the end.
proof fn lemma_filter_push(events: Seq<Event>, event: Event, t: Timestamp)
    ensures
        events.push(event).filter(is_time(t)) == if t == event.timestamp {
            events.filter(is_time(t)).push(event)
        } else {
            events.filter(is_time(t))
        },
{
    reveal(Seq::filter);
    assert(events.push(event).drop_last() =~= events);
}

/// The message for the engine that a note message stands for; the velocity is
/// read from the curve.
pub open spec fn engine_message(message: Message, curve: Seq<Scalar>) -> MessageView {
    match message {
        Message::NoteOn { channel, key, velocity } => MessageView::NoteOn {
            key,
            velocity: curve[velocity as int],
        },
        Message::NoteOff { channel, key, velocity } => MessageView::NoteOff {
            key,
            velocity: curve[velocity as int],
        },
    }
}

/// The events for the engine that the events of a device stand for: each note
/// with its key and timestamp, and with the velocity that `curve` gives for
/// the velocity byte.
pub fn engine_events(events: &[Event], curve: &Vec<Scalar>) -> (r: Vec<crate::events::Event>)
    requires
        curve@.len() == CURVE_LEN,
    ensures
        r@.len() == events@.len(),
        forall|i: int|
            0 <= i < events@.len() ==> (#[trigger] r@[i]).time() == events@[i].timestamp && r@[i].content()
                == engine_message(events@[i].message, curve@),
{
    let mut out: Vec<crate::events::Event> = Vec::new();
    let mut i: usize = 0;
    while i < events.len()
        invariant
            i <= events.len(),
            curve@.len() == CURVE_LEN,
            out@.len() == i,
            forall|j: int|
                0 <= j < i ==> (#[trigger] out@[j]).time() == events@[j].timestamp && out@[j].content()
                    == engine_message(events@[j].message, curve@),
        decreases events.len() - i,
    {
        let event = events[i];
        let message = match event.message {
            Message::NoteOn { channel, key, velocity } => EngineMessage::NoteOn {
                key,
                velocity: curve[velocity as usize],
            },
            Message::NoteOff { channel, key, velocity } => EngineMessage::NoteOff {
                key,
                velocity: curve[velocity as usize],
            },
        };
        out.push(crate::events::Event::new(event.timestamp, message));
        i += 1;
    }
    out
}

} // verus!
