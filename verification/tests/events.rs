use herosynth::events::{Event, EventsBuffer, Message, Port, PortEvents};
use herosynth::packet::{Arg, Packet};
use herosynth::scalar::Scalar;

fn float_of(x: f64) -> Scalar {
    Scalar::from_bits(x.to_bits())
}

fn note(key: u8) -> Message {
    Message::NoteOn { key, velocity: float_of(0.1) }
}

#[test]
fn events_buffer_len() {
    let mut eb = EventsBuffer::new();
    let evt = Event::new(1, Message::NoteOn { key: 0, velocity: float_of(0.1) });
    assert_eq!(eb.len(), 0);
    assert_eq!(eb.is_empty(), true);
    eb.push(&evt);
    assert_eq!(eb.len(), 1);
    assert_eq!(eb.is_empty(), false);
}

#[test]
fn events_buffer_push() {
    let mut eb = EventsBuffer::new();
    let msg1 = Message::NoteOn { key: 10, velocity: float_of(0.1) };
    let msg2 = Message::NoteOn { key: 20, velocity: float_of(0.1) };
    let msg3 = Message::NoteOn { key: 30, velocity: float_of(0.1) };
    eb.push(&Event::new(1, msg1.clone()));
    eb.push(&Event::new(2, msg2.clone()));
    eb.push(&Event::new(1, msg3.clone()));
    assert_eq!(eb.get(1), Some(&vec![msg1, msg3]));
    assert_eq!(eb.get(2), Some(&vec![msg2]));
}

#[test]
fn events_buffer_split() {
    let mut eb = EventsBuffer::new();
    let msg1 = Message::NoteOn { key: 10, velocity: float_of(0.1) };
    let msg2 = Message::NoteOn { key: 20, velocity: float_of(0.1) };
    let msg3 = Message::NoteOn { key: 30, velocity: float_of(0.1) };
    eb.push(&Event::new(1, msg1.clone()));
    eb.push(&Event::new(3, msg2.clone()));
    eb.push(&Event::new(1, msg3.clone()));
    let low = eb.split(2);
    assert_eq!(low.get(1), Some(&vec![msg1, msg3]));
    assert_eq!(eb.get(3), Some(&vec![msg2]));
}

#[test]
fn events_buffer_iter() {
    let mut eb = EventsBuffer::new();
    let msg1 = Message::NoteOn { key: 10, velocity: float_of(0.1) };
    let msg2 = Message::NoteOn { key: 20, velocity: float_of(0.1) };
    let msg3 = Message::NoteOn { key: 30, velocity: float_of(0.1) };
    eb.push(&Event::new(1, msg1.clone()));
    eb.push(&Event::new(3, msg2.clone()));
    eb.push(&Event::new(1, msg3.clone()));
    let mut it = eb.iter();
    assert_eq!(it.next(), Some((&1, &vec![msg1, msg3])));
    assert_eq!(it.next(), Some((&3, &vec![msg2])));
}

#[test]
fn events_buffer_iter_ends() {
    let mut eb = EventsBuffer::new();
    eb.push(&Event::new(7, note(1)));
    let mut it = eb.iter();
    assert!(it.next().is_some());
    assert_eq!(it.next(), None);
    assert_eq!(it.next(), None);
}

#[test]
fn events_buffer_split_leaves_the_rest() {
    let mut eb = EventsBuffer::new();
    eb.push(&Event::new(1, note(10)));
    eb.push(&Event::new(3, note(20)));
    eb.push(&Event::new(1, note(30)));
    let low = eb.split(2);
    assert_eq!(low.len(), 1);
    assert_eq!(low.get(3), None);
    assert_eq!(eb.len(), 1);
    assert_eq!(eb.get(1), None);
}

#[test]
fn events_buffer_split_is_exclusive() {
    let mut eb = EventsBuffer::new();
    eb.push(&Event::new(5, note(1)));
    eb.push(&Event::new(6, note(2)));
    let low = eb.split(5);
    assert!(low.is_empty());
    assert_eq!(eb.len(), 2);
    let low = eb.split(6);
    assert_eq!(low.get(5), Some(&vec![note(1)]));
    assert_eq!(eb.get(6), Some(&vec![note(2)]));
}

#[test]
fn events_buffer_split_of_empty_and_of_all() {
    let mut eb = EventsBuffer::new();
    assert!(eb.split(100).is_empty());
    eb.push(&Event::new(u64::MAX, note(1)));
    eb.push(&Event::new(0, note(2)));
    let low = eb.split(u64::MAX);
    assert_eq!(low.get(0), Some(&vec![note(2)]));
    assert_eq!(eb.get(u64::MAX), Some(&vec![note(1)]));
    let all = eb.split_below(u64::MAX as u128 + 1);
    assert_eq!(all.get(u64::MAX), Some(&vec![note(1)]));
    assert!(eb.is_empty());
}

#[test]
fn events_buffer_keeps_timestamps_in_order() {
    let mut eb = EventsBuffer::new();
    let stamps = [9u64, 3, 7, 3, 1, 9, 0, 5, 7, 7];
    for (i, t) in stamps.iter().enumerate() {
        eb.push(&Event::new(*t, note(i as u8)));
    }
    let mut it = eb.iter();
    let mut seen: Vec<(u64, Vec<Message>)> = Vec::new();
    while let Some((t, messages)) = it.next() {
        seen.push((*t, messages.clone()));
    }
    let expected = vec![
        (0, vec![note(6)]),
        (1, vec![note(4)]),
        (3, vec![note(1), note(3)]),
        (5, vec![note(7)]),
        (7, vec![note(2), note(8), note(9)]),
        (9, vec![note(0), note(5)]),
    ];
    assert_eq!(seen, expected);
    assert_eq!(eb.len(), 6);
}

#[test]
fn events_buffer_copies_the_message() {
    let packet = Packet::Bundle {
        timetag: (1, 2),
        content: vec![
            Packet::Message { addr: "/sync".to_string(), args: None },
            Packet::Message {
                addr: "/osc/amp".to_string(),
                args: Some(vec![Arg::Int(1), Arg::Float(float_of(0.5)), Arg::Other]),
            },
            Packet::Bundle { timetag: (0, 0), content: vec![] },
        ],
    };
    let event = Event::new(4, Message::Control(packet.clone()));
    let mut eb = EventsBuffer::new();
    eb.push(&event);
    assert_eq!(eb.get(4), Some(&vec![Message::Control(packet)]));
    assert_eq!(event.timestamp(), 4);
}

#[test]
fn event_holds_what_it_was_made_of() {
    let event = Event::new(42, Message::NoteOff { key: 3, velocity: float_of(0.0) });
    assert_eq!(event.timestamp(), 42);
    assert_eq!(event.message(), &Message::NoteOff { key: 3, velocity: float_of(0.0) });
    let copy = event.clone();
    assert_eq!(copy.timestamp(), 42);
    assert_eq!(copy.message(), event.message());
}

#[test]
fn port_events_hold_what_they_were_made_of() {
    let events = vec![Event::new(1, note(1)), Event::new(2, note(2))];
    let pe = PortEvents::new(Port::Midi("keys".to_string()), events);
    assert!(matches!(pe.port(), Port::Midi(name) if name == "keys"));
    assert_eq!(pe.events().len(), 2);
    assert_eq!(pe.events()[1].timestamp(), 2);
    assert_eq!(pe.events()[0].message(), &note(1));
}
