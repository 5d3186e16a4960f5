use herosynth::events::Message as EngineMessage;
use herosynth::filter::{FilterControl, Mode, Slope, Step};
use herosynth::midi::{decode, decode_events, engine_events, Event, Message, PortEvents, RawEvent};
use herosynth::scalar::Scalar;

fn raw(status: u8, data1: u8, data2: u8, timestamp: u32) -> RawEvent {
    RawEvent { status, data1, data2, timestamp }
}

fn on(key: u8, velocity: u8) -> Message {
    Message::NoteOn { channel: 0, key, velocity }
}

#[test]
fn midi_decode_notes() {
    assert_eq!(decode(0x90, 60, 100), Some(Message::NoteOn { channel: 0, key: 60, velocity: 100 }));
    assert_eq!(decode(0x9F, 0, 0), Some(Message::NoteOn { channel: 15, key: 0, velocity: 0 }));
    assert_eq!(decode(0x83, 127, 127), Some(Message::NoteOff { channel: 3, key: 127, velocity: 127 }));
    assert_eq!(decode(0x80, 1, 2), Some(Message::NoteOff { channel: 0, key: 1, velocity: 2 }));
}

#[test]
fn midi_decode_drops_what_is_no_note() {
    assert_eq!(decode(0xB0, 7, 100), None);
    assert_eq!(decode(0xA0, 60, 100), None);
    assert_eq!(decode(0xE0, 0, 64), None);
    assert_eq!(decode(0xF8, 0, 0), None);
    assert_eq!(decode(0x00, 60, 100), None);
    assert_eq!(decode(0x7F, 60, 100), None);
    assert_eq!(decode(0x90, 128, 100), None);
    assert_eq!(decode(0x90, 60, 128), None);
    assert_eq!(decode(0x80, 255, 255), None);
}

#[test]
fn midi_events_come_out_in_time_order() {
    let events = decode_events(&vec![
        raw(0x90, 60, 100, 30),
        raw(0xB0, 7, 100, 5),
        raw(0x90, 61, 100, 10),
        raw(0x80, 60, 0, 30),
        raw(0x90, 62, 100, 10),
        raw(0x90, 63, 100, 0),
        raw(0x90, 200, 100, 1),
        raw(0x80, 61, 0, 20),
    ]);
    let expected = vec![
        Event::new(0, on(63, 100)),
        Event::new(10, on(61, 100)),
        Event::new(10, on(62, 100)),
        Event::new(20, Message::NoteOff { channel: 0, key: 61, velocity: 0 }),
        Event::new(30, on(60, 100)),
        Event::new(30, Message::NoteOff { channel: 0, key: 60, velocity: 0 }),
    ];
    assert_eq!(events, expected);
}

#[test]
fn midi_events_of_nothing() {
    assert_eq!(decode_events(&vec![]), vec![]);
    assert_eq!(decode_events(&vec![raw(0xF0, 1, 2, 3)]), vec![]);
}

#[test]
fn midi_events_keep_the_order_of_equal_timestamps() {
    let mut input = Vec::new();
    let mut state: u32 = 7;
    for i in 0..500u32 {
        state = state.wrapping_mul(1103515245).wrapping_add(12345);
        input.push(raw(0x90, (i % 128) as u8, ((i / 128) % 128) as u8, (state >> 16) % 16));
    }
    let events = decode_events(&input);
    assert_eq!(events.len(), 500);
    let mut expected: Vec<Event> = input
        .iter()
        .map(|e| Event::new(e.timestamp as u64, Message::NoteOn { channel: 0, key: e.data1, velocity: e.data2 }))
        .collect();
    expected.sort_by_key(|e| e.timestamp());
    assert_eq!(events, expected);
}

#[test]
fn midi_event_and_port_events_hold_what_they_were_made_of() {
    let event = Event::new(9, on(1, 2));
    assert_eq!(event.timestamp(), 9);
    assert_eq!(event.message(), on(1, 2));
    let pe = PortEvents::new("keys", vec![event, Event::new(10, on(3, 4))]);
    assert_eq!(pe.port(), "keys");
    assert_eq!(pe.events(), &[Event::new(9, on(1, 2)), Event::new(10, on(3, 4))]);
}

#[test]
fn midi_notes_become_engine_events() {
    let curve: Vec<Scalar> =
        (0..256).map(|v| Scalar::from_bits((v as f64 / 127.0).to_bits())).collect();
    let events = vec![
        Event::new(5, on(60, 127)),
        Event::new(6, Message::NoteOff { channel: 2, key: 60, velocity: 0 }),
        Event::new(7, on(61, 64)),
    ];
    let out = engine_events(&events, &curve);
    assert_eq!(out.len(), 3);
    assert_eq!(out[0].timestamp(), 5);
    assert_eq!(out[0].message(), &EngineMessage::NoteOn { key: 60, velocity: Scalar::from_bits(1.0f64.to_bits()) });
    assert_eq!(out[1].timestamp(), 6);
    assert_eq!(out[1].message(), &EngineMessage::NoteOff { key: 60, velocity: Scalar::from_bits(0) });
    assert_eq!(out[2].timestamp(), 7);
    assert_eq!(
        out[2].message(),
        &EngineMessage::NoteOn { key: 61, velocity: Scalar::from_bits((64.0f64 / 127.0).to_bits()) }
    );
    assert_eq!(engine_events(&[], &curve).len(), 0);
}

#[test]
fn filter_works_things_out_once() {
    let mut f = FilterControl::new(Mode::LowPass, Slope::Slope12);
    assert_eq!(f.process(), Step::Run { reset_delays: true, update_coeffs: true, stages: 1 });
    assert_eq!(f.process(), Step::Run { reset_delays: false, update_coeffs: false, stages: 1 });
    f.retune();
    assert_eq!(f.process(), Step::Run { reset_delays: false, update_coeffs: true, stages: 1 });
    assert_eq!(f.process(), Step::Run { reset_delays: false, update_coeffs: false, stages: 1 });
    f.set_slope(Slope::Slope24);
    assert_eq!(f.process(), Step::Run { reset_delays: true, update_coeffs: true, stages: 2 });
    f.set_mode(Mode::BandStop);
    assert_eq!(f.process(), Step::Run { reset_delays: true, update_coeffs: true, stages: 2 });
    assert_eq!(f.process(), Step::Run { reset_delays: false, update_coeffs: false, stages: 2 });
    f.reset();
    assert_eq!(f.process(), Step::Run { reset_delays: true, update_coeffs: false, stages: 2 });
}

#[test]
fn filter_that_is_off_passes() {
    let mut f = FilterControl::new(Mode::HighPass, Slope::Slope24);
    f.process();
    f.set_enabled(false);
    assert_eq!(f.process(), Step::Pass);
    f.retune();
    assert_eq!(f.process(), Step::Pass);
    // switching it on again clears the delay registers, and the change of
    // cutoff is still to be worked in
    f.set_enabled(true);
    assert_eq!(f.process(), Step::Run { reset_delays: true, update_coeffs: true, stages: 2 });
    // to switch on what is on changes nothing
    f.set_enabled(true);
    assert_eq!(f.process(), Step::Run { reset_delays: false, update_coeffs: false, stages: 2 });
    let mut b = FilterControl::bypass();
    assert_eq!(b.process(), Step::Pass);
    b.set_mode(Mode::LowPass);
    assert_eq!(b.process(), Step::Run { reset_delays: true, update_coeffs: true, stages: 1 });
}

#[test]
fn filter_bypass_is_on_with_everything_to_work_out() {
    let b = FilterControl::bypass();
    assert_eq!(
        b,
        FilterControl {
            mode: Mode::ByPass,
            slope: Slope::Slope12,
            enabled: true,
            invalid_coeffs: true,
            invalid_delays: true,
        }
    );
    assert_eq!(b, FilterControl::new(Mode::ByPass, Slope::Slope12));
}
