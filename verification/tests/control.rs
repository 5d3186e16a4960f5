use herosynth::control::{
    args_note, args_osc_any, args_osc_mod_val, args_osc_toggle, args_osc_val, message_edit,
    sync_packet, Edit,
};
use herosynth::packet::{Arg, Packet};
use herosynth::patch::Patch;
use herosynth::scalar::Scalar;

fn num(x: f64) -> Scalar {
    Scalar::from_bits(x.to_bits())
}

fn float(x: f64) -> Arg {
    Arg::Float(num(x))
}

#[test]
fn note_with_two_real_arguments() {
    assert_eq!(args_note(&Some(vec![float(33.0), float(1.0)])), Some((33, num(1.0))));
    assert_eq!(args_note(&Some(vec![float(0.0), float(0.0)])), Some((0, num(0.0))));
    assert_eq!(args_note(&Some(vec![float(127.0), float(0.5)])), Some((127, num(0.5))));
    assert_eq!(args_note(&Some(vec![float(127.9), float(0.5)])), Some((127, num(0.5))));
    assert_eq!(args_note(&Some(vec![float(60.25), float(0.25)])), Some((60, num(0.25))));
}

#[test]
fn note_out_of_range_is_dropped() {
    assert_eq!(args_note(&Some(vec![float(128.0), float(0.5)])), None);
    assert_eq!(args_note(&Some(vec![float(-1.0), float(0.5)])), None);
    assert_eq!(args_note(&Some(vec![float(-5.0), float(0.5)])), None);
    assert_eq!(args_note(&Some(vec![float(f64::NAN), float(0.5)])), None);
    assert_eq!(args_note(&Some(vec![float(f64::INFINITY), float(0.5)])), None);
    assert_eq!(args_note(&Some(vec![float(60.0), float(1.0000000000000002)])), None);
    assert_eq!(args_note(&Some(vec![float(60.0), float(-0.1)])), None);
    assert_eq!(args_note(&Some(vec![float(60.0), float(f64::NAN)])), None);
}

#[test]
fn note_with_four_arguments() {
    let args = Some(vec![Arg::Other, Arg::Int(60), float(0.75), Arg::Other]);
    assert_eq!(args_note(&args), Some((60, num(0.75))));
    let args = Some(vec![Arg::Int(1), Arg::Int(0), float(0.0), Arg::Int(9)]);
    assert_eq!(args_note(&args), Some((0, num(0.0))));
    let args = Some(vec![Arg::Other, Arg::Int(127), float(1.0), Arg::Other]);
    assert_eq!(args_note(&args), Some((127, num(1.0))));
    let args = Some(vec![Arg::Other, Arg::Int(128), float(1.0), Arg::Other]);
    assert_eq!(args_note(&args), None);
    let args = Some(vec![Arg::Other, Arg::Int(-1), float(1.0), Arg::Other]);
    assert_eq!(args_note(&args), None);
    let args = Some(vec![Arg::Other, float(60.0), float(1.0), Arg::Other]);
    assert_eq!(args_note(&args), None);
    let args = Some(vec![Arg::Other, Arg::Int(60), Arg::Int(1), Arg::Other]);
    assert_eq!(args_note(&args), None);
}

#[test]
fn note_of_another_shape_is_dropped() {
    assert_eq!(args_note(&None), None);
    assert_eq!(args_note(&Some(vec![])), None);
    assert_eq!(args_note(&Some(vec![float(60.0)])), None);
    assert_eq!(args_note(&Some(vec![float(60.0), float(1.0), float(1.0)])), None);
    assert_eq!(args_note(&Some(vec![Arg::Int(60), float(1.0)])), None);
    assert_eq!(args_note(&Some(vec![float(60.0), Arg::Int(1)])), None);
    assert_eq!(args_note(&Some(vec![float(6.0), float(1.0), float(1.0), float(1.0), float(1.0)])), None);
}

#[test]
fn value_message_counts_slots_from_one() {
    assert_eq!(args_osc_val(&Some(vec![Arg::Int(1), float(0.5)]), -1, 1), Some((0, num(0.5))));
    assert_eq!(args_osc_val(&Some(vec![Arg::Int(8), float(-1.0)]), -1, 1), Some((7, num(-1.0))));
    assert_eq!(args_osc_val(&Some(vec![Arg::Int(0), float(0.5)]), -1, 1), None);
    assert_eq!(args_osc_val(&Some(vec![Arg::Int(9), float(0.5)]), -1, 1), None);
    assert_eq!(args_osc_val(&Some(vec![Arg::Int(-3), float(0.5)]), -1, 1), None);
    assert_eq!(args_osc_val(&Some(vec![Arg::Int(i32::MIN), float(0.5)]), -1, 1), None);
    assert_eq!(args_osc_val(&Some(vec![Arg::Int(i32::MAX), float(0.5)]), -1, 1), None);
}

#[test]
fn value_message_keeps_to_its_range() {
    assert_eq!(args_osc_val(&Some(vec![Arg::Int(2), float(100.0)]), -100, 100), Some((1, num(100.0))));
    assert_eq!(args_osc_val(&Some(vec![Arg::Int(2), float(-100.0)]), -100, 100), Some((1, num(-100.0))));
    assert_eq!(args_osc_val(&Some(vec![Arg::Int(2), float(100.5)]), -100, 100), None);
    assert_eq!(args_osc_val(&Some(vec![Arg::Int(2), float(-100.5)]), -100, 100), None);
    assert_eq!(args_osc_val(&Some(vec![Arg::Int(2), float(22000.0)]), 0, 22000), Some((1, num(22000.0))));
    assert_eq!(args_osc_val(&Some(vec![Arg::Int(2), float(-0.001)]), 0, 22000), None);
    assert_eq!(args_osc_val(&Some(vec![Arg::Int(2), float(f64::NAN)]), 0, 22000), None);
    assert_eq!(args_osc_val(&Some(vec![Arg::Int(2), Arg::Int(3)]), 0, 22000), None);
    assert_eq!(args_osc_val(&Some(vec![float(2.0), float(3.0)]), 0, 22000), None);
    assert_eq!(args_osc_val(&Some(vec![Arg::Int(2)]), 0, 22000), None);
    assert_eq!(args_osc_val(&Some(vec![Arg::Int(2), float(3.0), float(3.0)]), 0, 22000), None);
    assert_eq!(args_osc_val(&None, 0, 22000), None);
}

#[test]
fn value_without_range_is_a_number() {
    assert_eq!(args_osc_any(&Some(vec![Arg::Int(1), float(-1e300)])), Some((0, num(-1e300))));
    assert_eq!(args_osc_any(&Some(vec![Arg::Int(8), float(f64::INFINITY)])), Some((7, num(f64::INFINITY))));
    assert_eq!(args_osc_any(&Some(vec![Arg::Int(8), float(f64::NAN)])), None);
    assert_eq!(args_osc_any(&Some(vec![Arg::Int(0), float(1.0)])), None);
    assert_eq!(args_osc_any(&Some(vec![Arg::Int(1)])), None);
    assert_eq!(args_osc_any(&None), None);
}

#[test]
fn switch_message_takes_zero_and_one() {
    assert_eq!(args_osc_toggle(&Some(vec![Arg::Int(1), Arg::Int(1)])), Some((0, true)));
    assert_eq!(args_osc_toggle(&Some(vec![Arg::Int(8), Arg::Int(0)])), Some((7, false)));
    assert_eq!(args_osc_toggle(&Some(vec![Arg::Int(3), Arg::Int(2)])), None);
    assert_eq!(args_osc_toggle(&Some(vec![Arg::Int(3), Arg::Int(-1)])), None);
    assert_eq!(args_osc_toggle(&Some(vec![Arg::Int(0), Arg::Int(1)])), None);
    assert_eq!(args_osc_toggle(&Some(vec![Arg::Int(9), Arg::Int(1)])), None);
    assert_eq!(args_osc_toggle(&Some(vec![Arg::Int(3), float(1.0)])), None);
    assert_eq!(args_osc_toggle(&Some(vec![Arg::Int(3)])), None);
    assert_eq!(args_osc_toggle(&None), None);
}

#[test]
fn modulation_message_names_destination_then_source() {
    let args = Some(vec![Arg::Int(2), Arg::Int(1), float(1.0)]);
    assert_eq!(args_osc_mod_val(&args), Some((0, 1, num(1.0))));
    let args = Some(vec![Arg::Int(8), Arg::Int(5), float(-1.0)]);
    assert_eq!(args_osc_mod_val(&args), Some((4, 7, num(-1.0))));
    assert_eq!(args_osc_mod_val(&Some(vec![Arg::Int(9), Arg::Int(1), float(0.0)])), None);
    assert_eq!(args_osc_mod_val(&Some(vec![Arg::Int(1), Arg::Int(0), float(0.0)])), None);
    assert_eq!(args_osc_mod_val(&Some(vec![Arg::Int(1), Arg::Int(1), float(1.5)])), None);
    assert_eq!(args_osc_mod_val(&Some(vec![Arg::Int(1), Arg::Int(1), float(-1.5)])), None);
    assert_eq!(args_osc_mod_val(&Some(vec![Arg::Int(1), Arg::Int(1)])), None);
    assert_eq!(args_osc_mod_val(&Some(vec![Arg::Int(1), Arg::Int(1), Arg::Int(1)])), None);
    assert_eq!(args_osc_mod_val(&None), None);
}

#[test]
fn each_address_asks_for_its_change() {
    let value = Some(vec![Arg::Int(3), float(0.5)]);
    let switch = Some(vec![Arg::Int(3), Arg::Int(1)]);
    let send = Some(vec![Arg::Int(4), Arg::Int(3), float(0.5)]);
    assert_eq!(message_edit("/osc/amp", &value), Some((2, Edit::Amplitude(num(0.5)))));
    assert_eq!(message_edit("/osc/freq", &value), Some((2, Edit::Frequency(num(0.5)))));
    assert_eq!(message_edit("/osc/octaves", &value), Some((2, Edit::Octaves(num(0.5)))));
    assert_eq!(message_edit("/osc/semitones", &value), Some((2, Edit::Semitones(num(0.5)))));
    assert_eq!(message_edit("/osc/detune", &value), Some((2, Edit::Detune(num(0.5)))));
    assert_eq!(message_edit("/osc/level", &value), Some((2, Edit::Level(num(0.5)))));
    assert_eq!(message_edit("/osc/pan", &value), Some((2, Edit::Panning(num(0.5)))));
    assert_eq!(message_edit("/osc/fm", &send), Some((2, Edit::FreqMod(3, num(0.5)))));
    assert_eq!(message_edit("/osc/enabled", &switch), Some((2, Edit::Enabled(true))));
    assert_eq!(message_edit("/osc/fixed-freq", &switch), Some((2, Edit::FixedFreq(true))));
    assert_eq!(message_edit("/osc/free-phase", &switch), Some((2, Edit::FreePhase(true))));
}

#[test]
fn each_address_keeps_to_its_range() {
    let at = |x: f64| Some(vec![Arg::Int(1), float(x)]);
    assert_eq!(message_edit("/osc/amp", &at(-100.0)), Some((0, Edit::Amplitude(num(-100.0)))));
    assert_eq!(message_edit("/osc/amp", &at(100.1)), None);
    assert_eq!(message_edit("/osc/freq", &at(22000.0)), Some((0, Edit::Frequency(num(22000.0)))));
    assert_eq!(message_edit("/osc/freq", &at(-1.0)), None);
    assert_eq!(message_edit("/osc/freq", &at(22000.5)), None);
    assert_eq!(message_edit("/osc/octaves", &at(-8.0)), Some((0, Edit::Octaves(num(-8.0)))));
    assert_eq!(message_edit("/osc/octaves", &at(8.5)), None);
    assert_eq!(message_edit("/osc/semitones", &at(12.0)), Some((0, Edit::Semitones(num(12.0)))));
    assert_eq!(message_edit("/osc/semitones", &at(-12.5)), None);
    assert_eq!(message_edit("/osc/level", &at(1.0)), Some((0, Edit::Level(num(1.0)))));
    assert_eq!(message_edit("/osc/level", &at(1.5)), None);
    assert_eq!(message_edit("/osc/pan", &at(-1.0)), Some((0, Edit::Panning(num(-1.0)))));
    assert_eq!(message_edit("/osc/pan", &at(-1.5)), None);
    // detune has no range, but is a number
    assert_eq!(message_edit("/osc/detune", &at(-1200.0)), Some((0, Edit::Detune(num(-1200.0)))));
    assert_eq!(message_edit("/osc/detune", &at(1e9)), Some((0, Edit::Detune(num(1e9)))));
    assert_eq!(message_edit("/osc/detune", &at(f64::NAN)), None);
    assert_eq!(message_edit("/osc/detune", &Some(vec![Arg::Int(9), float(1.0)])), None);
    assert_eq!(message_edit("/osc/detune", &Some(vec![Arg::Int(1), Arg::Int(1)])), None);
}

#[test]
fn other_addresses_ask_for_no_change() {
    let value = Some(vec![Arg::Int(3), float(0.5)]);
    assert_eq!(message_edit("/osc/DETUNE", &value), None);
    assert_eq!(message_edit("/osc/phase", &value), None);
    assert_eq!(message_edit("/osc/am", &Some(vec![Arg::Int(1), Arg::Int(2), float(0.5)])), None);
    assert_eq!(message_edit("/osc/AMP", &value), None);
    assert_eq!(message_edit("/osc/amp ", &value), None);
    assert_eq!(message_edit("/osc", &value), None);
    assert_eq!(message_edit("", &value), None);
    assert_eq!(message_edit("/sync", &value), None);
    assert_eq!(message_edit("/note", &value), None);
}

fn message(addr: &str, args: Vec<Arg>) -> Packet {
    Packet::Message { addr: addr.to_string(), args: Some(args) }
}

#[test]
fn sync_reply_reports_every_oscillator() {
    let patch = Patch::default();
    let reply = sync_packet(&patch);
    let content = match reply {
        Packet::Bundle { timetag, content } => {
            assert_eq!(timetag, (0, 0));
            content
        },
        _ => panic!("the reply is a bundle"),
    };
    assert_eq!(content.len(), 4 * (11 + 8 * 2));
    let first = vec![
        message("/osc/enabled", vec![Arg::Int(1), Arg::Int(1)]),
        message("/osc/amp", vec![Arg::Int(1), float(1.0)]),
        message("/osc/free-phase", vec![Arg::Int(1), Arg::Int(0)]),
        message("/osc/phase", vec![Arg::Int(1), float(0.0)]),
        message("/osc/fixed-freq", vec![Arg::Int(1), Arg::Int(0)]),
        message("/osc/freq", vec![Arg::Int(1), float(440.0)]),
        message("/osc/octaves", vec![Arg::Int(1), float(0.0)]),
        message("/osc/semitones", vec![Arg::Int(1), float(0.0)]),
        message("/osc/detune", vec![Arg::Int(1), float(0.0)]),
        message("/osc/level", vec![Arg::Int(1), float(1.0)]),
        message("/osc/pan", vec![Arg::Int(1), float(0.0)]),
        message("/osc/am", vec![Arg::Int(1), Arg::Int(1), float(0.0)]),
        message("/osc/fm", vec![Arg::Int(1), Arg::Int(1), float(0.0)]),
        message("/osc/am", vec![Arg::Int(1), Arg::Int(2), float(0.0)]),
        message("/osc/fm", vec![Arg::Int(2), Arg::Int(1), float(0.0)]),
    ];
    assert_eq!(&content[0..15], &first[..]);
    // the third oscillator is fixed at 4 Hz, is not heard, and sends 0.7 to
    // the frequency of the first
    let third = 2 * 27;
    assert_eq!(content[third + 4], message("/osc/fixed-freq", vec![Arg::Int(3), Arg::Int(1)]));
    assert_eq!(content[third + 5], message("/osc/freq", vec![Arg::Int(3), float(4.0)]));
    assert_eq!(content[third + 9], message("/osc/level", vec![Arg::Int(3), float(0.0)]));
    assert_eq!(content[third + 11], message("/osc/am", vec![Arg::Int(3), Arg::Int(1), float(0.0)]));
    assert_eq!(content[third + 12], message("/osc/fm", vec![Arg::Int(1), Arg::Int(3), float(0.7)]));
    assert_eq!(content[third + 26], message("/osc/fm", vec![Arg::Int(8), Arg::Int(3), float(0.0)]));
    // the fourth stands eight semitones up at level -1
    let fourth = 3 * 27;
    assert_eq!(content[fourth + 7], message("/osc/semitones", vec![Arg::Int(4), float(8.0)]));
    assert_eq!(content[fourth + 9], message("/osc/level", vec![Arg::Int(4), float(-1.0)]));
}

#[test]
fn sync_reply_of_an_empty_patch_is_an_empty_bundle() {
    let patch = Patch { oscillators: vec![], filters: vec![], version: 3 };
    assert_eq!(sync_packet(&patch), Packet::Bundle { timetag: (0, 0), content: vec![] });
}
