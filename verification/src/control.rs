//! The control surface: which messages the synthesizer takes, what they ask
//! for, and the messages with which it reports its patch.
//!
//! Oscillators are counted from one in a message and from zero in the patch.

use vstd::prelude::*;
use crate::packet::{message_of, views, Arg, Packet, PacketView};
use crate::patch::{OscPatch, Patch, MAX_OSCILLATORS};
use crate::scalar::Scalar;
use crate::text::str_eq;
use crate::voice::MAX_KEYS;

verus! {

pub const ADDR_SYNC: &'static str = "/sync";

pub const ADDR_NOTE: &'static str = "/note";

pub const ADDR_OSC_ENABLED: &'static str = "/osc/enabled";

pub const ADDR_OSC_FREE_PHASE: &'static str = "/osc/free-phase";

pub const ADDR_OSC_INITIAL_PHASE: &'static str = "/osc/phase";

pub const ADDR_OSC_AMP: &'static str = "/osc/amp";

pub const ADDR_OSC_FIXED_FREQ: &'static str = "/osc/fixed-freq";

pub const ADDR_OSC_FREQ: &'static str = "/osc/freq";

pub const ADDR_OSC_OCTAVES: &'static str = "/osc/octaves";

pub const ADDR_OSC_SEMITONES: &'static str = "/osc/semitones";

pub const ADDR_OSC_DETUNE: &'static str = "/osc/detune";

pub const ADDR_OSC_AMP_MOD: &'static str = "/osc/am";

pub const ADDR_OSC_FREQ_MOD: &'static str = "/osc/fm";

pub const ADDR_OSC_PAN: &'static str = "/osc/pan";

pub const ADDR_OSC_LEVEL: &'static str = "/osc/level";

/// What an argument list says.
pub open spec fn args_view(args: Option<Vec<Arg>>) -> Option<Seq<Arg>> {
    match args {
        Some(v) => Some(v@),
        None => None,
    }
}

/// The key and velocity that the arguments of a note message give.
///
/// Two arguments are a key and a velocity, both real numbers; the key counts by
/// the whole number it starts with. Four arguments hold a whole-numbered key in
/// the second place and a real velocity in the third. The key is from 0 to 127
/// and the velocity from 0 to 1; anything else gives nothing.
pub open spec fn decode_note(args: Option<Seq<Arg>>) -> Option<(usize, Scalar)> {
    match args {
        Some(a) => if a.len() == 2 {
            match (a[0], a[1]) {
                (Arg::Float(key), Arg::Float(velocity)) => match key.whole_part() {
                    Some(k) => if k < MAX_KEYS && velocity.within(0, 1) {
                        Some((k as usize, velocity))
                    } else {
                        None
                    },
                    None => None,
                },
                _ => None,
            }
        } else if a.len() == 4 {
            match (a[1], a[2]) {
                (Arg::Int(key), Arg::Float(velocity)) => if 0 <= key < MAX_KEYS && velocity.within(0, 1) {
                    Some((key as usize, velocity))
                } else {
                    None
                },
                _ => None,
            }
        } else {
            None
        },
        None => None,
    }
}

/// The oscillator slot and value that the arguments of a value message give:
/// a whole-numbered slot from 1 to 8, counted from zero in the result, and a
/// real value from `min` to `max`. Anything else gives nothing.
pub open spec fn decode_osc_val(args: Option<Seq<Arg>>, min: int, max: int) -> Option<(usize, Scalar)> {
    match args {
        Some(a) => if a.len() == 2 {
            match (a[0], a[1]) {
                (Arg::Int(index), Arg::Float(value)) => if 1 <= index <= MAX_OSCILLATORS
                    && value.within(min, max) {
                    Some(((index - 1) as usize, value))
                } else {
                    None
                },
                _ => None,
            }
        } else {
            None
        },
        None => None,
    }
}

/// The oscillator slot and value that the arguments of a message give whose
/// value has no range: a whole-numbered slot from 1 to 8, counted from zero in
/// the result, and a real value that is a number. Anything else gives nothing.
pub open spec fn decode_osc_any(args: Option<Seq<Arg>>) -> Option<(usize, Scalar)> {
    match args {
        Some(a) => if a.len() == 2 {
            match (a[0], a[1]) {
                (Arg::Int(index), Arg::Float(value)) => if 1 <= index <= MAX_OSCILLATORS
                    && !value.nan() {
                    Some(((index - 1) as usize, value))
                } else {
                    None
                },
                _ => None,
            }
        } else {
            None
        },
        None => None,
    }
}

/// The oscillator slot and switch that the arguments of a switch message give:
/// a whole-numbered slot from 1 to 8, counted from zero in the result, and 0
/// for off or 1 for on. Anything else gives nothing.
pub open spec fn decode_osc_toggle(args: Option<Seq<Arg>>) -> Option<(usize, bool)> {
    match args {
        Some(a) => if a.len() == 2 {
            match (a[0], a[1]) {
                (Arg::Int(index), Arg::Int(value)) => if 1 <= index <= MAX_OSCILLATORS && (value == 0
                    || value == 1) {
                    Some(((index - 1) as usize, value == 1))
                } else {
                    None
                },
                _ => None,
            }
        } else {
            None
        },
        None => None,
    }
}

/// The source slot, destination slot and level that the arguments of a
/// modulation message give: the destination first, then the source, both whole
/// numbers from 1 to 8 and counted from zero in the result, then a real level
/// from -1 to 1. Anything else gives nothing.
pub open spec fn decode_osc_mod_val(args: Option<Seq<Arg>>) -> Option<(usize, usize, Scalar)> {
    match args {
        Some(a) => if a.len() == 3 {
            match (a[0], a[1], a[2]) {
                (Arg::Int(dst), Arg::Int(src), Arg::Float(value)) => if 1 <= src <= MAX_OSCILLATORS && 1
                    <= dst <= MAX_OSCILLATORS && value.within(-1, 1) {
                    Some(((src - 1) as usize, (dst - 1) as usize, value))
                } else {
                    None
                },
                _ => None,
            }
        } else {
            None
        },
        None => None,
    }
}

/// The key and velocity of a note message.
pub fn args_note(args: &Option<Vec<Arg>>) -> (r: Option<(usize, Scalar)>)
    ensures
        r == decode_note(args_view(*args)),
{
    match args {
        Some(a) => {
            if a.len() == 2 {
                match (a[0], a[1]) {
                    (Arg::Float(key), Arg::Float(velocity)) => {
                        match key.truncate() {
                            Some(k) => {
                                if k < MAX_KEYS as u64 && velocity.in_range(0, 1) {
                                    Some((k as usize, velocity))
                                } else {
                                    None
                                }
                            },
                            None => None,
                        }
                    },
                    _ => None,
                }
            } else if a.len() == 4 {
                match (a[1], a[2]) {
                    (Arg::Int(key), Arg::Float(velocity)) => {
                        if 0 <= key && key < MAX_KEYS as i32 && velocity.in_range(0, 1) {
                            Some((key as usize, velocity))
                        } else {
                            None
                        }
                    },
                    _ => None,
                }
            } else {
                None
            }
        },
        None => None,
    }
}

/// The oscillator slot and value of a value message.
pub fn args_osc_val(args: &Option<Vec<Arg>>, min: i32, max: i32) -> (r: Option<(usize, Scalar)>)
    ensures
        r == decode_osc_val(args_view(*args), min as int, max as int),
{
    match args {
        Some(a) => {
            if a.len() == 2 {
                match (a[0], a[1]) {
                    (Arg::Int(index), Arg::Float(value)) => {
                        if 1 <= index && index <= MAX_OSCILLATORS as i32 && value.in_range(min, max) {
                            Some(((index - 1) as usize, value))
                        } else {
                            None
                        }
                    },
                    _ => None,
                }
            } else {
                None
            }
        },
        None => None,
    }
}

/// The oscillator slot and value of a message whose value has no range.
pub fn args_osc_any(args: &Option<Vec<Arg>>) -> (r: Option<(usize, Scalar)>)
    ensures
        r == decode_osc_any(args_view(*args)),
{
    match args {
        Some(a) => {
            if a.len() == 2 {
                match (a[0], a[1]) {
                    (Arg::Int(index), Arg::Float(value)) => {
                        if 1 <= index && index <= MAX_OSCILLATORS as i32 && !value.is_nan() {
                            Some(((index - 1) as usize, value))
                        } else {
                            None
                        }
                    },
                    _ => None,
                }
            } else {
                None
            }
        },
        None => None,
    }
}

/// The oscillator slot and switch of a switch message.
pub fn args_osc_toggle(args: &Option<Vec<Arg>>) -> (r: Option<(usize, bool)>)
    ensures
        r == decode_osc_toggle(args_view(*args)),
{
    match args {
        Some(a) => {
            if a.len() == 2 {
                match (a[0], a[1]) {
                    (Arg::Int(index), Arg::Int(value)) => {
                        if 1 <= index && index <= MAX_OSCILLATORS as i32 && (value == 0 || value == 1) {
                            Some(((index - 1) as usize, value == 1))
                        } else {
                            None
                        }
                    },
                    _ => None,
                }
            } else {
                None
            }
        },
        None => None,
    }
}

/// The source slot, destination slot and level of a modulation message.
pub fn args_osc_mod_val(args: &Option<Vec<Arg>>) -> (r: Option<(usize, usize, Scalar)>)
    ensures
        r == decode_osc_mod_val(args_view(*args)),
{
    match args {
        Some(a) => {
            if a.len() == 3 {
                match (a[0], a[1], a[2]) {
                    (Arg::Int(dst), Arg::Int(src), Arg::Float(value)) => {
                        if 1 <= src && src <= MAX_OSCILLATORS as i32 && 1 <= dst && dst
                            <= MAX_OSCILLATORS as i32 && value.in_range(-1, 1) {
                            Some(((src - 1) as usize, (dst - 1) as usize, value))
                        } else {
                            None
                        }
                    },
                    _ => None,
                }
            } else {
                None
            }
        },
        None => None,
    }
}

/// A change to one oscillator of the patch.
#[derive(Clone, Copy, Debug, PartialEq, Eq, Structural)]
pub enum Edit {
    Enabled(bool),
    FreePhase(bool),
    FixedFreq(bool),
    Amplitude(Scalar),
    /// The base frequency; it takes effect on a fixed-frequency oscillator only.
    Frequency(Scalar),
    Octaves(Scalar),
    Semitones(Scalar),
    Detune(Scalar),
    Level(Scalar),
    Panning(Scalar),
    /// The level of the frequency-modulation send to a destination slot.
    FreqMod(usize, Scalar),
}

impl Edit {
    /// The change can be made to `osc`: every change can, but that of the base
    /// frequency of an oscillator that follows the key.
    pub open spec fn applies(self, osc: OscPatch) -> bool {
        self is Frequency ==> osc.is_fixed_freq
    }

    /// The destination slot of a send, where there is one, is one of the eight.
    pub open spec fn wf(self) -> bool {
        self matches Edit::FreqMod(dst, _) ==> dst < MAX_OSCILLATORS
    }

    /// The oscillator after the change.
    pub open spec fn of(self, osc: OscPatch) -> OscPatch {
        match self {
            Edit::Enabled(on) => OscPatch { is_enabled: on, ..osc },
            Edit::FreePhase(on) => OscPatch { is_free_phase: on, ..osc },
            Edit::FixedFreq(on) => OscPatch { is_fixed_freq: on, ..osc },
            Edit::Amplitude(v) => OscPatch { amplitude: v, ..osc },
            Edit::Frequency(v) => OscPatch { base_frequency: v, ..osc },
            Edit::Octaves(v) => OscPatch { octaves: v, ..osc },
            Edit::Semitones(v) => OscPatch { semitones: v, ..osc },
            Edit::Detune(v) => OscPatch { detune: v, ..osc },
            Edit::Level(v) => OscPatch { level: v, ..osc },
            Edit::Panning(v) => OscPatch { panning: v, ..osc },
            Edit::FreqMod(dst, v) => OscPatch {
                freq_mod: vstd::array::spec_array_update(osc.freq_mod, dst as int, Some(v)),
                ..osc
            },
        }
    }
}

/// The oscillator slot and the change that a message asks for, if it asks for
/// one and its arguments are in order.
pub open spec fn edit_of(addr: Seq<char>, args: Option<Seq<Arg>>) -> Option<(usize, Edit)> {
    if addr == ADDR_OSC_AMP@ {
        match decode_osc_val(args, -100, 100) {
            Some((i, v)) => Some((i, Edit::Amplitude(v))),
            None => None,
        }
    } else if addr == ADDR_OSC_FREQ@ {
        match decode_osc_val(args, 0, 22000) {
            Some((i, v)) => Some((i, Edit::Frequency(v))),
            None => None,
        }
    } else if addr == ADDR_OSC_OCTAVES@ {
        match decode_osc_val(args, -8, 8) {
            Some((i, v)) => Some((i, Edit::Octaves(v))),
            None => None,
        }
    } else if addr == ADDR_OSC_SEMITONES@ {
        match decode_osc_val(args, -12, 12) {
            Some((i, v)) => Some((i, Edit::Semitones(v))),
            None => None,
        }
    } else if addr == ADDR_OSC_DETUNE@ {
        match decode_osc_any(args) {
            Some((i, v)) => Some((i, Edit::Detune(v))),
            None => None,
        }
    } else if addr == ADDR_OSC_LEVEL@ {
        match decode_osc_val(args, -1, 1) {
            Some((i, v)) => Some((i, Edit::Level(v))),
            None => None,
        }
    } else if addr == ADDR_OSC_PAN@ {
        match decode_osc_val(args, -1, 1) {
            Some((i, v)) => Some((i, Edit::Panning(v))),
            None => None,
        }
    } else if addr == ADDR_OSC_FREQ_MOD@ {
        match decode_osc_mod_val(args) {
            Some((src, dst, v)) => Some((src, Edit::FreqMod(dst, v))),
            None => None,
        }
    } else if addr == ADDR_OSC_ENABLED@ {
        match decode_osc_toggle(args) {
            Some((i, on)) => Some((i, Edit::Enabled(on))),
            None => None,
        }
    } else if addr == ADDR_OSC_FIXED_FREQ@ {
        match decode_osc_toggle(args) {
            Some((i, on)) => Some((i, Edit::FixedFreq(on))),
            None => None,
        }
    } else if addr == ADDR_OSC_FREE_PHASE@ {
        match decode_osc_toggle(args) {
            Some((i, on)) => Some((i, Edit::FreePhase(on))),
            None => None,
        }
    } else {
        None
    }
}

/// The oscillator slot and the change that a message asks for.
pub fn message_edit(addr: &str, args: &Option<Vec<Arg>>) -> (r: Option<(usize, Edit)>)
    ensures
        r == edit_of(addr@, args_view(*args)),
        r matches Some((i, e)) ==> i < MAX_OSCILLATORS && e.wf(),
{
    if str_eq(addr, ADDR_OSC_AMP) {
        match args_osc_val(args, -100, 100) {
            Some((i, v)) => Some((i, Edit::Amplitude(v))),
            None => None,
        }
    } else if str_eq(addr, ADDR_OSC_FREQ) {
        match args_osc_val(args, 0, 22000) {
            Some((i, v)) => Some((i, Edit::Frequency(v))),
            None => None,
        }
    } else if str_eq(addr, ADDR_OSC_OCTAVES) {
        match args_osc_val(args, -8, 8) {
            Some((i, v)) => Some((i, Edit::Octaves(v))),
            None => None,
        }
    } else if str_eq(addr, ADDR_OSC_SEMITONES) {
        match args_osc_val(args, -12, 12) {
            Some((i, v)) => Some((i, Edit::Semitones(v))),
            None => None,
        }
    } else if str_eq(addr, ADDR_OSC_DETUNE) {
        match args_osc_any(args) {
            Some((i, v)) => Some((i, Edit::Detune(v))),
            None => None,
        }
    } else if str_eq(addr, ADDR_OSC_LEVEL) {
        match args_osc_val(args, -1, 1) {
            Some((i, v)) => Some((i, Edit::Level(v))),
            None => None,
        }
    } else if str_eq(addr, ADDR_OSC_PAN) {
        match args_osc_val(args, -1, 1) {
            Some((i, v)) => Some((i, Edit::Panning(v))),
            None => None,
        }
    } else if str_eq(addr, ADDR_OSC_FREQ_MOD) {
        match args_osc_mod_val(args) {
            Some((src, dst, v)) => Some((src, Edit::FreqMod(dst, v))),
            None => None,
        }
    } else if str_eq(addr, ADDR_OSC_ENABLED) {
        match args_osc_toggle(args) {
            Some((i, on)) => Some((i, Edit::Enabled(on))),
            None => None,
        }
    } else if str_eq(addr, ADDR_OSC_FIXED_FREQ) {
        match args_osc_toggle(args) {
            Some((i, on)) => Some((i, Edit::FixedFreq(on))),
            None => None,
        }
    } else if str_eq(addr, ADDR_OSC_FREE_PHASE) {
        match args_osc_toggle(args) {
            Some((i, on)) => Some((i, Edit::FreePhase(on))),
            None => None,
        }
    } else {
        None
    }
}

/// The argument that stands for a switch: 1 for on, 0 for off.
pub open spec fn flag(on: bool) -> Arg {
    Arg::Int(
        if on {
            1
        } else {
            0
        },
    )
}

/// The argument that names an oscillator slot, counted from one.
pub open spec fn slot_arg(index: int) -> Arg {
    Arg::Int((index + 1) as i32)
}

/// The argument that gives a send level: zero where nothing is sent.
pub open spec fn level_arg(level: Option<Scalar>) -> Arg {
    Arg::Float(
        match level {
            Some(v) => v,
            None => Scalar { bits: 0 },
        },
    )
}

/// The messages that report the settings of the oscillator in slot `index`.
pub open spec fn settings_dump(osc: OscPatch, index: int) -> Seq<PacketView> {
    seq![
        message_of(ADDR_OSC_ENABLED@, seq![slot_arg(index), flag(osc.is_enabled)]),
        message_of(ADDR_OSC_AMP@, seq![slot_arg(index), Arg::Float(osc.amplitude)]),
        message_of(ADDR_OSC_FREE_PHASE@, seq![slot_arg(index), flag(osc.is_free_phase)]),
        message_of(ADDR_OSC_INITIAL_PHASE@, seq![slot_arg(index), Arg::Float(osc.initial_phase)]),
        message_of(ADDR_OSC_FIXED_FREQ@, seq![slot_arg(index), flag(osc.is_fixed_freq)]),
        message_of(ADDR_OSC_FREQ@, seq![slot_arg(index), Arg::Float(osc.base_frequency)]),
        message_of(ADDR_OSC_OCTAVES@, seq![slot_arg(index), Arg::Float(osc.octaves)]),
        message_of(ADDR_OSC_SEMITONES@, seq![slot_arg(index), Arg::Float(osc.semitones)]),
        message_of(ADDR_OSC_DETUNE@, seq![slot_arg(index), Arg::Float(osc.detune)]),
        message_of(ADDR_OSC_LEVEL@, seq![slot_arg(index), Arg::Float(osc.level)]),
        message_of(ADDR_OSC_PAN@, seq![slot_arg(index), Arg::Float(osc.panning)]),
    ]
}

/// The message that reports how much the oscillator in slot `index` sends to
/// the amplitude of slot `dst`: source, destination, level.
pub open spec fn amp_mod_report(osc: OscPatch, index: int, dst: int) -> PacketView {
    message_of(ADDR_OSC_AMP_MOD@, seq![slot_arg(index), slot_arg(dst), level_arg(osc.amp_mod@[dst])])
}

/// The message that reports how much the oscillator in slot `index` sends to
/// the frequency of slot `dst`: destination, source, level.
pub open spec fn freq_mod_report(osc: OscPatch, index: int, dst: int) -> PacketView {
    message_of(ADDR_OSC_FREQ_MOD@, seq![slot_arg(dst), slot_arg(index), level_arg(osc.freq_mod@[dst])])
}

/// The messages that report the sends of the oscillator in slot `index` to the
/// first `n` slots: for each destination its amplitude send, then its
/// frequency send.
pub open spec fn sends_dump(osc: OscPatch, index: int, n: int) -> Seq<PacketView>
    decreases n,
{
    if n <= 0 {
        Seq::empty()
    } else {
        sends_dump(osc, index, n - 1).push(amp_mod_report(osc, index, n - 1)).push(
            freq_mod_report(osc, index, n - 1),
        )
    }
}

/// The messages that report the oscillators of a patch, slot by slot: of each
/// its settings, then its sends to all eight slots.
pub open spec fn patch_dump(oscillators: Seq<OscPatch>) -> Seq<PacketView>
    decreases oscillators.len(),
{
    if oscillators.len() == 0 {
        Seq::empty()
    } else {
        patch_dump(oscillators.drop_last()) + settings_dump(
            oscillators.last(),
            oscillators.len() - 1,
        ) + sends_dump(oscillators.last(), oscillators.len() - 1, MAX_OSCILLATORS as int)
    }
}

/// The reply to a request for the patch: one bundle, tagged with time zero,
/// of the messages that report its oscillators.
pub open spec fn sync_reply(oscillators: Seq<OscPatch>) -> PacketView {
    PacketView::Bundle { timetag: (0u32, 0u32), content: patch_dump(oscillators) }
}

/// Appends a message to `addr` with the arguments `first` and `second`.
fn push_pair(out: &mut Vec<Packet>, addr: &str, first: Arg, second: Arg)
    ensures
        views(final(out)@) == views(old(out)@).push(message_of(addr@, seq![first, second])),
{
    let mut args: Vec<Arg> = Vec::new();
    args.push(first);
    args.push(second);
    assert(args@ =~= seq![first, second]);
    out.push(Packet::message(addr, args));
    assert(views(out@) =~= views(old(out)@).push(message_of(addr@, seq![first, second])));
}

/// Appends a message to `addr` with the arguments `first`, `second` and `third`.
fn push_triple(out: &mut Vec<Packet>, addr: &str, first: Arg, second: Arg, third: Arg)
    ensures
        views(final(out)@) == views(old(out)@).push(message_of(addr@, seq![first, second, third])),
{
    let mut args: Vec<Arg> = Vec::new();
    args.push(first);
    args.push(second);
    args.push(third);
    assert(args@ =~= seq![first, second, third]);
    out.push(Packet::message(addr, args));
    assert(views(out@) =~= views(old(out)@).push(message_of(addr@, seq![first, second, third])));
}

/// The argument for a switch.
fn flag_arg(on: bool) -> (r: Arg)
    ensures
        r == flag(on),
{
    if on {
        Arg::Int(1)
    } else {
        Arg::Int(0)
    }
}

/// The argument for a send level.
fn send_arg(level: Option<Scalar>) -> (r: Arg)
    ensures
        r == level_arg(level),
{
    match level {
        Some(v) => Arg::Float(v),
        None => Arg::Float(Scalar::zero()),
    }
}

/// Appends the messages that report the settings of `osc`, the oscillator in
/// slot `index`.
fn push_settings(out: &mut Vec<Packet>, osc: &OscPatch, index: usize)
    requires
        index < MAX_OSCILLATORS,
    ensures
        views(final(out)@) == views(old(out)@) + settings_dump(*osc, index as int),
{
    let slot = Arg::Int((index + 1) as i32);
    let ghost start = views(out@);
    push_pair(out, ADDR_OSC_ENABLED, slot, flag_arg(osc.is_enabled));
    push_pair(out, ADDR_OSC_AMP, slot, Arg::Float(osc.amplitude));
    push_pair(out, ADDR_OSC_FREE_PHASE, slot, flag_arg(osc.is_free_phase));
    push_pair(out, ADDR_OSC_INITIAL_PHASE, slot, Arg::Float(osc.initial_phase));
    push_pair(out, ADDR_OSC_FIXED_FREQ, slot, flag_arg(osc.is_fixed_freq));
    push_pair(out, ADDR_OSC_FREQ, slot, Arg::Float(osc.base_frequency));
    push_pair(out, ADDR_OSC_OCTAVES, slot, Arg::Float(osc.octaves));
    push_pair(out, ADDR_OSC_SEMITONES, slot, Arg::Float(osc.semitones));
    push_pair(out, ADDR_OSC_DETUNE, slot, Arg::Float(osc.detune));
    push_pair(out, ADDR_OSC_LEVEL, slot, Arg::Float(osc.level));
    push_pair(out, ADDR_OSC_PAN, slot, Arg::Float(osc.panning));
    assert(views(out@) =~= start + settings_dump(*osc, index as int));
}

/// Appends the messages that report the sends of `osc`, the oscillator in slot
/// `index`.
fn push_sends(out: &mut Vec<Packet>, osc: &OscPatch, index: usize)
    requires
        index < MAX_OSCILLATORS,
    ensures
        views(final(out)@) == views(old(out)@) + sends_dump(
            *osc,
            index as int,
            MAX_OSCILLATORS as int,
        ),
{
    let slot = Arg::Int((index + 1) as i32);
    let ghost start = views(out@);
    let mut j: usize = 0;
    assert(views(out@) =~= start + sends_dump(*osc, index as int, 0));
    while j < MAX_OSCILLATORS
        invariant
            j <= MAX_OSCILLATORS,
            index < MAX_OSCILLATORS,
            slot == slot_arg(index as int),
            views(out@) == start + sends_dump(*osc, index as int, j as int),
        decreases MAX_OSCILLATORS - j,
    {
        let other = Arg::Int((j + 1) as i32);
        push_triple(out, ADDR_OSC_AMP_MOD, slot, other, send_arg(osc.amp_mod[j]));
        push_triple(out, ADDR_OSC_FREQ_MOD, other, slot, send_arg(osc.freq_mod[j]));
        assert(views(out@) =~= start + sends_dump(*osc, index as int, j + 1));
        j += 1;
    }
}

/// The reply to a request for the patch.
pub fn sync_packet(patch: &Patch) -> (r: Packet)
    requires
        patch@.wf(),
    ensures
        r@ == sync_reply(patch@.oscillators),
{
    let mut out: Vec<Packet> = Vec::new();
    let ghost oscillators = patch@.oscillators;
    let n = patch.oscillators.len();
    let mut i: usize = 0;
    assert(views(out@) =~= patch_dump(oscillators.take(0)));
    while i < n
        invariant
            i <= n <= MAX_OSCILLATORS,
            n == oscillators.len(),
            oscillators == patch@.oscillators,
            views(out@) == patch_dump(oscillators.take(i as int)),
        decreases n - i,
    {
        let osc = &patch.oscillators[i];
        push_settings(&mut out, osc, i);
        push_sends(&mut out, osc, i);
        proof {
            let next = oscillators.take(i + 1);
            assert(next.drop_last() =~= oscillators.take(i as int));
            assert(next.last() == *osc);
        }
        i += 1;
    }
    assert(oscillators.take(n as int) =~= oscillators);
    Packet::bundle((0, 0), out)
}

} // verus!
