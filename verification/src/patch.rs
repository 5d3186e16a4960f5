//! The patch: what every voice is made of.
//!
//! A patch describes up to eight oscillators and up to two filters, and how
//! much of each oscillator's signal is sent to modulate the amplitude and the
//! frequency of the others. It carries a version, which goes up by one with
//! every change, so that a voice can tell whether it still renders the patch as
//! it is now.

use vstd::prelude::*;
use crate::scalar::{unit, Scalar};
use crate::text::str_eq;
use crate::wavetable::Stock;

verus! {

/// The number of oscillator slots of a voice.
pub const MAX_OSCILLATORS: usize = 8;

/// The number of filter slots of a voice.
pub const MAX_FILTERS: usize = 2;

/// The bits of the nearest binary64 number to 0.7.
pub const SEVEN_TENTHS: u64 = 0x3FE6_6666_6666_6666;

/// The next version after `version`: one more, and zero after the last one
/// that the machine can count.
pub open spec fn next_version(version: usize) -> usize {
    if version == usize::MAX {
        0
    } else {
        (version + 1) as usize
    }
}

/// One oscillator of a patch.
#[derive(Clone, Debug)]
pub struct OscPatch {
    pub is_enabled: bool,
    /// Oscillator signal amplitude.
    pub amplitude: Scalar,
    /// The name of the waveform.
    pub wavetable: String,
    /// When true, a new note does not restart the phase.
    pub is_free_phase: bool,
    /// The phase that a note starts at, in radians.
    pub initial_phase: Scalar,
    /// When true, the base frequency does not follow the key.
    pub is_fixed_freq: bool,
    pub base_frequency: Scalar,
    /// Octaves to shift from the base frequency.
    pub octaves: Scalar,
    /// Semitones to shift from the base frequency.
    pub semitones: Scalar,
    /// Fine shift from the base frequency, in cents.
    pub detune: Scalar,
    /// Send levels for amplitude modulation, by destination slot.
    pub amp_mod: [Option<Scalar>; 8],
    /// Send levels for frequency modulation, by destination slot.
    pub freq_mod: [Option<Scalar>; 8],
    /// Send levels for the filter inputs, by filter slot.
    pub filt_send: [Option<Scalar>; 8],
    /// Mix level.
    pub level: Scalar,
    /// Panning, from -1 (left) to +1 (right).
    pub panning: Scalar,
}

impl OscPatch {
    /// An oscillator as a new patch has it: an enabled sine at 440 Hz with
    /// amplitude and level 1, in the middle, that follows the key and sends
    /// nothing.
    pub open spec fn is_initial(self) -> bool {
        &&& self.is_enabled
        &&& self.amplitude.value() == unit()
        &&& self.wavetable@ == "sin"@
        &&& !self.is_free_phase
        &&& self.initial_phase.bits == 0
        &&& !self.is_fixed_freq
        &&& self.base_frequency.value() == 440 * unit()
        &&& self.octaves.bits == 0
        &&& self.semitones.bits == 0
        &&& self.detune.bits == 0
        &&& self.amp_mod@ == Seq::new(8, |i: int| None::<Scalar>)
        &&& self.freq_mod@ == Seq::new(8, |i: int| None::<Scalar>)
        &&& self.filt_send@ == Seq::new(8, |i: int| None::<Scalar>)
        &&& self.level.value() == unit()
        &&& self.panning.bits == 0
        &&& !self.amplitude.nan()
        &&& !self.base_frequency.nan()
        &&& !self.level.nan()
    }

    /// The waveform that the oscillator plays: the one that `wavetable` names,
    /// and the sine where it names none.
    pub open spec fn stock(self) -> Stock {
        match Stock::named(self.wavetable@) {
            Some(stock) => stock,
            None => Stock::Sin,
        }
    }

    /// The waveform that the oscillator plays.
    pub fn get_wavetable(&self) -> (r: Stock)
        ensures
            r == self.stock(),
    {
        match Stock::from_name(self.wavetable.as_str()) {
            Some(stock) => stock,
            None => Stock::Sin,
        }
    }
}

impl Default for OscPatch {
    fn default() -> (r: Self)
        ensures
            r.is_initial(),
    {
        let r = OscPatch {
            is_enabled: true,
            amplitude: Scalar::from_int(1),
            wavetable: "sin".to_owned(),
            is_free_phase: false,
            initial_phase: Scalar::zero(),
            is_fixed_freq: false,
            base_frequency: Scalar::from_int(440),
            octaves: Scalar::zero(),
            semitones: Scalar::zero(),
            detune: Scalar::zero(),
            amp_mod: [None; 8],
            freq_mod: [None; 8],
            filt_send: [None; 8],
            level: Scalar::from_int(1),
            panning: Scalar::zero(),
        };
        assert(r.amp_mod@ =~= Seq::new(8, |i: int| None::<Scalar>));
        assert(r.freq_mod@ =~= Seq::new(8, |i: int| None::<Scalar>));
        assert(r.filt_send@ =~= Seq::new(8, |i: int| None::<Scalar>));
        r
    }
}

/// One filter of a patch.
#[derive(Clone, Debug)]
pub struct FilterPatch {
    pub mode: String,
    pub slope: String,
    pub freq: Scalar,
    pub res: Scalar,
    /// Send levels for amplitude modulation, by destination slot.
    pub amp_mod: [Option<Scalar>; 8],
    /// Send levels for frequency modulation, by destination slot.
    pub freq_mod: [Option<Scalar>; 8],
    /// Send levels for the filter inputs, by filter slot.
    pub filt_send: [Option<Scalar>; 8],
    /// Panning, from -1 (left) to +1 (right).
    pub panning: Scalar,
    /// Mix level.
    pub level: Scalar,
}

/// A patch.
#[derive(Clone, Debug)]
pub struct Patch {
    pub oscillators: Vec<OscPatch>,
    pub filters: Vec<FilterPatch>,
    /// Goes up by one with every change.
    pub version: usize,
}

/// What a patch holds.
pub struct PatchView {
    pub oscillators: Seq<OscPatch>,
    pub filters: Seq<FilterPatch>,
    pub version: usize,
}

impl View for Patch {
    type V = PatchView;

    open spec fn view(&self) -> PatchView {
        PatchView { oscillators: self.oscillators@, filters: self.filters@, version: self.version }
    }
}

impl PatchView {
    /// The patch fits a voice: no more oscillators and filters than a voice has
    /// slots.
    pub open spec fn wf(self) -> bool {
        &&& self.oscillators.len() <= MAX_OSCILLATORS
        &&& self.filters.len() <= MAX_FILTERS
    }

    /// The patch that a new synthesizer starts with: four oscillators and no
    /// filter, at version 0. The first is heard alone; the third is fixed at
    /// 4 Hz and modulates the frequency of the first by 0.7; the fourth stands
    /// eight semitones up at level -1.
    pub open spec fn is_initial(self) -> bool {
        let o = self.oscillators;
        &&& self.version == 0
        &&& self.filters.len() == 0
        &&& o.len() == 4
        &&& o[0].is_initial()
        &&& (OscPatch { level: o[0].level, ..o[1] }).is_initial()
        &&& o[1].level.bits == 0
        &&& (OscPatch {
            level: o[0].level,
            is_fixed_freq: false,
            base_frequency: o[0].base_frequency,
            freq_mod: o[0].freq_mod,
            ..o[2]
        }).is_initial()
        &&& o[2].level.bits == 0
        &&& o[2].is_fixed_freq
        &&& o[2].base_frequency.value() == 4 * unit()
        &&& !o[2].base_frequency.nan()
        &&& o[2].freq_mod@ == Seq::new(8, |i: int| None::<Scalar>).update(
            0,
            Some(Scalar { bits: SEVEN_TENTHS }),
        )
        &&& (OscPatch { level: o[0].level, semitones: o[0].semitones, ..o[3] }).is_initial()
        &&& o[3].level.value() == -unit()
        &&& !o[3].level.nan()
        &&& o[3].semitones.value() == 8 * unit()
        &&& !o[3].semitones.nan()
    }
}

impl Patch {
    /// Whether the patch fits a voice.
    pub fn is_wf(&self) -> (r: bool)
        ensures
            r == self@.wf(),
    {
        self.oscillators.len() <= MAX_OSCILLATORS && self.filters.len() <= MAX_FILTERS
    }
}

impl Default for Patch {
    fn default() -> (r: Self)
        ensures
            r@.is_initial(),
            r@.wf(),
    {
        let o1 = OscPatch::default();
        let mut o2 = OscPatch::default();
        let mut o3 = OscPatch::default();
        let mut o4 = OscPatch::default();
        o2.level = Scalar::zero();
        o3.level = Scalar::zero();
        o3.is_fixed_freq = true;
        o3.base_frequency = Scalar::from_int(4);
        o3.freq_mod[0] = Some(Scalar { bits: SEVEN_TENTHS });
        o4.level = Scalar::from_int(-1);
        o4.semitones = Scalar::from_int(8);
        let mut oscillators: Vec<OscPatch> = Vec::new();
        oscillators.push(o1);
        oscillators.push(o2);
        oscillators.push(o3);
        oscillators.push(o4);
        Patch { oscillators, filters: Vec::new(), version: 0 }
    }
}

} // verus!
