//! The control and scheduling side of a polyphonic wavetable synthesizer.
//!
//! The synthesizer renders audio sample by sample from a patch, while notes
//! and control messages arrive from MIDI devices and from the network. This
//! library holds everything of it that is decided rather than computed on
//! samples, and proves it:
//!
//! - [`events`]: the buffer that keeps pending messages in the order of their
//!   timestamps, and its split at a point in time;
//! - [`engine`]: which messages are due before which frame of a block;
//! - [`synth`], [`voice`]: the voice pool, the sounding voices, the versions of
//!   the patch, and what the renderer is asked to do;
//! - [`control`], [`packet`]: the control surface and its messages;
//! - [`patch`], [`matrix`]: the patch and its modulation matrix;
//! - [`scalar`]: real-valued parameters, held by their binary64 bit pattern;
//! - [`filter`]: when a filter brings its coefficients and delays up to date;
//! - [`midi`]: notes from the bytes of a MIDI device;
//! - [`wavetable`], [`processing`], [`text`]: stock waveforms, the arguments
//!   of a block, and string comparison.
//!
//! The arithmetic on samples (oscillators, filters, panning, mixing) is the
//! renderer's; it reads the patch and carries out the actions that the
//! synthesizer returns.

pub mod scalar;
pub mod text;
pub mod wavetable;
pub mod filter;
pub mod processing;
pub mod packet;
pub mod patch;
pub mod matrix;
pub mod events;
pub mod control;
pub mod voice;
pub mod synth;
pub mod engine;
pub mod midi;
