//! One voice of the pool: what the engine remembers of it, and what it asks of
//! the renderer on its behalf.
//!
//! The oscillator bank of a voice belongs to the renderer. The engine decides
//! what is done to it, and says so in actions, which the renderer carries out in
//! the order given.

use vstd::prelude::*;
use crate::patch::{OscPatch, Patch};
use crate::scalar::Scalar;

verus! {

/// The number of keys, and of voices in the pool.
pub const MAX_KEYS: usize = 128;

/// Something for the renderer to do.
#[derive(Clone, Copy, Debug, PartialEq, Eq, Structural)]
pub enum Action {
    /// Restart the oscillator phases and clear the filter delays of a voice.
    Reset { voice: usize },
    /// Bring the oscillator bank of a voice in line with the patch as it is now.
    Sync { voice: usize },
    /// Set the base frequency of one oscillator slot of a voice to the
    /// frequency of the voice's key.
    Tune { voice: usize, slot: usize },
    /// Set the velocity of a voice; zero silences it.
    Velocity { voice: usize, velocity: Scalar },
    /// Render one sample of a voice and add it to the mix.
    Render { voice: usize },
}

/// What the engine remembers of a voice.
#[derive(Clone, Copy, Debug, PartialEq, Eq, Structural)]
pub struct Voice {
    /// The key that the voice is bound to: its place in the pool.
    pub key: usize,
    /// The version of the patch that the oscillator bank was last brought in
    /// line with.
    pub patch_version: usize,
    /// The velocity of the note; zero when none sounds.
    pub velocity: Scalar,
}

/// The actions that tune the slots of a voice whose oscillators follow the
/// key, from the lowest slot up.
pub open spec fn tunes(oscillators: Seq<OscPatch>, voice: usize) -> Seq<Action>
    decreases oscillators.len(),
{
    if oscillators.len() == 0 {
        Seq::empty()
    } else {
        let rest = tunes(oscillators.drop_last(), voice);
        if oscillators.last().is_fixed_freq {
            rest
        } else {
            rest.push(Action::Tune { voice, slot: (oscillators.len() - 1) as usize })
        }
    }
}

impl Voice {
    /// The voice after a note with the velocity `vel` has started.
    pub open spec fn struck(self, vel: Scalar) -> Voice {
        Voice { velocity: vel, ..self }
    }

    /// The voice after its note has ended.
    pub open spec fn released(self) -> Voice {
        Voice { velocity: Scalar { bits: 0 }, ..self }
    }

    /// The voice after its bank was brought in line with the version `version`.
    pub open spec fn synced(self, version: usize) -> Voice {
        Voice { patch_version: version, ..self }
    }

    /// A voice for the key `key`, silent, in line with version 0.
    pub fn new(key: usize) -> (r: Voice)
        ensures
            r == (Voice { key, patch_version: 0, velocity: Scalar { bits: 0 } }),
    {
        Voice { key, patch_version: 0, velocity: Scalar::zero() }
    }

    /// The version of the patch that the voice was last brought in line with.
    pub fn patch_version(&self) -> (r: usize)
        ensures
            r == self.patch_version,
    {
        self.patch_version
    }

    /// Notes that the bank is brought in line with the patch at `patch_version`,
    /// and asks the renderer to do so.
    pub fn update_patch(&mut self, patch: &Patch, patch_version: usize) -> (r: Action)
        ensures
            *final(self) == old(self).synced(patch_version),
            r == (Action::Sync { voice: old(self).key }),
    {
        self.patch_version = patch_version;
        Action::Sync { voice: self.key }
    }

    /// Asks the renderer to restart the voice.
    pub fn reset(&self) -> (r: Action)
        ensures
            r == (Action::Reset { voice: self.key }),
    {
        Action::Reset { voice: self.key }
    }

    /// Starts a note: every oscillator of the patch that follows the key is
    /// tuned to the voice's key, and the velocity is set. The voice is bound to
    /// its own key, whatever `key` says.
    pub fn note_on(&mut self, key: usize, vel: Scalar, patch: &Patch) -> (r: Vec<Action>)
        ensures
            *final(self) == old(self).struck(vel),
            r@ == tunes(patch.oscillators@, old(self).key).push(
                Action::Velocity { voice: old(self).key, velocity: vel },
            ),
    {
        let mut actions: Vec<Action> = Vec::new();
        let mut i: usize = 0;
        while i < patch.oscillators.len()
            invariant
                i <= patch.oscillators.len(),
                actions@ == tunes(patch.oscillators@.take(i as int), self.key),
                *self == *old(self),
            decreases patch.oscillators.len() - i,
        {
            proof {
                let next = patch.oscillators@.take(i + 1);
                assert(next.drop_last() =~= patch.oscillators@.take(i as int));
                assert(next.last() == patch.oscillators@[i as int]);
            }
            if !patch.oscillators[i].is_fixed_freq {
                actions.push(Action::Tune { voice: self.key, slot: i });
            }
            i += 1;
        }
        assert(patch.oscillators@.take(i as int) =~= patch.oscillators@);
        self.velocity = vel;
        actions.push(Action::Velocity { voice: self.key, velocity: vel });
        actions
    }

    /// Ends the note: the voice falls silent at once, whatever `key` and `vel` say.
    pub fn note_off(&mut self, key: usize, vel: Scalar) -> (r: Action)
        ensures
            *final(self) == old(self).released(),
            r == (Action::Velocity { voice: old(self).key, velocity: Scalar { bits: 0 } }),
    {
        self.velocity = Scalar::zero();
        Action::Velocity { voice: self.key, velocity: Scalar::zero() }
    }

    /// Asks the renderer for one sample of the voice.
    pub fn process(&self) -> (r: Action)
        ensures
            r == (Action::Render { voice: self.key }),
    {
        Action::Render { voice: self.key }
    }
}

} // verus!
