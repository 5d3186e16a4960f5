//! What the audio transport hands to a processor for one block.

use vstd::prelude::*;
use std::marker::PhantomData;
use std::ops::{Index, IndexMut};

verus! {

/// A buffer of samples to read, one per frame.
pub trait AudioInputBuffer: Index<usize> {

}

/// A buffer of samples to fill, one per frame.
pub trait AudioOutputBuffer: AudioInputBuffer + IndexMut<usize> {

}

/// The frames of a block and the two channels to fill.
#[verifier::reject_recursive_types(S)]
#[verifier::reject_recursive_types(O)]
pub struct ProcessingArgs<'a, S, O> where O: AudioOutputBuffer<Output = S> + 'a {
    pub num_frames: usize,
    pub audio_out_left: &'a mut O,
    pub audio_out_right: &'a mut O,
    pub phantom1: PhantomData<&'a O>,
}

impl<'a, S, O> ProcessingArgs<'a, S, O> where O: AudioOutputBuffer<Output = S> + 'a {
    /// The arguments for a block of `num_frames` frames. What is then written
    /// through the two fields is written to the two buffers.
    pub fn new(num_frames: usize, audio_out_left: &'a mut O, audio_out_right: &'a mut O) -> (r:
        ProcessingArgs<'a, S, O>)
        ensures
            r.num_frames == num_frames,
            *r.audio_out_left == *old(audio_out_left),
            *r.audio_out_right == *old(audio_out_right),
            *final(audio_out_left) == *final(r.audio_out_left),
            *final(audio_out_right) == *final(r.audio_out_right),
    {
        ProcessingArgs { num_frames, audio_out_left, audio_out_right, phantom1: PhantomData }
    }
}

/// Something that fills the channels of a block.
pub trait Processor<'a, S, O> where O: AudioOutputBuffer<Output = S> {
    fn process(&mut self, args: ProcessingArgs<'a, S, O>);
}

} // verus!
