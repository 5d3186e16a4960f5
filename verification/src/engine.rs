//! The engine: which messages are due before which sample of a block.
//!
//! A block of `n` frames starts at a timestamp, in nanoseconds. Frame `s` ends
//! at the boundary `start + ceil((s + 1) * 10^9 / rate)`. Before a frame is
//! rendered, the synthesizer is handed every pending message with a timestamp
//! below the frame's boundary, in the order of the timestamps, and within one
//! timestamp in the order in which the messages came.

use vstd::prelude::*;
use crate::events::{
    before, flattened, from, messages_view, EventsBuffer, Message, MessageView, Timeline, Timestamp,
};
use crate::packet::{views, Packet, PacketView};
use crate::synth::{Synth, SynthView};
use crate::voice::Action;

verus! {

/// The nanoseconds of a second.
pub const NANOS_PER_SECOND: u64 = 1_000_000_000;

/// The end of frame `s` of a block that starts at `start`: the start and the
/// length of `s + 1` frames, rounded up to a whole nanosecond.
pub open spec fn boundary(start: Timestamp, rate: u32, s: int) -> int {
    start + ((s + 1) * NANOS_PER_SECOND + rate - 1) / (rate as int)
}

/// The synthesizer takes a message.
pub open spec fn event(synth: SynthView, message: MessageView) -> (SynthView, Seq<Action>) {
    match message {
        MessageView::NoteOn { key, velocity } => synth.note_on(key as usize, velocity),
        MessageView::NoteOff { key, velocity } => synth.note_off(key as usize),
        MessageView::Control(packet) => synth.control(packet),
    }
}

/// The synthesizer takes messages one after the other.
pub open spec fn events(synth: SynthView, messages: Seq<MessageView>) -> (SynthView, Seq<Action>)
    decreases messages.len(),
{
    if messages.len() == 0 {
        (synth, Seq::empty())
    } else {
        let (state, actions) = events(synth, messages.drop_last());
        let (last_state, last_actions) = event(state, messages.last());
        (last_state, actions + last_actions)
    }
}

/// What is to be done for one frame.
pub struct Frame {
    /// What the renderer is to do, in this order; the sample of the frame is
    /// the sum of what the `Render` actions give.
    pub actions: Vec<Action>,
    /// The packets to send out.
    pub outbound: Vec<Packet>,
}

/// What a frame holds.
pub struct FrameView {
    pub actions: Seq<Action>,
    pub outbound: Seq<PacketView>,
}

impl View for Frame {
    type V = FrameView;

    open spec fn view(&self) -> FrameView {
        FrameView { actions: self.actions@, outbound: views(self.outbound@) }
    }
}

/// The state of an engine.
pub struct EngineView {
    pub sample_rate: u32,
    pub synth: SynthView,
    /// The messages of the block that are not handed on yet.
    pub pending: Timeline,
    /// The start of the block.
    pub timestamp: Timestamp,
    /// The number of frames of the block.
    pub num_frames: usize,
    /// The number of frames of the block that are done.
    pub frame: usize,
}

impl EngineView {
    /// The state is in order.
    pub open spec fn wf(self) -> bool {
        &&& self.sample_rate > 0
        &&& self.synth.wf()
        &&& crate::events::ascending(self.pending)
        &&& crate::events::filled(self.pending)
        &&& self.frame <= self.num_frames
    }

    /// A block of `num_frames` frames starts at `timestamp` with the messages
    /// `batch`. What was left of the block before is dropped.
    pub open spec fn begin(self, batch: Timeline, timestamp: Timestamp, num_frames: usize) -> EngineView {
        EngineView { pending: batch, timestamp, num_frames, frame: 0, ..self }
    }

    /// The next frame of the block: the messages below its boundary are handed
    /// to the synthesizer, what the synthesizer has to send is taken out, and
    /// the sounding voices are rendered.
    pub open spec fn step(self) -> (EngineView, FrameView) {
        let bound = boundary(self.timestamp, self.sample_rate, self.frame as int);
        let (taken, actions) = events(self.synth, flattened(before(self.pending, bound)));
        let (rendered, renders) = (SynthView { queued: Seq::empty(), ..taken }).process();
        (
            EngineView {
                synth: rendered,
                pending: from(self.pending, bound),
                frame: (self.frame + 1) as usize,
                ..self
            },
            FrameView { actions: actions + renders, outbound: taken.queued },
        )
    }
}

/// The engine.
pub struct Engine {
    sample_rate: u32,
    synth: Synth,
    frame_events: EventsBuffer,
    timestamp: Timestamp,
    num_frames: usize,
    frame: usize,
}

impl View for Engine {
    type V = EngineView;

    closed spec fn view(&self) -> EngineView {
        EngineView {
            sample_rate: self.sample_rate,
            synth: self.synth@,
            pending: self.frame_events@,
            timestamp: self.timestamp,
            num_frames: self.num_frames,
            frame: self.frame,
        }
    }
}

impl Engine {
    /// The state is in order.
    pub open spec fn wf(&self) -> bool {
        self@.wf()
    }

    /// An engine for the sample rate `sample_rate`, in hertz, with a new
    /// synthesizer and no block.
    pub fn new(sample_rate: u32) -> (r: Engine)
        requires
            sample_rate > 0,
        ensures
            r.wf(),
            r@.sample_rate == sample_rate,
            r@.synth.sample_rate == sample_rate,
            r@.synth.patch.is_initial(),
            r@.synth.active == Seq::<usize>::empty(),
            r@.synth.queued == Seq::<PacketView>::empty(),
            r@.pending == Seq::<(Timestamp, Seq<MessageView>)>::empty(),
            r@.num_frames == 0,
            r@.frame == 0,
    {
        Engine {
            sample_rate,
            synth: Synth::new(sample_rate),
            frame_events: EventsBuffer::new(),
            timestamp: 0,
            num_frames: 0,
            frame: 0,
        }
    }

    pub fn sample_rate(&self) -> (r: u32)
        ensures
            r == self@.sample_rate,
    {
        self.sample_rate
    }

    /// The synthesizer.
    pub fn synth(&self) -> (r: &Synth)
        ensures
            r@ == self@.synth,
    {
        &self.synth
    }

    /// The end of frame `s` of the block.
    fn frame_end(&self, s: usize) -> (r: u128)
        requires
            self.wf(),
        ensures
            r == boundary(self@.timestamp, self@.sample_rate, s as int),
    {
        frame_boundary(self.timestamp, self.sample_rate, s)
    }

    /// Starts a block of `num_frames` frames at `timestamp`: takes from `input`
    /// every message with a timestamp below the end of the block.
    pub fn begin_block(&mut self, input: &mut EventsBuffer, timestamp: Timestamp, num_frames: usize)
        requires
            old(self).wf(),
            old(input).wf(),
        ensures
            final(self).wf(),
            final(input).wf(),
            final(input)@ == from(
                old(input)@,
                boundary(timestamp, old(self)@.sample_rate, num_frames - 1),
            ),
            final(self)@ == old(self)@.begin(
                before(old(input)@, boundary(timestamp, old(self)@.sample_rate, num_frames - 1)),
                timestamp,
                num_frames,
            ),
    {
        self.timestamp = timestamp;
        self.num_frames = num_frames;
        self.frame = 0;
        let end = if num_frames == 0 {
            assert(boundary(timestamp, self.sample_rate, -1) == timestamp) by {
                assert((self.sample_rate - 1) / (self.sample_rate as int) == 0) by (nonlinear_arith)
                    requires
                        self.sample_rate > 0,
                ;
            }
            timestamp as u128
        } else {
            self.frame_end(num_frames - 1)
        };
        self.frame_events = input.split_below(end);
    }

    /// The next frame of the block, if the block has one left.
    pub fn next_frame(&mut self) -> (r: Option<Frame>)
        requires
            old(self).wf(),
        ensures
            final(self).wf(),
            match r {
                Some(frame) => old(self)@.frame < old(self)@.num_frames && (final(self)@, frame@)
                    == old(self)@.step(),
                None => old(self)@.frame >= old(self)@.num_frames && final(self)@ == old(self)@,
            },
    {
        if self.frame >= self.num_frames {
            return None;
        }
        let bound = self.frame_end(self.frame);
        let due = self.frame_events.split_below(bound);
        let mut actions = apply(&mut self.synth, &due);
        let outbound = self.synth.output();
        let mut renders = self.synth.process();
        actions.append(&mut renders);
        self.frame = self.frame + 1;
        let frame = Frame { actions, outbound };
        proof {
            let (state, expected) = old(self)@.step();
            assert(self@.synth == state.synth);
            assert(frame@.actions =~= expected.actions);
        }
        Some(frame)
    }
}

/// The end of frame `s` of a block that starts at `start`, at `rate` hertz.
pub fn frame_boundary(start: Timestamp, rate: u32, s: usize) -> (r: u128)
    requires
        rate > 0,
    ensures
        r == boundary(start, rate, s as int),
{
    let frames = s as u128 + 1;
    assert(frames * 1_000_000_000 <= 0x1_0000_0000_0000_0000 * 1_000_000_000) by (nonlinear_arith)
        requires
            frames <= 0x1_0000_0000_0000_0000,
    ;
    let span = (frames * (NANOS_PER_SECOND as u128) + (rate as u128) - 1) / (rate as u128);
    start as u128 + span
}

/// Hands the messages of `due` to the synthesizer, in the order of their
/// timestamps, and returns what they ask of the renderer.
pub fn apply(synth: &mut Synth, due: &EventsBuffer) -> (r: Vec<Action>)
    requires
        old(synth).wf(),
    ensures
        final(synth).wf(),
        (final(synth)@, r@) == events(old(synth)@, flattened(due@)),
{
    let mut actions: Vec<Action> = Vec::new();
    let mut cursor = due.iter();
    let ghost tl = due@;
    let ghost start = synth@;
    assert(tl.take(0) =~= Seq::empty());
    loop
        invariant
            synth.wf(),
            cursor.timeline() == tl,
            0 <= cursor.position() <= tl.len(),
            (synth@, actions@) == events(start, flattened(tl.take(cursor.position()))),
        ensures
            (synth@, actions@) == events(start, flattened(tl)),
        decreases tl.len() - cursor.position(),
    {
        let ghost p = cursor.position();
        match cursor.next() {
            Some((_, messages)) => {
                let ghost done = flattened(tl.take(p));
                let ghost list = messages_view(messages@);
                let mut j: usize = 0;
                assert(done + list.take(0) =~= done);
                while j < messages.len()
                    invariant
                        j <= messages.len(),
                        synth.wf(),
                        list == messages_view(messages@),
                        (synth@, actions@) == events(start, done + list.take(j as int)),
                    decreases messages.len() - j,
                {
                    proof {
                        let now = done + list.take(j + 1);
                        assert(now.drop_last() =~= done + list.take(j as int));
                        assert(now.last() == messages@[j as int]@);
                    }
                    let mut more = match &messages[j] {
                        Message::NoteOn { key, velocity } => synth.note_on(*key as usize, *velocity),
                        Message::NoteOff { key, velocity } => synth.note_off(*key as usize, *velocity),
                        Message::Control(packet) => synth.control(packet),
                    };
                    actions.append(&mut more);
                    j += 1;
                }
                proof {
                    assert(list.take(j as int) =~= list);
                    let next = tl.take(p + 1);
                    assert(next.drop_last() =~= tl.take(p));
                    assert(next.last() == tl[p]);
                }
            },
            None => {
                assert(tl.take(p) =~= tl);
                break ;
            },
        }
    }
    actions
}

/// What is left of the messages `tl` of a block after its first `k` frames.
pub open spec fn pending_after(tl: Timeline, start: Timestamp, rate: u32, k: int) -> Timeline
    decreases k,
{
    if k <= 0 {
        tl
    } else {
        from(pending_after(tl, start, rate, k - 1), boundary(start, rate, k - 1))
    }
}

/// The entries of the messages `tl` of a block that are handed on in frame `s`.
pub open spec fn due_in(tl: Timeline, start: Timestamp, rate: u32, s: int) -> Timeline {
    before(pending_after(tl, start, rate, s), boundary(start, rate, s))
}

/// The state of an engine after `k` more frames.
pub open spec fn after_frames(e: EngineView, k: int) -> EngineView
    decreases k,
{
    if k <= 0 {
        e
    } else {
        after_frames(e, k - 1).step().0
    }
}

/// In a block, the frames hand on what `due_in` says: the messages that
/// frame `k` hands to the synthesizer are those of the block that are due in
/// frame `k`, and what is left after `k` frames is what `pending_after` says.
pub proof fn lemma_frames(e: EngineView, k: int)
    requires
        e.frame == 0,
        0 <= k <= e.num_frames,
    ensures
        after_frames(e, k).frame == k,
        after_frames(e, k).timestamp == e.timestamp,
        after_frames(e, k).sample_rate == e.sample_rate,
        after_frames(e, k).num_frames == e.num_frames,
        after_frames(e, k).pending == pending_after(e.pending, e.timestamp, e.sample_rate, k),
        before(after_frames(e, k).pending, boundary(e.timestamp, e.sample_rate, k)) == due_in(
            e.pending,
            e.timestamp,
            e.sample_rate,
            k,
        ),
    decreases k,
{
    if k > 0 {
        lemma_frames(e, k - 1);
    }
}

/// The boundaries of a block never go down from frame to frame, and go up
/// where a frame lasts a nanosecond or longer.
pub proof fn lemma_boundary_order(start: Timestamp, rate: u32, s: int)
    requires
        rate > 0,
    ensures
        boundary(start, rate, s) <= boundary(start, rate, s + 1),
        rate <= NANOS_PER_SECOND ==> boundary(start, rate, s) < boundary(start, rate, s + 1),
{
    let a = (s + 1) * NANOS_PER_SECOND + rate - 1;
    let b = (s + 2) * NANOS_PER_SECOND + rate - 1;
    let r = rate as int;
    assert(b == a + NANOS_PER_SECOND) by (nonlinear_arith)
        requires
            a == (s + 1) * NANOS_PER_SECOND + rate - 1,
            b == (s + 2) * NANOS_PER_SECOND + rate - 1,
    ;
    vstd::arithmetic::div_mod::lemma_div_is_ordered(a, b, r);
    if rate <= NANOS_PER_SECOND {
        vstd::arithmetic::div_mod::lemma_div_is_ordered(a + r, b, r);
        vstd::arithmetic::div_mod::lemma_div_plus_one(a, r);
    }
}

/// Sample-accurate scheduling: a message of a block is handed on in frame `s`
/// exactly when its timestamp is below the boundary of `s` and, for a frame
/// after the first, not below the boundary of the frame before.
pub proof fn lemma_sample_accurate(tl: Timeline, start: Timestamp, rate: u32, s: int, i: int)
    requires
        rate > 0,
        0 <= s,
        0 <= i < tl.len(),
    ensures
        due_in(tl, start, rate, s).contains(tl[i]) <==> (s == 0 || boundary(start, rate, s - 1)
            <= tl[i].0) && tl[i].0 < boundary(start, rate, s),
{
    lemma_pending_after(tl, start, rate, s, i);
    let rest = pending_after(tl, start, rate, s);
    let low = crate::events::is_below(boundary(start, rate, s));
    if due_in(tl, start, rate, s).contains(tl[i]) {
        rest.lemma_filter_contains_rev(low, tl[i]);
    }
    if rest.contains(tl[i]) && tl[i].0 < boundary(start, rate, s) {
        let k = choose|k: int| 0 <= k < rest.len() && rest[k] == tl[i];
        rest.lemma_filter_contains(low, k);
    }
}

/// The boundaries of a block never go down.
pub proof fn lemma_boundary_monotonic(start: Timestamp, rate: u32, a: int, b: int)
    requires
        rate > 0,
        a <= b,
    ensures
        boundary(start, rate, a) <= boundary(start, rate, b),
{
    let x = (a + 1) * NANOS_PER_SECOND + rate - 1;
    let y = (b + 1) * NANOS_PER_SECOND + rate - 1;
    assert(x <= y) by (nonlinear_arith)
        requires
            a <= b,
            x == (a + 1) * NANOS_PER_SECOND + rate - 1,
            y == (b + 1) * NANOS_PER_SECOND + rate - 1,
    ;
    vstd::arithmetic::div_mod::lemma_div_is_ordered(x, y, rate as int);
}

/// A message whose timestamp is exactly the boundary of frame `k` is handed on
/// in the frame after `k`, and in no frame before: the frames up to `k` are
/// rendered without it, and the frame after `k` is the first with it. This
/// holds where a frame lasts a nanosecond or longer.
pub proof fn lemma_message_at_boundary(tl: Timeline, start: Timestamp, rate: u32, k: int, i: int, s: int)
    requires
        0 < rate <= NANOS_PER_SECOND,
        0 <= k,
        0 <= i < tl.len(),
        tl[i].0 == boundary(start, rate, k),
        0 <= s,
    ensures
        due_in(tl, start, rate, s).contains(tl[i]) <==> s == k + 1,
{
    lemma_sample_accurate(tl, start, rate, s, i);
    if s <= k {
        lemma_boundary_monotonic(start, rate, s, k);
    } else {
        lemma_boundary_order(start, rate, k);
        lemma_boundary_monotonic(start, rate, k + 1, s);
        if s > k + 1 {
            lemma_boundary_monotonic(start, rate, k + 1, s - 1);
        }
    }
}

/// What is left after `k` frames are the messages that are not below the
/// boundary of the last of them.
proof fn lemma_pending_after(tl: Timeline, start: Timestamp, rate: u32, k: int, i: int)
    requires
        rate > 0,
        0 <= k,
        0 <= i < tl.len(),
    ensures
        pending_after(tl, start, rate, k).contains(tl[i]) <==> (k == 0 || boundary(start, rate, k - 1)
            <= tl[i].0),
    decreases k,
{
    if k == 0 {
        assert(tl.contains(tl[i]));
    } else {
        lemma_pending_after(tl, start, rate, k - 1, i);
        let rest = pending_after(tl, start, rate, k - 1);
        let high = crate::events::is_from(boundary(start, rate, k - 1));
        if k >= 2 {
            lemma_boundary_order(start, rate, k - 2);
        }
        if rest.filter(high).contains(tl[i]) {
            rest.lemma_filter_contains_rev(high, tl[i]);
        }
        if rest.contains(tl[i]) && tl[i].0 >= boundary(start, rate, k - 1) {
            let j = choose|j: int| 0 <= j < rest.len() && rest[j] == tl[i];
            rest.lemma_filter_contains(high, j);
        }
    }
}

} // verus!
