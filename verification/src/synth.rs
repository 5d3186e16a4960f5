//! The synthesizer: the voice pool, the set of sounding voices, and the patch
//! that they share.

use vstd::prelude::*;
use crate::control::{
    args_note, args_view, decode_note, edit_of, message_edit, sync_packet, sync_reply, Edit, ADDR_NOTE,
    ADDR_SYNC,
};
use crate::packet::{views, Arg, Packet, PacketView};
use crate::text::str_eq;
use crate::patch::{next_version, Patch, PatchView, MAX_OSCILLATORS};
use crate::scalar::Scalar;
use crate::voice::{tunes, Action, Voice, MAX_KEYS};

verus! {

/// The state of a synthesizer.
pub struct SynthView {
    pub sample_rate: u32,
    pub patch: PatchView,
    /// The pool, by key.
    pub voices: Seq<Voice>,
    /// The keys of the sounding voices, in the order in which they started.
    pub active: Seq<usize>,
    /// The packets that wait to be sent out, oldest first.
    pub queued: Seq<PacketView>,
}

/// The voice that a key plays: the key's low seven bits.
pub open spec fn voice_of(key: usize) -> usize {
    key % MAX_KEYS
}

/// The list with `x` at its end, unless it holds `x` already.
pub open spec fn joined(list: Seq<usize>, x: usize) -> Seq<usize> {
    if list.contains(x) {
        list
    } else {
        list.push(x)
    }
}

/// Whether a number is another than `x`.
pub open spec fn is_not(x: usize) -> spec_fn(usize) -> bool {
    |y: usize| y != x
}

/// The list without `x`.
pub open spec fn parted(list: Seq<usize>, x: usize) -> Seq<usize> {
    list.filter(is_not(x))
}

/// What the renderer is asked for one sample of the sounding voices: of each in
/// turn a sample, after its bank is brought in line with the patch where it
/// is not.
pub open spec fn renders(voices: Seq<Voice>, active: Seq<usize>, version: usize) -> Seq<Action>
    decreases active.len(),
{
    if active.len() == 0 {
        Seq::empty()
    } else {
        let rest = renders(voices, active.drop_last(), version);
        let v = active.last();
        if voices[v as int].patch_version != version {
            rest.push(Action::Sync { voice: v }).push(Action::Render { voice: v })
        } else {
            rest.push(Action::Render { voice: v })
        }
    }
}

impl SynthView {
    /// The pool has a voice for each key, the sounding voices are in the pool
    /// and none is listed twice, and the patch fits a voice.
    pub open spec fn wf(self) -> bool {
        &&& self.voices.len() == MAX_KEYS
        &&& forall|i: int| 0 <= i < self.voices.len() ==> (#[trigger] self.voices[i]).key == i
        &&& forall|i: int| 0 <= i < self.active.len() ==> (#[trigger] self.active[i]) < MAX_KEYS
        &&& self.active.no_duplicates()
        &&& self.patch.wf()
    }

    /// A note starts on `key`: its voice is restarted, brought in line with the
    /// patch where it was not, tuned, given the velocity, and sounds.
    pub open spec fn note_on(self, key: usize, vel: Scalar) -> (SynthView, Seq<Action>) {
        let v = voice_of(key);
        let voice = self.voices[v as int];
        let head = if voice.patch_version != self.patch.version {
            seq![Action::Reset { voice: v }, Action::Sync { voice: v }]
        } else {
            seq![Action::Reset { voice: v }]
        };
        (
            SynthView {
                voices: self.voices.update(v as int, voice.synced(self.patch.version).struck(vel)),
                active: joined(self.active, v),
                ..self
            },
            head + tunes(self.patch.oscillators, v).push(Action::Velocity { voice: v, velocity: vel }),
        )
    }

    /// The note on `key` ends: its voice falls silent and sounds no more.
    pub open spec fn note_off(self, key: usize) -> (SynthView, Seq<Action>) {
        let v = voice_of(key);
        (
            SynthView {
                voices: self.voices.update(v as int, self.voices[v as int].released()),
                active: parted(self.active, v),
                ..self
            },
            seq![Action::Velocity { voice: v, velocity: Scalar { bits: 0 } }],
        )
    }

    /// A change is made to the oscillator in slot `index`, and the version of the
    /// patch goes up. Nothing happens where the patch has no such oscillator,
    /// where the change names a slot that no voice has, or where it cannot be
    /// made to the oscillator.
    pub open spec fn edit(self, index: usize, e: Edit) -> SynthView {
        if index < self.patch.oscillators.len() && e.wf() && e.applies(
            self.patch.oscillators[index as int],
        ) {
            SynthView {
                patch: PatchView {
                    oscillators: self.patch.oscillators.update(
                        index as int,
                        e.of(self.patch.oscillators[index as int]),
                    ),
                    version: next_version(self.patch.version),
                    ..self.patch
                },
                ..self
            }
        } else {
            self
        }
    }

    /// The patch is reported: the reply joins the packets that wait to be sent.
    pub open spec fn sync(self) -> SynthView {
        SynthView { queued: self.queued.push(sync_reply(self.patch.oscillators)), ..self }
    }

    /// A message is taken: a request for the patch, a note, or a change to an
    /// oscillator. A message to another address, or with arguments that are
    /// not in order, is dropped.
    pub open spec fn message(self, addr: Seq<char>, args: Option<Seq<Arg>>) -> (SynthView, Seq<Action>) {
        if addr == ADDR_SYNC@ {
            (self.sync(), Seq::empty())
        } else if addr == ADDR_NOTE@ {
            match decode_note(args) {
                Some((key, velocity)) => if velocity.positive() {
                    self.note_on(key, velocity)
                } else {
                    self.note_off(key)
                },
                None => (self, Seq::empty()),
            }
        } else {
            match edit_of(addr, args) {
                Some((index, e)) => (self.edit(index, e), Seq::empty()),
                None => (self, Seq::empty()),
            }
        }
    }

    /// A packet is taken: a message, or the packets of a bundle one after the
    /// other.
    pub open spec fn control(self, packet: PacketView) -> (SynthView, Seq<Action>)
        decreases packet,
    {
        match packet {
            PacketView::Message { addr, args } => self.message(addr, args),
            PacketView::Bundle { timetag, content } => self.control_all(content),
        }
    }

    /// Packets are taken one after the other.
    pub open spec fn control_all(self, packets: Seq<PacketView>) -> (SynthView, Seq<Action>)
        decreases packets,
    {
        if packets.len() == 0 {
            (self, Seq::empty())
        } else {
            let (state, actions) = self.control_all(packets.drop_last());
            let (last_state, last_actions) = state.control(packets.last());
            (last_state, actions + last_actions)
        }
    }

    /// One sample is rendered: every sounding voice is in line with the patch
    /// afterwards.
    pub open spec fn process(self) -> (SynthView, Seq<Action>) {
        (
            SynthView {
                voices: Seq::new(
                    self.voices.len(),
                    |i: int|
                        if self.active.contains(i as usize) {
                            self.voices[i].synced(self.patch.version)
                        } else {
                            self.voices[i]
                        },
                ),
                ..self
            },
            renders(self.voices, self.active, self.patch.version),
        )
    }
}

/// The synthesizer.
pub struct Synth {
    sample_rate: u32,
    patch: Patch,
    voices: Vec<Voice>,
    active_voices: Vec<usize>,
    output_packets: Vec<Packet>,
}

impl View for Synth {
    type V = SynthView;

    closed spec fn view(&self) -> SynthView {
        SynthView {
            sample_rate: self.sample_rate,
            patch: self.patch@,
            voices: self.voices@,
            active: self.active_voices@,
            queued: views(self.output_packets@),
        }
    }
}

impl Synth {
    /// The state is in order.
    pub open spec fn wf(&self) -> bool {
        self@.wf()
    }

    /// A synthesizer with the starting patch, a silent voice for each key, and
    /// nothing to send.
    pub fn new(sample_rate: u32) -> (r: Synth)
        ensures
            r.wf(),
            r@.sample_rate == sample_rate,
            r@.patch.is_initial(),
            r@.voices == Seq::new(
                MAX_KEYS as nat,
                |i: int| Voice { key: i as usize, patch_version: 0, velocity: Scalar { bits: 0 } },
            ),
            r@.active == Seq::<usize>::empty(),
            r@.queued == Seq::<PacketView>::empty(),
    {
        let patch = Patch::default();
        let mut voices: Vec<Voice> = Vec::new();
        let mut key: usize = 0;
        while key < MAX_KEYS
            invariant
                key <= MAX_KEYS,
                voices@.len() == key,
                forall|i: int|
                    0 <= i < key ==> voices@[i] == (Voice {
                        key: i as usize,
                        patch_version: 0,
                        velocity: Scalar { bits: 0 },
                    }),
            decreases MAX_KEYS - key,
        {
            voices.push(Voice::new(key));
            key += 1;
        }
        let r = Synth {
            sample_rate,
            patch,
            voices,
            active_voices: Vec::new(),
            output_packets: Vec::new(),
        };
        proof {
            assert(r@.voices =~= Seq::new(
                MAX_KEYS as nat,
                |i: int| Voice { key: i as usize, patch_version: 0, velocity: Scalar { bits: 0 } },
            ));
            assert(r@.queued =~= Seq::<PacketView>::empty());
        }
        r
    }

    pub fn get_sample_rate(&self) -> (r: u32)
        ensures
            r == self@.sample_rate,
    {
        self.sample_rate
    }

    /// The patch as it is now.
    pub fn patch(&self) -> (r: &Patch)
        ensures
            r@ == self@.patch,
    {
        &self.patch
    }

    /// The voice that `key` plays.
    pub fn voice(&self, key: usize) -> (r: &Voice)
        requires
            self.wf(),
        ensures
            *r == self@.voices[voice_of(key) as int],
    {
        &self.voices[voice_index(key)]
    }

    /// The keys of the sounding voices, in the order in which they started.
    pub fn active_voices(&self) -> (r: &Vec<usize>)
        ensures
            r@ == self@.active,
    {
        &self.active_voices
    }

    /// Starts a note on `key` with the velocity `vel`.
    pub fn note_on(&mut self, key: usize, vel: Scalar) -> (r: Vec<Action>)
        requires
            old(self).wf(),
        ensures
            final(self).wf(),
            (final(self)@, r@) == old(self)@.note_on(key, vel),
    {
        let v = voice_index(key);
        let mut actions: Vec<Action> = Vec::new();
        actions.push(self.voices[v].reset());
        if self.voices[v].patch_version() != self.patch.version {
            let sync = self.voices[v].update_patch(&self.patch, self.patch.version);
            actions.push(sync);
        }
        let mut tuned = self.voices[v].note_on(key, vel, &self.patch);
        actions.append(&mut tuned);
        if !contains(&self.active_voices, v) {
            self.active_voices.push(v);
        }
        proof {
            let (s, a) = old(self)@.note_on(key, vel);
            assert(self@.voices =~= s.voices);
            assert(actions@ =~= a);
            assert(self@.active.no_duplicates());
        }
        actions
    }

    /// Ends the note on `key`.
    pub fn note_off(&mut self, key: usize, vel: Scalar) -> (r: Vec<Action>)
        requires
            old(self).wf(),
        ensures
            final(self).wf(),
            (final(self)@, r@) == old(self)@.note_off(key),
    {
        let v = voice_index(key);
        let mut actions: Vec<Action> = Vec::new();
        actions.push(self.voices[v].note_off(key, vel));
        remove(&mut self.active_voices, v);
        proof {
            let (s, a) = old(self)@.note_off(key);
            assert(self@.voices =~= s.voices);
            assert(actions@ =~= a);
            assert forall|i: int| 0 <= i < self@.active.len() implies (#[trigger] self@.active[i])
                < MAX_KEYS by {
                let y = self@.active[i];
                assert(self@.active.contains(y));
                let k = choose|k: int| 0 <= k < old(self)@.active.len() && old(self)@.active[k] == y;
                assert(old(self)@.active[k] < MAX_KEYS);
            }
        }
        actions
    }

    /// Makes a change to the oscillator in slot `index`.
    pub fn edit(&mut self, index: usize, e: Edit)
        requires
            old(self).wf(),
        ensures
            final(self).wf(),
            final(self)@ == old(self)@.edit(index, e),
    {
        if index >= self.patch.oscillators.len() {
            return ;
        }
        match e {
            Edit::Enabled(on) => {
                self.patch.oscillators[index].is_enabled = on;
            },
            Edit::FreePhase(on) => {
                self.patch.oscillators[index].is_free_phase = on;
            },
            Edit::FixedFreq(on) => {
                self.patch.oscillators[index].is_fixed_freq = on;
            },
            Edit::Amplitude(v) => {
                self.patch.oscillators[index].amplitude = v;
            },
            Edit::Frequency(v) => {
                if !self.patch.oscillators[index].is_fixed_freq {
                    return ;
                }
                self.patch.oscillators[index].base_frequency = v;
            },
            Edit::Octaves(v) => {
                self.patch.oscillators[index].octaves = v;
            },
            Edit::Semitones(v) => {
                self.patch.oscillators[index].semitones = v;
            },
            Edit::Detune(v) => {
                self.patch.oscillators[index].detune = v;
            },
            Edit::Level(v) => {
                self.patch.oscillators[index].level = v;
            },
            Edit::Panning(v) => {
                self.patch.oscillators[index].panning = v;
            },
            Edit::FreqMod(dst, v) => {
                if dst >= MAX_OSCILLATORS {
                    return ;
                }
                self.patch.oscillators[index].freq_mod[dst] = Some(v);
                assert(self.patch.oscillators@[index as int].freq_mod =~= vstd::array::spec_array_update(
                    old(self).patch.oscillators@[index as int].freq_mod,
                    dst as int,
                    Some(v),
                ));
            },
        }
        self.patch.version = bump(self.patch.version);
        proof {
            assert(self@.patch.oscillators =~= old(self)@.edit(index, e).patch.oscillators);
        }
    }

    /// Takes a request for the patch: the reply joins the packets that wait to
    /// be sent.
    fn control_sync(&mut self)
        requires
            old(self).wf(),
        ensures
            final(self).wf(),
            final(self)@ == old(self)@.sync(),
    {
        let reply = sync_packet(&self.patch);
        self.output_packets.push(reply);
        assert(self@.queued =~= old(self)@.sync().queued);
    }

    /// Takes a note message: a velocity above zero starts the note, any other
    /// ends it.
    fn control_note(&mut self, args: &Option<Vec<Arg>>) -> (r: Vec<Action>)
        requires
            old(self).wf(),
        ensures
            final(self).wf(),
            (final(self)@, r@) == match decode_note(args_view(*args)) {
                Some((key, velocity)) => if velocity.positive() {
                    old(self)@.note_on(key, velocity)
                } else {
                    old(self)@.note_off(key)
                },
                None => (old(self)@, Seq::empty()),
            },
    {
        match args_note(args) {
            Some((key, velocity)) => {
                if velocity.is_positive() {
                    self.note_on(key, velocity)
                } else {
                    self.note_off(key, velocity)
                }
            },
            None => Vec::new(),
        }
    }

    /// Takes a message.
    fn message(&mut self, addr: &str, args: &Option<Vec<Arg>>) -> (r: Vec<Action>)
        requires
            old(self).wf(),
        ensures
            final(self).wf(),
            (final(self)@, r@) == old(self)@.message(addr@, args_view(*args)),
    {
        if str_eq(addr, ADDR_SYNC) {
            self.control_sync();
            Vec::new()
        } else if str_eq(addr, ADDR_NOTE) {
            self.control_note(args)
        } else {
            match message_edit(addr, args) {
                Some((index, e)) => {
                    self.edit(index, e);
                    Vec::new()
                },
                None => Vec::new(),
            }
        }
    }

    /// Takes a control packet: a message, or the packets of a bundle one after
    /// the other. What it asks of the renderer is returned.
    pub fn control(&mut self, packet: &Packet) -> (r: Vec<Action>)
        requires
            old(self).wf(),
        ensures
            final(self).wf(),
            (final(self)@, r@) == old(self)@.control(packet@),
        decreases packet,
    {
        match packet {
            Packet::Message { addr, args } => self.message(addr.as_str(), args),
            Packet::Bundle { timetag, content } => {
                let mut actions: Vec<Action> = Vec::new();
                let ghost items = packet@->Bundle_content;
                let mut i: usize = 0;
                while i < content.len()
                    invariant
                        i <= content.len(),
                        self.wf(),
                        items.len() == content@.len(),
                        forall|j: int| 0 <= j < content@.len() ==> items[j] == content@[j]@,
                        forall|j: int|
                            0 <= j < content@.len() ==> decreases_to!(packet => #[trigger] content@[j]),
                        (self@, actions@) == old(self)@.control_all(items.take(i as int)),
                    decreases content.len() - i,
                {
                    proof {
                        let next = items.take(i + 1);
                        assert(next.drop_last() =~= items.take(i as int));
                        assert(next.last() == content@[i as int]@);
                    }
                    let mut more = self.control(&content[i]);
                    actions.append(&mut more);
                    i += 1;
                }
                assert(items.take(i as int) =~= items);
                actions
            },
        }
    }

    /// The packets that wait to be sent out; none waits afterwards.
    pub fn output(&mut self) -> (r: Vec<Packet>)
        ensures
            views(r@) == old(self)@.queued,
            final(self)@ == (SynthView { queued: Seq::empty(), ..old(self)@ }),
    {
        let mut packets: Vec<Packet> = Vec::new();
        std::mem::swap(&mut self.output_packets, &mut packets);
        assert(views(self.output_packets@) =~= Seq::empty());
        packets
    }

    /// One sample: what the renderer is to do for it.
    pub fn process(&mut self) -> (r: Vec<Action>)
        requires
            old(self).wf(),
        ensures
            final(self).wf(),
            (final(self)@, r@) == old(self)@.process(),
    {
        let mut actions: Vec<Action> = Vec::new();
        let version = self.patch.version;
        let ghost before = self@;
        let n = self.active_voices.len();
        let mut i: usize = 0;
        while i < n
            invariant
                i <= n,
                n == self.active_voices@.len(),
                before.wf(),
                version == before.patch.version,
                self@.patch == before.patch,
                self@.active == before.active,
                self@.queued == before.queued,
                self@.sample_rate == before.sample_rate,
                self@.voices.len() == before.voices.len(),
                forall|j: int|
                    0 <= j < before.voices.len() ==> self@.voices[j] == if before.active.take(
                        i as int,
                    ).contains(j as usize) {
                        before.voices[j].synced(version)
                    } else {
                        before.voices[j]
                    },
                actions@ == renders(before.voices, before.active.take(i as int), version),
            decreases n - i,
        {
            let v = self.active_voices[i];
            proof {
                let next = before.active.take(i + 1);
                assert(next.drop_last() =~= before.active.take(i as int));
                assert(next.last() == v);
                assert(before.active[i as int] == v);
                // v is not among the voices passed so far
                assert(!before.active.take(i as int).contains(v)) by {
                    if before.active.take(i as int).contains(v) {
                        let j = choose|j: int|
                            0 <= j < i && before.active.take(i as int)[j] == v;
                        assert(before.active[j] == before.active[i as int]);
                    }
                }
                assert forall|j: usize| next.contains(j) == (before.active.take(i as int).contains(j) || j == v) by {
                    if next.contains(j) {
                        let k = choose|k: int| 0 <= k < next.len() && next[k] == j;
                        if k < i {
                            assert(before.active.take(i as int)[k] == j);
                        }
                    }
                    if before.active.take(i as int).contains(j) {
                        let k = choose|k: int| 0 <= k < i && before.active.take(i as int)[k] == j;
                        assert(next[k] == j);
                    }
                    if j == v {
                        assert(next[i as int] == j);
                    }
                }
            }
            if self.voices[v].patch_version() != version {
                let sync = self.voices[v].update_patch(&self.patch, version);
                actions.push(sync);
            }
            actions.push(self.voices[v].process());
            i += 1;
        }
        proof {
            assert(before.active.take(n as int) =~= before.active);
            let (s, a) = before.process();
            assert(self@.voices =~= s.voices);
        }
        actions
    }
}

/// Every sounding voice is rendered.
pub proof fn lemma_renders_each(voices: Seq<Voice>, active: Seq<usize>, version: usize, i: int)
    requires
        0 <= i < active.len(),
    ensures
        renders(voices, active, version).contains(Action::Render { voice: active[i] }),
    decreases active.len(),
{
    let all = renders(voices, active, version);
    if i == active.len() - 1 {
        assert(all.last() == (Action::Render { voice: active[i] }));
    } else {
        let rest = renders(voices, active.drop_last(), version);
        lemma_renders_each(voices, active.drop_last(), version, i);
        let k = choose|k: int| 0 <= k < rest.len() && rest[k] == (Action::Render { voice: active[i] });
        assert(all[k] == rest[k]);
    }
}

/// Nothing is asked on behalf of a voice that does not sound.
pub proof fn lemma_renders_only(voices: Seq<Voice>, active: Seq<usize>, version: usize, a: Action)
    requires
        renders(voices, active, version).contains(a),
    ensures
        match a {
            Action::Render { voice } => active.contains(voice),
            Action::Sync { voice } => active.contains(voice),
            _ => false,
        },
    decreases active.len(),
{
    let all = renders(voices, active, version);
    if active.len() > 0 {
        let rest = renders(voices, active.drop_last(), version);
        let k = choose|k: int| 0 <= k < all.len() && all[k] == a;
        if k < rest.len() {
            assert(rest[k] == a);
            lemma_renders_only(voices, active.drop_last(), version, a);
            let v = match a {
                Action::Render { voice } => voice,
                Action::Sync { voice } => voice,
                _ => 0,
            };
            let j = choose|j: int| 0 <= j < active.drop_last().len() && active.drop_last()[j] == v;
            assert(active[j] == v);
        } else {
            assert(active[active.len() - 1] == active.last());
        }
    }
}

/// A note that has started is rendered with the next sample.
pub proof fn lemma_note_sounds(s: SynthView, key: usize, vel: Scalar)
    requires
        s.wf(),
    ensures
        s.note_on(key, vel).0.process().1.contains(Action::Render { voice: voice_of(key) }),
{
    let v = voice_of(key);
    let after = s.note_on(key, vel).0;
    if s.active.contains(v) {
        let i = choose|i: int| 0 <= i < s.active.len() && s.active[i] == v;
        lemma_renders_each(after.voices, after.active, after.patch.version, i);
    } else {
        assert(after.active[s.active.len() as int] == v);
        lemma_renders_each(after.voices, after.active, after.patch.version, s.active.len() as int);
    }
}

/// A note that has ended is rendered no more; and where no other voice
/// sounds, nothing is rendered at all.
pub proof fn lemma_released_note_is_silent(s: SynthView, key: usize)
    requires
        s.wf(),
    ensures
        !s.note_off(key).0.process().1.contains(Action::Render { voice: voice_of(key) }),
        (forall|i: int| 0 <= i < s.active.len() ==> s.active[i] == voice_of(key)) ==> s.note_off(
            key,
        ).0.process().1 == Seq::<Action>::empty(),
{
    let v = voice_of(key);
    let after = s.note_off(key).0;
    if after.process().1.contains(Action::Render { voice: v }) {
        lemma_renders_only(after.voices, after.active, after.patch.version, Action::Render { voice: v });
        s.active.lemma_filter_contains_rev(is_not(v), v);
        let i = choose|i: int| 0 <= i < after.active.len() && after.active[i] == v;
        s.active.lemma_filter_pred(is_not(v), i);
    }
    if forall|i: int| 0 <= i < s.active.len() ==> s.active[i] == v {
        crate::events::lemma_filter_range(s.active, is_not(v), 0, 0);
        assert(after.active =~= Seq::<usize>::empty());
    }
}

/// The version after `version`.
fn bump(version: usize) -> (r: usize)
    ensures
        r == next_version(version),
{
    if version == usize::MAX {
        0
    } else {
        version + 1
    }
}

/// The voice that `key` plays.
pub fn voice_index(key: usize) -> (r: usize)
    ensures
        r == voice_of(key),
        r < MAX_KEYS,
{
    let k: u64 = key as u64;
    assert(k & 0x7f == k % 128) by (bit_vector);
    (k & 0x7f) as usize
}

/// Whether `list` holds `x`.
fn contains(list: &Vec<usize>, x: usize) -> (r: bool)
    ensures
        r == list@.contains(x),
{
    let mut i: usize = 0;
    while i < list.len()
        invariant
            i <= list.len(),
            forall|j: int| 0 <= j < i ==> list@[j] != x,
        decreases list.len() - i,
    {
        if list[i] == x {
            return true;
        }
        i += 1;
    }
    false
}

/// Takes `x` out of `list`, and keeps the order of the others.
fn remove(list: &mut Vec<usize>, x: usize)
    requires
        old(list)@.no_duplicates(),
    ensures
        final(list)@ == parted(old(list)@, x),
        final(list)@.no_duplicates(),
        forall|y: usize| final(list)@.contains(y) ==> old(list)@.contains(y),
{
    let ghost before = list@;
    let mut i: usize = 0;
    while i < list.len()
        invariant
            i <= list.len(),
            list@ == before,
            before == old(list)@,
            before.no_duplicates(),
            forall|j: int| 0 <= j < i ==> before[j] != x,
        decreases list.len() - i,
    {
        if list[i] == x {
            proof {
                let keep = is_not(x);
                assert forall|j: int| 0 <= j < before.len() implies (#[trigger] keep(before[j])) == (j
                    != i) by {
                    if j != i {
                        assert(before[j] != before[i as int]);
                    }
                }
                lemma_filter_all_but(before, keep, i as int);
                assert forall|y: usize| before.remove(i as int).contains(y) implies before.contains(
                    y,
                ) by {
                    let k = choose|k: int|
                        0 <= k < before.remove(i as int).len() && before.remove(i as int)[k] == y;
                    if k < i {
                        assert(before[k] == y);
                    } else {
                        assert(before[k + 1] == y);
                    }
                }
                assert(before.remove(i as int).no_duplicates()) by {
                    assert forall|a: int, b: int|
                        0 <= a < before.len() - 1 && 0 <= b < before.len() - 1 && a != b implies before.remove(
                        i as int,
                    )[a] != before.remove(i as int)[b] by {
                        let a2 = if a < i {
                            a
                        } else {
                            a + 1
                        };
                        let b2 = if b < i {
                            b
                        } else {
                            b + 1
                        };
                        assert(before[a2] != before[b2]);
                    }
                }
            }
            list.remove(i);
            return ;
        }
        i += 1;
    }
    proof {
        crate::events::lemma_filter_range(before, is_not(x), 0, before.len() as int);
        assert(before.subrange(0, before.len() as int) =~= before);
    }
}

/// Where a condition holds of every entry but the one at `i`, the filter by it
/// is the list without that entry.
proof fn lemma_filter_all_but<A>(s: Seq<A>, pred: spec_fn(A) -> bool, i: int)
    requires
        0 <= i < s.len(),
        forall|j: int| 0 <= j < s.len() ==> (#[trigger] pred(s[j])) == (j != i),
    ensures
        s.filter(pred) == s.remove(i),
{
    let a = s.subrange(0, i + 1);
    let b = s.subrange(i + 1, s.len() as int);
    assert(s =~= a + b);
    Seq::filter_distributes_over_add(a, b, pred);
    crate::events::lemma_filter_range(a, pred, 0, i);
    crate::events::lemma_filter_range(b, pred, 0, b.len() as int);
    assert(a.subrange(0, i) + b.subrange(0, b.len() as int) =~= s.remove(i));
}

} // verus!
