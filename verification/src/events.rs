//! Events, and the buffer that keeps them in the order of their timestamps.

use vstd::prelude::*;
use crate::packet::{Packet, PacketView};
use crate::scalar::Scalar;

verus! {

/// A point in time, in nanoseconds.
pub type Timestamp = u64;

/// What an event asks of the synthesizer.
#[derive(Debug, PartialEq)]
pub enum Message {
    NoteOn { key: u8, velocity: Scalar },
    NoteOff { key: u8, velocity: Scalar },
    Control(Packet),
}

/// What a message says.
pub enum MessageView {
    NoteOn { key: u8, velocity: Scalar },
    NoteOff { key: u8, velocity: Scalar },
    Control(PacketView),
}

impl View for Message {
    type V = MessageView;

    open spec fn view(&self) -> MessageView {
        match self {
            Message::NoteOn { key, velocity } => MessageView::NoteOn { key: *key, velocity: *velocity },
            Message::NoteOff { key, velocity } => MessageView::NoteOff {
                key: *key,
                velocity: *velocity,
            },
            Message::Control(packet) => MessageView::Control(packet@),
        }
    }
}

impl Clone for Message {
    fn clone(&self) -> (r: Self)
        ensures
            r@ == self@,
    {
        match self {
            Message::NoteOn { key, velocity } => Message::NoteOn { key: *key, velocity: *velocity },
            Message::NoteOff { key, velocity } => Message::NoteOff { key: *key, velocity: *velocity },
            Message::Control(packet) => Message::Control(packet.clone()),
        }
    }
}

/// What a list of messages says, one by one.
pub open spec fn messages_view(messages: Seq<Message>) -> Seq<MessageView> {
    Seq::new(messages.len(), |i: int| messages[i]@)
}

/// A message and the time it is meant for.
#[derive(Debug)]
pub struct Event {
    timestamp: Timestamp,
    message: Message,
}

impl Event {
    /// The time of the event.
    pub closed spec fn time(self) -> Timestamp {
        self.timestamp
    }

    /// What the event says.
    pub closed spec fn content(self) -> MessageView {
        self.message@
    }

    pub fn new(timestamp: Timestamp, message: Message) -> (r: Event)
        ensures
            r.time() == timestamp,
            r.content() == message@,
    {
        Event { timestamp, message }
    }

    #[inline]
    pub fn timestamp(&self) -> (r: Timestamp)
        ensures
            r == self.time(),
    {
        self.timestamp
    }

    #[inline]
    pub fn message(&self) -> (r: &Message)
        ensures
            r@ == self.content(),
    {
        &self.message
    }
}

impl Clone for Event {
    fn clone(&self) -> (r: Self)
        ensures
            r.time() == self.time(),
            r.content() == self.content(),
    {
        Event { timestamp: self.timestamp, message: self.message.clone() }
    }
}

/// Where events come from, or go to.
#[derive(Debug, Clone)]
pub enum Port {
    Midi(String),
    Osc(String),
}

/// The events of one port.
#[derive(Debug)]
pub struct PortEvents {
    port: Port,
    events: Vec<Event>,
}

impl PortEvents {
    /// The port.
    pub closed spec fn source(self) -> Port {
        self.port
    }

    /// The events, in order.
    pub closed spec fn list(self) -> Seq<Event> {
        self.events@
    }

    pub fn new(port: Port, events: Vec<Event>) -> (r: Self)
        ensures
            r.source() == port,
            r.list() == events@,
    {
        PortEvents { port, events }
    }

    #[inline]
    pub fn port(&self) -> (r: &Port)
        ensures
            *r == self.source(),
    {
        &self.port
    }

    #[inline]
    pub fn events(&self) -> (r: &[Event])
        ensures
            r@ == self.list(),
    {
        self.events.as_slice()
    }
}

/// The messages of a buffer: each timestamp that has any, with its messages in
/// the order in which they came.
pub type Timeline = Seq<(Timestamp, Seq<MessageView>)>;

/// The timestamps go up from entry to entry.
pub open spec fn ascending(tl: Timeline) -> bool {
    forall|i: int, j: int| 0 <= i < j < tl.len() ==> tl[i].0 < tl[j].0
}

/// Every entry has a message.
pub open spec fn filled(tl: Timeline) -> bool {
    forall|i: int| 0 <= i < tl.len() ==> (#[trigger] tl[i]).1.len() > 0
}

/// Whether an entry has a timestamp below `bound`.
pub open spec fn is_below(bound: int) -> spec_fn((Timestamp, Seq<MessageView>)) -> bool {
    |e: (Timestamp, Seq<MessageView>)| e.0 < bound
}

/// Whether an entry has a timestamp of `bound` or above.
pub open spec fn is_from(bound: int) -> spec_fn((Timestamp, Seq<MessageView>)) -> bool {
    |e: (Timestamp, Seq<MessageView>)| e.0 >= bound
}

/// Whether an entry has the timestamp `t`.
pub open spec fn is_at(t: Timestamp) -> spec_fn((Timestamp, Seq<MessageView>)) -> bool {
    |e: (Timestamp, Seq<MessageView>)| e.0 == t
}

/// Every entry has a timestamp below `bound`.
pub open spec fn all_below(tl: Timeline, bound: int) -> bool {
    forall|i: int| 0 <= i < tl.len() ==> (#[trigger] tl[i]).0 < bound
}

/// Every entry has a timestamp of `bound` or above.
pub open spec fn all_from(tl: Timeline, bound: int) -> bool {
    forall|i: int| 0 <= i < tl.len() ==> (#[trigger] tl[i]).0 >= bound
}

/// The entries with a timestamp below `bound`.
pub open spec fn before(tl: Timeline, bound: int) -> Timeline {
    tl.filter(is_below(bound))
}

/// The entries with a timestamp of `bound` or above.
pub open spec fn from(tl: Timeline, bound: int) -> Timeline {
    tl.filter(is_from(bound))
}

/// The entries with the timestamp `t`: one, or none.
pub open spec fn at(tl: Timeline, t: Timestamp) -> Timeline {
    tl.filter(is_at(t))
}

/// The messages with the timestamp `t`, in the order in which they came.
pub open spec fn messages_at(tl: Timeline, t: Timestamp) -> Seq<MessageView> {
    if at(tl, t).len() == 0 {
        Seq::empty()
    } else {
        at(tl, t)[0].1
    }
}

/// The timeline with one more message at `t`, behind those that `t` has.
pub open spec fn with_message(tl: Timeline, t: Timestamp, m: MessageView) -> Timeline {
    before(tl, t as int) + seq![(t, messages_at(tl, t).push(m))] + from(tl, t + 1)
}

/// All messages of a timeline in the order in which they are due: by
/// timestamp, and within a timestamp as they came.
pub open spec fn flattened(tl: Timeline) -> Seq<MessageView>
    decreases tl.len(),
{
    if tl.len() == 0 {
        Seq::empty()
    } else {
        flattened(tl.drop_last()) + tl.last().1
    }
}

/// The messages of one timestamp.
struct Slot {
    timestamp: Timestamp,
    messages: Vec<Message>,
}

/// Pending messages in the order of their timestamps.
pub struct EventsBuffer {
    slots: Vec<Slot>,
}

spec fn timeline_of(slots: Seq<Slot>) -> Timeline {
    Seq::new(slots.len(), |i: int| (slots[i].timestamp, messages_view(slots[i].messages@)))
}

impl View for EventsBuffer {
    type V = Timeline;

    closed spec fn view(&self) -> Timeline {
        timeline_of(self.slots@)
    }
}

impl EventsBuffer {
    /// The buffer is in order: the timestamps go up, and none is without a message.
    pub open spec fn wf(&self) -> bool {
        ascending(self@) && filled(self@)
    }

    /// An empty buffer.
    pub fn new() -> (r: Self)
        ensures
            r.wf(),
            r@ == Seq::<(Timestamp, Seq<MessageView>)>::empty(),
    {
        let r = EventsBuffer { slots: Vec::new() };
        assert(r@ =~= Seq::empty());
        r
    }

    /// Whether the buffer holds no message.
    pub fn is_empty(&self) -> (r: bool)
        ensures
            r == (self@.len() == 0),
    {
        self.slots.len() == 0
    }

    /// The number of timestamps that have a message.
    pub fn len(&self) -> (r: usize)
        ensures
            r == self@.len(),
    {
        self.slots.len()
    }

    /// The messages with the timestamp `t`, if there are any.
    pub fn get(&self, t: Timestamp) -> (r: Option<&Vec<Message>>)
        requires
            self.wf(),
        ensures
            match r {
                Some(v) => v@.len() > 0 && messages_view(v@) == messages_at(self@, t),
                None => messages_at(self@, t).len() == 0,
            },
    {
        let ghost tl = self@;
        let mut i: usize = 0;
        while i < self.slots.len()
            invariant
                i <= self.slots.len(),
                tl == self@,
                self.wf(),
                forall|j: int| 0 <= j < i ==> tl[j].0 < t,
            decreases self.slots.len() - i,
        {
            if self.slots[i].timestamp >= t {
                proof {
                    lemma_at(tl, t, i as int);
                }
                if self.slots[i].timestamp == t {
                    assert(tl.subrange(i as int, i + 1)[0] == tl[i as int]);
                    return Some(&self.slots[i].messages);
                }
                return None;
            }
            i += 1;
        }
        proof {
            lemma_at(tl, t, i as int);
        }
        None
    }

    /// Adds the message of `event` at its timestamp, behind the messages that
    /// the timestamp has.
    pub fn push(&mut self, event: &Event)
        requires
            old(self).wf(),
        ensures
            final(self).wf(),
            final(self)@ == with_message(old(self)@, event.time(), event.content()),
    {
        let t = event.timestamp;
        let message = event.message.clone();
        let ghost tl = self@;
        let ghost m = message@;
        let n = self.slots.len();
        let mut k: usize = n;
        while k > 0 && self.slots[k - 1].timestamp >= t
            invariant
                k <= n,
                n == self.slots.len(),
                tl == self@,
                forall|j: int| k <= j < n ==> tl[j].0 >= t,
            decreases k,
        {
            k -= 1;
        }
        proof {
            lemma_partition(tl, t as int, k as int);
            lemma_at(tl, t, k as int);
        }
        if k < n && self.slots[k].timestamp == t {
            proof {
                lemma_partition(tl, t + 1, k + 1);
                assert(tl.subrange(k as int, k + 1)[0] == tl[k as int]);
            }
            self.slots[k].messages.push(message);
            proof {
                let entry = (t, messages_at(tl, t).push(m));
                assert(self@[k as int].1 =~= entry.1);
                assert(self@ =~= tl.subrange(0, k as int) + seq![entry] + tl.subrange(k + 1, n as int));
            }
        } else {
            proof {
                lemma_partition(tl, t + 1, k as int);
            }
            let mut messages: Vec<Message> = Vec::new();
            messages.push(message);
            self.slots.insert(k, Slot { timestamp: t, messages });
            proof {
                let entry = (t, messages_at(tl, t).push(m));
                assert(self@[k as int].1 =~= entry.1);
                assert(self@ =~= tl.subrange(0, k as int) + seq![entry] + tl.subrange(k as int, n as int));
            }
        }
    }

    /// Takes out every entry with a timestamp below `bound`, and leaves the others.
    pub fn split_below(&mut self, bound: u128) -> (r: EventsBuffer)
        requires
            old(self).wf(),
        ensures
            final(self).wf(),
            r.wf(),
            r@ == before(old(self)@, bound as int),
            final(self)@ == from(old(self)@, bound as int),
    {
        let ghost tl = self@;
        let n = self.slots.len();
        let mut k: usize = 0;
        while k < n && (self.slots[k].timestamp as u128) < bound
            invariant
                k <= n,
                n == self.slots.len(),
                tl == self@,
                forall|j: int| 0 <= j < k ==> tl[j].0 < bound,
            decreases n - k,
        {
            k += 1;
        }
        proof {
            lemma_partition(tl, bound as int, k as int);
        }
        let mut other = self.slots.split_off(k);
        std::mem::swap(&mut self.slots, &mut other);
        let r = EventsBuffer { slots: other };
        proof {
            assert(r@ =~= tl.subrange(0, k as int));
            assert(self@ =~= tl.subrange(k as int, n as int));
        }
        r
    }

    /// Takes out every entry with a timestamp below `until`, and leaves the others.
    pub fn split(&mut self, until: Timestamp) -> (r: EventsBuffer)
        requires
            old(self).wf(),
        ensures
            final(self).wf(),
            r.wf(),
            r@ == before(old(self)@, until as int),
            final(self)@ == from(old(self)@, until as int),
    {
        self.split_below(until as u128)
    }

    /// A cursor at the first entry.
    pub fn iter(&self) -> (r: Iter<'_>)
        ensures
            r.timeline() == self@,
            r.position() == 0,
    {
        Iter { buffer: self, position: 0 }
    }
}

/// A cursor over the entries of a buffer, from the lowest timestamp up.
pub struct Iter<'a> {
    buffer: &'a EventsBuffer,
    position: usize,
}

impl<'a> Iter<'a> {
    /// The entries of the buffer.
    pub closed spec fn timeline(self) -> Timeline {
        self.buffer@
    }

    /// The number of entries that the cursor has passed.
    pub closed spec fn position(self) -> int {
        self.position as int
    }

    /// The next entry, if the cursor has not passed them all.
    pub fn next(&mut self) -> (r: Option<(&'a Timestamp, &'a Vec<Message>)>)
        ensures
            final(self).timeline() == old(self).timeline(),
            match r {
                Some((t, messages)) => {
                    &&& old(self).position() < old(self).timeline().len()
                    &&& final(self).position() == old(self).position() + 1
                    &&& *t == old(self).timeline()[old(self).position()].0
                    &&& messages_view(messages@) == old(self).timeline()[old(self).position()].1
                },
                None => {
                    &&& old(self).position() >= old(self).timeline().len()
                    &&& final(self).position() == old(self).position()
                },
            },
    {
        if self.position < self.buffer.slots.len() {
            let slot = &self.buffer.slots[self.position];
            self.position = self.position + 1;
            Some((&slot.timestamp, &slot.messages))
        } else {
            None
        }
    }
}

/// In an ascending timeline whose entries below `bound` are the first `k`, the
/// entries below `bound` and those from `bound` on are its two parts at `k`.
pub proof fn lemma_partition(tl: Timeline, bound: int, k: int)
    requires
        ascending(tl),
        0 <= k <= tl.len(),
        k > 0 ==> tl[k - 1].0 < bound,
        k < tl.len() ==> tl[k].0 >= bound,
    ensures
        before(tl, bound) == tl.subrange(0, k),
        from(tl, bound) == tl.subrange(k, tl.len() as int),
{
    let low = is_below(bound);
    let high = is_from(bound);
    assert forall|i: int| 0 <= i < tl.len() implies (#[trigger] low(tl[i])) == (0 <= i < k) by {
        if i < k - 1 {
            assert(tl[i].0 < tl[k - 1].0);
        } else if i > k {
            assert(tl[k].0 < tl[i].0);
        }
    }
    assert forall|i: int| 0 <= i < tl.len() implies (#[trigger] high(tl[i])) == (k <= i < tl.len()) by {
        assert(high(tl[i]) == !low(tl[i]));
    }
    lemma_filter_range(tl, low, 0, k);
    lemma_filter_range(tl, high, k, tl.len() as int);
}

/// In an ascending timeline whose entries below `t` are the first `k`, the
/// entry of `t` is the one at `k`, if that has the timestamp `t`, and else
/// there is none.
pub proof fn lemma_at(tl: Timeline, t: Timestamp, k: int)
    requires
        ascending(tl),
        0 <= k <= tl.len(),
        k > 0 ==> tl[k - 1].0 < t,
        k < tl.len() ==> tl[k].0 >= t,
    ensures
        k < tl.len() && tl[k].0 == t ==> at(tl, t) == tl.subrange(k, k + 1),
        !(k < tl.len() && tl[k].0 == t) ==> at(tl, t).len() == 0,
{
    let same = is_at(t);
    let b = if k < tl.len() && tl[k].0 == t {
        k + 1
    } else {
        k
    };
    assert forall|i: int| 0 <= i < tl.len() implies (#[trigger] same(tl[i])) == (k <= i < b) by {
        if i < k - 1 {
            assert(tl[i].0 < tl[k - 1].0);
        } else if i > k {
            assert(tl[k].0 < tl[i].0);
        }
    }
    lemma_filter_range(tl, same, k, b);
}

/// The number of entries of an ascending timeline that lie below `bound`:
/// they are its first entries, and the others are not below `bound`.
pub proof fn lemma_split_point(tl: Timeline, bound: int) -> (k: int)
    requires
        ascending(tl),
    ensures
        0 <= k <= tl.len(),
        forall|i: int| 0 <= i < k ==> tl[i].0 < bound,
        forall|i: int| k <= i < tl.len() ==> tl[i].0 >= bound,
        before(tl, bound) == tl.subrange(0, k),
        from(tl, bound) == tl.subrange(k, tl.len() as int),
    decreases tl.len(),
{
    let k = if tl.len() == 0 {
        0
    } else if tl.last().0 < bound {
        assert forall|i: int| 0 <= i < tl.len() implies tl[i].0 < bound by {
            if i < tl.len() - 1 {
                assert(tl[i].0 < tl[tl.len() - 1].0);
            }
        }
        tl.len() as int
    } else {
        let d = tl.drop_last();
        assert(ascending(d)) by {
            assert forall|i: int, j: int| 0 <= i < j < d.len() implies d[i].0 < d[j].0 by {
                assert(tl[i].0 < tl[j].0);
            }
        }
        let k = lemma_split_point(d, bound);
        assert forall|i: int| k <= i < tl.len() implies tl[i].0 >= bound by {
            if i < tl.len() - 1 {
                assert(d[i].0 >= bound);
            }
        }
        assert forall|i: int| 0 <= i < k implies tl[i].0 < bound by {
            assert(d[i].0 < bound);
        }
        k
    };
    lemma_partition(tl, bound, k);
    k
}

/// To split a buffer loses nothing and adds nothing: the entries taken out,
/// followed by the entries left, are the entries that were there.
pub proof fn lemma_split_keeps_everything(tl: Timeline, bound: int)
    requires
        ascending(tl),
    ensures
        before(tl, bound) + from(tl, bound) == tl,
{
    let k = lemma_split_point(tl, bound);
    assert(tl.subrange(0, k) + tl.subrange(k, tl.len() as int) =~= tl);
}

/// What a split takes out lies below the bound, what it leaves does not, and
/// both stay in order.
pub proof fn lemma_split_parts(tl: Timeline, bound: int)
    requires
        ascending(tl),
        filled(tl),
    ensures
        all_below(before(tl, bound), bound),
        all_from(from(tl, bound), bound),
        ascending(before(tl, bound)) && filled(before(tl, bound)),
        ascending(from(tl, bound)) && filled(from(tl, bound)),
{
    let k = lemma_split_point(tl, bound);
    lemma_part_in_order(tl, 0, k);
    lemma_part_in_order(tl, k, tl.len() as int);
    let lo = tl.subrange(0, k);
    let hi = tl.subrange(k, tl.len() as int);
    assert(all_from(hi, bound)) by {
        assert forall|i: int| 0 <= i < hi.len() implies (#[trigger] hi[i]).0 >= bound by {
            assert(hi[i] == tl[k + i]);
        }
    }
    assert(all_below(lo, bound)) by {
        assert forall|i: int| 0 <= i < lo.len() implies (#[trigger] lo[i]).0 < bound by {
            assert(lo[i] == tl[i]);
        }
    }
}

/// A stretch of a buffer in order is in order.
proof fn lemma_part_in_order(tl: Timeline, a: int, b: int)
    requires
        ascending(tl),
        filled(tl),
        0 <= a <= b <= tl.len(),
    ensures
        ascending(tl.subrange(a, b)),
        filled(tl.subrange(a, b)),
{
    let part = tl.subrange(a, b);
    assert forall|i: int, j: int| 0 <= i < j < part.len() implies part[i].0 < part[j].0 by {
        assert(tl[a + i].0 < tl[a + j].0);
    }
    assert forall|i: int| 0 <= i < part.len() implies (#[trigger] part[i]).1.len() > 0 by {
        assert(part[i] == tl[a + i]);
    }
}

/// A pushed message is the last of its timestamp, behind those that were
/// there; the messages of every other timestamp are as they were; and the
/// buffer stays in order.
pub proof fn lemma_push_adds_one_message(tl: Timeline, t: Timestamp, m: MessageView, other: Timestamp)
    requires
        ascending(tl),
        filled(tl),
    ensures
        ascending(with_message(tl, t, m)),
        filled(with_message(tl, t, m)),
        messages_at(with_message(tl, t, m), t) == messages_at(tl, t).push(m),
        other != t ==> messages_at(with_message(tl, t, m), other) == messages_at(tl, other),
{
    let n = tl.len() as int;
    let k = lemma_split_point(tl, t as int);
    let k2 = lemma_split_point(tl, t + 1);
    lemma_at(tl, t, k);
    let entry = (t, messages_at(tl, t).push(m));
    let new = with_message(tl, t, m);
    assert(new =~= tl.subrange(0, k) + seq![entry] + tl.subrange(k2, n));
    assert(k <= k2 <= k + 1) by {
        if k2 < k {
            assert(tl[k2].0 >= t + 1);
        }
        if k2 > k + 1 {
            assert(tl[k].0 < tl[k + 1].0);
        }
    }
    assert forall|i: int| 0 <= i < new.len() implies (#[trigger] new[i]) == if i < k {
        tl[i]
    } else if i == k {
        entry
    } else {
        tl[i - k - 1 + k2]
    } by {}
    assert forall|i: int, j: int| 0 <= i < j < new.len() implies new[i].0 < new[j].0 by {
        if i < k && j > k {
            assert(tl[i].0 < t);
        }
    }
    assert forall|i: int| 0 <= i < new.len() implies (#[trigger] new[i]).1.len() > 0 by {}
    // the entry of t in the new timeline is the one at k
    lemma_at(new, t, k);
    assert(new.subrange(k, k + 1)[0] == new[k]);
    if other != t {
        let j = lemma_split_point(tl, other as int);
        let j2 = lemma_split_point(new, other as int);
        lemma_at(tl, other, j);
        lemma_at(new, other, j2);
        if j < n && tl[j].0 == other {
            // the entry of `other` is in both, at the place that the new entry shifts it to
            let shifted = if j < k {
                j
            } else {
                j - k2 + k + 1
            };
            assert(j >= k ==> j >= k2) by {
                if j >= k && j < k2 {
                    assert(tl[j].0 < t + 1);
                    assert(tl[j].0 >= t);
                }
            }
            assert(new[shifted] == tl[j]);
            assert(j2 == shifted) by {
                if j2 < shifted {
                    assert(new[j2].0 < new[shifted].0);
                }
                if j2 > shifted {
                    assert(new[shifted].0 < other);
                }
            }
            assert(tl.subrange(j, j + 1)[0] == tl[j]);
            assert(new.subrange(j2, j2 + 1)[0] == new[j2]);
        } else {
            if j2 < new.len() && new[j2].0 == other {
                // an entry of `other` in the new timeline would be one of the old ones
                let back = if j2 < k {
                    j2
                } else {
                    j2 - k - 1 + k2
                };
                assert(new[j2] == tl[back]);
                if back < j {
                    assert(tl[back].0 < other);
                } else if back > j {
                    assert(tl[j].0 < tl[back].0);
                }
            }
        }
    }
}

/// Where a condition holds of exactly the entries from `a` up to `b`, the
/// filter by it is that stretch.
pub proof fn lemma_filter_range<A>(s: Seq<A>, pred: spec_fn(A) -> bool, a: int, b: int)
    requires
        0 <= a <= b <= s.len(),
        forall|i: int| 0 <= i < s.len() ==> (#[trigger] pred(s[i])) == (a <= i < b),
    ensures
        s.filter(pred) == s.subrange(a, b),
    decreases s.len(),
{
    reveal(Seq::filter);
    if s.len() == 0 {
        assert(s.filter(pred) =~= s.subrange(a, b));
    } else {
        let n = s.len() - 1;
        let d = s.drop_last();
        assert forall|i: int| 0 <= i < d.len() implies d[i] == s[i] by {}
        if a < b && b == s.len() {
            lemma_filter_range(d, pred, a, b - 1);
            assert(pred(s[n]));
            assert(d.subrange(a, b - 1).push(s.last()) =~= s.subrange(a, b));
        } else {
            let a2 = if a > n {
                n
            } else {
                a
            };
            let b2 = if b > n {
                n
            } else {
                b
            };
            assert(!pred(s[n]));
            lemma_filter_range(d, pred, a2, b2);
            assert(d.subrange(a2, b2) =~= s.subrange(a, b));
        }
    }
}

} // verus!
