//! The modulation matrix of a patch: which oscillator sends how much to the
//! amplitude and to the frequency of which, and which oscillators are heard.
//!
//! A voice is rendered in two passes. The first takes a sample of every
//! oscillator of the patch, slot by slot, and adds it to the modulation of the
//! slots that the oscillator sends to. The second hands each slot its
//! modulation, for the next sample, and mixes the oscillators that are heard.
//! The matrix lists the sends and the mix in the order in which the passes go
//! through them, so that every voice adds up in the same order.

use vstd::prelude::*;
use crate::patch::{OscPatch, Patch, MAX_OSCILLATORS};
use crate::scalar::Scalar;

verus! {

/// One route: a share of the signal of the oscillator in slot `source`, for
/// the oscillator in slot `destination`.
#[derive(Clone, Copy, Debug, PartialEq, Eq, Structural)]
pub struct Route {
    pub source: usize,
    pub destination: usize,
    pub level: Scalar,
}

/// One oscillator that is heard, and its level in the mix.
#[derive(Clone, Copy, Debug, PartialEq, Eq, Structural)]
pub struct Mix {
    pub slot: usize,
    pub level: Scalar,
}

/// The modulation matrix of a patch.
#[derive(Debug, PartialEq)]
pub struct Matrix {
    /// The sends to the amplitude: by source, then by destination.
    pub amp_sends: Vec<Route>,
    /// The sends to the frequency: by source, then by destination.
    pub freq_sends: Vec<Route>,
    /// The oscillators that are heard, by slot.
    pub mix: Vec<Mix>,
}

/// The sends of one oscillator to the first `n` slots, by destination.
pub open spec fn sends_of(table: Seq<Option<Scalar>>, source: usize, n: int) -> Seq<Route>
    decreases n,
{
    if n <= 0 {
        Seq::empty()
    } else {
        let rest = sends_of(table, source, n - 1);
        match table[n - 1] {
            Some(level) => rest.push(Route { source, destination: (n - 1) as usize, level }),
            None => rest,
        }
    }
}

/// The sends to the amplitude of the oscillators of a patch.
pub open spec fn amp_sends(oscillators: Seq<OscPatch>) -> Seq<Route>
    decreases oscillators.len(),
{
    if oscillators.len() == 0 {
        Seq::empty()
    } else {
        amp_sends(oscillators.drop_last()) + sends_of(
            oscillators.last().amp_mod@,
            (oscillators.len() - 1) as usize,
            MAX_OSCILLATORS as int,
        )
    }
}

/// The sends to the frequency of the oscillators of a patch.
pub open spec fn freq_sends(oscillators: Seq<OscPatch>) -> Seq<Route>
    decreases oscillators.len(),
{
    if oscillators.len() == 0 {
        Seq::empty()
    } else {
        freq_sends(oscillators.drop_last()) + sends_of(
            oscillators.last().freq_mod@,
            (oscillators.len() - 1) as usize,
            MAX_OSCILLATORS as int,
        )
    }
}

/// The oscillators of a patch that are heard: those with a level above zero.
pub open spec fn mix_of(oscillators: Seq<OscPatch>) -> Seq<Mix>
    decreases oscillators.len(),
{
    if oscillators.len() == 0 {
        Seq::empty()
    } else {
        let rest = mix_of(oscillators.drop_last());
        if oscillators.last().level.positive() {
            rest.push(Mix { slot: (oscillators.len() - 1) as usize, level: oscillators.last().level })
        } else {
            rest
        }
    }
}

/// Every send leaves a slot below `count` and arrives at one of the eight.
pub open spec fn sends_in_range(sends: Seq<Route>, count: int) -> bool {
    forall|i: int|
        0 <= i < sends.len() ==> (#[trigger] sends[i]).source < count && sends[i].destination
            < MAX_OSCILLATORS
}

/// Appends the sends of one oscillator.
fn push_sends(out: &mut Vec<Route>, table: &[Option<Scalar>; 8], source: usize)
    ensures
        final(out)@ == old(out)@ + sends_of(table@, source, MAX_OSCILLATORS as int),
{
    let ghost start = out@;
    let mut j: usize = 0;
    assert(out@ =~= start + sends_of(table@, source, 0));
    while j < MAX_OSCILLATORS
        invariant
            j <= MAX_OSCILLATORS,
            out@ == start + sends_of(table@, source, j as int),
        decreases MAX_OSCILLATORS - j,
    {
        match table[j] {
            Some(level) => {
                out.push(Route { source, destination: j, level });
            },
            None => {},
        }
        assert(out@ =~= start + sends_of(table@, source, j + 1));
        j += 1;
    }
}

/// The modulation matrix of `patch`.
pub fn matrix(patch: &Patch) -> (r: Matrix)
    ensures
        r.amp_sends@ == amp_sends(patch@.oscillators),
        r.freq_sends@ == freq_sends(patch@.oscillators),
        r.mix@ == mix_of(patch@.oscillators),
{
    let mut amp: Vec<Route> = Vec::new();
    let mut freq: Vec<Route> = Vec::new();
    let mut mix: Vec<Mix> = Vec::new();
    let ghost oscillators = patch@.oscillators;
    let mut i: usize = 0;
    assert(oscillators.take(0) =~= Seq::empty());
    while i < patch.oscillators.len()
        invariant
            i <= patch.oscillators.len(),
            oscillators == patch@.oscillators,
            amp@ == amp_sends(oscillators.take(i as int)),
            freq@ == freq_sends(oscillators.take(i as int)),
            mix@ == mix_of(oscillators.take(i as int)),
        decreases patch.oscillators.len() - i,
    {
        let osc = &patch.oscillators[i];
        proof {
            let next = oscillators.take(i + 1);
            assert(next.drop_last() =~= oscillators.take(i as int));
            assert(next.last() == *osc);
        }
        push_sends(&mut amp, &osc.amp_mod, i);
        push_sends(&mut freq, &osc.freq_mod, i);
        if osc.level.is_positive() {
            mix.push(Mix { slot: i, level: osc.level });
        }
        i += 1;
    }
    assert(oscillators.take(i as int) =~= oscillators);
    Matrix { amp_sends: amp, freq_sends: freq, mix }
}

/// The sends of one oscillator arrive at one of the eight slots.
proof fn lemma_sends_of_in_range(table: Seq<Option<Scalar>>, source: usize, n: int, count: int)
    requires
        n <= MAX_OSCILLATORS,
        source < count,
    ensures
        sends_in_range(sends_of(table, source, n), count),
    decreases n,
{
    if n > 0 {
        lemma_sends_of_in_range(table, source, n - 1, count);
    }
}

/// No send of a patch leaves or arrives outside the slots of a voice: a
/// renderer with eight slots can follow the matrix of any patch that fits a
/// voice.
pub proof fn lemma_matrix_in_range(oscillators: Seq<OscPatch>)
    requires
        oscillators.len() <= MAX_OSCILLATORS,
    ensures
        sends_in_range(amp_sends(oscillators), oscillators.len() as int),
        sends_in_range(freq_sends(oscillators), oscillators.len() as int),
        forall|i: int|
            0 <= i < mix_of(oscillators).len() ==> (#[trigger] mix_of(oscillators)[i]).slot
                < oscillators.len(),
    decreases oscillators.len(),
{
    if oscillators.len() > 0 {
        let n = oscillators.len() as int;
        lemma_matrix_in_range(oscillators.drop_last());
        lemma_sends_of_in_range(oscillators.last().amp_mod@, (n - 1) as usize, MAX_OSCILLATORS as int, n);
        lemma_sends_of_in_range(oscillators.last().freq_mod@, (n - 1) as usize, MAX_OSCILLATORS as int, n);
        let rest = mix_of(oscillators.drop_last());
        assert forall|i: int| 0 <= i < mix_of(oscillators).len() implies (#[trigger] mix_of(
            oscillators,
        )[i]).slot < n by {
            if i < rest.len() {
                assert(mix_of(oscillators)[i] == rest[i]);
            }
        }
    }
}

/// A send that a patch holds is in its matrix: where the oscillator in slot
/// `source` sends `level` to the frequency of slot `destination`, the matrix
/// lists that send.
pub proof fn lemma_freq_send_listed(oscillators: Seq<OscPatch>, source: int, destination: int)
    requires
        0 <= source < oscillators.len(),
        0 <= destination < MAX_OSCILLATORS,
        oscillators[source].freq_mod@[destination] is Some,
    ensures
        freq_sends(oscillators).contains(
            Route {
                source: source as usize,
                destination: destination as usize,
                level: oscillators[source].freq_mod@[destination]->Some_0,
            },
        ),
    decreases oscillators.len(),
{
    let n = oscillators.len() as int;
    let send = Route {
        source: source as usize,
        destination: destination as usize,
        level: oscillators[source].freq_mod@[destination]->Some_0,
    };
    let head = freq_sends(oscillators.drop_last());
    let tail = sends_of(oscillators.last().freq_mod@, (n - 1) as usize, MAX_OSCILLATORS as int);
    if source == n - 1 {
        lemma_send_listed(oscillators.last().freq_mod@, (n - 1) as usize, MAX_OSCILLATORS as int, destination);
        let k = choose|k: int| 0 <= k < tail.len() && tail[k] == send;
        assert((head + tail)[head.len() + k] == send);
    } else {
        lemma_freq_send_listed(oscillators.drop_last(), source, destination);
        let k = choose|k: int| 0 <= k < head.len() && head[k] == send;
        assert((head + tail)[k] == send);
    }
}

/// A send of one oscillator to one of the first `n` slots is among its sends.
proof fn lemma_send_listed(table: Seq<Option<Scalar>>, source: usize, n: int, destination: int)
    requires
        0 <= destination < n,
        table[destination] is Some,
    ensures
        sends_of(table, source, n).contains(
            Route { source, destination: destination as usize, level: table[destination]->Some_0 },
        ),
    decreases n,
{
    let all = sends_of(table, source, n);
    let send = Route { source, destination: destination as usize, level: table[destination]->Some_0 };
    if destination == n - 1 {
        assert(all.last() == send);
    } else {
        lemma_send_listed(table, source, n - 1, destination);
        let rest = sends_of(table, source, n - 1);
        let k = choose|k: int| 0 <= k < rest.len() && rest[k] == send;
        assert(all[k] == send);
    }
}

} // verus!
