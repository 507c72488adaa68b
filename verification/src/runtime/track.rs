//! Ordering the events of a track for playback.

use vstd::prelude::*;

use crate::sequencing::sequence::{SequenceEvent, copy_event};

verus! {

/// The tick at which a track plays an event: its tick offset plus its
/// microtiming offset, saturated to the range of `u32`.
pub open spec fn playback_tick(e: SequenceEvent) -> nat {
    let t = e.tick_offset + e.offset_ticks;
    if t < 0 {
        0
    } else if t > u32::MAX {
        u32::MAX as nat
    } else {
        t as nat
    }
}

/// The events are in order of playback tick.
pub open spec fn sorted_by_playback(events: Seq<SequenceEvent>) -> bool {
    forall|i: int, j: int|
        0 <= i < j < events.len() ==> playback_tick(#[trigger] events[i]) <= playback_tick(#[trigger] events[j])
}

/// The events that play at tick `k`, in their order.
pub open spec fn playing_at(events: Seq<SequenceEvent>, k: nat) -> Seq<SequenceEvent> {
    events.filter(|e: SequenceEvent| playback_tick(e) == k)
}

/// The playback tick of an event, as the track computes it.
pub fn playback_tick_of(e: &SequenceEvent) -> (t: u32)
    ensures
        t == playback_tick(*e),
{
    let sum: i64 = e.tick_offset as i64 + e.offset_ticks as i64;
    if sum < 0 {
        0
    } else if sum > 0xffff_ffff {
        0xffff_ffff
    } else {
        sum as u32
    }
}

proof fn lemma_filter_none(s: Seq<SequenceEvent>, k: nat)
    requires
        forall|i: int| 0 <= i < s.len() ==> playback_tick(#[trigger] s[i]) != k,
    ensures
        playing_at(s, k) == Seq::<SequenceEvent>::empty(),
    decreases s.len(),
{
    reveal(Seq::filter);
    if s.len() > 0 {
        assert forall|i: int| 0 <= i < s.drop_last().len() implies playback_tick(#[trigger] s.drop_last()[i]) != k by {
            assert(s.drop_last()[i] == s[i]);
        }
        lemma_filter_none(s.drop_last(), k);
        assert(s.last() == s[s.len() - 1]);
    }
}

/// Inserting `x` after every event that plays no later than it and before
/// every event that plays later keeps the order of playback and adds `x` at
/// the end of the events that play at its tick.
proof fn lemma_insert_stable(r: Seq<SequenceEvent>, p: int, x: SequenceEvent, k: nat)
    requires
        0 <= p <= r.len(),
        sorted_by_playback(r),
        forall|q: int| 0 <= q < p ==> playback_tick(#[trigger] r[q]) <= playback_tick(x),
        forall|q: int| p <= q < r.len() ==> playback_tick(#[trigger] r[q]) > playback_tick(x),
    ensures
        sorted_by_playback(r.insert(p, x)),
        playing_at(r.insert(p, x), k) == if playback_tick(x) == k {
            playing_at(r, k).push(x)
        } else {
            playing_at(r, k)
        },
{
    let pred = |e: SequenceEvent| playback_tick(e) == k;
    let a = r.subrange(0, p);
    let b = r.subrange(p, r.len() as int);
    let ins = r.insert(p, x);
    assert(ins == a.push(x) + b);
    assert(r =~= a + b);
    Seq::filter_distributes_over_add(a.push(x), b, pred);
    Seq::filter_distributes_over_add(a, b, pred);
    a.lemma_filter_push(x, pred);
    if playback_tick(x) == k {
        assert forall|i: int| 0 <= i < b.len() implies playback_tick(#[trigger] b[i]) != k by {
            assert(b[i] == r[p + i]);
        }
        lemma_filter_none(b, k);
        assert(playing_at(b, k) == b.filter(pred));
        assert(a.filter(pred) + Seq::<SequenceEvent>::empty() =~= a.filter(pred));
        assert(a.filter(pred).push(x) + Seq::<SequenceEvent>::empty() =~= a.filter(pred).push(x));
    }
    assert forall|i: int, j: int| 0 <= i < j < ins.len() implies playback_tick(#[trigger] ins[i]) <= playback_tick(
        #[trigger] ins[j],
    ) by {
        if j < p {
            assert(ins[i] == r[i] && ins[j] == r[j]);
        } else if j == p {
            assert(ins[i] == r[i] && ins[j] == x);
        } else if i < p {
            assert(ins[i] == r[i] && ins[j] == r[j - 1]);
        } else if i == p {
            assert(ins[i] == x && ins[j] == r[j - 1]);
        } else {
            assert(ins[i] == r[i - 1] && ins[j] == r[j - 1]);
        }
    }
}

/// Sort events by playback tick, keeping events that play at the same tick
/// in the order they came in (a stable sort).
pub fn sort_by_playback_tick(events: &mut Vec<SequenceEvent>)
    ensures
        final(events)@.len() == old(events)@.len(),
        sorted_by_playback(final(events)@),
        forall|k: nat| #[trigger] playing_at(final(events)@, k) == playing_at(old(events)@, k),
{
    let n = events.len();
    let ghost input = events@;
    let mut result: Vec<SequenceEvent> = Vec::new();
    for i in 0..n
        invariant
            n == input.len(),
            events@ == input,
            result@.len() == i,
            sorted_by_playback(result@),
            forall|k: nat| #[trigger] playing_at(result@, k) == playing_at(input.take(i as int), k),
    {
        let x = copy_event(&events[i]);
        let kx = playback_tick_of(&x);
        let mut p: usize = 0;
        while p < result.len() && playback_tick_of(&result[p]) <= kx
            invariant
                p <= result@.len(),
                forall|q: int| 0 <= q < p ==> playback_tick(#[trigger] result@[q]) <= kx,
            decreases result@.len() - p,
        {
            p = p + 1;
        }
        let ghost before = result@;
        proof {
            assert forall|q: int| p <= q < before.len() implies playback_tick(#[trigger] before[q]) > kx by {
                if p < before.len() {
                    assert(playback_tick(before[p as int]) > kx);
                    if q > p {
                        assert(playback_tick(before[p as int]) <= playback_tick(before[q]));
                    }
                }
            }
        }
        result.insert(p, x);
        proof {
            assert(input.take(i + 1) =~= input.take(i as int).push(input[i as int]));
            assert forall|k: nat| #[trigger] playing_at(result@, k) == playing_at(input.take(i + 1), k) by {
                lemma_insert_stable(before, p as int, x, k);
                input.take(i as int).lemma_filter_push(input[i as int], |e: SequenceEvent| playback_tick(e) == k);
            }
        }
    }
    proof {
        assert(input.take(n as int) =~= input);
    }
    *events = result;
}

/// What a monophonic track remembers between blocks: the note it plays, if
/// any, and the velocity it was started with.
#[derive(Debug, Clone, Copy, PartialEq, Eq, Structural)]
pub struct TrackState {
    current_note: Option<u8>,
    velocity: u8,
}

/// A track's state as a value.
pub struct TrackStateView {
    pub current_note: Option<u8>,
    pub velocity: u8,
}

impl TrackStateView {
    /// The state after `note` starts with `velocity`.
    pub open spec fn started(self, note: u8, velocity: u8) -> TrackStateView {
        TrackStateView { current_note: Some(note), velocity }
    }

    /// A note-off for `note` releases the sound: `note` is the one playing.
    pub open spec fn releases(self, note: u8) -> bool {
        self.current_note == Some(note)
    }

    /// The state after a block whose sound ended (`sound_active` false) or
    /// goes on.
    pub open spec fn after_block(self, sound_active: bool) -> TrackStateView {
        if sound_active {
            self
        } else {
            TrackStateView { current_note: None, ..self }
        }
    }
}

impl View for TrackState {
    type V = TrackStateView;

    closed spec fn view(&self) -> TrackStateView {
        TrackStateView { current_note: self.current_note, velocity: self.velocity }
    }
}

impl TrackState {
    /// A silent track: no note, velocity zero.
    pub fn new() -> (t: Self)
        ensures
            t@ == (TrackStateView { current_note: None, velocity: 0 }),
    {
        TrackState { current_note: None, velocity: 0 }
    }

    /// A note starts: it becomes the current note, whatever played before,
    /// with its velocity.
    pub fn note_on(&mut self, note: u8, velocity: u8)
        ensures
            final(self)@ == old(self)@.started(note, velocity),
    {
        self.current_note = Some(note);
        self.velocity = velocity;
    }

    /// A note is released. Only the note being played is released: the
    /// result says whether `note` is that note, and the sound is then told
    /// to release. The state stays as it is either way, so that the
    /// envelope can finish.
    pub fn note_off(&self, note: u8) -> (release: bool)
        ensures
            release == self@.releases(note),
    {
        match self.current_note {
            Some(n) => n == note,
            None => false,
        }
    }

    /// The note to render this block, if any; without one the track
    /// outputs silence.
    pub fn current_note(&self) -> (n: Option<u8>)
        ensures
            n == self@.current_note,
    {
        self.current_note
    }

    /// The velocity of the current note.
    pub fn velocity(&self) -> (v: u8)
        ensures
            v == self@.velocity,
    {
        self.velocity
    }

    /// After a block was rendered: once the sound is no longer active the
    /// note is over and the track forgets it; otherwise nothing changes.
    pub fn finish_block(&mut self, sound_active: bool)
        ensures
            final(self)@ == old(self)@.after_block(sound_active),
    {
        if !sound_active {
            self.current_note = None;
        }
    }

    /// The track is producing sound: it has a note and its sound is active.
    pub fn is_active(&self, sound_active: bool) -> (a: bool)
        ensures
            a == (self@.current_note is Some && sound_active),
    {
        self.current_note.is_some() && sound_active
    }
}

/// Once a note starts on a track, a note-off for that note releases it and a
/// note-off for any other note releases nothing; the note stays current until
/// a block ends with its sound finished, and then the track is silent.
pub proof fn law_track_releases_only_its_note(t: TrackStateView, note: u8, velocity: u8, other: u8)
    requires
        other != note,
    ensures
        t.started(note, velocity).releases(note),
        !t.started(note, velocity).releases(other),
        t.started(note, velocity).after_block(true).current_note == Some(note),
        t.started(note, velocity).after_block(false).current_note is None,
        !t.started(note, velocity).after_block(false).releases(note),
{
}

/// An event plays at its tick offset moved by its microtiming offset, in
/// either direction; a sum below zero plays at tick 0 and one beyond the
/// range of `u32` plays at `u32::MAX`.
pub proof fn law_playback_tick_adds_microtiming(e: SequenceEvent)
    ensures
        0 <= e.tick_offset + e.offset_ticks <= u32::MAX ==> playback_tick(e) == e.tick_offset + e.offset_ticks,
        e.tick_offset + e.offset_ticks < 0 ==> playback_tick(e) == 0,
        e.tick_offset + e.offset_ticks > u32::MAX ==> playback_tick(e) == u32::MAX,
{
}

/// In events ordered for playback, of two events whose shifted ticks stay in
/// range, the earlier one never plays after the later one: tick offset plus
/// microtiming offset does not decrease along the track.
pub proof fn law_playback_order_follows_shifted_ticks(events: Seq<SequenceEvent>, i: int, j: int)
    requires
        sorted_by_playback(events),
        0 <= i < j < events.len(),
        0 <= events[i].tick_offset + events[i].offset_ticks <= u32::MAX,
        0 <= events[j].tick_offset + events[j].offset_ticks <= u32::MAX,
    ensures
        events[i].tick_offset + events[i].offset_ticks <= events[j].tick_offset + events[j].offset_ticks,
{
    law_playback_tick_adds_microtiming(events[i]);
    law_playback_tick_adds_microtiming(events[j]);
}

} // verus!
