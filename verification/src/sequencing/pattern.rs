//! Patterns: one cycle of music (usually a bar) whose timing follows from the
//! position of each slot. The top-level slots share the bar equally; a
//! subdivision shares its slot among its parts by weight.

use vstd::prelude::*;

use super::sequence::{Sequence, SequenceEvent, event_end, events_in_order};
use super::time_signature::TimeSignature;

pub mod slot;

verus! {

/// A slot of a pattern: a note, a rest, or a subdivision into smaller slots.
#[derive(Debug, PartialEq)]
pub enum PatternSlot {
    /// A single note.
    Note(NoteSlot),
    /// Silence for the length of the slot.
    Rest,
    /// The slot divided among its parts by weight.
    Subdivision(Vec<PatternSlot>),
}

/// A note with a weight for swing and uneven subdivisions.
#[derive(Debug, Clone, Copy, PartialEq, Eq, Structural)]
pub struct NoteSlot {
    /// MIDI note number.
    pub note: u8,
    /// Velocity (0-127), 100 unless set.
    pub velocity: u8,
    /// Weight within a subdivision (1 unless set): in `[C4@2, E4]` the C4
    /// gets 2/3 of the time.
    pub weight: u8,
}

impl NoteSlot {
    /// A note with velocity 100 and weight 1.
    pub fn new(note: u8) -> (r: Self)
        ensures
            r == (NoteSlot { note, velocity: 100, weight: 1 }),
    {
        Self { note, velocity: 100, weight: 1 }
    }

    /// The same note with another velocity.
    pub fn with_velocity(self, velocity: u8) -> (r: Self)
        ensures
            r == (NoteSlot { velocity, ..self }),
    {
        let mut s = self;
        s.velocity = velocity;
        s
    }

    /// The same note with another weight.
    pub fn with_weight(self, weight: u8) -> (r: Self)
        ensures
            r == (NoteSlot { weight, ..self }),
    {
        let mut s = self;
        s.weight = weight;
        s
    }
}

/// A MIDI note number as a note slot (velocity 100, weight 1).
impl From<u8> for PatternSlot {
    fn from(note: u8) -> (r: Self) {
        PatternSlot::Note(NoteSlot::new(note))
    }
}

impl vstd::std_specs::convert::FromSpecImpl<u8> for PatternSlot {
    open spec fn obeys_from_spec() -> bool {
        true
    }

    open spec fn from_spec(note: u8) -> PatternSlot {
        PatternSlot::Note(NoteSlot { note, velocity: 100, weight: 1 })
    }
}

/// A pattern slot as a mathematical value.
pub enum SlotView {
    Note(NoteSlot),
    Rest,
    Subdivision(Seq<SlotView>),
}

/// The value of a slot.
pub open spec fn slot_view(slot: PatternSlot) -> SlotView
    decreases slot,
{
    match slot {
        PatternSlot::Note(n) => SlotView::Note(n),
        PatternSlot::Rest => SlotView::Rest,
        PatternSlot::Subdivision(subs) => SlotView::Subdivision(slots_view(subs@)),
    }
}

/// The values of a list of slots.
pub open spec fn slots_view(slots: Seq<PatternSlot>) -> Seq<SlotView>
    decreases slots,
{
    if slots.len() == 0 {
        Seq::empty()
    } else {
        slots_view(slots.drop_last()).push(slot_view(slots.last()))
    }
}

impl View for PatternSlot {
    type V = SlotView;

    open spec fn view(&self) -> SlotView {
        slot_view(*self)
    }
}

/// The values of a list of slots, element by element.
pub proof fn lemma_slots_view(slots: Seq<PatternSlot>)
    ensures
        slots_view(slots).len() == slots.len(),
        forall|i: int| 0 <= i < slots.len() ==> #[trigger] slots_view(slots)[i] == slot_view(slots[i]),
    decreases slots.len(),
{
    if slots.len() > 0 {
        lemma_slots_view(slots.drop_last());
    }
}

proof fn lemma_slots_view_push(slots: Seq<PatternSlot>, x: PatternSlot)
    ensures
        slots_view(slots.push(x)) == slots_view(slots).push(slot_view(x)),
{
    assert(slots.push(x).drop_last() =~= slots);
}

impl Clone for PatternSlot {
    fn clone(&self) -> (r: Self)
        ensures
            r@ == self@,
        decreases self,
    {
        match self {
            PatternSlot::Note(n) => PatternSlot::Note(*n),
            PatternSlot::Rest => PatternSlot::Rest,
            PatternSlot::Subdivision(subs) => {
                let mut out: Vec<PatternSlot> = Vec::new();
                for i in 0..subs.len()
                    invariant
                        *self == PatternSlot::Subdivision(*subs),
                        slots_view(out@) == slots_view(subs@.take(i as int)),
                {
                    proof {
                        vstd::std_specs::vec::axiom_vec_index_decreases(*subs, i as int);
                        assert(decreases_to!(*self => (*self)->Subdivision_0));
                        assert(decreases_to!(*subs => subs[i as int]));
                        assert(decreases_to!(*self => subs[i as int]));
                    }
                    let c = subs[i].clone();
                    proof {
                        lemma_slots_view_push(out@, c);
                        lemma_slots_view_push(subs@.take(i as int), subs@[i as int]);
                        assert(subs@.take(i + 1) =~= subs@.take(i as int).push(subs@[i as int]));
                    }
                    out.push(c);
                }
                proof {
                    assert(subs@.take(subs@.len() as int) =~= subs@);
                }
                PatternSlot::Subdivision(out)
            },
        }
    }
}

/// The weight of a slot inside a subdivision: a note's own weight, 1 for
/// anything else.
pub open spec fn slot_weight(s: SlotView) -> nat {
    match s {
        SlotView::Note(n) => n.weight as nat,
        _ => 1,
    }
}

/// The sum of the weights of a list of slots.
pub open spec fn total_weight(slots: Seq<SlotView>) -> nat
    decreases slots.len(),
{
    if slots.len() == 0 {
        0
    } else {
        total_weight(slots.drop_last()) + slot_weight(slots.last())
    }
}

/// The share of `duration` that a part of weight `w` gets in a subdivision
/// of total weight `total` (rounded down).
pub open spec fn share(duration: nat, w: nat, total: nat) -> nat {
    (duration * w) / total
}

/// The time taken by a run of parts of a subdivision: the sum of their shares.
pub open spec fn span(slots: Seq<SlotView>, duration: nat, total: nat) -> nat
    decreases slots.len(),
{
    if slots.len() == 0 {
        0
    } else {
        span(slots.drop_last(), duration, total) + share(duration, slot_weight(slots.last()), total)
    }
}

/// The events that one slot produces when it starts at `start` and lasts
/// `duration` ticks: a note gives one event spanning the slot, a rest gives
/// none, and a subdivision gives the events of its parts, each part starting
/// where the previous one ended and lasting its share of the slot.
pub open spec fn expand(slot: SlotView, start: nat, duration: nat) -> Seq<SequenceEvent>
    decreases slot,
{
    match slot {
        SlotView::Note(n) => seq![
            SequenceEvent {
                tick_offset: start as u32,
                duration_ticks: duration as u32,
                note: Some(n.note),
                velocity: n.velocity,
                offset_ticks: 0,
            },
        ],
        SlotView::Rest => Seq::empty(),
        SlotView::Subdivision(subs) => expand_parts(subs, start, duration, total_weight(subs)),
    }
}

/// The events of the parts of a subdivision, in order.
pub open spec fn expand_parts(parts: Seq<SlotView>, start: nat, duration: nat, total: nat) -> Seq<SequenceEvent>
    decreases parts,
{
    if parts.len() == 0 {
        Seq::empty()
    } else {
        expand_parts(parts.drop_last(), start, duration, total) + expand(
            parts.last(),
            start + span(parts.drop_last(), duration, total),
            share(duration, slot_weight(parts.last()), total),
        )
    }
}

/// A slot can be laid out over `duration` ticks: every subdivision in it has
/// parts, a positive total weight that fits in `u32`, and parts whose
/// `duration * weight` products fit in `u32`.
pub open spec fn expandable(slot: SlotView, duration: nat) -> bool
    decreases slot,
{
    match slot {
        SlotView::Subdivision(subs) => {
            &&& subs.len() > 0
            &&& 0 < total_weight(subs) <= u32::MAX
            &&& parts_expandable(subs, duration, total_weight(subs))
        },
        _ => true,
    }
}

/// Every part of a subdivision can be laid out over its share.
pub open spec fn parts_expandable(parts: Seq<SlotView>, duration: nat, total: nat) -> bool
    decreases parts,
{
    if parts.len() == 0 {
        true
    } else {
        &&& parts_expandable(parts.drop_last(), duration, total)
        &&& duration * slot_weight(parts.last()) <= u32::MAX
        &&& expandable(parts.last(), share(duration, slot_weight(parts.last()), total))
    }
}

/// The weight of a slot inside a subdivision.
fn weight_of(slot: &PatternSlot) -> (w: u32)
    ensures
        w == slot_weight(slot@),
        w <= 255,
{
    match slot {
        PatternSlot::Note(n) => n.weight as u32,
        _ => 1,
    }
}

proof fn lemma_take_last<A>(s: Seq<A>, i: int)
    requires
        0 <= i < s.len(),
    ensures
        s.take(i + 1).drop_last() == s.take(i),
        s.take(i + 1).last() == s[i],
        s.take(i + 1).len() == i + 1,
{
    assert(s.take(i + 1).drop_last() =~= s.take(i));
}

proof fn lemma_total_weight_prefix(s: Seq<SlotView>, i: int)
    requires
        0 <= i <= s.len(),
    ensures
        total_weight(s.take(i)) <= total_weight(s),
    decreases s.len(),
{
    if i == s.len() {
        assert(s.take(i) =~= s);
    } else {
        assert(s.drop_last().take(i) =~= s.take(i));
        lemma_total_weight_prefix(s.drop_last(), i);
    }
}

proof fn lemma_span_prefix(s: Seq<SlotView>, i: int, duration: nat, total: nat)
    requires
        0 <= i <= s.len(),
    ensures
        span(s.take(i), duration, total) <= span(s, duration, total),
    decreases s.len(),
{
    if i == s.len() {
        assert(s.take(i) =~= s);
    } else {
        assert(s.drop_last().take(i) =~= s.take(i));
        lemma_span_prefix(s.drop_last(), i, duration, total);
    }
}

/// The shares of the parts never add up to more than the whole.
proof fn lemma_span_bound(s: Seq<SlotView>, duration: nat, total: nat)
    requires
        total > 0,
    ensures
        span(s, duration, total) * total <= duration * total_weight(s),
    decreases s.len(),
{
    if s.len() > 0 {
        lemma_span_bound(s.drop_last(), duration, total);
        let w = slot_weight(s.last());
        let sp = span(s.drop_last(), duration, total);
        let tw = total_weight(s.drop_last());
        assert(share(duration, w, total) * total <= duration * w) by (nonlinear_arith)
            requires
                total > 0,
        {
            vstd::arithmetic::div_mod::lemma_fundamental_div_mod((duration * w) as int, total as int);
            vstd::arithmetic::div_mod::lemma_mod_pos_bound((duration * w) as int, total as int);
        }
        assert((sp + share(duration, w, total)) * total <= duration * (tw + w)) by (nonlinear_arith)
            requires
                sp * total <= duration * tw,
                share(duration, w, total) * total <= duration * w,
        ;
    } else {
        assert(0 * total == 0) by (nonlinear_arith);
        assert(duration * 0 == 0) by (nonlinear_arith);
    }
}

proof fn lemma_span_at_most(s: Seq<SlotView>, i: int, duration: nat)
    requires
        0 <= i <= s.len(),
        total_weight(s) > 0,
    ensures
        span(s.take(i), duration, total_weight(s)) <= span(s, duration, total_weight(s)),
        span(s, duration, total_weight(s)) <= duration,
{
    let t = total_weight(s);
    lemma_span_prefix(s, i, duration, t);
    lemma_span_bound(s, duration, t);
    let sp = span(s, duration, t);
    assert(sp <= duration) by (nonlinear_arith)
        requires
            sp * t <= duration * t,
            t > 0,
    ;
}

proof fn lemma_parts_expandable(parts: Seq<SlotView>, duration: nat, total: nat)
    requires
        parts_expandable(parts, duration, total),
    ensures
        forall|i: int|
            0 <= i < parts.len() ==> {
                &&& duration * slot_weight(#[trigger] parts[i]) <= u32::MAX
                &&& expandable(parts[i], share(duration, slot_weight(parts[i]), total))
            },
    decreases parts.len(),
{
    if parts.len() > 0 {
        lemma_parts_expandable(parts.drop_last(), duration, total);
        assert forall|i: int| 0 <= i < parts.len() implies {
            &&& duration * slot_weight(#[trigger] parts[i]) <= u32::MAX
            &&& expandable(parts[i], share(duration, slot_weight(parts[i]), total))
        } by {
            if i < parts.len() - 1 {
                assert(parts.drop_last()[i] == parts[i]);
            }
        }
    }
}

/// Later events start only after earlier ones have ended.
pub open spec fn ordered(events: Seq<SequenceEvent>) -> bool {
    forall|i: int, j: int|
        0 <= i < j < events.len() ==> event_end(#[trigger] events[i]) <= (#[trigger] events[j]).tick_offset
}

/// Every event starts at `lo` or later and ends by `hi`.
pub open spec fn within(events: Seq<SequenceEvent>, lo: nat, hi: nat) -> bool {
    forall|i: int| 0 <= i < events.len() ==> lo <= (#[trigger] events[i]).tick_offset && event_end(events[i]) <= hi
}

proof fn lemma_concat_ordered(a: Seq<SequenceEvent>, b: Seq<SequenceEvent>, lo: nat, mid: nat, hi: nat)
    requires
        ordered(a),
        within(a, lo, mid),
        ordered(b),
        within(b, mid, hi),
        lo <= mid <= hi,
    ensures
        ordered(a + b),
        within(a + b, lo, hi),
{
    let c = a + b;
    assert forall|i: int, j: int| 0 <= i < j < c.len() implies event_end(#[trigger] c[i]) <= (#[trigger] c[j]).tick_offset by {
        if j < a.len() {
            assert(c[i] == a[i] && c[j] == a[j]);
        } else if i < a.len() {
            assert(c[i] == a[i] && c[j] == b[j - a.len()]);
        } else {
            assert(c[i] == b[i - a.len()] && c[j] == b[j - a.len()]);
        }
    }
    assert forall|i: int| 0 <= i < c.len() implies lo <= (#[trigger] c[i]).tick_offset && event_end(c[i]) <= hi by {
        if i < a.len() {
            assert(c[i] == a[i]);
        } else {
            assert(c[i] == b[i - a.len()]);
        }
    }
}

/// The events of a slot are in time order and stay inside the slot.
pub proof fn lemma_expand_in_slot(slot: SlotView, start: nat, duration: nat)
    requires
        expandable(slot, duration),
        start + duration <= u32::MAX,
    ensures
        ordered(expand(slot, start, duration)),
        within(expand(slot, start, duration), start, start + duration),
    decreases slot, 1nat,
{
    match slot {
        SlotView::Subdivision(subs) => {
            lemma_span_at_most(subs, 0, duration);
            lemma_expand_parts_in_slot(subs, start, duration, total_weight(subs));
        },
        _ => {},
    }
}

/// The events of the parts of a subdivision are in time order and stay
/// inside the time the parts take.
pub proof fn lemma_expand_parts_in_slot(parts: Seq<SlotView>, start: nat, duration: nat, total: nat)
    requires
        parts_expandable(parts, duration, total),
        total > 0,
        start + span(parts, duration, total) <= u32::MAX,
    ensures
        ordered(expand_parts(parts, start, duration, total)),
        within(expand_parts(parts, start, duration, total), start, start + span(parts, duration, total)),
    decreases parts, 0nat,
{
    if parts.len() > 0 {
        let front = parts.drop_last();
        let last = parts.last();
        let offset = span(front, duration, total);
        let part = share(duration, slot_weight(last), total);
        lemma_expand_parts_in_slot(front, start, duration, total);
        lemma_expand_in_slot(last, start + offset, part);
        lemma_concat_ordered(
            expand_parts(front, start, duration, total),
            expand(last, start + offset, part),
            start,
            start + offset,
            start + offset + part,
        );
    }
}

/// The number of notes in a slot, counting through subdivisions.
pub open spec fn note_count(slot: SlotView) -> nat
    decreases slot,
{
    match slot {
        SlotView::Note(_) => 1,
        SlotView::Rest => 0,
        SlotView::Subdivision(subs) => notes_in(subs),
    }
}

/// The number of notes in a list of slots.
pub open spec fn notes_in(slots: Seq<SlotView>) -> nat
    decreases slots,
{
    if slots.len() == 0 {
        0
    } else {
        notes_in(slots.drop_last()) + note_count(slots.last())
    }
}

/// Every note of a slot gives exactly one event, and rests give none.
pub proof fn law_one_event_per_note(slot: SlotView, start: nat, duration: nat)
    ensures
        expand(slot, start, duration).len() == note_count(slot),
    decreases slot, 1nat,
{
    if let SlotView::Subdivision(subs) = slot {
        lemma_parts_event_count(subs, start, duration, total_weight(subs));
    }
}

proof fn lemma_parts_event_count(parts: Seq<SlotView>, start: nat, duration: nat, total: nat)
    ensures
        expand_parts(parts, start, duration, total).len() == notes_in(parts),
    decreases parts, 0nat,
{
    if parts.len() > 0 {
        lemma_parts_event_count(parts.drop_last(), start, duration, total);
        law_one_event_per_note(
            parts.last(),
            start + span(parts.drop_last(), duration, total),
            share(duration, slot_weight(parts.last()), total),
        );
    }
}

proof fn lemma_layout_event_count(slots: Seq<SlotView>, slot_ticks: nat)
    ensures
        layout(slots, slot_ticks).len() == notes_in(slots),
    decreases slots.len(),
{
    if slots.len() > 0 {
        lemma_layout_event_count(slots.drop_last(), slot_ticks);
        law_one_event_per_note(slots.last(), ((slots.len() - 1) * slot_ticks) as nat, slot_ticks);
    }
}

/// A pattern as a mathematical value.
pub struct PatternView {
    pub time_signature: TimeSignature,
    pub slots: Seq<SlotView>,
}

/// The events of the top-level slots, each `slot_ticks` long and starting
/// where the previous one ended.
pub open spec fn layout(slots: Seq<SlotView>, slot_ticks: nat) -> Seq<SequenceEvent>
    decreases slots.len(),
{
    if slots.len() == 0 {
        Seq::empty()
    } else {
        layout(slots.drop_last(), slot_ticks) + expand(
            slots.last(),
            ((slots.len() - 1) * slot_ticks) as nat,
            slot_ticks,
        )
    }
}

impl PatternView {
    /// The length of a bar.
    pub open spec fn bar_ticks(self, ppq: u32) -> nat {
        self.time_signature.spec_bar_ticks(ppq)
    }

    /// The equal share of the bar that each top-level slot gets.
    pub open spec fn slot_ticks(self, ppq: u32) -> nat {
        self.bar_ticks(ppq) / self.slots.len()
    }

    /// The pattern can be turned into a sequence at `ppq`: the bar can be
    /// measured, the slots can be counted in a `u32`, and every slot can be
    /// laid out over its share of the bar.
    pub open spec fn renderable(self, ppq: u32) -> bool {
        &&& self.time_signature.measurable_at(ppq)
        &&& self.slots.len() <= u32::MAX
        &&& forall|i: int| 0 <= i < self.slots.len() ==> expandable(#[trigger] self.slots[i], self.slot_ticks(ppq))
    }

    /// The events of one cycle of the pattern.
    pub open spec fn events(self, ppq: u32) -> Seq<SequenceEvent> {
        if self.slots.len() == 0 {
            Seq::empty()
        } else {
            layout(self.slots, self.slot_ticks(ppq))
        }
    }
}

/// One cycle of music (usually a bar) in a time signature.
#[derive(Debug)]
pub struct Pattern {
    /// Time signature of the pattern.
    pub time_signature: TimeSignature,
    /// The slots, which share the bar equally.
    pub slots: Vec<PatternSlot>,
}

impl View for Pattern {
    type V = PatternView;

    open spec fn view(&self) -> PatternView {
        PatternView { time_signature: self.time_signature, slots: slots_view(self.slots@) }
    }
}

impl Clone for Pattern {
    fn clone(&self) -> (r: Self)
        ensures
            r@ == self@,
    {
        Pattern { time_signature: self.time_signature, slots: clone_slots(&self.slots) }
    }
}

/// A slot-by-slot copy of a list of slots.
fn clone_slots(slots: &Vec<PatternSlot>) -> (r: Vec<PatternSlot>)
    ensures
        slots_view(r@) == slots_view(slots@),
{
    let mut out: Vec<PatternSlot> = Vec::new();
    for i in 0..slots.len()
        invariant
            slots_view(out@) == slots_view(slots@.take(i as int)),
    {
        let c = slots[i].clone();
        proof {
            lemma_slots_view_push(out@, c);
            lemma_slots_view_push(slots@.take(i as int), slots@[i as int]);
            assert(slots@.take(i + 1) =~= slots@.take(i as int).push(slots@[i as int]));
        }
        out.push(c);
    }
    proof {
        assert(slots@.take(slots@.len() as int) =~= slots@);
    }
    out
}

proof fn lemma_slot_ticks_fit(count: nat, bar: nat, i: nat)
    requires
        count > 0,
        i <= count,
    ensures
        i * (bar / count) <= count * (bar / count),
        count * (bar / count) <= bar,
{
    vstd::arithmetic::div_mod::lemma_fundamental_div_mod(bar as int, count as int);
    vstd::arithmetic::div_mod::lemma_mod_pos_bound(bar as int, count as int);
    assert(i * (bar / count) <= count * (bar / count)) by (nonlinear_arith)
        requires
            i <= count,
    ;
}

/// The top-level slots laid out one after another are in time order and
/// take `count * slot_ticks` ticks in all.
pub proof fn lemma_layout_in_order(slots: Seq<SlotView>, slot_ticks: nat)
    requires
        forall|i: int| 0 <= i < slots.len() ==> expandable(#[trigger] slots[i], slot_ticks),
        slots.len() * slot_ticks <= u32::MAX,
    ensures
        ordered(layout(slots, slot_ticks)),
        within(layout(slots, slot_ticks), 0, slots.len() * slot_ticks),
    decreases slots.len(),
{
    if slots.len() > 0 {
        let front = slots.drop_last();
        let k = front.len();
        assert(k * slot_ticks <= slots.len() * slot_ticks) by (nonlinear_arith)
            requires
                k <= slots.len(),
        ;
        assert forall|i: int| 0 <= i < front.len() implies expandable(#[trigger] front[i], slot_ticks) by {
            assert(front[i] == slots[i]);
        }
        lemma_layout_in_order(front, slot_ticks);
        assert(slots.last() == slots[slots.len() - 1]);
        assert(k * slot_ticks + slot_ticks == slots.len() * slot_ticks) by (nonlinear_arith)
            requires
                k + 1 == slots.len(),
        ;
        lemma_expand_in_slot(slots.last(), k * slot_ticks, slot_ticks);
        lemma_concat_ordered(
            layout(front, slot_ticks),
            expand(slots.last(), k * slot_ticks, slot_ticks),
            0,
            k * slot_ticks,
            slots.len() * slot_ticks,
        );
    }
}

/// The events of a pattern are in time order, never overlap, and all end
/// within one bar.
pub proof fn law_pattern_events_fit_in_bar(p: PatternView, ppq: u32)
    requires
        p.renderable(ppq),
    ensures
        events_in_order(p.events(ppq), p.bar_ticks(ppq) as int),
{
    if p.slots.len() > 0 {
        lemma_slot_ticks_fit(p.slots.len(), p.bar_ticks(ppq), 0);
        lemma_layout_in_order(p.slots, p.slot_ticks(ppq));
    }
}

/// A pattern gives one event per note it holds; rests only take time.
pub proof fn law_pattern_event_count(p: PatternView, ppq: u32)
    ensures
        p.events(ppq).len() == notes_in(p.slots),
{
    if p.slots.len() > 0 {
        lemma_layout_event_count(p.slots, p.slot_ticks(ppq));
    }
}

impl Pattern {
    /// A pattern from a time signature and slots.
    pub fn new(time_signature: TimeSignature, slots: Vec<PatternSlot>) -> (r: Self)
        ensures
            r.time_signature == time_signature,
            r.slots == slots,
    {
        Self { time_signature, slots }
    }

    /// A pattern in 4/4.
    pub fn four_four(slots: Vec<PatternSlot>) -> (r: Self)
        ensures
            r.time_signature == TimeSignature::spec_four_four(),
            r.slots == slots,
    {
        Self::new(TimeSignature::FOUR_FOUR(), slots)
    }

    /// A pattern in 3/4.
    pub fn three_four(slots: Vec<PatternSlot>) -> (r: Self)
        ensures
            r.time_signature == (TimeSignature { numerator: 3, denominator: 4, tactus_group: 2 }),
            r.slots == slots,
    {
        Self::new(TimeSignature::THREE_FOUR(), slots)
    }

    /// A pattern in 6/8.
    pub fn six_eight(slots: Vec<PatternSlot>) -> (r: Self)
        ensures
            r.time_signature == (TimeSignature { numerator: 6, denominator: 8, tactus_group: 3 }),
            r.slots == slots,
    {
        Self::new(TimeSignature::SIX_EIGHT(), slots)
    }

    /// Turn one cycle of the pattern into a sequence: the bar is shared
    /// equally among the top-level slots, and each slot is laid out inside
    /// its share.
    pub fn to_sequence(&self, ppq: u32) -> (s: Sequence)
        requires
            self@.renderable(ppq),
        ensures
            s.time_signature == self.time_signature,
            s.ppq == ppq,
            s.total_ticks == self@.bar_ticks(ppq),
            s.events@ == self@.events(ppq),
    {
        let bar_ticks = self.time_signature.bar_ticks(ppq);
        proof {
            lemma_slots_view(self.slots@);
        }
        let slot_count = self.slots.len() as u32;
        if slot_count == 0 {
            return Sequence {
                time_signature: self.time_signature,
                ppq,
                events: Vec::new(),
                total_ticks: bar_ticks,
            };
        }
        let ticks_per_slot = bar_ticks / slot_count;
        let ghost slots = self@.slots;
        let mut events: Vec<SequenceEvent> = Vec::new();
        let mut cursor: u32 = 0;
        let n = self.slots.len();
        proof {
            assert(0 * ticks_per_slot == 0) by (nonlinear_arith);
            assert(slots.take(0) =~= Seq::<SlotView>::empty());
        }
        for i in 0..n
            invariant
                n == self.slots@.len(),
                n == slot_count,
                slots == self@.slots,
                slots.len() == n,
                forall|k: int| 0 <= k < n ==> #[trigger] slots[k] == slot_view(self.slots@[k]),
                ticks_per_slot == self@.slot_ticks(ppq),
                bar_ticks == self@.bar_ticks(ppq),
                bar_ticks <= u32::MAX,
                self@.renderable(ppq),
                cursor == i * ticks_per_slot,
                events@ == layout(slots.take(i as int), ticks_per_slot as nat),
        {
            proof {
                lemma_slot_ticks_fit(n as nat, bar_ticks as nat, (i + 1) as nat);
                assert((i + 1) * ticks_per_slot == cursor + ticks_per_slot) by (nonlinear_arith)
                    requires
                        cursor == i * ticks_per_slot,
                ;
                assert(expandable(slots[i as int], ticks_per_slot as nat));
                lemma_take_last(slots, i as int);
            }
            Self::expand_slot(&self.slots[i], cursor, ticks_per_slot, &mut events);
            cursor = cursor + ticks_per_slot;
        }
        proof {
            assert(slots.take(n as int) =~= slots);
        }
        Sequence { time_signature: self.time_signature, ppq, events, total_ticks: bar_ticks }
    }

    /// Append the events of `slot`, laid out from `start_tick` over `duration`
    /// ticks, to `events`.
    fn expand_slot(slot: &PatternSlot, start_tick: u32, duration: u32, events: &mut Vec<SequenceEvent>)
        requires
            expandable(slot@, duration as nat),
            start_tick + duration <= u32::MAX,
        ensures
            final(events)@ == old(events)@ + expand(slot@, start_tick as nat, duration as nat),
        decreases slot,
    {
        match slot {
            PatternSlot::Note(note_slot) => {
                events.push(
                    SequenceEvent {
                        tick_offset: start_tick,
                        duration_ticks: duration,
                        note: Some(note_slot.note),
                        velocity: note_slot.velocity,
                        offset_ticks: 0,
                    },
                );
            },
            PatternSlot::Rest => {
                assert(old(events)@ + Seq::<SequenceEvent>::empty() =~= old(events)@);
            },
            PatternSlot::Subdivision(sub_slots) => {
                let ghost parts = slots_view(sub_slots@);
                proof {
                    lemma_slots_view(sub_slots@);
                }
                let ghost total_w = total_weight(parts);
                let n = sub_slots.len();
                let mut weight_sum: u32 = 0;
                for i in 0..n
                    invariant
                        n == sub_slots@.len(),
                        parts == slots_view(sub_slots@),
                        parts.len() == n,
                        forall|k: int| 0 <= k < n ==> #[trigger] parts[k] == slot_view(sub_slots@[k]),
                        total_w == total_weight(parts),
                        total_w <= u32::MAX,
                        weight_sum == total_weight(parts.take(i as int)),
                {
                    let w = weight_of(&sub_slots[i]);
                    proof {
                        lemma_take_last(parts, i as int);
                        lemma_total_weight_prefix(parts, i + 1);
                    }
                    weight_sum = weight_sum + w;
                }
                proof {
                    assert(parts.take(n as int) =~= parts);
                    lemma_parts_expandable(parts, duration as nat, total_w);
                }
                let ghost before = events@;
                let mut sub_cursor = start_tick;
                for i in 0..n
                    invariant
                        n == sub_slots@.len(),
                        *slot == PatternSlot::Subdivision(*sub_slots),
                        parts == slots_view(sub_slots@),
                        parts.len() == n,
                        forall|k: int| 0 <= k < n ==> #[trigger] parts[k] == slot_view(sub_slots@[k]),
                        total_w == total_weight(parts),
                        weight_sum == total_w,
                        total_w > 0,
                        start_tick + duration <= u32::MAX,
                        forall|k: int|
                            0 <= k < parts.len() ==> {
                                &&& duration * slot_weight(#[trigger] parts[k]) <= u32::MAX
                                &&& expandable(parts[k], share(duration as nat, slot_weight(parts[k]), total_w))
                            },
                        sub_cursor == start_tick + span(parts.take(i as int), duration as nat, total_w),
                        events@ == before + expand_parts(parts.take(i as int), start_tick as nat, duration as nat, total_w),
                {
                    let w = weight_of(&sub_slots[i]);
                    proof {
                        assert(parts[i as int] == slot_view(sub_slots@[i as int]));
                        lemma_take_last(parts, i as int);
                        lemma_span_at_most(parts, i + 1, duration as nat);
                    }
                    let sub_duration = (duration * w) / weight_sum;
                    proof {
                        vstd::std_specs::vec::axiom_vec_index_decreases(*sub_slots, i as int);
                        assert(decreases_to!(*slot => (*slot)->Subdivision_0));
                        assert(decreases_to!(*slot => sub_slots[i as int]));
                    }
                    Self::expand_slot(&sub_slots[i], sub_cursor, sub_duration, events);
                    proof {
                        assert(events@ =~= before + expand_parts(parts.take(i + 1), start_tick as nat, duration as nat, total_w));
                    }
                    sub_cursor = sub_cursor + sub_duration;
                }
                proof {
                    assert(parts.take(n as int) =~= parts);
                }
            },
        }
    }
}

/// The total length of a run of patterns played one after another.
pub open spec fn chain_ticks(patterns: Seq<PatternView>, ppq: u32) -> nat
    decreases patterns.len(),
{
    if patterns.len() == 0 {
        0
    } else {
        chain_ticks(patterns.drop_last(), ppq) + patterns.last().bar_ticks(ppq)
    }
}

/// The events moved `by` ticks later.
pub open spec fn shifted(events: Seq<SequenceEvent>, by: nat) -> Seq<SequenceEvent> {
    Seq::new(
        events.len(),
        |i: int| SequenceEvent { tick_offset: (events[i].tick_offset + by) as u32, ..events[i] },
    )
}

/// The events of a run of patterns: each pattern's events, moved to start
/// where the previous patterns end.
pub open spec fn chain_events(patterns: Seq<PatternView>, ppq: u32) -> Seq<SequenceEvent>
    decreases patterns.len(),
{
    if patterns.len() == 0 {
        Seq::empty()
    } else {
        chain_events(patterns.drop_last(), ppq) + shifted(
            patterns.last().events(ppq),
            chain_ticks(patterns.drop_last(), ppq),
        )
    }
}

/// Every pattern of the run can be rendered and the whole run fits in `u32`
/// ticks.
pub open spec fn chain_renderable(patterns: Seq<PatternView>, ppq: u32) -> bool {
    &&& forall|i: int| 0 <= i < patterns.len() ==> (#[trigger] patterns[i]).renderable(ppq)
    &&& chain_ticks(patterns, ppq) <= u32::MAX
}

/// `k` copies of a run of patterns, one after another.
pub open spec fn repeated(patterns: Seq<PatternView>, k: nat) -> Seq<PatternView>
    decreases k,
{
    if k == 0 {
        Seq::empty()
    } else {
        repeated(patterns, (k - 1) as nat) + patterns
    }
}

/// The views of a list of patterns.
pub open spec fn patterns_view(patterns: Seq<Pattern>) -> Seq<PatternView> {
    patterns.map_values(|p: Pattern| p@)
}

/// Patterns to be played one after another.
#[derive(Debug)]
pub struct PatternChain {
    patterns: Vec<Pattern>,
}

impl View for PatternChain {
    type V = Seq<PatternView>;

    closed spec fn view(&self) -> Seq<PatternView> {
        patterns_view(self.patterns@)
    }
}

proof fn lemma_patterns_view_push(ps: Seq<Pattern>, p: Pattern)
    ensures
        patterns_view(ps.push(p)) == patterns_view(ps).push(p@),
{
    assert(patterns_view(ps.push(p)) =~= patterns_view(ps).push(p@));
}

proof fn lemma_chain_ticks_prefix(ps: Seq<PatternView>, i: int, ppq: u32)
    requires
        0 <= i <= ps.len(),
    ensures
        chain_ticks(ps.take(i), ppq) <= chain_ticks(ps, ppq),
    decreases ps.len(),
{
    if i == ps.len() {
        assert(ps.take(i) =~= ps);
    } else {
        assert(ps.drop_last().take(i) =~= ps.take(i));
        lemma_chain_ticks_prefix(ps.drop_last(), i, ppq);
    }
}

proof fn lemma_shifted_in_order(events: Seq<SequenceEvent>, bar: nat, by: nat)
    requires
        events_in_order(events, bar as int),
        by + bar <= u32::MAX,
    ensures
        ordered(shifted(events, by)),
        within(shifted(events, by), by, by + bar),
{
    let s = shifted(events, by);
    assert forall|i: int, j: int| 0 <= i < j < s.len() implies event_end(#[trigger] s[i]) <= (#[trigger] s[j]).tick_offset by {
        assert(event_end(events[i]) <= events[j].tick_offset);
    }
    assert forall|i: int| 0 <= i < s.len() implies by <= (#[trigger] s[i]).tick_offset && event_end(s[i]) <= by + bar by {
        assert(event_end(events[i]) <= bar);
    }
}

/// The events of a run of patterns are in time order, never overlap, and end
/// by the total length of the run.
pub proof fn law_chain_events_in_order(patterns: Seq<PatternView>, ppq: u32)
    requires
        chain_renderable(patterns, ppq),
    ensures
        events_in_order(chain_events(patterns, ppq), chain_ticks(patterns, ppq) as int),
    decreases patterns.len(),
{
    if patterns.len() > 0 {
        let front = patterns.drop_last();
        let last = patterns.last();
        assert forall|i: int| 0 <= i < front.len() implies (#[trigger] front[i]).renderable(ppq) by {
            assert(front[i] == patterns[i]);
        }
        assert(last == patterns[patterns.len() - 1]);
        law_chain_events_in_order(front, ppq);
        law_pattern_events_fit_in_bar(last, ppq);
        let start = chain_ticks(front, ppq);
        lemma_shifted_in_order(last.events(ppq), last.bar_ticks(ppq), start);
        let a = chain_events(front, ppq);
        assert(ordered(a)) by {
            assert forall|i: int, j: int| 0 <= i < j < a.len() implies event_end(#[trigger] a[i]) <= (#[trigger] a[j]).tick_offset by {}
        }
        lemma_concat_ordered(a, shifted(last.events(ppq), start), 0, start, start + last.bar_ticks(ppq));
    }
}

/// Playing `k` copies of a run takes `k` times as long as the run.
pub proof fn law_repeated_ticks(patterns: Seq<PatternView>, k: nat, ppq: u32)
    ensures
        chain_ticks(repeated(patterns, k), ppq) == k * chain_ticks(patterns, ppq),
    decreases k,
{
    if k > 0 {
        law_repeated_ticks(patterns, (k - 1) as nat, ppq);
        lemma_chain_ticks_append(repeated(patterns, (k - 1) as nat), patterns, ppq);
        assert((k - 1) * chain_ticks(patterns, ppq) + chain_ticks(patterns, ppq) == k * chain_ticks(
            patterns,
            ppq,
        )) by (nonlinear_arith);
    } else {
        assert(0 * chain_ticks(patterns, ppq) == 0) by (nonlinear_arith);
    }
}

proof fn lemma_chain_ticks_append(a: Seq<PatternView>, b: Seq<PatternView>, ppq: u32)
    ensures
        chain_ticks(a + b, ppq) == chain_ticks(a, ppq) + chain_ticks(b, ppq),
    decreases b.len(),
{
    if b.len() == 0 {
        assert(a + b =~= a);
    } else {
        assert((a + b).drop_last() =~= a + b.drop_last());
        lemma_chain_ticks_append(a, b.drop_last(), ppq);
    }
}

proof fn lemma_shifted_add(x: Seq<SequenceEvent>, y: Seq<SequenceEvent>, by: nat)
    ensures
        shifted(x + y, by) == shifted(x, by) + shifted(y, by),
{
    assert(shifted(x + y, by) =~= shifted(x, by) + shifted(y, by));
}

proof fn lemma_shifted_shifted(events: Seq<SequenceEvent>, x: nat, y: nat)
    requires
        forall|i: int| 0 <= i < events.len() ==> (#[trigger] events[i]).tick_offset + x + y <= u32::MAX,
    ensures
        shifted(shifted(events, x), y) == shifted(events, x + y),
{
    assert(shifted(shifted(events, x), y) =~= shifted(events, x + y));
}

proof fn lemma_chain_renderable_parts(a: Seq<PatternView>, b: Seq<PatternView>, ppq: u32)
    requires
        chain_renderable(a + b, ppq),
    ensures
        chain_renderable(a, ppq),
        chain_renderable(b, ppq),
{
    lemma_chain_ticks_append(a, b, ppq);
    assert forall|i: int| 0 <= i < a.len() implies (#[trigger] a[i]).renderable(ppq) by {
        assert((a + b)[i] == a[i]);
    }
    assert forall|i: int| 0 <= i < b.len() implies (#[trigger] b[i]).renderable(ppq) by {
        assert((a + b)[a.len() + i] == b[i]);
    }
}

/// Playing chain `a` and then chain `b` gives `a`'s events followed by
/// `b`'s events moved to start where `a` ends; the lengths add up, and the
/// first pattern (hence the time signature) is `a`'s when `a` has one.
pub proof fn law_concat_chains(a: Seq<PatternView>, b: Seq<PatternView>, ppq: u32)
    requires
        chain_renderable(a + b, ppq),
    ensures
        chain_ticks(a + b, ppq) == chain_ticks(a, ppq) + chain_ticks(b, ppq),
        chain_events(a + b, ppq) == chain_events(a, ppq) + shifted(chain_events(b, ppq), chain_ticks(a, ppq)),
        a.len() > 0 ==> (a + b)[0] == a[0],
    decreases b.len(),
{
    lemma_chain_ticks_append(a, b, ppq);
    if a.len() > 0 {
        assert((a + b)[0] == a[0]);
    }
    if b.len() == 0 {
        assert(a + b =~= a);
        assert(chain_events(b, ppq) =~= Seq::<SequenceEvent>::empty());
        assert(chain_events(a, ppq) + shifted(chain_events(b, ppq), chain_ticks(a, ppq)) =~= chain_events(a, ppq));
    } else {
        let front = b.drop_last();
        let last = b.last();
        let ta = chain_ticks(a, ppq);
        let tf = chain_ticks(front, ppq);
        assert((a + b).drop_last() =~= a + front);
        assert((a + b).last() == last);
        assert((a + front) + seq![last] =~= a + b);
        lemma_chain_renderable_parts(a + front, seq![last], ppq);
        lemma_chain_renderable_parts(a, b, ppq);
        law_concat_chains(a, front, ppq);
        assert(b[b.len() - 1] == last);
        law_pattern_events_fit_in_bar(last, ppq);
        let le = last.events(ppq);
        lemma_chain_ticks_append(a, front, ppq);
        assert forall|i: int| 0 <= i < le.len() implies (#[trigger] le[i]).tick_offset + tf + ta <= u32::MAX by {
            assert(event_end(le[i]) <= last.bar_ticks(ppq));
        }
        lemma_shifted_shifted(le, tf, ta);
        lemma_shifted_add(chain_events(front, ppq), shifted(le, tf), ta);
        assert(chain_events(a + b, ppq) =~= chain_events(a, ppq) + shifted(chain_events(b, ppq), ta));
    }
}

/// Playing pattern `p` and then pattern `q` gives `p`'s events followed by
/// `q`'s events moved one bar of `p` later, over both bars.
pub proof fn law_then_patterns(p: PatternView, q: PatternView, ppq: u32)
    ensures
        chain_ticks(seq![p, q], ppq) == p.bar_ticks(ppq) + q.bar_ticks(ppq),
        chain_events(seq![p, q], ppq) == p.events(ppq) + shifted(q.events(ppq), p.bar_ticks(ppq)),
{
    let two = seq![p, q];
    assert(two.drop_last() =~= seq![p]);
    assert(seq![p].drop_last() =~= Seq::<PatternView>::empty());
    assert(two.last() == q);
    assert(seq![p].last() == p);
    let one = seq![p];
    assert(chain_ticks(one.drop_last(), ppq) == 0);
    assert(chain_ticks(one, ppq) == p.bar_ticks(ppq));
    assert(chain_events(one.drop_last(), ppq) == Seq::<SequenceEvent>::empty());
    assert(shifted(p.events(ppq), 0) =~= p.events(ppq));
    assert(chain_events(one, ppq) =~= p.events(ppq));
    assert(chain_ticks(two, ppq) == chain_ticks(one, ppq) + q.bar_ticks(ppq));
    assert(chain_events(two, ppq) == chain_events(one, ppq) + shifted(q.events(ppq), chain_ticks(one, ppq)));
}

/// Position `j * count + i` in a run of copies: event `i` of copy `j`.
pub open spec fn flat_index(j: int, count: int, i: int) -> int {
    j * count + i
}

/// Event `i` of the `j`-th copy of `events`, copies being `period` ticks
/// apart.
pub open spec fn copy_at(events: Seq<SequenceEvent>, period: nat, j: int, i: int) -> SequenceEvent {
    shifted(events, (j * period) as nat)[i]
}

proof fn lemma_flat_index_bounds(j: int, k: int, i: int, n: int)
    requires
        0 <= j < n,
        0 <= i < k,
    ensures
        0 <= flat_index(j, k, i) < n * k,
        j < n - 1 ==> flat_index(j, k, i) < (n - 1) * k,
        j == n - 1 ==> flat_index(j, k, i) == (n - 1) * k + i,
{
    assert(0 <= j * k + i < n * k) by (nonlinear_arith)
        requires
            0 <= j < n,
            0 <= i < k,
    ;
    assert(j < n - 1 ==> j * k + i < (n - 1) * k) by (nonlinear_arith)
        requires
            0 <= j,
            0 <= i < k,
    ;
}

/// Repeating pattern `p` `n` times gives `n` bars of `p`: `n` times its
/// length and its events, with event `i` of copy `j` moved `j` bars later.
pub proof fn law_repeat_pattern(p: PatternView, n: nat, ppq: u32)
    ensures
        chain_ticks(Seq::new(n, |x: int| p), ppq) == n * p.bar_ticks(ppq),
        chain_events(Seq::new(n, |x: int| p), ppq).len() == n * p.events(ppq).len(),
        forall|j: int, i: int|
            0 <= j < n && 0 <= i < p.events(ppq).len() ==> chain_events(Seq::new(n, |x: int| p), ppq)[flat_index(
                j,
                p.events(ppq).len() as int,
                i,
            )] == #[trigger] copy_at(p.events(ppq), p.bar_ticks(ppq), j, i),
    decreases n,
{
    let ps = Seq::new(n, |x: int| p);
    let k = p.events(ppq).len() as int;
    let bar = p.bar_ticks(ppq);
    if n == 0 {
        assert(n * bar == 0 && n * k == 0) by (nonlinear_arith)
            requires
                n == 0,
        ;
    } else {
        let prev = Seq::new((n - 1) as nat, |x: int| p);
        assert(ps.drop_last() =~= prev);
        assert(ps.last() == p);
        law_repeat_pattern(p, (n - 1) as nat, ppq);
        assert((n - 1) * bar + bar == n * bar) by (nonlinear_arith);
        assert((n - 1) * k + k == n * k) by (nonlinear_arith);
        let ce = chain_events(ps, ppq);
        let before = chain_events(prev, ppq);
        assert(ce == before + shifted(p.events(ppq), ((n - 1) * bar) as nat));
        assert forall|j: int, i: int| 0 <= j < n && 0 <= i < k implies ce[flat_index(j, k, i)] == #[trigger] copy_at(
            p.events(ppq),
            bar,
            j,
            i,
        ) by {
            lemma_flat_index_bounds(j, k, i, n as int);
            if j < n - 1 {
                assert(ce[flat_index(j, k, i)] == before[flat_index(j, k, i)]);
            } else {
                assert(ce[flat_index(j, k, i)] == shifted(p.events(ppq), ((n - 1) * bar) as nat)[i]);
            }
        }
    }
}

/// Repeating a chain `n` times gives `n` times its length and its events,
/// with event `i` of copy `j` moved `j` chain lengths later; the first
/// pattern stays the chain's own.
pub proof fn law_repeat_chain(s: Seq<PatternView>, n: nat, ppq: u32)
    requires
        chain_renderable(repeated(s, n), ppq),
    ensures
        chain_ticks(repeated(s, n), ppq) == n * chain_ticks(s, ppq),
        chain_events(repeated(s, n), ppq).len() == n * chain_events(s, ppq).len(),
        forall|j: int, i: int|
            0 <= j < n && 0 <= i < chain_events(s, ppq).len() ==> chain_events(repeated(s, n), ppq)[flat_index(
                j,
                chain_events(s, ppq).len() as int,
                i,
            )] == #[trigger] copy_at(chain_events(s, ppq), chain_ticks(s, ppq), j, i),
        n > 0 && s.len() > 0 ==> repeated(s, n)[0] == s[0],
    decreases n,
{
    law_repeated_ticks(s, n, ppq);
    let m = chain_events(s, ppq).len() as int;
    let t = chain_ticks(s, ppq);
    let rs = repeated(s, n);
    if n == 0 {
        assert(n * m == 0) by (nonlinear_arith)
            requires
                n == 0,
        ;
    } else {
        let prev = repeated(s, (n - 1) as nat);
        assert(rs == prev + s);
        lemma_chain_renderable_parts(prev, s, ppq);
        law_repeat_chain(s, (n - 1) as nat, ppq);
        law_concat_chains(prev, s, ppq);
        law_repeated_ticks(s, (n - 1) as nat, ppq);
        assert((n - 1) * m + m == n * m) by (nonlinear_arith);
        let ce = chain_events(rs, ppq);
        let before = chain_events(prev, ppq);
        assert(ce == before + shifted(chain_events(s, ppq), ((n - 1) * t) as nat));
        assert forall|j: int, i: int| 0 <= j < n && 0 <= i < m implies ce[flat_index(j, m, i)] == #[trigger] copy_at(
            chain_events(s, ppq),
            t,
            j,
            i,
        ) by {
            lemma_flat_index_bounds(j, m, i, n as int);
            if j < n - 1 {
                assert(ce[flat_index(j, m, i)] == before[flat_index(j, m, i)]);
            } else {
                assert(ce[flat_index(j, m, i)] == shifted(chain_events(s, ppq), ((n - 1) * t) as nat)[i]);
            }
        }
        if s.len() > 0 {
            if n > 1 {
                assert(prev[0] == s[0]);
                assert(rs[0] == prev[0]);
            } else {
                assert(prev =~= Seq::<PatternView>::empty());
                assert(rs =~= s);
            }
        }
    }
}

impl Clone for PatternChain {
    fn clone(&self) -> (r: Self)
        ensures
            r@ == self@,
    {
        PatternChain { patterns: clone_patterns(&self.patterns) }
    }
}

/// A pattern-by-pattern copy of a list of patterns.
fn clone_patterns(patterns: &Vec<Pattern>) -> (r: Vec<Pattern>)
    ensures
        patterns_view(r@) == patterns_view(patterns@),
{
    let mut out: Vec<Pattern> = Vec::new();
    for i in 0..patterns.len()
        invariant
            patterns_view(out@) == patterns_view(patterns@.take(i as int)),
    {
        let c = patterns[i].clone();
        proof {
            lemma_patterns_view_push(out@, c);
            lemma_patterns_view_push(patterns@.take(i as int), patterns@[i as int]);
            assert(patterns@.take(i + 1) =~= patterns@.take(i as int).push(patterns@[i as int]));
        }
        out.push(c);
    }
    proof {
        assert(patterns@.take(patterns@.len() as int) =~= patterns@);
    }
    out
}

impl Pattern {
    /// Play this pattern, then `other`.
    pub fn then(self, other: Pattern) -> (c: PatternChain)
        ensures
            c@ == seq![self@, other@],
    {
        let mut patterns: Vec<Pattern> = Vec::new();
        let ghost (a, b) = (self@, other@);
        patterns.push(self);
        patterns.push(other);
        proof {
            assert(patterns_view(patterns@) =~= seq![a, b]);
        }
        PatternChain { patterns }
    }

    /// Play this pattern `n` times.
    pub fn repeat(self, n: usize) -> (c: PatternChain)
        ensures
            c@ == Seq::new(n as nat, |i: int| self@),
    {
        let mut patterns: Vec<Pattern> = Vec::new();
        for i in 0..n
            invariant
                patterns_view(patterns@) == Seq::new(i as nat, |k: int| self@),
        {
            let c = self.clone();
            proof {
                lemma_patterns_view_push(patterns@, c);
                assert(Seq::new((i + 1) as nat, |k: int| self@) =~= Seq::new(i as nat, |k: int| self@).push(c@));
            }
            patterns.push(c);
        }
        PatternChain { patterns }
    }
}

impl PatternChain {
    /// Add a pattern at the end of the chain.
    pub fn then(self, pattern: Pattern) -> (c: Self)
        ensures
            c@ == self@.push(pattern@),
    {
        let mut s = self;
        proof {
            lemma_patterns_view_push(s.patterns@, pattern);
        }
        s.patterns.push(pattern);
        s
    }

    /// Play `other` after this chain.
    pub fn concat(self, other: PatternChain) -> (c: Self)
        ensures
            c@ == self@ + other@,
    {
        let mut s = self;
        let mut rest = other.patterns;
        let ghost (a, b) = (s.patterns@, rest@);
        s.patterns.append(&mut rest);
        proof {
            assert(patterns_view(a + b) =~= patterns_view(a) + patterns_view(b));
        }
        s
    }

    /// Play the whole chain `n` times; zero times gives an empty chain.
    pub fn repeat(self, n: usize) -> (c: Self)
        ensures
            c@ == repeated(self@, n as nat),
    {
        let mut s = self;
        let ghost orig = s@;
        if n == 0 {
            proof {
                assert(patterns_view(Seq::<Pattern>::empty()) =~= repeated(orig, 0));
            }
            return PatternChain { patterns: Vec::new() };
        }
        let one_copy = clone_patterns(&s.patterns);
        proof {
            assert(repeated(orig, 0) + orig =~= orig);
        }
        if n > 1 {
            for k in 1..n
                invariant
                    patterns_view(one_copy@) == orig,
                    patterns_view(s.patterns@) == repeated(orig, k as nat),
            {
                let ghost before = s.patterns@;
                let mut copy = clone_patterns(&one_copy);
                let ghost c = copy@;
                s.patterns.append(&mut copy);
                proof {
                    assert(patterns_view(before + c) =~= patterns_view(before) + patterns_view(c));
                }
            }
        }
        s
    }

    /// Turn the chain into one sequence: each pattern's events are moved to
    /// start where the previous patterns end. The time signature is that of
    /// the first pattern (4/4 for an empty chain).
    pub fn to_sequence(&self, ppq: u32) -> (s: Sequence)
        requires
            chain_renderable(self@, ppq),
        ensures
            s.time_signature == (if self@.len() > 0 {
                self@[0].time_signature
            } else {
                TimeSignature::spec_four_four()
            }),
            s.ppq == ppq,
            s.total_ticks == chain_ticks(self@, ppq),
            s.events@ == chain_events(self@, ppq),
    {
        let ghost ps = self@;
        let n = self.patterns.len();
        let time_signature = if n > 0 {
            self.patterns[0].time_signature
        } else {
            TimeSignature::FOUR_FOUR()
        };
        let mut all_events: Vec<SequenceEvent> = Vec::new();
        let mut cursor: u32 = 0;
        proof {
            assert(ps.take(0) =~= Seq::<PatternView>::empty());
        }
        for k in 0..n
            invariant
                n == self.patterns@.len(),
                ps == self@,
                ps == patterns_view(self.patterns@),
                chain_renderable(ps, ppq),
                cursor == chain_ticks(ps.take(k as int), ppq),
                all_events@ == chain_events(ps.take(k as int), ppq),
        {
            let pattern = &self.patterns[k];
            proof {
                assert(ps[k as int] == pattern@);
                assert(ps[k as int].renderable(ppq));
                lemma_take_last(ps, k as int);
                lemma_chain_ticks_prefix(ps, k + 1, ppq);
                law_pattern_events_fit_in_bar(pattern@, ppq);
            }
            let bar_ticks = pattern.time_signature.bar_ticks(ppq);
            let seq = pattern.to_sequence(ppq);
            let ghost before = all_events@;
            let ghost evs = seq.events@;
            let m = seq.events.len();
            for j in 0..m
                invariant
                    m == evs.len(),
                    evs == seq.events@,
                    events_in_order(evs, bar_ticks as int),
                    cursor + bar_ticks <= u32::MAX,
                    all_events@ == before + shifted(evs.take(j as int), cursor as nat),
            {
                let e = &seq.events[j];
                proof {
                    assert(e.tick_offset <= event_end(evs[j as int]) <= bar_ticks);
                }
                let moved = SequenceEvent {
                    tick_offset: e.tick_offset + cursor,
                    duration_ticks: e.duration_ticks,
                    note: e.note,
                    velocity: e.velocity,
                    offset_ticks: e.offset_ticks,
                };
                all_events.push(moved);
                proof {
                    assert(shifted(evs.take(j + 1), cursor as nat) =~= shifted(evs.take(j as int), cursor as nat).push(moved));
                }
            }
            proof {
                assert(evs.take(m as int) =~= evs);
            }
            cursor = cursor + bar_ticks;
        }
        proof {
            assert(ps.take(n as int) =~= ps);
        }
        Sequence { time_signature, ppq, events: all_events, total_ticks: cursor }
    }
}

/// The event of a note that starts at `start` and lasts `length` ticks.
pub open spec fn note_event(n: NoteSlot, start: nat, length: nat) -> SequenceEvent {
    SequenceEvent {
        tick_offset: start as u32,
        duration_ticks: length as u32,
        note: Some(n.note),
        velocity: n.velocity,
        offset_ticks: 0,
    }
}

/// The part of `d` ticks that one unit of weight gets beside a note of
/// weight `w`: `d / (w + 1)`, rounded down.
pub open spec fn unit_part(d: nat, w: u8) -> nat {
    d / ((w as nat) + 1)
}

/// The part of `d` ticks that a note of weight `w` gets beside one unit of
/// weight: `d * w / (w + 1)`, rounded down.
pub open spec fn note_part(d: nat, w: u8) -> nat {
    (d * (w as nat)) / ((w as nat) + 1)
}

/// Inside a subdivision a rest, like a nested subdivision, weighs as much as
/// a note of weight 1: beside a note of weight `w` over `d` ticks it takes
/// `1/(w + 1)` of the slot, and the note gets the rest, `d * w / (w + 1)`
/// ticks (half the slot for a note of weight 1), after the rest when the
/// rest comes first.
pub proof fn law_rest_and_subdivision_weigh_one(n: NoteSlot, inner: Seq<SlotView>, start: nat, d: nat)
    ensures
        expand(SlotView::Subdivision(seq![SlotView::Note(n), SlotView::Rest]), start, d) == seq![
            note_event(n, start, note_part(d, n.weight)),
        ],
        expand(SlotView::Subdivision(seq![SlotView::Rest, SlotView::Note(n)]), start, d) == seq![
            note_event(n, start + unit_part(d, n.weight), note_part(d, n.weight)),
        ],
        expand(SlotView::Subdivision(seq![SlotView::Subdivision(inner), SlotView::Note(n)]), start, d).last()
            == note_event(n, start + unit_part(d, n.weight), note_part(d, n.weight)),
{
    let w: nat = n.weight as nat;
    let a = seq![SlotView::Note(n), SlotView::Rest];
    let b = seq![SlotView::Rest, SlotView::Note(n)];
    let c = seq![SlotView::Subdivision(inner), SlotView::Note(n)];
    assert(a.drop_last() =~= seq![SlotView::Note(n)]);
    assert(b.drop_last() =~= seq![SlotView::Rest]);
    assert(c.drop_last() =~= seq![SlotView::Subdivision(inner)]);
    assert(seq![SlotView::Note(n)].drop_last() =~= Seq::<SlotView>::empty());
    assert(seq![SlotView::Rest].drop_last() =~= Seq::<SlotView>::empty());
    assert(seq![SlotView::Subdivision(inner)].drop_last() =~= Seq::<SlotView>::empty());
    assert(total_weight(a) == w + 1) by {
        assert(total_weight(Seq::<SlotView>::empty()) == 0);
        assert(total_weight(seq![SlotView::Note(n)]) == w);
    }
    assert(total_weight(b) == w + 1) by {
        assert(total_weight(Seq::<SlotView>::empty()) == 0);
        assert(total_weight(seq![SlotView::Rest]) == 1);
    }
    assert(total_weight(c) == w + 1) by {
        assert(total_weight(Seq::<SlotView>::empty()) == 0);
        assert(total_weight(seq![SlotView::Subdivision(inner)]) == 1);
    }
    assert(d * 1 == d);
    let t = w + 1;
    // [note, rest]
    assert(expand_parts(seq![SlotView::Note(n)], start, d, t) =~= seq![note_event(n, start, d * w / t)]) by {
        let one = seq![SlotView::Note(n)];
        assert(one.last() == SlotView::Note(n));
        assert(slot_weight(one.last()) == w);
        assert(share(d, w, t) == d * w / t);
        assert(span(Seq::<SlotView>::empty(), d, t) == 0);
        assert(expand(SlotView::Note(n), start, d * w / t) =~= seq![note_event(n, start, d * w / t)]);
        assert(expand_parts(Seq::<SlotView>::empty(), start, d, t) =~= Seq::<SequenceEvent>::empty());
    }
    assert(a.last() == SlotView::Rest);
    assert(expand(SlotView::Rest, start + span(a.drop_last(), d, t), share(d, 1, t)) =~= Seq::<SequenceEvent>::empty());
    assert(expand_parts(a, start, d, t) == expand_parts(a.drop_last(), start, d, t) + expand(
        SlotView::Rest, start + span(a.drop_last(), d, t), share(d, 1, t)));
    assert(expand_parts(a, start, d, t) =~= seq![note_event(n, start, d * w / t)]);
    // [rest, note]
    assert(span(seq![SlotView::Rest], d, t) == d / t) by {
        assert(span(Seq::<SlotView>::empty(), d, t) == 0);
    }
    assert(expand_parts(seq![SlotView::Rest], start, d, t) =~= Seq::<SequenceEvent>::empty()) by {
        let one = seq![SlotView::Rest];
        assert(one.last() == SlotView::Rest);
        assert(expand(SlotView::Rest, start + span(one.drop_last(), d, t), share(d, 1, t)) =~= Seq::<SequenceEvent>::empty());
        assert(expand_parts(Seq::<SlotView>::empty(), start, d, t) =~= Seq::<SequenceEvent>::empty());
    }
    assert(b.last() == SlotView::Note(n));
    assert(slot_weight(b.last()) == w);
    assert(share(d, w, t) == d * w / t);
    assert(expand(SlotView::Note(n), start + d / t, d * w / t) =~= seq![note_event(n, start + d / t, d * w / t)]);
    assert(expand_parts(b, start, d, t) == expand_parts(b.drop_last(), start, d, t) + expand(
        SlotView::Note(n), start + span(b.drop_last(), d, t), share(d, w, t)));
    assert(expand_parts(b, start, d, t) =~= seq![note_event(n, start + d / t, d * w / t)]);
    // [subdivision, note]
    assert(span(seq![SlotView::Subdivision(inner)], d, t) == d / t) by {
        assert(span(Seq::<SlotView>::empty(), d, t) == 0);
    }
    let last = expand(SlotView::Note(n), start + d / t, d * w / t);
    assert(c.last() == SlotView::Note(n));
    assert(slot_weight(c.last()) == w);
    assert(expand_parts(c, start, d, t) == expand_parts(seq![SlotView::Subdivision(inner)], start, d, t) + last);
    assert(last =~= seq![note_event(n, start + d / t, d * w / t)]);
}

/// A one-slot pattern whose slot splits into a note of weight `w` and a rest
/// gives a single event: the note at tick 0, lasting `w/(w + 1)` of the bar.
pub proof fn law_pattern_note_then_rest(p: PatternView, ppq: u32, n: NoteSlot)
    requires
        p.slots == seq![SlotView::Subdivision(seq![SlotView::Note(n), SlotView::Rest])],
    ensures
        p.events(ppq) == seq![note_event(n, 0, note_part(p.bar_ticks(ppq), n.weight))],
{
    let s = SlotView::Subdivision(seq![SlotView::Note(n), SlotView::Rest]);
    assert(p.slots.len() == 1);
    assert(p.slot_ticks(ppq) == p.bar_ticks(ppq));
    assert(p.slots.drop_last() =~= Seq::<SlotView>::empty());
    assert(layout(Seq::<SlotView>::empty(), p.slot_ticks(ppq)) =~= Seq::<SequenceEvent>::empty());
    law_rest_and_subdivision_weigh_one(n, Seq::empty(), 0, p.bar_ticks(ppq));
    assert(layout(p.slots, p.slot_ticks(ppq)) =~= expand(s, 0, p.bar_ticks(ppq)));
}

} // verus!
