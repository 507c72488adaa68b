//! Helpers that build pattern slots.

use vstd::prelude::*;

use super::{NoteSlot, PatternSlot, SlotView, slots_view};

verus! {

/// A note slot with velocity 100 and weight 1.
pub fn note(midi_note: u8) -> (r: PatternSlot)
    ensures
        r@ == SlotView::Note(NoteSlot { note: midi_note, velocity: 100, weight: 1 }),
{
    PatternSlot::Note(NoteSlot::new(midi_note))
}

/// A note slot with the given velocity.
pub fn note_vel(midi_note: u8, velocity: u8) -> (r: PatternSlot)
    ensures
        r@ == SlotView::Note(NoteSlot { note: midi_note, velocity, weight: 1 }),
{
    PatternSlot::Note(NoteSlot::new(midi_note).with_velocity(velocity))
}

/// A note slot with the given weight (for swing).
pub fn note_weight(midi_note: u8, weight: u8) -> (r: PatternSlot)
    ensures
        r@ == SlotView::Note(NoteSlot { note: midi_note, velocity: 100, weight }),
{
    PatternSlot::Note(NoteSlot::new(midi_note).with_weight(weight))
}

/// A rest slot.
pub fn rest() -> (r: PatternSlot)
    ensures
        r@ == SlotView::Rest,
{
    PatternSlot::Rest
}

/// A subdivision of a slot into the given parts.
pub fn sub(slots: Vec<PatternSlot>) -> (r: PatternSlot)
    ensures
        r@ == SlotView::Subdivision(slots_view(slots@)),
{
    PatternSlot::Subdivision(slots)
}

} // verus!
