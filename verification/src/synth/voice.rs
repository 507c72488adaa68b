//! The state of one voice of a polyphonic synthesizer.

use vstd::prelude::*;

verus! {

/// The phase of a voice.
#[derive(Debug, Clone, Copy, PartialEq, Eq, Structural)]
pub enum VoiceState {
    /// Available for a new note.
    Free,
    /// Playing; the envelope is in attack, decay or sustain.
    Active,
    /// The key was released; the envelope is in its release phase.
    Releasing,
}

/// The bookkeeping of one voice: the note it plays, its velocity, its phase
/// and the frame at which its note started.
#[derive(Debug, Clone, Copy, PartialEq, Eq, Structural)]
pub struct VoiceSlot {
    note: u8,
    velocity: u8,
    state: VoiceState,
    age: u64,
}

/// A voice as a value.
pub struct VoiceView {
    pub note: u8,
    pub velocity: u8,
    pub state: VoiceState,
    pub age: u64,
}

impl VoiceView {
    /// A free voice holds no note: note and velocity are zero.
    pub open spec fn well_formed(self) -> bool {
        self.state == VoiceState::Free ==> self.note == 0 && self.velocity == 0
    }

    /// The voice is sounding (playing or releasing).
    pub open spec fn sounding(self) -> bool {
        self.state == VoiceState::Active || self.state == VoiceState::Releasing
    }

    /// The voice after a note starts on it.
    pub open spec fn started(self, note: u8, velocity: u8, age: u64) -> VoiceView {
        VoiceView { note, velocity, state: VoiceState::Active, age }
    }

    /// The voice after its key is released: a playing voice starts releasing,
    /// any other voice stays as it is.
    pub open spec fn released(self) -> VoiceView {
        if self.state == VoiceState::Active {
            VoiceView { state: VoiceState::Releasing, ..self }
        } else {
            self
        }
    }

    /// The voice made free again.
    pub open spec fn freed(self) -> VoiceView {
        VoiceView { note: 0, velocity: 0, state: VoiceState::Free, age: self.age }
    }
}

impl View for VoiceSlot {
    type V = VoiceView;

    closed spec fn view(&self) -> VoiceView {
        VoiceView { note: self.note, velocity: self.velocity, state: self.state, age: self.age }
    }
}

impl VoiceSlot {
    /// A free voice.
    pub fn new() -> (v: Self)
        ensures
            v@ == (VoiceView { note: 0, velocity: 0, state: VoiceState::Free, age: 0 }),
            v@.well_formed(),
    {
        VoiceSlot { note: 0, velocity: 0, state: VoiceState::Free, age: 0 }
    }

    /// Start a note on this voice; the caller then sends the note-on to the
    /// voice's sound.
    pub fn start(&mut self, note: u8, velocity: u8, age: u64)
        ensures
            final(self)@ == old(self)@.started(note, velocity, age),
            final(self)@.well_formed(),
    {
        self.note = note;
        self.velocity = velocity;
        self.state = VoiceState::Active;
        self.age = age;
    }

    /// Release the key: a playing voice starts releasing. Returns whether it
    /// did, in which case the caller sends the note-off to the voice's sound.
    pub fn release(&mut self) -> (sent: bool)
        ensures
            final(self)@ == old(self)@.released(),
            sent == (old(self)@.state == VoiceState::Active),
            old(self)@.well_formed() ==> final(self)@.well_formed(),
    {
        if self.state == VoiceState::Active {
            self.state = VoiceState::Releasing;
            true
        } else {
            false
        }
    }

    /// After a block has been rendered: a releasing voice whose sound has
    /// fallen silent becomes free.
    pub fn finish_block(&mut self, sound_active: bool)
        ensures
            final(self)@ == if old(self)@.state == VoiceState::Releasing && !sound_active {
                old(self)@.freed()
            } else {
                old(self)@
            },
            old(self)@.well_formed() ==> final(self)@.well_formed(),
    {
        if self.state == VoiceState::Releasing && !sound_active {
            self.free();
        }
    }

    /// The voice is free.
    pub fn is_free(&self) -> (b: bool)
        ensures
            b == (self@.state == VoiceState::Free),
    {
        self.state == VoiceState::Free
    }

    /// The voice is sounding (playing or releasing).
    pub fn is_active(&self) -> (b: bool)
        ensures
            b == self@.sounding(),
    {
        self.state == VoiceState::Active || self.state == VoiceState::Releasing
    }

    /// Make the voice free: no note, no velocity.
    pub fn free(&mut self)
        ensures
            final(self)@ == old(self)@.freed(),
            final(self)@.well_formed(),
    {
        self.state = VoiceState::Free;
        self.note = 0;
        self.velocity = 0;
    }

    /// The note of the voice.
    pub fn note(&self) -> (n: u8)
        ensures
            n == self@.note,
    {
        self.note
    }

    /// The velocity of the voice.
    pub fn velocity(&self) -> (v: u8)
        ensures
            v == self@.velocity,
    {
        self.velocity
    }

    /// The frame at which the voice's note started.
    pub fn age(&self) -> (a: u64)
        ensures
            a == self@.age,
    {
        self.age
    }

    /// The phase of the voice.
    pub fn state(&self) -> (s: VoiceState)
        ensures
            s == self@.state,
    {
        self.state
    }
}

} // verus!
