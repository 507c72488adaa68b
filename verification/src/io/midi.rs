use vstd::prelude::*;

verus! {

/// A MIDI channel event as the synthesizer reads it.
#[derive(Debug, Clone, Copy, PartialEq, Eq, Structural)]
pub enum MidiEvent {
    /// A key was pressed.
    NoteOn { channel: u8, key: u8, velocity: u8 },
    /// A key was released.
    NoteOff { channel: u8, key: u8, velocity: u8 },
    /// A controller moved.
    ControlChange { channel: u8, controller: u8, value: u8 },
}

} // verus!
