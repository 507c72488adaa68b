use vstd::prelude::*;

use super::midi::MidiEvent;

verus! {

/// A note message for a synthesizer.
#[derive(Debug, Clone, Copy, PartialEq, Eq, Structural)]
pub enum NoteMessage {
    /// Start a note.
    NoteOn { note: u8, velocity: u8 },
    /// Release a note.
    NoteOff { note: u8, velocity: u8 },
}

/// The note message for a MIDI event on the channel listened to: note-ons
/// and note-offs on `channel_filter` keep their key and velocity; every
/// other event gives nothing.
pub open spec fn note_message_for(midi: MidiEvent, channel_filter: u8) -> Option<NoteMessage> {
    match midi {
        MidiEvent::NoteOn { channel, key, velocity } => if channel == channel_filter {
            Some(NoteMessage::NoteOn { note: key, velocity })
        } else {
            None
        },
        MidiEvent::NoteOff { channel, key, velocity } => if channel == channel_filter {
            Some(NoteMessage::NoteOff { note: key, velocity })
        } else {
            None
        },
        _ => None,
    }
}

/// Convert a MIDI event to a note message, keeping only note events on
/// `channel_filter`.
pub fn midi_to_synth(midi: MidiEvent, channel_filter: u8) -> (r: Option<NoteMessage>)
    ensures
        r == note_message_for(midi, channel_filter),
{
    match midi {
        MidiEvent::NoteOn { channel, key, velocity } if channel == channel_filter => Some(
            NoteMessage::NoteOn { note: key, velocity },
        ),
        MidiEvent::NoteOff { channel, key, velocity } if channel == channel_filter => Some(
            NoteMessage::NoteOff { note: key, velocity },
        ),
        _ => None,
    }
}

/// A MIDI event becomes a note message exactly when it is a note-on or a
/// note-off on the channel listened to, whatever that channel is (0
/// included); the message keeps the key and the velocity, and an event on
/// any other channel gives nothing.
pub proof fn law_only_the_listened_channel_passes(midi: MidiEvent, channel_filter: u8)
    ensures
        note_message_for(midi, channel_filter) is Some <==> (
            (midi matches MidiEvent::NoteOn { channel, .. } && channel == channel_filter)
            || (midi matches MidiEvent::NoteOff { channel, .. } && channel == channel_filter)),
        midi matches MidiEvent::NoteOn { channel, key, velocity } ==> (channel == channel_filter
            ==> note_message_for(midi, channel_filter) == Some(NoteMessage::NoteOn { note: key, velocity })),
        midi matches MidiEvent::NoteOff { channel, key, velocity } ==> (channel == channel_filter
            ==> note_message_for(midi, channel_filter) == Some(NoteMessage::NoteOff { note: key, velocity })),
        midi matches MidiEvent::NoteOn { channel, .. } ==> (channel != channel_filter
            ==> note_message_for(midi, channel_filter) is None),
        midi matches MidiEvent::NoteOff { channel, .. } ==> (channel != channel_filter
            ==> note_message_for(midi, channel_filter) is None),
        midi is ControlChange ==> note_message_for(midi, channel_filter) is None,
{
}

} // verus!
