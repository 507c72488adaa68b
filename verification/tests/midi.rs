use saavy_dsp::io::converter::{midi_to_synth, NoteMessage};
use saavy_dsp::io::midi::MidiEvent;

#[test]
fn note_events_on_the_channel_pass() {
    assert_eq!(
        midi_to_synth(MidiEvent::NoteOn { channel: 1, key: 60, velocity: 100 }, 1),
        Some(NoteMessage::NoteOn { note: 60, velocity: 100 })
    );
    assert_eq!(
        midi_to_synth(MidiEvent::NoteOff { channel: 1, key: 60, velocity: 12 }, 1),
        Some(NoteMessage::NoteOff { note: 60, velocity: 12 })
    );
}

#[test]
fn other_channels_and_events_are_dropped() {
    assert_eq!(midi_to_synth(MidiEvent::NoteOn { channel: 2, key: 60, velocity: 100 }, 1), None);
    assert_eq!(midi_to_synth(MidiEvent::NoteOff { channel: 0, key: 60, velocity: 0 }, 1), None);
    assert_eq!(midi_to_synth(MidiEvent::ControlChange { channel: 1, controller: 7, value: 90 }, 1), None);
}
