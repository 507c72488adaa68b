//! MIDI input: the events read and their conversion to note messages.

pub mod converter;
pub mod midi;
