//! The modulation vocabulary of patch descriptions.

use vstd::prelude::*;

verus! {

/// Where a modulation comes from.
#[derive(Debug, Clone, PartialEq, Eq)]
pub enum ModSource {
    /// A named envelope.
    Envelope(String),
    /// A named LFO.
    Lfo(String),
    /// A macro control, by id.
    Macro(u8),
    /// Note velocity.
    Velocity,
    /// Channel aftertouch.
    Aftertouch,
}

/// What a modulation acts on.
#[derive(Debug, Clone, PartialEq, Eq, Structural)]
pub enum ModTarget {
    /// The frequency of an oscillator of the stack.
    OscillatorFrequency { index: usize },
    /// The pulse width of an oscillator of the stack.
    OscillatorPulseWidth { index: usize },
    /// The filter cutoff.
    FilterCutoff,
    /// The filter resonance.
    FilterResonance,
    /// The output amplitude.
    Amplitude,
}

} // verus!
