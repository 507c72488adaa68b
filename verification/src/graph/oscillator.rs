use vstd::prelude::*;

verus! {

/// Parameters of an oscillator that can be modulated.
#[derive(Clone, Copy, Debug, PartialEq, Eq, Structural)]
pub enum OscParam {
    /// Oscillator frequency in Hz.
    Frequency,
    /// Detune in cents (100 cents = 1 semitone).
    Detune,
}

} // verus!
