use vstd::prelude::*;

verus! {

/// Parameters of the chorus effect that can be modulated.
#[derive(Clone, Copy, Debug, PartialEq, Eq, Structural)]
pub enum ChorusParam {
    /// LFO rate in Hz.
    Rate,
    /// Modulation depth in milliseconds.
    Depth,
    /// Dry/wet mix.
    Mix,
}

} // verus!
