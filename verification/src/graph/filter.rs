use vstd::prelude::*;

verus! {

/// Parameters of the state-variable filter that can be modulated.
#[derive(Clone, Copy, Debug, PartialEq, Eq, Structural)]
pub enum FilterParam {
    /// Cutoff frequency in Hz.
    Cutoff,
    /// Resonance (emphasis at the cutoff).
    Resonance,
}

} // verus!
