use vstd::prelude::*;

verus! {

/// Parameters of the reverb that can be modulated.
#[derive(Clone, Copy, Debug, PartialEq, Eq, Structural)]
pub enum ReverbParam {
    /// Room size (0.0 small, 1.0 large).
    RoomSize,
    /// High-frequency damping (0.0 bright, 1.0 dark).
    Damping,
    /// Dry/wet mix.
    Mix,
}

} // verus!
