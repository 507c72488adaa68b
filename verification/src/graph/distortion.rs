use vstd::prelude::*;

verus! {

/// The kind of waveshaping a distortion applies.
#[derive(Clone, Copy, Debug, PartialEq, Eq, Structural)]
pub enum DistortionMode {
    /// Soft clipping: warm, tube-like saturation.
    Soft,
    /// Hard clipping: harsh, buzzy distortion.
    Hard,
    /// Foldback: complex, metallic harmonics.
    Foldback,
}

/// Parameters of the distortion effect that can be modulated.
#[derive(Clone, Copy, Debug, PartialEq, Eq, Structural)]
pub enum DistortionParam {
    /// Drive amount (1.0 is clean, higher distorts more).
    Drive,
    /// Dry/wet mix.
    Mix,
}

} // verus!
