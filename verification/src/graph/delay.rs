use vstd::prelude::*;

verus! {

/// Parameters of the delay effect that can be modulated.
#[derive(Clone, Copy, Debug, PartialEq, Eq, Structural)]
pub enum DelayParam {
    /// Delay time in milliseconds.
    DelayTime,
    /// How much of the delayed signal feeds back.
    Feedback,
    /// Dry/wet mix.
    Mix,
}

} // verus!
