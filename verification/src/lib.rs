//! Musical sequencing and voice management for a teaching synthesizer: exact
//! rational note durations, time signatures, tick-accurate sequences, a
//! pattern language that divides bars into weighted slots, stable playback
//! ordering, and polyphonic voice allocation.

use vstd::prelude::*;

pub mod graph;
pub mod io;
pub mod patch;
pub mod runtime;
pub mod sequencing;
pub mod synth;

verus! {

/// Largest audio block, in samples, that a synthesizer renders at once.
pub const MAX_BLOCK_SIZE: usize = 2048;

/// Longest delay line, in samples (about 2 s at 96 kHz, 4 s at 48 kHz).
pub const MAX_DELAY_SAMPLES: usize = 192000;

} // verus!
