//! Parameter vocabularies of the audio graph nodes, and the serial chaining
//! of two nodes.

pub mod chorus;
pub mod delay;
pub mod distortion;
pub mod filter;
pub mod oscillator;
pub mod reverb;
pub mod through;
