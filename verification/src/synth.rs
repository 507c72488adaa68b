//! Voice management for polyphonic synthesis: which voice plays which note,
//! and which voice a new note takes.

pub mod poly;
pub mod voice;
