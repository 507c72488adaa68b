//! Playback support that does not depend on audio rendering.

pub mod track;
pub mod ui;
