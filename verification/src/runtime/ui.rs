//! Messages and static data shared between the user interface and playback.

pub mod state;
