use vstd::prelude::*;

verus! {

/// Commands sent from the user interface to playback.
#[derive(Clone, Copy, Debug, PartialEq, Eq, Structural)]
pub enum ControlMessage {
    /// Toggle play/pause.
    TogglePlayback,
    /// Go back to the beginning.
    Reset,
}

/// Static information about a track, sent once at initialization.
#[derive(Clone, Debug)]
pub struct TrackStaticInfo {
    /// Track name.
    pub name: String,
    /// Events of the track's pattern for the timeline: (tick, duration).
    pub events: Vec<(u32, u32)>,
}

} // verus!
