# saavy_dsp

The timing and voice-management core of a teaching synthesizer, written in
Verus with its behaviour proved.

- `src/sequencing`: note durations as exact fractions (`Duration`), time
  signatures, sequences and their builder, the pattern language (`Pattern`,
  `PatternSlot`, `PatternChain`) and MIDI note names.
- `src/runtime/track.rs`: the stable ordering of events by playback tick and
  the note state of a monophonic track (`TrackState`).
- `src/synth`: the state of each voice and the allocation of voices to notes.
- `src/io`: MIDI events and their conversion to note messages.
- `src/graph`, `src/patch`, `src/runtime/ui`: the parameter vocabularies of
  the audio nodes, patch modulation routes and UI messages; `Through` chains
  two nodes.
- `app/`: the audio side in plain Rust: the `GraphNode` trait and render
  context, voices with their sounds, the polyphonic synthesizer fed by an
  `rtrb` queue, tracks, UI state, the `ratatui` waveform widget and the
  `serde` forms of patch data.
- `tests/`: runtime tests of the library.
