use saavy_dsp::runtime::track::{playback_tick_of, sort_by_playback_tick, TrackState};
use saavy_dsp::sequencing::SequenceEvent;

fn ev(tick: u32, offset: i32, note: u8) -> SequenceEvent {
    SequenceEvent { tick_offset: tick, duration_ticks: 10, note: Some(note), velocity: 100, offset_ticks: offset }
}

#[test]
fn playback_tick_saturates() {
    assert_eq!(playback_tick_of(&ev(100, -30, 0)), 70);
    assert_eq!(playback_tick_of(&ev(10, -30, 0)), 0);
    assert_eq!(playback_tick_of(&ev(u32::MAX - 5, 30, 0)), u32::MAX);
}

#[test]
fn negative_offsets_move_events_earlier() {
    let mut events = vec![ev(0, 0, 1), ev(480, 0, 2), ev(960, -600, 3)];
    sort_by_playback_tick(&mut events);
    let notes: Vec<Option<u8>> = events.iter().map(|e| e.note).collect();
    assert_eq!(notes, vec![Some(1), Some(3), Some(2)]);
}

#[test]
fn sort_is_stable() {
    let mut events = vec![ev(480, 0, 1), ev(0, 0, 2), ev(500, -20, 3), ev(480, 0, 4), ev(0, 0, 5)];
    sort_by_playback_tick(&mut events);
    let notes: Vec<Option<u8>> = events.iter().map(|e| e.note).collect();
    assert_eq!(notes, vec![Some(2), Some(5), Some(1), Some(3), Some(4)]);
}

#[test]
fn sorting_sorted_events_changes_nothing() {
    let already_sorted = vec![ev(0, 0, 1), ev(10, 0, 2), ev(20, 5, 3)];
    let mut events = already_sorted.clone();
    sort_by_playback_tick(&mut events);
    assert_eq!(events, already_sorted);
}

#[test]
fn track_state_starts_silent() {
    let t = TrackState::new();
    assert_eq!(t.current_note(), None);
    assert_eq!(t.velocity(), 0);
    assert!(!t.is_active(true));
    assert!(!t.note_off(60));
}

#[test]
fn track_releases_only_the_playing_note() {
    let mut t = TrackState::new();
    t.note_on(60, 100);
    assert_eq!(t.current_note(), Some(60));
    assert_eq!(t.velocity(), 100);
    assert!(t.note_off(60));
    assert!(!t.note_off(62));
    // a note-off leaves the note current until its sound ends
    assert_eq!(t.current_note(), Some(60));
    t.note_on(64, 90);
    assert!(!t.note_off(60));
    assert!(t.note_off(64));
}

#[test]
fn track_forgets_note_when_sound_ends() {
    let mut t = TrackState::new();
    t.note_on(48, 70);
    t.finish_block(true);
    assert_eq!(t.current_note(), Some(48));
    assert!(t.is_active(true));
    assert!(!t.is_active(false));
    t.finish_block(false);
    assert_eq!(t.current_note(), None);
    assert_eq!(t.velocity(), 70);
    assert!(!t.is_active(true));
    assert!(!t.note_off(48));
}
