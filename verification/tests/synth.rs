use saavy_dsp::synth::poly::{all_notes_off, allocate_voice, find_voice, note_off, note_on, release_voice};
use saavy_dsp::synth::voice::{VoiceSlot, VoiceState};

fn voices(n: usize) -> Vec<VoiceSlot> {
    (0..n).map(|_| VoiceSlot::new()).collect()
}

#[test]
fn new_voice_is_free_and_silent() {
    let v = VoiceSlot::new();
    assert!(v.is_free());
    assert!(!v.is_active());
    assert_eq!((v.note(), v.velocity(), v.age(), v.state()), (0, 0, 0, VoiceState::Free));
}

#[test]
fn voice_lifecycle() {
    let mut v = VoiceSlot::new();
    v.start(60, 100, 7);
    assert_eq!(v.state(), VoiceState::Active);
    assert_eq!((v.note(), v.velocity(), v.age()), (60, 100, 7));
    assert!(v.release());
    assert_eq!(v.state(), VoiceState::Releasing);
    assert!(v.is_active());
    // A second release sends nothing.
    assert!(!v.release());
    v.finish_block(true);
    assert_eq!(v.state(), VoiceState::Releasing);
    v.finish_block(false);
    assert!(v.is_free());
    assert_eq!((v.note(), v.velocity()), (0, 0));
    assert_eq!(v.age(), 7);
}

#[test]
fn finish_block_never_frees_a_playing_voice() {
    let mut v = VoiceSlot::new();
    v.start(64, 90, 1);
    v.finish_block(false);
    assert_eq!(v.state(), VoiceState::Active);
}

#[test]
fn note_on_takes_first_free_voice() {
    let mut vs = voices(3);
    assert_eq!(note_on(&mut vs, 60, 100, 0), Some(0));
    assert_eq!(note_on(&mut vs, 64, 100, 10), Some(1));
    assert_eq!(vs[1].note(), 64);
    assert_eq!(vs[1].age(), 10);
    assert_eq!(allocate_voice(&vs), Some(2));
}

#[test]
fn full_pool_drops_the_note() {
    let mut vs = voices(2);
    note_on(&mut vs, 60, 100, 0);
    note_on(&mut vs, 62, 100, 1);
    assert_eq!(note_on(&mut vs, 64, 100, 2), None);
    assert_eq!(vs[0].note(), 60);
    assert_eq!(vs[1].note(), 62);
}

#[test]
fn stealing_takes_the_oldest_releasing_voice() {
    let mut vs = voices(3);
    note_on(&mut vs, 60, 100, 30);
    note_on(&mut vs, 62, 100, 10);
    note_on(&mut vs, 64, 100, 20);
    assert_eq!(note_off(&mut vs, 60), Some(0));
    assert_eq!(note_off(&mut vs, 64), Some(2));
    // Voice 1 (age 10) is still playing, so it is never stolen; of the
    // releasing voices, voice 2 (age 20) is older than voice 0 (age 30).
    assert_eq!(note_on(&mut vs, 67, 80, 40), Some(2));
    assert_eq!(vs[2].state(), VoiceState::Active);
    assert_eq!(vs[2].note(), 67);
    assert_eq!(vs[1].note(), 62);
}

#[test]
fn stealing_ties_go_to_the_first_voice() {
    let mut vs = voices(2);
    note_on(&mut vs, 60, 100, 5);
    note_on(&mut vs, 62, 100, 5);
    release_voice(&mut vs, 0);
    release_voice(&mut vs, 1);
    assert_eq!(allocate_voice(&vs), Some(0));
}

#[test]
fn note_off_finds_the_sounding_voice_with_the_note() {
    let mut vs = voices(3);
    note_on(&mut vs, 60, 100, 0);
    note_on(&mut vs, 64, 100, 1);
    assert_eq!(find_voice(&vs, 64), Some(1));
    assert_eq!(find_voice(&vs, 65), None);
    assert_eq!(note_off(&mut vs, 65), None);
    assert_eq!(note_off(&mut vs, 64), Some(1));
    assert_eq!(vs[1].state(), VoiceState::Releasing);
    // The voice is still found while it releases, but gets no second note-off.
    assert_eq!(find_voice(&vs, 64), Some(1));
    assert_eq!(note_off(&mut vs, 64), None);
    assert_eq!(vs[0].state(), VoiceState::Active);
}

#[test]
fn releasing_every_voice_sends_note_offs_to_playing_voices_only() {
    let mut vs = voices(4);
    note_on(&mut vs, 60, 100, 0);
    note_on(&mut vs, 62, 100, 1);
    note_on(&mut vs, 64, 100, 2);
    note_off(&mut vs, 62);
    let released: Vec<usize> = (0..vs.len()).filter(|&i| release_voice(&mut vs, i)).collect();
    assert_eq!(released, vec![0, 2]);
    assert!(vs[..3].iter().all(|v| v.state() == VoiceState::Releasing));
    assert!(vs[3].is_free());
}

#[test]
fn free_voices_hold_no_note() {
    let mut vs = voices(2);
    note_on(&mut vs, 70, 120, 3);
    note_off(&mut vs, 70);
    vs[0].finish_block(false);
    assert!(vs.iter().all(|v| !v.is_free() || (v.note() == 0 && v.velocity() == 0)));
}

#[test]
fn all_notes_off_releases_playing_voices_only() {
    let mut vs = voices(4);
    note_on(&mut vs, 60, 100, 0);
    note_on(&mut vs, 62, 100, 1);
    note_on(&mut vs, 64, 100, 2);
    note_off(&mut vs, 62);
    let released = all_notes_off(&mut vs);
    assert_eq!(released, vec![0, 2]);
    assert!(vs[..3].iter().all(|v| v.state() == VoiceState::Releasing));
    assert!(vs[3].is_free());
}
