use saavy_dsp::sequencing::notes::{A4, C4, C5, E4, F4, G4};
use saavy_dsp::sequencing::pattern::slot::{note, note_vel, note_weight, rest, sub};
use saavy_dsp::sequencing::{NoteSlot, Pattern, PatternSlot, TimeSignature};

const PPQ: u32 = 480;

#[test]
fn test_simple_four_note_pattern() {
    let pattern = Pattern::four_four(vec![C4.into(), E4.into(), G4.into(), C5.into()]);
    let seq = pattern.to_sequence(PPQ);

    assert_eq!(seq.events.len(), 4);
    assert_eq!(seq.total_ticks, 1920);
    assert_eq!(seq.events[0].tick_offset, 0);
    assert_eq!(seq.events[0].note, Some(C4));
    assert_eq!(seq.events[1].tick_offset, 480);
    assert_eq!(seq.events[1].note, Some(E4));
    assert_eq!(seq.events[2].tick_offset, 960);
    assert_eq!(seq.events[2].note, Some(G4));
    assert_eq!(seq.events[3].tick_offset, 1440);
    assert_eq!(seq.events[3].note, Some(C5));
}

#[test]
fn test_pattern_with_rests() {
    let pattern = Pattern::four_four(vec![C4.into(), PatternSlot::Rest, G4.into(), PatternSlot::Rest]);
    let seq = pattern.to_sequence(PPQ);

    assert_eq!(seq.events.len(), 2);
    assert_eq!(seq.events[0].tick_offset, 0);
    assert_eq!(seq.events[0].note, Some(C4));
    assert_eq!(seq.events[1].tick_offset, 960);
    assert_eq!(seq.events[1].note, Some(G4));
}

#[test]
fn test_subdivision() {
    let pattern = Pattern::four_four(vec![
        C4.into(),
        PatternSlot::Subdivision(vec![E4.into(), G4.into()]),
        C5.into(),
        PatternSlot::Rest,
    ]);
    let seq = pattern.to_sequence(PPQ);

    assert_eq!(seq.events.len(), 4);
    assert_eq!(seq.events[0].tick_offset, 0);
    assert_eq!(seq.events[0].duration_ticks, 480);
    assert_eq!(seq.events[1].tick_offset, 480);
    assert_eq!(seq.events[1].duration_ticks, 240);
    assert_eq!(seq.events[2].tick_offset, 720);
    assert_eq!(seq.events[2].duration_ticks, 240);
    assert_eq!(seq.events[3].tick_offset, 960);
}

#[test]
fn test_triplet() {
    let pattern = Pattern::four_four(vec![
        PatternSlot::Subdivision(vec![C4.into(), E4.into(), G4.into()]),
        PatternSlot::Rest,
        PatternSlot::Rest,
        PatternSlot::Rest,
    ]);
    let seq = pattern.to_sequence(PPQ);

    assert_eq!(seq.events.len(), 3);
    assert_eq!(seq.events[0].tick_offset, 0);
    assert_eq!(seq.events[0].duration_ticks, 160);
    assert_eq!(seq.events[1].tick_offset, 160);
    assert_eq!(seq.events[1].duration_ticks, 160);
    assert_eq!(seq.events[2].tick_offset, 320);
    assert_eq!(seq.events[2].duration_ticks, 160);
}

#[test]
fn test_swing_with_weights() {
    let pattern = Pattern::four_four(vec![
        sub(vec![note_weight(C4, 2), note(E4)]),
        PatternSlot::Rest,
        PatternSlot::Rest,
        PatternSlot::Rest,
    ]);
    let seq = pattern.to_sequence(PPQ);

    assert_eq!(seq.events.len(), 2);
    assert_eq!(seq.events[0].tick_offset, 0);
    assert_eq!(seq.events[0].duration_ticks, 320);
    assert_eq!(seq.events[1].tick_offset, 320);
    assert_eq!(seq.events[1].duration_ticks, 160);
}

#[test]
fn test_pattern_chain() {
    let intro = Pattern::four_four(vec![C4.into(), PatternSlot::Rest, PatternSlot::Rest, PatternSlot::Rest]);
    let main = Pattern::four_four(vec![C4.into(), E4.into(), G4.into(), C5.into()]);

    let chain = intro.then(main);
    let seq = chain.to_sequence(PPQ);

    assert_eq!(seq.events.len(), 5);
    assert_eq!(seq.total_ticks, 3840);
    assert_eq!(seq.events[0].tick_offset, 0);
    assert_eq!(seq.events[1].tick_offset, 1920);
}

#[test]
fn test_pattern_repeat() {
    let pattern = Pattern::four_four(vec![C4.into(), PatternSlot::Rest, PatternSlot::Rest, PatternSlot::Rest]);

    let chain = pattern.repeat(4);
    let seq = chain.to_sequence(PPQ);

    assert_eq!(seq.events.len(), 4);
    assert_eq!(seq.total_ticks, 7680);
    assert_eq!(seq.events[0].tick_offset, 0);
    assert_eq!(seq.events[1].tick_offset, 1920);
    assert_eq!(seq.events[2].tick_offset, 3840);
    assert_eq!(seq.events[3].tick_offset, 5760);
}

#[test]
fn test_six_eight_compound() {
    let pattern = Pattern::six_eight(vec![
        PatternSlot::Subdivision(vec![C4.into(), E4.into(), G4.into()]),
        PatternSlot::Subdivision(vec![C5.into(), G4.into(), E4.into()]),
    ]);
    let seq = pattern.to_sequence(PPQ);

    assert_eq!(seq.events.len(), 6);
    assert_eq!(seq.total_ticks, 1440);
    assert_eq!(seq.events[0].tick_offset, 0);
    assert_eq!(seq.events[0].duration_ticks, 240);
    assert_eq!(seq.events[3].tick_offset, 720);
}

#[test]
fn test_slot_helpers() {
    let pattern = Pattern::four_four(vec![note(C4), note_vel(E4, 127), rest(), sub(vec![note(G4), note(C5)])]);
    let seq = pattern.to_sequence(PPQ);

    assert_eq!(seq.events.len(), 4);
    assert_eq!(seq.events[1].velocity, 127);
}

#[test]
fn test_pattern_macro_basic() {
    let p = Pattern::new(TimeSignature::FOUR_FOUR(), vec![C4.into(), E4.into(), G4.into(), C5.into()]);
    let seq = p.to_sequence(PPQ);

    assert_eq!(seq.events.len(), 4);
    assert_eq!(seq.events[0].note, Some(C4));
    assert_eq!(seq.events[1].note, Some(E4));
    assert_eq!(seq.events[2].note, Some(G4));
    assert_eq!(seq.events[3].note, Some(C5));
}

#[test]
fn test_pattern_macro_with_rests() {
    let p = Pattern::new(TimeSignature::FOUR_FOUR(), vec![C4.into(), PatternSlot::Rest, G4.into(), PatternSlot::Rest]);
    let seq = p.to_sequence(PPQ);

    assert_eq!(seq.events.len(), 2);
    assert_eq!(seq.events[0].note, Some(C4));
    assert_eq!(seq.events[1].note, Some(G4));
}

#[test]
fn test_pattern_macro_subdivision() {
    let p = Pattern::new(
        TimeSignature::FOUR_FOUR(),
        vec![C4.into(), PatternSlot::Subdivision(vec![E4.into(), G4.into()]), C5.into(), PatternSlot::Rest],
    );
    let seq = p.to_sequence(PPQ);

    assert_eq!(seq.events.len(), 4);
    assert_eq!(seq.events[1].duration_ticks, 240);
    assert_eq!(seq.events[2].duration_ticks, 240);
}

#[test]
fn test_pattern_macro_triplet() {
    let p = Pattern::new(
        TimeSignature::FOUR_FOUR(),
        vec![
            PatternSlot::Subdivision(vec![C4.into(), E4.into(), G4.into()]),
            PatternSlot::Rest,
            PatternSlot::Rest,
            PatternSlot::Rest,
        ],
    );
    let seq = p.to_sequence(PPQ);

    assert_eq!(seq.events.len(), 3);
    assert_eq!(seq.events[0].duration_ticks, 160);
}

#[test]
fn test_pattern_macro_nested() {
    let p = Pattern::new(
        TimeSignature::FOUR_FOUR(),
        vec![
            C4.into(),
            PatternSlot::Subdivision(vec![
                PatternSlot::Subdivision(vec![E4.into(), F4.into()]),
                PatternSlot::Subdivision(vec![G4.into(), A4.into()]),
            ]),
            C5.into(),
            PatternSlot::Rest,
        ],
    );
    let seq = p.to_sequence(PPQ);

    assert_eq!(seq.events.len(), 6);
    assert_eq!(seq.events[1].duration_ticks, 120);
}

#[test]
fn test_pattern_macro_six_eight() {
    let p = Pattern::new(TimeSignature::SIX_EIGHT(), vec![C4.into(), G4.into()]);
    let seq = p.to_sequence(PPQ);

    assert_eq!(seq.events.len(), 2);
    assert_eq!(seq.total_ticks, 1440);
}

#[test]
fn test_pattern_macro_trailing_comma() {
    let p = Pattern::new(TimeSignature::FOUR_FOUR(), vec![C4.into(), E4.into(), G4.into(), C5.into()]);
    assert_eq!(p.slots.len(), 4);
}

#[test]
fn test_empty_pattern() {
    let p = Pattern::four_four(vec![]);
    let seq = p.to_sequence(PPQ);

    assert_eq!(seq.events.len(), 0);
    assert_eq!(seq.total_ticks, 1920);
}

#[test]
fn note_slot_builders() {
    let n = NoteSlot::new(C4).with_velocity(90).with_weight(3);
    assert_eq!(n, NoteSlot { note: 60, velocity: 90, weight: 3 });
    assert_eq!(PatternSlot::from(E4), PatternSlot::Note(NoteSlot { note: 64, velocity: 100, weight: 1 }));
}

#[test]
fn three_four_pattern_divides_bar_in_three() {
    let seq = Pattern::three_four(vec![C4.into(), E4.into(), G4.into()]).to_sequence(PPQ);
    assert_eq!(seq.total_ticks, 1440);
    let starts: Vec<u32> = seq.events.iter().map(|e| e.tick_offset).collect();
    assert_eq!(starts, vec![0, 480, 960]);
}

#[test]
fn uneven_division_rounds_down_and_leaves_a_gap() {
    // 1920 / 7 = 274 ticks per slot, 6 ticks left at the end of the bar.
    let slots: Vec<PatternSlot> = (0..7).map(|_| C4.into()).collect();
    let seq = Pattern::four_four(slots).to_sequence(PPQ);
    assert_eq!(seq.events.len(), 7);
    assert_eq!(seq.events[6].tick_offset, 6 * 274);
    assert_eq!(seq.events[6].duration_ticks, 274);
    assert!(seq.events[6].tick_offset + seq.events[6].duration_ticks <= seq.total_ticks);
}

#[test]
fn zero_weight_note_gets_no_time() {
    let seq = Pattern::four_four(vec![sub(vec![note_weight(C4, 0), note(E4)]), rest(), rest(), rest()]).to_sequence(PPQ);
    assert_eq!(seq.events.len(), 2);
    assert_eq!(seq.events[0].duration_ticks, 0);
    assert_eq!(seq.events[1].tick_offset, 0);
    assert_eq!(seq.events[1].duration_ticks, 480);
}

#[test]
fn chain_then_concat_and_repeat() {
    let a = Pattern::four_four(vec![C4.into()]);
    let b = Pattern::three_four(vec![E4.into()]);
    let chain = a.clone().then(b.clone()).then(a.clone());
    let seq = chain.to_sequence(PPQ);
    assert_eq!(seq.total_ticks, 1920 + 1440 + 1920);
    assert_eq!(seq.time_signature, TimeSignature::FOUR_FOUR());
    let starts: Vec<u32> = seq.events.iter().map(|e| e.tick_offset).collect();
    assert_eq!(starts, vec![0, 1920, 3360]);

    let twice = b.clone().repeat(1).concat(a.clone().repeat(2));
    let seq = twice.to_sequence(PPQ);
    assert_eq!(seq.time_signature, TimeSignature::THREE_FOUR());
    assert_eq!(seq.total_ticks, 1440 + 2 * 1920);

    let chain = a.clone().then(b.clone()).repeat(3);
    assert_eq!(chain.to_sequence(PPQ).total_ticks, 3 * (1920 + 1440));
}

#[test]
fn chain_repeat_zero_is_empty() {
    let a = Pattern::four_four(vec![C4.into()]);
    let seq = a.clone().then(a.clone()).repeat(0).to_sequence(PPQ);
    assert_eq!(seq.total_ticks, 0);
    assert!(seq.events.is_empty());
    let once = a.clone().then(a.clone()).repeat(1).to_sequence(PPQ);
    assert_eq!(once.total_ticks, 2 * 1920);
}

#[test]
fn pattern_repeat_zero_is_empty() {
    let a = Pattern::four_four(vec![C4.into()]);
    let seq = a.repeat(0).to_sequence(PPQ);
    assert_eq!(seq.total_ticks, 0);
    assert!(seq.events.is_empty());
    assert_eq!(seq.time_signature, TimeSignature::FOUR_FOUR());
}

#[test]
fn concat_moves_the_second_chain_after_the_first() {
    let intro = Pattern::four_four(vec![C4.into(), PatternSlot::Rest, PatternSlot::Rest, PatternSlot::Rest]).repeat(4);
    let main = Pattern::four_four(vec![C4.into(), E4.into(), G4.into(), C5.into()]).repeat(8);
    let seq = intro.concat(main).to_sequence(PPQ);
    assert_eq!(seq.events.len(), 36);
    assert_eq!(seq.total_ticks, 23040);
    assert_eq!(seq.events[4].tick_offset, 4 * 1920);
    assert_eq!(seq.events[35].tick_offset, 11 * 1920 + 1440);
}

#[test]
fn repeated_chain_copies_are_one_chain_apart() {
    let a = Pattern::four_four(vec![C4.into(), E4.into()]);
    let b = Pattern::three_four(vec![G4.into()]);
    let once = a.clone().then(b.clone()).to_sequence(PPQ);
    let thrice = a.then(b).repeat(3).to_sequence(PPQ);
    assert_eq!(thrice.total_ticks, 3 * once.total_ticks);
    assert_eq!(thrice.events.len(), 3 * once.events.len());
    for j in 0..3u32 {
        for (i, e) in once.events.iter().enumerate() {
            let c = &thrice.events[j as usize * once.events.len() + i];
            assert_eq!(c.tick_offset, e.tick_offset + j * once.total_ticks);
            assert_eq!(c.note, e.note);
        }
    }
}
