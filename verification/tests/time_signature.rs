use saavy_dsp::sequencing::TimeSignature;

#[test]
fn test_four_four_meter() {
    let ts = TimeSignature::FOUR_FOUR();
    let ppq = 480;
    assert_eq!(ts.bar_ticks(ppq), 1920);
    assert_eq!(ts.tactus_beats_per_bar(), 2);
    assert_eq!(ts.tactus_beat_ticks(ppq), 960);
    assert!(ts.is_simple());
    assert!(!ts.is_compound());
}

#[test]
fn test_six_eight_meter() {
    let ts = TimeSignature::SIX_EIGHT();
    let ppq = 480;
    assert_eq!(ts.bar_ticks(ppq), 1440);
    assert_eq!(ts.tactus_beats_per_bar(), 2);
    assert_eq!(ts.tactus_beat_ticks(ppq), 720);
    assert!(ts.is_compound());
    assert!(!ts.is_simple());
}

#[test]
fn test_nine_eight_meter() {
    let ts = TimeSignature::NINE_EIGHT();
    let ppq = 480;
    assert_eq!(ts.bar_ticks(ppq), 2160);
    assert_eq!(ts.tactus_beats_per_bar(), 3);
    assert_eq!(ts.tactus_beat_ticks(ppq), 720);
}

#[test]
fn test_three_four_meter() {
    let ts = TimeSignature::THREE_FOUR();
    let ppq = 480;
    assert_eq!(ts.bar_ticks(ppq), 1440);
    assert_eq!(ts.tactus_beats_per_bar(), 3);
    assert_eq!(ts.tactus_beat_ticks(ppq), 480);
    assert!(ts.is_simple());
    assert!(!ts.is_compound());
}

#[test]
fn test_two_two_meter() {
    let ts = TimeSignature::TWO_TWO();
    let ppq = 480;
    assert_eq!(ts.bar_ticks(ppq), 1920);
}

#[test]
fn twelve_eight_has_four_dotted_quarter_beats() {
    let ts = TimeSignature::TWELVE_EIGHT();
    assert_eq!(ts.bar_ticks(480), 2880);
    assert_eq!(ts.tactus_beats_per_bar(), 4);
    assert_eq!(ts.tactus_beat_ticks(480), 720);
}

#[test]
fn new_keeps_parts_and_uneven_grouping_counts_numerator() {
    let ts = TimeSignature::new(5, 4, 2);
    assert_eq!(ts, TimeSignature { numerator: 5, denominator: 4, tactus_group: 2 });
    assert_eq!(ts.bar_ticks(480), 2400);
    assert_eq!(ts.tactus_beats_per_bar(), 5);
    assert_eq!(ts.tactus_beat_ticks(480), 480);
    assert!(ts.is_simple());
    let odd = TimeSignature::new(7, 8, 4);
    assert!(!odd.is_simple());
    assert!(!odd.is_compound());
}
