use saavy_dsp::sequencing::{Duration, Sequence, SequenceError, SequenceEvent, TimeSignature};

const PPQ: u32 = 480;

#[test]
fn test_sequence_builder_basic() {
    let seq = Sequence::new(PPQ)
        .note(Duration::QUARTER())
        .note(Duration::QUARTER())
        .note(Duration::QUARTER())
        .note(Duration::QUARTER())
        .build()
        .unwrap();

    assert_eq!(seq.events.len(), 4);
    assert_eq!(seq.total_ticks, 1920);
    assert_eq!(seq.events[0].tick_offset, 0);
    assert_eq!(seq.events[1].tick_offset, 480);
    assert_eq!(seq.events[2].tick_offset, 960);
    assert_eq!(seq.events[3].tick_offset, 1440);
}

#[test]
fn test_sequence_with_rests() {
    let seq = Sequence::new(PPQ)
        .note(Duration::EIGHTH())
        .rest(Duration::EIGHTH())
        .rest(Duration::EIGHTH())
        .note(Duration::EIGHTH())
        .rest(Duration::QUARTER())
        .note(Duration::QUARTER())
        .build()
        .unwrap();

    assert_eq!(seq.events.len(), 3);
    assert_eq!(seq.events[0].tick_offset, 0);
    assert_eq!(seq.events[1].tick_offset, 720);
    assert_eq!(seq.events[2].tick_offset, 1440);
}

#[test]
fn test_with_note_and_velocity() {
    let seq = Sequence::new(PPQ)
        .note(Duration::QUARTER())
        .with_note(36)
        .with_velocity(127)
        .rest(Duration::QUARTER())
        .rest(Duration::QUARTER())
        .rest(Duration::QUARTER())
        .build()
        .unwrap();

    assert_eq!(seq.events[0].note, Some(36));
    assert_eq!(seq.events[0].velocity, 127);
}

#[test]
fn test_events_between() {
    let seq = Sequence::new(PPQ)
        .note(Duration::QUARTER())
        .note(Duration::QUARTER())
        .note(Duration::QUARTER())
        .note(Duration::QUARTER())
        .build()
        .unwrap();

    let events = seq.events_between(480, 1440);
    assert_eq!(events.len(), 2);
    assert_eq!(events[0].tick_offset, 480);
    assert_eq!(events[1].tick_offset, 960);
}

#[test]
fn test_bar_overflow_error() {
    let result = Sequence::new(PPQ).note(Duration::WHOLE()).note(Duration::QUARTER()).build();
    assert!(matches!(result, Err(SequenceError::OverflowsBar { .. })));
}

#[test]
fn test_bar_underflow_error() {
    let result = Sequence::new(PPQ).note(Duration::QUARTER()).build();
    assert!(matches!(result, Err(SequenceError::UnderflowsBar { .. })));
}

#[test]
fn test_anacrusis_allowed() {
    let result = Sequence::new(PPQ).allow_anacrusis(true).note(Duration::QUARTER()).build();
    assert!(result.is_ok());
}

#[test]
fn test_multiple_bars() {
    let seq = Sequence::new(PPQ)
        .bars(2)
        .note(Duration::WHOLE())
        .note(Duration::WHOLE())
        .build()
        .unwrap();
    assert_eq!(seq.total_ticks, 3840);
}

#[test]
fn test_compound_meter() {
    let seq = Sequence::with_time_signature(TimeSignature::SIX_EIGHT(), PPQ)
        .note(Duration::DOTTED_QUARTER())
        .note(Duration::DOTTED_QUARTER())
        .build()
        .unwrap();
    assert_eq!(seq.events.len(), 2);
    assert_eq!(seq.total_ticks, 1440);
}

#[test]
fn test_microtiming_offset() {
    let seq = Sequence::new(PPQ)
        .note(Duration::EIGHTH())
        .with_offset(20)
        .note(Duration::EIGHTH())
        .with_offset(-10)
        .rest(Duration::HALF())
        .note(Duration::QUARTER())
        .build()
        .unwrap();
    assert_eq!(seq.events[0].offset_ticks, 20);
    assert_eq!(seq.events[1].offset_ticks, -10);
}

#[test]
fn errors_carry_expected_and_actual_ticks() {
    let over = Sequence::new(PPQ).note(Duration::WHOLE()).note(Duration::QUARTER()).build();
    assert_eq!(over.err(), Some(SequenceError::OverflowsBar { expected: 1920, actual: 2400 }));
    let under = Sequence::new(PPQ).bars(2).note(Duration::HALF()).build();
    assert_eq!(under.err(), Some(SequenceError::UnderflowsBar { expected: 3840, actual: 960 }));
}

#[test]
fn overflow_is_reported_even_with_anacrusis() {
    let r = Sequence::new(PPQ).allow_anacrusis(true).note(Duration::WHOLE()).rest(Duration::EIGHTH()).build();
    assert_eq!(r.err(), Some(SequenceError::OverflowsBar { expected: 1920, actual: 2160 }));
}

#[test]
fn modifiers_on_an_empty_builder_change_nothing() {
    let seq = Sequence::new(PPQ)
        .with_note(40)
        .with_velocity(1)
        .with_offset(5)
        .rest(Duration::WHOLE())
        .build()
        .unwrap();
    assert!(seq.events.is_empty());
    assert_eq!(seq.duration_ticks(), 1920);
    assert_eq!(seq.bar_ticks(), 1920);
}

#[test]
fn default_note_is_middle_c_at_velocity_100() {
    let seq = Sequence::new(PPQ).allow_anacrusis(true).note(Duration::EIGHTH()).build().unwrap();
    assert_eq!(
        seq.events[0],
        SequenceEvent { tick_offset: 0, duration_ticks: 240, note: Some(60), velocity: 100, offset_ticks: 0 }
    );
}

#[test]
fn events_between_uses_microtiming() {
    let seq = Sequence::new(PPQ)
        .note(Duration::QUARTER())
        .note(Duration::QUARTER())
        .with_offset(-30)
        .rest(Duration::HALF())
        .build()
        .unwrap();
    // The second note triggers at 450, before the window [460, 960).
    assert_eq!(seq.events_between(460, 960).len(), 0);
    let early = seq.events_between(400, 460);
    assert_eq!(early.len(), 1);
    assert_eq!(early[0].tick_offset, 480);
}

#[test]
fn events_between_wraps_negative_trigger_ticks() {
    let seq = Sequence {
        time_signature: TimeSignature::FOUR_FOUR(),
        ppq: PPQ,
        events: vec![SequenceEvent { tick_offset: 5, duration_ticks: 10, note: Some(60), velocity: 100, offset_ticks: -10 }],
        total_ticks: 1920,
    };
    // 5 - 10 = -5, which reads back as u32::MAX - 4.
    assert_eq!(seq.events_between(0, 1920).len(), 0);
    assert_eq!(seq.events_between(u32::MAX - 4, u32::MAX).len(), 1);
}

#[test]
fn error_messages_name_both_lengths() {
    assert_eq!(
        SequenceError::OverflowsBar { expected: 1920, actual: 2400 }.message(),
        "Sequence overflows bar: expected 1920 ticks, got 2400 ticks"
    );
    assert_eq!(
        SequenceError::UnderflowsBar { expected: 3840, actual: 0 }.message(),
        "Sequence underflows bar: expected 3840 ticks, got 0 ticks (use .allow_anacrusis(true) for pickup measures)"
    );
    assert_eq!(
        SequenceError::OverflowsBar { expected: 7, actual: u32::MAX }.message(),
        "Sequence overflows bar: expected 7 ticks, got 4294967295 ticks"
    );
}
