use saavy_dsp::graph::distortion::DistortionMode;
use saavy_dsp::graph::through::Through;
use saavy_dsp::patch::{ModSource, ModTarget};
use saavy_dsp::runtime::ui::state::{ControlMessage, TrackStaticInfo};
use saavy_dsp::{MAX_BLOCK_SIZE, MAX_DELAY_SAMPLES};

#[test]
fn through_keeps_source_and_effect() {
    let mut t = Through::new(1u32, 2u32);
    assert_eq!(*t.source_node(), 1);
    assert_eq!(*t.effect_node(), 2);
    *t.source_node_mut() = 5;
    *t.effect_node_mut() += 1;
    assert_eq!((*t.source_node(), *t.effect_node()), (5, 3));
}

#[test]
fn vocabularies_compare() {
    assert_ne!(DistortionMode::Soft, DistortionMode::Hard);
    assert_eq!(ModTarget::OscillatorFrequency { index: 1 }, ModTarget::OscillatorFrequency { index: 1 });
    assert_ne!(ModSource::Lfo("a".to_string()), ModSource::Envelope("a".to_string()));
    assert_ne!(ControlMessage::Reset, ControlMessage::TogglePlayback);
    let info = TrackStaticInfo { name: "lead".to_string(), events: vec![(0, 480)] };
    assert_eq!(info.clone().events, vec![(0, 480)]);
    assert_eq!(MAX_BLOCK_SIZE, 2048);
    assert_eq!(MAX_DELAY_SAMPLES, 192_000);
}
