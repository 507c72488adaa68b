use saavy_dsp::sequencing::notes::{A4, A5, As4, B4, Bb4, C3, C4, C5, Cs4, D4, Db4, Ds4, E4, F4, Fs4, G4, Gb4, Gs4, REST};

#[test]
fn middle_c_is_60() {
    assert_eq!(C4, 60);
}

#[test]
fn a440_is_69() {
    assert_eq!(A4, 69);
}

#[test]
fn octaves_are_12_apart() {
    assert_eq!(C5 - C4, 12);
    assert_eq!(C4 - C3, 12);
    assert_eq!(A5 - A4, 12);
}

#[test]
fn sharps_and_flats_are_equal() {
    assert_eq!(Cs4, Db4);
    assert_eq!(Fs4, Gb4);
    assert_eq!(As4, Bb4);
}

#[test]
fn chromatic_scale() {
    assert_eq!(C4, 60);
    assert_eq!(Cs4, 61);
    assert_eq!(D4, 62);
    assert_eq!(Ds4, 63);
    assert_eq!(E4, 64);
    assert_eq!(F4, 65);
    assert_eq!(Fs4, 66);
    assert_eq!(G4, 67);
    assert_eq!(Gs4, 68);
    assert_eq!(A4, 69);
    assert_eq!(As4, 70);
    assert_eq!(B4, 71);
}

#[test]
fn rest_is_no_note() {
    assert_eq!(REST, None);
}
