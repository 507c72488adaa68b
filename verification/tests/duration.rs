use saavy_dsp::sequencing::Duration;

#[test]
fn test_standard_durations_to_ticks() {
    let ppq = 480;
    assert_eq!(Duration::WHOLE().to_ticks(ppq), 1920);
    assert_eq!(Duration::HALF().to_ticks(ppq), 960);
    assert_eq!(Duration::QUARTER().to_ticks(ppq), 480);
    assert_eq!(Duration::EIGHTH().to_ticks(ppq), 240);
    assert_eq!(Duration::SIXTEENTH().to_ticks(ppq), 120);
}

#[test]
fn test_dotted_notes() {
    let ppq = 480;
    assert_eq!(Duration::QUARTER().dotted().to_ticks(ppq), 720);
    assert_eq!(Duration::DOTTED_QUARTER().to_ticks(ppq), 720);
    assert_eq!(Duration::EIGHTH().dotted().to_ticks(ppq), 360);
}

#[test]
fn test_triplets() {
    let ppq = 480;
    assert_eq!(Duration::QUARTER().triplet().to_ticks(ppq), 320);
    assert_eq!(Duration::EIGHTH().triplet().to_ticks(ppq), 160);
}

#[test]
fn test_general_tuplets() {
    let ppq = 480;
    let quintuplet = Duration::EIGHTH().tuplet(4, 5);
    assert_eq!(quintuplet.to_ticks(ppq), 192);
}

#[test]
fn test_reduce() {
    let d = Duration { numerator: 4, denominator: 8 }.reduce();
    assert_eq!(d.numerator, 1);
    assert_eq!(d.denominator, 2);

    let d = Duration { numerator: 6, denominator: 9 }.reduce();
    assert_eq!(d.numerator, 2);
    assert_eq!(d.denominator, 3);
}

#[test]
fn test_chained_operations() {
    let ppq = 480;
    let weird = Duration::EIGHTH().dotted().triplet().reduce();
    assert_eq!(weird.to_ticks(ppq), 240);
}

#[test]
fn test_duration_addition() {
    let ppq = 480;
    let sum = Duration::QUARTER().add(Duration::EIGHTH());
    assert_eq!(sum.to_ticks(ppq), 720);
}

#[test]
fn test_const_evaluation() {
    let weird_duration = Duration::QUARTER().dotted().triplet().reduce();
    assert_eq!(weird_duration.numerator, 1);
}

#[test]
fn named_durations_match_their_construction() {
    assert_eq!(Duration::DOTTED_HALF(), Duration::HALF().dotted().reduce());
    assert_eq!(Duration::DOTTED_QUARTER(), Duration::QUARTER().dotted());
    assert_eq!(Duration::DOTTED_EIGHTH(), Duration::EIGHTH().dotted());
    assert_eq!(Duration::QUARTER_TRIPLET(), Duration::QUARTER().triplet());
    assert_eq!(Duration::EIGHTH_TRIPLET(), Duration::EIGHTH().triplet());
    assert_eq!(Duration::THIRTY_SECOND().to_ticks(480), 60);
}

#[test]
fn double_and_half_are_inverse_in_ticks() {
    let q = Duration::QUARTER();
    assert_eq!(q.double(), Duration { numerator: 2, denominator: 4 });
    assert_eq!(q.half(), Duration { numerator: 1, denominator: 8 });
    assert_eq!(q.double().half().to_ticks(480), 480);
}

#[test]
fn reduce_is_idempotent_and_keeps_ticks() {
    let d = Duration { numerator: 12, denominator: 18 };
    let r = d.reduce();
    assert_eq!(r, Duration { numerator: 2, denominator: 3 });
    assert_eq!(r.reduce(), r);
    assert_eq!(r.to_ticks(480), d.to_ticks(480));
}

#[test]
fn reduce_of_zero_numerator_and_zero_denominator() {
    assert_eq!(Duration { numerator: 0, denominator: 6 }.reduce(), Duration { numerator: 0, denominator: 1 });
    assert_eq!(Duration { numerator: 5, denominator: 0 }.reduce(), Duration { numerator: 1, denominator: 0 });
}

#[test]
fn addition_is_commutative_and_exact() {
    let a = Duration::DOTTED_QUARTER();
    let b = Duration::EIGHTH_TRIPLET();
    assert_eq!(a.add(b), b.add(a));
    // 3/8 + 2/24 = 11/24
    assert_eq!(a.add(b), Duration { numerator: 11, denominator: 24 });
}

#[test]
fn equal_values_give_equal_ticks() {
    let a = Duration { numerator: 2, denominator: 6 };
    let b = Duration { numerator: 1, denominator: 3 };
    assert_eq!(a.to_ticks(480), b.to_ticks(480));
    assert_eq!(a.to_ticks(480), 640);
}
