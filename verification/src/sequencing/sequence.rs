use vstd::prelude::*;

use super::duration::Duration;
use super::time_signature::TimeSignature;

verus! {

/// One event of a sequence: a note (or, with `note: None`, a rest).
#[derive(Debug, Clone, PartialEq, Eq, Structural)]
pub struct SequenceEvent {
    /// When the event occurs, in ticks from the start of the sequence.
    pub tick_offset: u32,
    /// How long the event lasts, in ticks.
    pub duration_ticks: u32,
    /// MIDI note number (`None` is a rest).
    pub note: Option<u8>,
    /// MIDI velocity (0-127).
    pub velocity: u8,
    /// Microtiming offset in ticks: negative rushes, positive drags.
    pub offset_ticks: i32,
}

/// The tick at which an event triggers for `Sequence::events_between`: the
/// tick offset read as a 32-bit signed number, plus the microtiming offset
/// with saturation, read back as a 32-bit unsigned number.
pub open spec fn trigger_tick(e: SequenceEvent) -> u32 {
    let t: int = if e.tick_offset <= i32::MAX {
        e.tick_offset as int
    } else {
        e.tick_offset - 0x1_0000_0000
    };
    let s: int = t + e.offset_ticks;
    let c: int = if s > i32::MAX {
        i32::MAX as int
    } else if s < i32::MIN {
        i32::MIN as int
    } else {
        s
    };
    (if c >= 0 {
        c
    } else {
        c + 0x1_0000_0000
    }) as u32
}

/// The event triggers in the half-open window `[start, end)`.
pub open spec fn triggers_within(e: SequenceEvent, start: u32, end: u32) -> bool {
    start <= trigger_tick(e) && trigger_tick(e) < end
}

/// The end tick of an event (its start plus its length).
pub open spec fn event_end(e: SequenceEvent) -> int {
    e.tick_offset + e.duration_ticks
}

/// The events follow one another in time without overlapping, and every
/// one of them ends by tick `end`.
pub open spec fn events_in_order(events: Seq<SequenceEvent>, end: int) -> bool {
    &&& forall|i: int, j: int|
        0 <= i < j < events.len() ==> event_end(#[trigger] events[i]) <= (#[trigger] events[j]).tick_offset
    &&& forall|i: int| 0 <= i < events.len() ==> event_end(#[trigger] events[i]) <= end
}

/// A musical sequence: a time signature, a resolution and timed events.
#[derive(Debug, Clone)]
pub struct Sequence {
    /// Time signature.
    pub time_signature: TimeSignature,
    /// Pulses per quarter note (timing resolution).
    pub ppq: u32,
    /// The events of the sequence.
    pub events: Vec<SequenceEvent>,
    /// Total duration in ticks.
    pub total_ticks: u32,
}

/// Why a sequence could not be built.
#[derive(Debug, Clone, PartialEq, Eq, Structural)]
pub enum SequenceError {
    /// The notes and rests run past the requested number of bars.
    OverflowsBar { expected: u32, actual: u32 },
    /// The notes and rests fall short of the requested bars, and no
    /// anacrusis (pickup) was allowed.
    UnderflowsBar { expected: u32, actual: u32 },
}

/// The character of a decimal digit.
pub open spec fn digit_char(d: nat) -> char {
    if d == 0 {
        '0'
    } else if d == 1 {
        '1'
    } else if d == 2 {
        '2'
    } else if d == 3 {
        '3'
    } else if d == 4 {
        '4'
    } else if d == 5 {
        '5'
    } else if d == 6 {
        '6'
    } else if d == 7 {
        '7'
    } else if d == 8 {
        '8'
    } else {
        '9'
    }
}

/// The decimal digits of a number, most significant first, without
/// leading zeros.
pub open spec fn decimal(x: nat) -> Seq<char>
    decreases x,
{
    if x < 10 {
        seq![digit_char(x)]
    } else {
        decimal(x / 10).push(digit_char(x % 10))
    }
}

/// The text of an error, as the library reports it.
pub open spec fn error_text(e: SequenceError) -> Seq<char> {
    match e {
        SequenceError::OverflowsBar { expected, actual } => "Sequence overflows bar: expected "@ + decimal(
            expected as nat,
        ) + " ticks, got "@ + decimal(actual as nat) + " ticks"@,
        SequenceError::UnderflowsBar { expected, actual } => "Sequence underflows bar: expected "@ + decimal(
            expected as nat,
        ) + " ticks, got "@ + decimal(actual as nat)
            + " ticks (use .allow_anacrusis(true) for pickup measures)"@,
    }
}

fn digit_str(d: u32) -> (s: &'static str)
    requires
        d < 10,
    ensures
        s@ == seq![digit_char(d as nat)],
{
    if d == 0 {
        proof {
            reveal_strlit("0");
        }
        "0"
    } else if d == 1 {
        proof {
            reveal_strlit("1");
        }
        "1"
    } else if d == 2 {
        proof {
            reveal_strlit("2");
        }
        "2"
    } else if d == 3 {
        proof {
            reveal_strlit("3");
        }
        "3"
    } else if d == 4 {
        proof {
            reveal_strlit("4");
        }
        "4"
    } else if d == 5 {
        proof {
            reveal_strlit("5");
        }
        "5"
    } else if d == 6 {
        proof {
            reveal_strlit("6");
        }
        "6"
    } else if d == 7 {
        proof {
            reveal_strlit("7");
        }
        "7"
    } else if d == 8 {
        proof {
            reveal_strlit("8");
        }
        "8"
    } else {
        proof {
            reveal_strlit("9");
        }
        "9"
    }
}

/// Append the decimal digits of `x` to `text`.
fn append_decimal(text: &mut String, x: u32)
    ensures
        final(text)@ == old(text)@ + decimal(x as nat),
    decreases x,
{
    if x < 10 {
        text.append(digit_str(x));
    } else {
        append_decimal(text, x / 10);
        text.append(digit_str(x % 10));
        proof {
            assert(old(text)@ + decimal((x / 10) as nat) + seq![digit_char((x % 10) as nat)] =~= old(text)@
                + decimal(x as nat));
        }
    }
}

impl SequenceError {
    /// The error as a sentence, with the expected and actual lengths.
    pub fn message(&self) -> (text: String)
        ensures
            text@ == error_text(*self),
    {
        match self {
            SequenceError::OverflowsBar { expected, actual } => {
                let mut text = String::from_str("Sequence overflows bar: expected ");
                append_decimal(&mut text, *expected);
                text.append(" ticks, got ");
                append_decimal(&mut text, *actual);
                text.append(" ticks");
                text
            },
            SequenceError::UnderflowsBar { expected, actual } => {
                let mut text = String::from_str("Sequence underflows bar: expected ");
                append_decimal(&mut text, *expected);
                text.append(" ticks, got ");
                append_decimal(&mut text, *actual);
                text.append(" ticks (use .allow_anacrusis(true) for pickup measures)");
                text
            },
        }
    }
}

/// The state of a `SequenceBuilder`.
pub struct SequenceBuilderView {
    pub time_signature: TimeSignature,
    pub ppq: u32,
    pub events: Seq<SequenceEvent>,
    pub cursor_ticks: u32,
    pub allow_anacrusis: bool,
    pub num_bars: u32,
}

/// Builds sequences note by note with a fluent API.
pub struct SequenceBuilder {
    time_signature: TimeSignature,
    ppq: u32,
    events: Vec<SequenceEvent>,
    cursor_ticks: u32,
    allow_anacrusis: bool,
    num_bars: u32,
}

impl View for SequenceBuilder {
    type V = SequenceBuilderView;

    closed spec fn view(&self) -> SequenceBuilderView {
        SequenceBuilderView {
            time_signature: self.time_signature,
            ppq: self.ppq,
            events: self.events@,
            cursor_ticks: self.cursor_ticks,
            allow_anacrusis: self.allow_anacrusis,
            num_bars: self.num_bars,
        }
    }
}

impl SequenceBuilderView {
    /// What every builder keeps: its events are in time order and end by the
    /// cursor.
    pub open spec fn well_formed(self) -> bool {
        events_in_order(self.events, self.cursor_ticks as int)
    }

    /// The length the finished sequence must have: the bars asked for.
    pub open spec fn expected_ticks(self) -> nat {
        self.time_signature.spec_bar_ticks(self.ppq) * (self.num_bars as nat)
    }

    /// The same builder with other events and another cursor.
    pub open spec fn with_events(self, events: Seq<SequenceEvent>, cursor_ticks: u32) -> SequenceBuilderView {
        SequenceBuilderView {
            time_signature: self.time_signature,
            ppq: self.ppq,
            events,
            cursor_ticks,
            allow_anacrusis: self.allow_anacrusis,
            num_bars: self.num_bars,
        }
    }

    /// The events with the last one changed by `f`, if there is one.
    pub open spec fn update_last(self, f: spec_fn(SequenceEvent) -> SequenceEvent) -> Seq<SequenceEvent> {
        if self.events.len() > 0 {
            self.events.update(self.events.len() - 1, f(self.events.last()))
        } else {
            self.events
        }
    }

    /// The result that `build` gives for this state.
    pub open spec fn build_result(self) -> Result<(TimeSignature, u32, Seq<SequenceEvent>, u32), SequenceError> {
        let expected = self.expected_ticks() as u32;
        if self.cursor_ticks > expected {
            Err(SequenceError::OverflowsBar { expected, actual: self.cursor_ticks })
        } else if !self.allow_anacrusis && self.cursor_ticks < expected {
            Err(SequenceError::UnderflowsBar { expected, actual: self.cursor_ticks })
        } else {
            Ok((self.time_signature, self.ppq, self.events, expected))
        }
    }
}

impl Sequence {
    /// A new builder in 4/4.
    pub fn new(ppq: u32) -> (b: SequenceBuilder)
        ensures
            b@.time_signature == TimeSignature::spec_four_four(),
            b@.ppq == ppq,
            b@.events.len() == 0,
            b@.cursor_ticks == 0,
            !b@.allow_anacrusis,
            b@.num_bars == 1,
            b@.well_formed(),
    {
        SequenceBuilder::new(TimeSignature::FOUR_FOUR(), ppq)
    }

    /// A new builder in the given time signature.
    pub fn with_time_signature(time_signature: TimeSignature, ppq: u32) -> (b: SequenceBuilder)
        ensures
            b@.time_signature == time_signature,
            b@.ppq == ppq,
            b@.events.len() == 0,
            b@.cursor_ticks == 0,
            !b@.allow_anacrusis,
            b@.num_bars == 1,
            b@.well_formed(),
    {
        SequenceBuilder::new(time_signature, ppq)
    }

    /// The events that trigger in `[start_tick, end_tick)`, in their order.
    pub fn events_between(&self, start_tick: u32, end_tick: u32) -> (r: Vec<SequenceEvent>)
        ensures
            r@ == self.events@.filter(|e: SequenceEvent| triggers_within(e, start_tick, end_tick)),
    {
        let mut r: Vec<SequenceEvent> = Vec::new();
        let n = self.events.len();
        for i in 0..n
            invariant
                n == self.events@.len(),
                r@ == self.events@.take(i as int).filter(|e: SequenceEvent| triggers_within(e, start_tick, end_tick)),
        {
            let e = &self.events[i];
            let t = event_trigger_tick(e);
            proof {
                assert(self.events@.take(i + 1) =~= self.events@.take(i as int).push(self.events@[i as int]));
                self.events@.take(i as int).lemma_filter_push(self.events@[i as int], |e: SequenceEvent| triggers_within(e, start_tick, end_tick));
            }
            if start_tick <= t && t < end_tick {
                r.push(copy_event(e));
            }
        }
        proof {
            assert(self.events@.take(n as int) =~= self.events@);
        }
        r
    }

    /// The total duration in ticks.
    pub fn duration_ticks(&self) -> (t: u32)
        ensures
            t == self.total_ticks,
    {
        self.total_ticks
    }

    /// The duration of one bar in ticks.
    pub fn bar_ticks(&self) -> (t: u32)
        requires
            self.time_signature.measurable_at(self.ppq),
        ensures
            t == self.time_signature.spec_bar_ticks(self.ppq),
    {
        self.time_signature.bar_ticks(self.ppq)
    }
}

/// A field-by-field copy of an event.
pub fn copy_event(e: &SequenceEvent) -> (r: SequenceEvent)
    ensures
        r == *e,
{
    SequenceEvent {
        tick_offset: e.tick_offset,
        duration_ticks: e.duration_ticks,
        note: e.note,
        velocity: e.velocity,
        offset_ticks: e.offset_ticks,
    }
}

fn event_trigger_tick(e: &SequenceEvent) -> (t: u32)
    ensures
        t == trigger_tick(*e),
{
    let as_signed: i64 = if e.tick_offset <= 0x7fff_ffff {
        e.tick_offset as i64
    } else {
        e.tick_offset as i64 - 0x1_0000_0000
    };
    let sum: i64 = as_signed + e.offset_ticks as i64;
    let saturated: i64 = if sum > 0x7fff_ffff {
        0x7fff_ffff
    } else if sum < -0x8000_0000 {
        -0x8000_0000
    } else {
        sum
    };
    if saturated >= 0 {
        saturated as u32
    } else {
        (saturated + 0x1_0000_0000) as u32
    }
}

impl SequenceBuilder {
    /// Every builder keeps its events in time order, ending by the cursor.
    #[verifier::type_invariant]
    spec fn events_keep_time(self) -> bool {
        events_in_order(self.events@, self.cursor_ticks as int)
    }

    fn new(time_signature: TimeSignature, ppq: u32) -> (b: Self)
        ensures
            b@.time_signature == time_signature,
            b@.ppq == ppq,
            b@.events.len() == 0,
            b@.cursor_ticks == 0,
            !b@.allow_anacrusis,
            b@.num_bars == 1,
            b@.well_formed(),
    {
        Self {
            time_signature,
            ppq,
            events: Vec::new(),
            cursor_ticks: 0,
            allow_anacrusis: false,
            num_bars: 1,
        }
    }

    /// Set the number of bars the sequence must fill (1 by default).
    pub fn bars(self, num_bars: u32) -> (b: Self)
        ensures
            b@ == (SequenceBuilderView { num_bars, ..self@ }),
    {
        proof {
            use_type_invariant(&self);
        }
        let mut s = self;
        s.num_bars = num_bars;
        s
    }

    /// Allow an anacrusis (pickup): the sequence may be shorter than the bars.
    pub fn allow_anacrusis(self, allow: bool) -> (b: Self)
        ensures
            b@ == (SequenceBuilderView { allow_anacrusis: allow, ..self@ }),
    {
        proof {
            use_type_invariant(&self);
        }
        let mut s = self;
        s.allow_anacrusis = allow;
        s
    }

    /// Add a note of the given duration at the cursor (middle C, velocity
    /// 100, no microtiming) and move the cursor past it.
    pub fn note(self, duration: Duration) -> (b: Self)
        requires
            duration.denominator > 0,
            duration.numerator * 4 <= u32::MAX,
            duration.numerator * 4 * self@.ppq <= u32::MAX,
            self@.cursor_ticks + duration.ticks(self@.ppq) <= u32::MAX,
        ensures
            b@ == self@.with_events(
                self@.events.push(
                    SequenceEvent {
                        tick_offset: self@.cursor_ticks,
                        duration_ticks: duration.ticks(self@.ppq) as u32,
                        note: Some(60u8),
                        velocity: 100,
                        offset_ticks: 0,
                    },
                ),
                (self@.cursor_ticks + duration.ticks(self@.ppq)) as u32,
            ),
            b@.well_formed(),
    {
        proof {
            use_type_invariant(&self);
        }
        let ticks = duration.to_ticks(self.ppq);
        let SequenceBuilder { time_signature, ppq, mut events, cursor_ticks, allow_anacrusis, num_bars } = self;
        events.push(
            SequenceEvent {
                tick_offset: cursor_ticks,
                duration_ticks: ticks,
                note: Some(60),
                velocity: 100,
                offset_ticks: 0,
            },
        );
        SequenceBuilder {
            time_signature,
            ppq,
            events,
            cursor_ticks: cursor_ticks + ticks,
            allow_anacrusis,
            num_bars,
        }
    }

    /// Add a rest: move the cursor without adding an event.
    pub fn rest(self, duration: Duration) -> (b: Self)
        requires
            duration.denominator > 0,
            duration.numerator * 4 <= u32::MAX,
            duration.numerator * 4 * self@.ppq <= u32::MAX,
            self@.cursor_ticks + duration.ticks(self@.ppq) <= u32::MAX,
        ensures
            b@ == self@.with_events(self@.events, (self@.cursor_ticks + duration.ticks(self@.ppq)) as u32),
            b@.well_formed(),
    {
        proof {
            use_type_invariant(&self);
        }
        let ticks = duration.to_ticks(self.ppq);
        let mut s = self;
        s.cursor_ticks = s.cursor_ticks + ticks;
        s
    }

    /// Set the MIDI note of the last event added, if any.
    pub fn with_note(self, note: u8) -> (b: Self)
        ensures
            b@ == self@.with_events(
                self@.update_last(|e: SequenceEvent| SequenceEvent { note: Some(note), ..e }),
                self@.cursor_ticks,
            ),
            b@.well_formed(),
    {
        proof {
            use_type_invariant(&self);
        }
        let SequenceBuilder { time_signature, ppq, mut events, cursor_ticks, allow_anacrusis, num_bars } = self;
        let n = events.len();
        if n > 0 {
            let last = copy_event(&events[n - 1]);
            events.set(n - 1, SequenceEvent { note: Some(note), ..last });
        }
        SequenceBuilder { time_signature, ppq, events, cursor_ticks, allow_anacrusis, num_bars }
    }

    /// Set the velocity of the last event added, if any.
    pub fn with_velocity(self, velocity: u8) -> (b: Self)
        ensures
            b@ == self@.with_events(
                self@.update_last(|e: SequenceEvent| SequenceEvent { velocity, ..e }),
                self@.cursor_ticks,
            ),
            b@.well_formed(),
    {
        proof {
            use_type_invariant(&self);
        }
        let SequenceBuilder { time_signature, ppq, mut events, cursor_ticks, allow_anacrusis, num_bars } = self;
        let n = events.len();
        if n > 0 {
            let last = copy_event(&events[n - 1]);
            events.set(n - 1, SequenceEvent { velocity, ..last });
        }
        SequenceBuilder { time_signature, ppq, events, cursor_ticks, allow_anacrusis, num_bars }
    }

    /// Set the microtiming offset of the last event added, if any.
    pub fn with_offset(self, offset_ticks: i32) -> (b: Self)
        ensures
            b@ == self@.with_events(
                self@.update_last(|e: SequenceEvent| SequenceEvent { offset_ticks, ..e }),
                self@.cursor_ticks,
            ),
            b@.well_formed(),
    {
        proof {
            use_type_invariant(&self);
        }
        let SequenceBuilder { time_signature, ppq, mut events, cursor_ticks, allow_anacrusis, num_bars } = self;
        let n = events.len();
        if n > 0 {
            let last = copy_event(&events[n - 1]);
            events.set(n - 1, SequenceEvent { offset_ticks, ..last });
        }
        SequenceBuilder { time_signature, ppq, events, cursor_ticks, allow_anacrusis, num_bars }
    }

    /// Check the length against the bars and finish the sequence.
    pub fn build(self) -> (r: Result<Sequence, SequenceError>)
        requires
            self@.time_signature.measurable_at(self@.ppq),
            self@.expected_ticks() <= u32::MAX,
        ensures
            match (r, self@.build_result()) {
                (Ok(s), Ok((ts, ppq, events, total))) => s.time_signature == ts && s.ppq == ppq
                    && s.events@ == events && s.total_ticks == total,
                (Err(e), Err(f)) => e == f,
                _ => false,
            },
            r is Ok ==> events_in_order(r->Ok_0.events@, r->Ok_0.total_ticks as int),
            r is Ok ==> r->Ok_0.total_ticks == self@.time_signature.spec_bar_ticks(self@.ppq) * self@.num_bars,
    {
        proof {
            use_type_invariant(&self);
        }
        let bar_ticks = self.time_signature.bar_ticks(self.ppq);
        let expected_ticks = bar_ticks * self.num_bars;
        if self.cursor_ticks > expected_ticks {
            return Err(SequenceError::OverflowsBar { expected: expected_ticks, actual: self.cursor_ticks });
        }
        if !self.allow_anacrusis && self.cursor_ticks < expected_ticks {
            return Err(SequenceError::UnderflowsBar { expected: expected_ticks, actual: self.cursor_ticks });
        }
        Ok(Sequence {
            time_signature: self.time_signature,
            ppq: self.ppq,
            events: self.events,
            total_ticks: expected_ticks,
        })
    }
}

/// A sequence triggers an event at its tick offset moved by its
/// microtiming offset, later for a positive offset and earlier for a
/// negative one, as long as the tick offset and the sum stay within the
/// non-negative range of `i32`; a sum beyond that range triggers at
/// `i32::MAX`, and a negative sum wraps around to the top of `u32`.
pub proof fn law_trigger_tick_adds_microtiming(e: SequenceEvent, start: u32, end: u32)
    requires
        e.tick_offset <= i32::MAX,
    ensures
        0 <= e.tick_offset + e.offset_ticks <= i32::MAX ==> trigger_tick(e) == e.tick_offset + e.offset_ticks,
        0 <= e.tick_offset + e.offset_ticks <= i32::MAX ==> (triggers_within(e, start, end) <==> start
            <= e.tick_offset + e.offset_ticks < end),
        e.tick_offset + e.offset_ticks > i32::MAX ==> trigger_tick(e) == i32::MAX,
        e.tick_offset + e.offset_ticks < 0 ==> trigger_tick(e) == e.tick_offset + e.offset_ticks + 0x1_0000_0000,
{
}

/// A builder gives a sequence exactly when its notes do not run past the
/// bars asked for, and fill them unless a pickup is allowed; the sequence
/// then holds the builder's events and always lasts the full bars (bar
/// length times the number of bars), pickup or not. Otherwise the error names
/// the length of the bars and the length written.
pub proof fn law_built_sequence_spans_its_bars(b: SequenceBuilderView)
    requires
        b.time_signature.spec_bar_ticks(b.ppq) * b.num_bars <= u32::MAX,
    ensures
        b.build_result() is Ok <==> (b.cursor_ticks <= b.time_signature.spec_bar_ticks(b.ppq) * b.num_bars && (
        b.allow_anacrusis || b.cursor_ticks == b.time_signature.spec_bar_ticks(b.ppq) * b.num_bars)),
        b.build_result() is Ok ==> b.build_result()->Ok_0.3 == b.time_signature.spec_bar_ticks(b.ppq) * b.num_bars,
        b.build_result() is Ok ==> b.build_result()->Ok_0.2 == b.events,
        b.build_result() is Ok ==> b.build_result()->Ok_0.0 == b.time_signature && b.build_result()->Ok_0.1
            == b.ppq,
        b.cursor_ticks > b.time_signature.spec_bar_ticks(b.ppq) * b.num_bars ==> b.build_result() == Err::<
            (TimeSignature, u32, Seq<SequenceEvent>, u32),
            SequenceError,
        >(
            SequenceError::OverflowsBar {
                expected: (b.time_signature.spec_bar_ticks(b.ppq) * b.num_bars) as u32,
                actual: b.cursor_ticks,
            },
        ),
        !b.allow_anacrusis && b.cursor_ticks < b.time_signature.spec_bar_ticks(b.ppq) * b.num_bars
            ==> b.build_result() == Err::<(TimeSignature, u32, Seq<SequenceEvent>, u32), SequenceError>(
            SequenceError::UnderflowsBar {
                expected: (b.time_signature.spec_bar_ticks(b.ppq) * b.num_bars) as u32,
                actual: b.cursor_ticks,
            },
        ),
{
}

} // verus!
