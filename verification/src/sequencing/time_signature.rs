use vstd::prelude::*;

verus! {

/// A time signature, for simple and compound meters.
#[derive(Debug, Clone, Copy, PartialEq, Eq, Structural)]
pub struct TimeSignature {
    /// Number of beats per bar.
    pub numerator: u8,
    /// Note value that gets one beat (4 = quarter, 8 = eighth).
    pub denominator: u8,
    /// Subdivisions grouped per tactus (conducting) beat: 2 in simple
    /// meters (2/4, 3/4, 4/4), 3 in compound meters (6/8, 9/8, 12/8).
    pub tactus_group: u8,
}

impl TimeSignature {
    /// Common time, 4/4 (simple meter).
    #[allow(non_snake_case)]
    pub fn FOUR_FOUR() -> (r: TimeSignature)
        ensures
            r == TimeSignature::spec_four_four(),
    {
        TimeSignature { numerator: 4, denominator: 4, tactus_group: 2 }
    }

    /// Waltz time, 3/4 (simple meter).
    #[allow(non_snake_case)]
    pub fn THREE_FOUR() -> (r: TimeSignature)
        ensures
            r == (TimeSignature { numerator: 3, denominator: 4, tactus_group: 2 }),
    {
        TimeSignature { numerator: 3, denominator: 4, tactus_group: 2 }
    }

    /// 6/8, compound duple meter: the tactus is a dotted quarter.
    #[allow(non_snake_case)]
    pub fn SIX_EIGHT() -> (r: TimeSignature)
        ensures
            r == (TimeSignature { numerator: 6, denominator: 8, tactus_group: 3 }),
    {
        TimeSignature { numerator: 6, denominator: 8, tactus_group: 3 }
    }

    /// 9/8, compound triple meter.
    #[allow(non_snake_case)]
    pub fn NINE_EIGHT() -> (r: TimeSignature)
        ensures
            r == (TimeSignature { numerator: 9, denominator: 8, tactus_group: 3 }),
    {
        TimeSignature { numerator: 9, denominator: 8, tactus_group: 3 }
    }

    /// 12/8, compound quadruple meter.
    #[allow(non_snake_case)]
    pub fn TWELVE_EIGHT() -> (r: TimeSignature)
        ensures
            r == (TimeSignature { numerator: 12, denominator: 8, tactus_group: 3 }),
    {
        TimeSignature { numerator: 12, denominator: 8, tactus_group: 3 }
    }

    /// Cut time, 2/2 (simple meter).
    #[allow(non_snake_case)]
    pub fn TWO_TWO() -> (r: TimeSignature)
        ensures
            r == (TimeSignature { numerator: 2, denominator: 2, tactus_group: 2 }),
    {
        TimeSignature { numerator: 2, denominator: 2, tactus_group: 2 }
    }

    /// 4/4 as a value, for contracts.
    pub open spec fn spec_four_four() -> TimeSignature {
        TimeSignature { numerator: 4, denominator: 4, tactus_group: 2 }
    }

    /// Bars of this meter can be measured in ticks at `ppq` without
    /// dividing by zero or leaving the range of `u32`.
    pub open spec fn measurable_at(self, ppq: u32) -> bool {
        &&& self.denominator > 0
        &&& self.numerator * 4 * ppq <= u32::MAX
    }

    /// The length of one bar in ticks: `numerator * 4 * ppq / denominator`.
    pub open spec fn spec_bar_ticks(self, ppq: u32) -> nat {
        ((self.numerator * 4 * ppq) / (self.denominator as int)) as nat
    }

    /// Tactus beats per bar: `numerator / tactus_group` where that divides
    /// evenly, the numerator otherwise.
    pub open spec fn spec_tactus_beats(self) -> nat {
        if self.numerator % self.tactus_group == 0 {
            (self.numerator / self.tactus_group) as nat
        } else {
            self.numerator as nat
        }
    }

    /// A time signature from its three parts.
    pub fn new(numerator: u8, denominator: u8, tactus_group: u8) -> (r: Self)
        ensures
            r.numerator == numerator,
            r.denominator == denominator,
            r.tactus_group == tactus_group,
    {
        Self { numerator, denominator, tactus_group }
    }

    /// The duration of one bar in ticks.
    pub fn bar_ticks(&self, ppq: u32) -> (t: u32)
        requires
            self.measurable_at(ppq),
        ensures
            t == self.spec_bar_ticks(ppq),
    {
        (self.numerator as u32 * 4 * ppq) / self.denominator as u32
    }

    /// The number of tactus (conducting) beats per bar.
    pub fn tactus_beats_per_bar(&self) -> (b: u8)
        requires
            self.tactus_group > 0,
        ensures
            b == self.spec_tactus_beats(),
    {
        if self.numerator % self.tactus_group == 0 {
            self.numerator / self.tactus_group
        } else {
            self.numerator
        }
    }

    /// The duration of one tactus beat in ticks.
    pub fn tactus_beat_ticks(&self, ppq: u32) -> (t: u32)
        requires
            self.measurable_at(ppq),
            self.tactus_group > 0,
            self.numerator > 0,
        ensures
            self.spec_tactus_beats() > 0,
            t == self.spec_bar_ticks(ppq) / self.spec_tactus_beats(),
    {
        let beats = self.tactus_beats_per_bar();
        proof {
            if self.numerator % self.tactus_group == 0 {
                assert(self.numerator / self.tactus_group > 0) by (nonlinear_arith)
                    requires
                        self.numerator % self.tactus_group == 0,
                        self.numerator > 0,
                        self.tactus_group > 0,
                ;
            }
        }
        self.bar_ticks(ppq) / beats as u32
    }

    /// A compound meter groups its beats in threes.
    pub fn is_compound(&self) -> (b: bool)
        ensures
            b == (self.tactus_group == 3),
    {
        self.tactus_group == 3
    }

    /// A simple meter groups its beats in twos.
    pub fn is_simple(&self) -> (b: bool)
        ensures
            b == (self.tactus_group == 2),
    {
        self.tactus_group == 2
    }
}

/// When the beat note divides a whole note evenly into ticks and the beats
/// group evenly into tactus beats, a tactus beat lasts exactly
/// `tactus_group` beat notes: a dotted quarter (three eighths) in 6/8, a
/// half note (two quarters) in 4/4.
pub proof fn law_tactus_beat_is_a_group_of_beats(ts: TimeSignature, ppq: u32)
    requires
        ts.measurable_at(ppq),
        ts.numerator > 0,
        ts.tactus_group > 0,
        ts.numerator % ts.tactus_group == 0,
        (4 * ppq) % (ts.denominator as int) == 0,
    ensures
        ts.spec_tactus_beats() > 0,
        ts.spec_bar_ticks(ppq) / ts.spec_tactus_beats() == ts.tactus_group * ((4 * ppq) / (
        ts.denominator as int)),
{
    let num = ts.numerator as int;
    let den = ts.denominator as int;
    let g = ts.tactus_group as int;
    let p4 = 4 * ppq;
    let q = p4 / den;
    let b = num / g;
    vstd::arithmetic::div_mod::lemma_fundamental_div_mod(p4, den);
    vstd::arithmetic::div_mod::lemma_fundamental_div_mod(num, g);
    assert(num * 4 * ppq == (num * q) * den) by (nonlinear_arith)
        requires
            p4 == 4 * ppq,
            p4 == den * q,
    ;
    vstd::arithmetic::div_mod::lemma_div_multiples_vanish(num * q, den);
    assert(num * q * den == den * (num * q)) by (nonlinear_arith);
    assert(b > 0) by (nonlinear_arith)
        requires
            num == g * b,
            num > 0,
            g > 0,
    ;
    assert(num * q == b * (g * q)) by (nonlinear_arith)
        requires
            num == g * b,
    ;
    vstd::arithmetic::div_mod::lemma_div_multiples_vanish(g * q, b);
}

} // verus!
