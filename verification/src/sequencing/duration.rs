use vstd::prelude::*;
use vstd::arithmetic::div_mod::{lemma_fundamental_div_mod, lemma_mod_multiples_basic};

verus! {

/// Greatest common divisor of two natural numbers (Euclid's recursion).
pub open spec fn gcd(a: nat, b: nat) -> nat
    decreases b,
{
    if b == 0 {
        a
    } else {
        gcd(b, a % b)
    }
}

/// `d` divides `n` (for a positive `d`).
pub open spec fn divides(d: nat, n: nat) -> bool {
    d > 0 && n % d == 0
}

proof fn lemma_divides_remainder(d: nat, a: nat, b: nat)
    requires
        divides(d, a),
        divides(d, b),
        b > 0,
    ensures
        divides(d, a % b),
{
    lemma_fundamental_div_mod(a as int, d as int);
    lemma_fundamental_div_mod(b as int, d as int);
    lemma_fundamental_div_mod(a as int, b as int);
    let x = a / d;
    let y = b / d;
    let q = a / b;
    let r = a % b;
    assert(r == d * (x - y * q)) by (nonlinear_arith)
        requires
            a == d * x,
            b == d * y,
            a == b * q + r,
    ;
    assert(x - y * q >= 0) by (nonlinear_arith)
        requires
            r == d * (x - y * q),
            r >= 0,
            d > 0,
    ;
    lemma_mod_multiples_basic(x - y * q, d as int);
    assert((x - y * q) * d == d * (x - y * q)) by (nonlinear_arith);
}

proof fn lemma_divides_from_remainder(d: nat, a: nat, b: nat)
    requires
        divides(d, b),
        divides(d, a % b),
        b > 0,
    ensures
        divides(d, a),
{
    lemma_fundamental_div_mod(a as int, b as int);
    lemma_fundamental_div_mod(b as int, d as int);
    lemma_fundamental_div_mod((a % b) as int, d as int);
    let y = b / d;
    let z = (a % b) / d;
    let q = a / b;
    assert(a == d * (y * q + z)) by (nonlinear_arith)
        requires
            b == d * y,
            a % b == d * z,
            a == b * q + a % b,
    ;
    assert(y * q + z >= 0) by (nonlinear_arith)
        requires
            y >= 0,
            q >= 0,
            z >= 0,
    ;
    lemma_mod_multiples_basic((y * q + z) as int, d as int);
    assert((y * q + z) * d == d * (y * q + z)) by (nonlinear_arith);
}

/// The gcd of two numbers, not both zero, is positive and divides both.
pub proof fn lemma_gcd_divides(a: nat, b: nat)
    requires
        a > 0 || b > 0,
    ensures
        gcd(a, b) > 0,
        divides(gcd(a, b), a),
        divides(gcd(a, b), b),
    decreases b,
{
    if b == 0 {
        assert(a % a == 0) by {
            lemma_mod_multiples_basic(1, a as int);
        }
    } else {
        lemma_gcd_divides(b, a % b);
        lemma_divides_from_remainder(gcd(a, b), a, b);
    }
}

/// Every common divisor of `a` and `b` divides their gcd.
pub proof fn lemma_common_divisor_divides_gcd(d: nat, a: nat, b: nat)
    requires
        divides(d, a),
        divides(d, b),
    ensures
        divides(d, gcd(a, b)),
    decreases b,
{
    if b > 0 {
        lemma_divides_remainder(d, a, b);
        lemma_common_divisor_divides_gcd(d, b, a % b);
    }
}

/// Dividing both numbers by their gcd leaves coprime numbers.
pub proof fn lemma_gcd_quotients_coprime(a: nat, b: nat)
    requires
        a > 0 || b > 0,
    ensures
        gcd(a / gcd(a, b), b / gcd(a, b)) == 1,
{
    let g = gcd(a, b);
    lemma_gcd_divides(a, b);
    lemma_fundamental_div_mod(a as int, g as int);
    lemma_fundamental_div_mod(b as int, g as int);
    let x = a / g;
    let y = b / g;
    assert(x > 0 || y > 0) by (nonlinear_arith)
        requires
            a == g * x,
            b == g * y,
            a > 0 || b > 0,
    ;
    lemma_gcd_divides(x, y);
    let h = gcd(x, y);
    lemma_fundamental_div_mod(x as int, h as int);
    lemma_fundamental_div_mod(y as int, h as int);
    let hg = (h * g) as nat;
    assert(hg > 0) by (nonlinear_arith)
        requires
            h > 0,
            g > 0,
            hg == h * g,
    ;
    assert(a == hg * (x / h) && b == hg * (y / h)) by (nonlinear_arith)
        requires
            a == g * x,
            b == g * y,
            x == h * (x / h),
            y == h * (y / h),
            hg == h * g,
    ;
    lemma_mod_multiples_basic((x / h) as int, hg as int);
    lemma_mod_multiples_basic((y / h) as int, hg as int);
    assert((x / h) * hg == hg * (x / h)) by (nonlinear_arith);
    assert((y / h) * hg == hg * (y / h)) by (nonlinear_arith);
    lemma_common_divisor_divides_gcd(hg, a, b);
    lemma_fundamental_div_mod(g as int, hg as int);
    let k = g / hg;
    assert(h == 1) by (nonlinear_arith)
        requires
            g == hg * k,
            hg == h * g,
            g > 0,
            h > 0,
            k >= 0,
    ;
}


/// A note duration as an exact fraction of a whole note.
///
/// Every operation keeps exact ratios: no rounding happens until a duration
/// is turned into ticks.
#[derive(Debug, Clone, Copy, PartialEq, Eq, Structural)]
pub struct Duration {
    /// How many parts.
    pub numerator: u32,
    /// Of what size (4 = quarter, 8 = eighth, ...).
    pub denominator: u32,
}

impl Duration {
    #[allow(non_snake_case)]
    pub fn WHOLE() -> (r: Duration)
        ensures
            r.numerator == 1 && r.denominator == 1,
    {
        Duration { numerator: 1, denominator: 1 }
    }

    #[allow(non_snake_case)]
    pub fn HALF() -> (r: Duration)
        ensures
            r.numerator == 1 && r.denominator == 2,
    {
        Duration { numerator: 1, denominator: 2 }
    }

    #[allow(non_snake_case)]
    pub fn QUARTER() -> (r: Duration)
        ensures
            r.numerator == 1 && r.denominator == 4,
    {
        Duration { numerator: 1, denominator: 4 }
    }

    #[allow(non_snake_case)]
    pub fn EIGHTH() -> (r: Duration)
        ensures
            r.numerator == 1 && r.denominator == 8,
    {
        Duration { numerator: 1, denominator: 8 }
    }

    #[allow(non_snake_case)]
    pub fn SIXTEENTH() -> (r: Duration)
        ensures
            r.numerator == 1 && r.denominator == 16,
    {
        Duration { numerator: 1, denominator: 16 }
    }

    #[allow(non_snake_case)]
    pub fn THIRTY_SECOND() -> (r: Duration)
        ensures
            r.numerator == 1 && r.denominator == 32,
    {
        Duration { numerator: 1, denominator: 32 }
    }

    /// A dotted half: three quarters of a whole note.
    #[allow(non_snake_case)]
    pub fn DOTTED_HALF() -> (r: Duration)
        ensures
            r.numerator == 3 && r.denominator == 4,
    {
        Duration { numerator: 3, denominator: 4 }
    }

    /// A dotted quarter, as `QUARTER.dotted()` writes it.
    #[allow(non_snake_case)]
    pub fn DOTTED_QUARTER() -> (r: Duration)
        ensures
            r.numerator == 3 && r.denominator == 8,
    {
        Duration { numerator: 3, denominator: 8 }
    }

    /// A dotted eighth, as `EIGHTH.dotted()` writes it.
    #[allow(non_snake_case)]
    pub fn DOTTED_EIGHTH() -> (r: Duration)
        ensures
            r.numerator == 3 && r.denominator == 16,
    {
        Duration { numerator: 3, denominator: 16 }
    }

    /// A quarter-note triplet, as `QUARTER.triplet()` writes it.
    #[allow(non_snake_case)]
    pub fn QUARTER_TRIPLET() -> (r: Duration)
        ensures
            r.numerator == 2 && r.denominator == 12,
    {
        Duration { numerator: 2, denominator: 12 }
    }

    /// An eighth-note triplet, as `EIGHTH.triplet()` writes it.
    #[allow(non_snake_case)]
    pub fn EIGHTH_TRIPLET() -> (r: Duration)
        ensures
            r.numerator == 2 && r.denominator == 24,
    {
        Duration { numerator: 2, denominator: 24 }
    }

    /// Two durations denote the same fraction of a whole note.
    pub open spec fn same_value(self, other: Duration) -> bool {
        self.numerator * other.denominator == other.numerator * self.denominator
    }

    /// The fraction divided through by the gcd of its two terms.
    pub open spec fn reduced(self) -> Duration {
        let g = gcd(self.numerator as nat, self.denominator as nat);
        Duration { numerator: (self.numerator as nat / g) as u32, denominator: (self.denominator as nat / g) as u32 }
    }

    /// The unreduced sum over the product of the denominators.
    pub open spec fn raw_sum(self, other: Duration) -> (nat, nat) {
        (
            (self.numerator * other.denominator + other.numerator * self.denominator) as nat,
            (self.denominator * other.denominator) as nat,
        )
    }

    /// The sum in lowest terms.
    pub open spec fn sum(self, other: Duration) -> Duration {
        let (n, d) = self.raw_sum(other);
        let g = gcd(n, d);
        Duration { numerator: (n / g) as u32, denominator: (d / g) as u32 }
    }

    /// Ticks of this duration at `ppq` pulses per quarter note.
    pub open spec fn ticks(self, ppq: u32) -> nat {
        ((self.numerator * 4 * ppq) / (self.denominator as int)) as nat
    }

    /// Apply a dot: multiply the duration by 3/2.
    pub fn dotted(self) -> (r: Self)
        requires
            self.numerator * 3 <= u32::MAX,
            self.denominator * 2 <= u32::MAX,
        ensures
            r.numerator == self.numerator * 3,
            r.denominator == self.denominator * 2,
    {
        Duration { numerator: self.numerator * 3, denominator: self.denominator * 2 }
    }

    /// A triplet: three notes in the time of two, so the duration times 2/3.
    pub fn triplet(self) -> (r: Self)
        requires
            self.numerator * 2 <= u32::MAX,
            self.denominator * 3 <= u32::MAX,
        ensures
            r.numerator == self.numerator * 2,
            r.denominator == self.denominator * 3,
    {
        self.tuplet(2, 3)
    }

    /// A general tuplet: `played` notes in the time of `in_time_of` notes,
    /// so the duration times `in_time_of / played`.
    pub fn tuplet(self, in_time_of: u32, played: u32) -> (r: Self)
        requires
            self.numerator * in_time_of <= u32::MAX,
            self.denominator * played <= u32::MAX,
        ensures
            r.numerator == self.numerator * in_time_of,
            r.denominator == self.denominator * played,
    {
        Duration { numerator: self.numerator * in_time_of, denominator: self.denominator * played }
    }

    /// Twice the duration.
    pub fn double(self) -> (r: Self)
        requires
            self.numerator * 2 <= u32::MAX,
        ensures
            r.numerator == self.numerator * 2,
            r.denominator == self.denominator,
    {
        Duration { numerator: self.numerator * 2, denominator: self.denominator }
    }

    /// Half the duration.
    pub fn half(self) -> (r: Self)
        requires
            self.denominator * 2 <= u32::MAX,
        ensures
            r.numerator == self.numerator,
            r.denominator == self.denominator * 2,
    {
        Duration { numerator: self.numerator, denominator: self.denominator * 2 }
    }

    /// The same fraction in lowest terms.
    pub fn reduce(self) -> (r: Self)
        requires
            self.numerator > 0 || self.denominator > 0,
        ensures
            r == self.reduced(),
            r.same_value(self),
            gcd(r.numerator as nat, r.denominator as nat) == 1,
    {
        let g = const_gcd(self.numerator, self.denominator);
        proof {
            lemma_reduced_facts(self.numerator as nat, self.denominator as nat);
        }
        Duration { numerator: self.numerator / g, denominator: self.denominator / g }
    }

    /// This duration in ticks at `ppq` pulses per quarter note:
    /// `numerator * 4 * ppq / denominator`, rounded down.
    pub fn to_ticks(&self, ppq: u32) -> (t: u32)
        requires
            self.denominator > 0,
            self.numerator * 4 <= u32::MAX,
            self.numerator * 4 * ppq <= u32::MAX,
        ensures
            t == self.ticks(ppq),
    {
        (self.numerator * 4 * ppq) / self.denominator
    }

    /// The sum of two durations, over the product of their denominators and
    /// then reduced.
    pub fn add(self, other: Self) -> (r: Self)
        requires
            self.numerator * other.denominator + other.numerator * self.denominator <= u32::MAX,
            self.denominator * other.denominator <= u32::MAX,
            self.raw_sum(other).0 > 0 || self.raw_sum(other).1 > 0,
        ensures
            r == self.sum(other),
    {
        let raw = Duration {
            numerator: self.numerator * other.denominator + other.numerator * self.denominator,
            denominator: self.denominator * other.denominator,
        };
        raw.reduce()
    }
}

proof fn lemma_reduced_facts(n: nat, d: nat)
    requires
        n > 0 || d > 0,
    ensures
        gcd(n, d) > 0,
        (n / gcd(n, d)) * d == n * (d / gcd(n, d)),
        gcd(n / gcd(n, d), d / gcd(n, d)) == 1,
        n / gcd(n, d) <= n,
        d / gcd(n, d) <= d,
{
    let g = gcd(n, d);
    lemma_gcd_divides(n, d);
    lemma_gcd_quotients_coprime(n, d);
    lemma_fundamental_div_mod(n as int, g as int);
    lemma_fundamental_div_mod(d as int, g as int);
    assert((n / g) * d == n * (d / g)) by (nonlinear_arith)
        requires
            n == g * (n / g),
            d == g * (d / g),
    ;
    assert(n / g <= n && d / g <= d) by (nonlinear_arith)
        requires
            n == g * (n / g),
            d == g * (d / g),
            g > 0,
    ;
}

/// Greatest common divisor by Euclid's algorithm.
fn const_gcd(a: u32, b: u32) -> (g: u32)
    ensures
        g == gcd(a as nat, b as nat),
{
    let mut x = a;
    let mut y = b;
    while y != 0
        invariant
            gcd(x as nat, y as nat) == gcd(a as nat, b as nat),
        decreases y,
    {
        let temp = y;
        y = x % y;
        x = temp;
    }
    x
}

/// Reducing a fraction that is already in lowest terms changes nothing.
pub proof fn law_reduce_idempotent(d: Duration)
    requires
        d.numerator > 0 || d.denominator > 0,
    ensures
        d.reduced().reduced() == d.reduced(),
{
    lemma_reduced_facts(d.numerator as nat, d.denominator as nat);
    let r = d.reduced();
    assert(r.numerator > 0 || r.denominator > 0) by {
        lemma_gcd_divides(d.numerator as nat, d.denominator as nat);
        lemma_fundamental_div_mod(d.numerator as int, gcd(d.numerator as nat, d.denominator as nat) as int);
        lemma_fundamental_div_mod(d.denominator as int, gcd(d.numerator as nat, d.denominator as nat) as int);
    }
    assert(r.numerator as nat / 1 == r.numerator as nat);
    assert(r.denominator as nat / 1 == r.denominator as nat);
}

/// Two durations with the same value last the same number of ticks: ticks
/// depend on the fraction, never on how it is written.
pub proof fn law_ticks_depend_only_on_value(a: Duration, b: Duration, ppq: u32)
    requires
        a.denominator > 0,
        b.denominator > 0,
        a.same_value(b),
    ensures
        a.ticks(ppq) == b.ticks(ppq),
{
    let x = a.numerator * 4 * ppq;
    let y = b.numerator * 4 * ppq;
    let da = a.denominator as int;
    let db = b.denominator as int;
    assert(x * db == y * da) by (nonlinear_arith)
        requires
            a.numerator * b.denominator == b.numerator * a.denominator,
            x == a.numerator * 4 * ppq,
            y == b.numerator * 4 * ppq,
            da == a.denominator,
            db == b.denominator,
    ;
    lemma_fundamental_div_mod(x, da);
    let q = x / da;
    let r = x % da;
    assert(0 <= r < da);
    assert((y - db * q) * da == r * db) by (nonlinear_arith)
        requires
            x * db == y * da,
            x == da * q + r,
    ;
    assert(0 <= y - db * q < db) by (nonlinear_arith)
        requires
            (y - db * q) * da == r * db,
            0 <= r < da,
            db > 0,
    ;
    vstd::arithmetic::div_mod::lemma_fundamental_div_mod_converse_div(y, db, q, y - db * q);
}

/// Reducing a duration never changes its length in ticks.
pub proof fn law_reduce_preserves_ticks(d: Duration, ppq: u32)
    requires
        d.denominator > 0,
    ensures
        d.reduced().denominator > 0,
        d.reduced().ticks(ppq) == d.ticks(ppq),
{
    lemma_reduced_facts(d.numerator as nat, d.denominator as nat);
    let g = gcd(d.numerator as nat, d.denominator as nat);
    lemma_gcd_divides(d.numerator as nat, d.denominator as nat);
    lemma_fundamental_div_mod(d.denominator as int, g as int);
    assert(d.denominator as nat / g > 0) by (nonlinear_arith)
        requires
            d.denominator == g * (d.denominator as nat / g),
            d.denominator > 0,
    ;
    law_ticks_depend_only_on_value(d.reduced(), d, ppq);
}

/// Addition of durations is commutative.
pub proof fn law_sum_commutative(a: Duration, b: Duration)
    ensures
        a.sum(b) == b.sum(a),
{
    assert(a.raw_sum(b) == b.raw_sum(a)) by (nonlinear_arith);
}

/// The sum is in lowest terms and has the value of the exact rational sum
/// `a.n/a.d + b.n/b.d`.
pub proof fn law_sum_is_exact(a: Duration, b: Duration)
    requires
        a.raw_sum(b).0 > 0 || a.raw_sum(b).1 > 0,
        a.raw_sum(b).0 <= u32::MAX,
        a.raw_sum(b).1 <= u32::MAX,
    ensures
        a.sum(b).numerator * (a.denominator * b.denominator)
            == (a.numerator * b.denominator + b.numerator * a.denominator) * a.sum(b).denominator,
        gcd(a.sum(b).numerator as nat, a.sum(b).denominator as nat) == 1,
{
    let (n, d) = a.raw_sum(b);
    lemma_reduced_facts(n, d);
}

} // verus!
