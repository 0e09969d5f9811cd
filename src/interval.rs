//! Linear interpolation over time and distance intervals.
//!
//! Times and distances are whole numbers of simulation units; a fraction of an
//! interval is an exact ratio `num / den`.
use vstd::prelude::*;

verus! {

/// Why an interpolation query was refused.
#[derive(Debug, Clone, Copy, PartialEq, Eq, Structural)]
pub enum IntervalError {
    /// The queried time lies before the start or after the end of the interval.
    TimeOutOfRange,
    /// The fraction has a zero denominator or lies above one.
    FractionOutOfRange,
}

/// An exact ratio `num / den`.
#[derive(Debug, Clone, Copy, PartialEq, Eq, Structural)]
pub struct Fraction {
    pub num: u64,
    pub den: u64,
}

impl Fraction {
    /// A fraction in `[0, 1]` with a non-zero denominator.
    pub open spec fn is_unit(self) -> bool {
        self.den > 0 && self.num <= self.den
    }

    /// `self <= other` as rational numbers (both denominators positive).
    pub open spec fn le(self, other: Fraction) -> bool {
        self.num * other.den <= other.num * self.den
    }

    pub open spec fn is_zero(self) -> bool {
        self.num == 0
    }

    pub open spec fn is_one(self) -> bool {
        self.num == self.den
    }
}

/// The span of simulated time `[start, end]`.
#[derive(Debug, Clone, Copy, PartialEq, Eq, Structural)]
pub struct TimeInterval {
    pub start: u64,
    pub end: u64,
}

impl TimeInterval {
    pub open spec fn contains(self, t: u64) -> bool {
        self.start <= t <= self.end
    }

    /// The elapsed share of the interval at time `t`.
    pub open spec fn percent_spec(self, t: u64) -> Fraction {
        Fraction { num: (t - self.start) as u64, den: (self.end - self.start) as u64 }
    }

    /// The share of the interval that has elapsed at time `t`, or an error when
    /// `t` lies outside the interval.
    pub fn percent(&self, t: u64) -> (r: Result<Fraction, IntervalError>)
        requires
            self.start < self.end,
        ensures
            r is Ok <==> self.contains(t),
            r is Ok ==> r->Ok_0 == self.percent_spec(t) && r->Ok_0.is_unit(),
            r is Err ==> r->Err_0 == IntervalError::TimeOutOfRange,
    {
        if t < self.start || t > self.end {
            Err(IntervalError::TimeOutOfRange)
        } else {
            Ok(Fraction { num: t - self.start, den: self.end - self.start })
        }
    }
}

/// The stretch of distance `[start, end]` that a vehicle's front covers.
#[derive(Debug, Clone, Copy, PartialEq, Eq, Structural)]
pub struct DistanceInterval {
    pub start: u64,
    pub end: u64,
}

impl DistanceInterval {
    /// `start + x * (end - start)`, rounded down.
    pub open spec fn lerp_spec(self, x: Fraction) -> int {
        self.start + ((self.end - self.start) * x.num) / (x.den as int)
    }

    /// The distance reached after the share `x` of the interval, rounded down
    /// to a whole unit, or an error when `x` is not a fraction in `[0, 1]`.
    pub fn lerp(&self, x: Fraction) -> (r: Result<u64, IntervalError>)
        requires
            self.start <= self.end,
        ensures
            r is Ok <==> x.is_unit(),
            r is Ok ==> r->Ok_0 == self.lerp_spec(x),
            r is Ok ==> self.start <= r->Ok_0 <= self.end,
            r is Err ==> r->Err_0 == IntervalError::FractionOutOfRange,
    {
        if x.den == 0 || x.num > x.den {
            return Err(IntervalError::FractionOutOfRange);
        }
        let span: u64 = self.end - self.start;
        proof {
            lemma_scaled_within(span as int, x.num as int, x.den as int);
        }
        assert((span as u128) * (x.num as u128) <= u128::MAX) by (nonlinear_arith)
            requires span <= u64::MAX, x.num <= u64::MAX;
        let scaled: u128 = (span as u128) * (x.num as u128) / (x.den as u128);
        Ok(self.start + scaled as u64)
    }
}

/// The elapsed share is zero at the start, one at the end, and never
/// decreases as time goes on.
pub proof fn percent_laws(i: TimeInterval, t1: u64, t2: u64)
    requires
        i.start < i.end,
        i.contains(t1),
        i.contains(t2),
        t1 <= t2,
    ensures
        i.percent_spec(i.start).is_zero(),
        i.percent_spec(i.end).is_one(),
        i.percent_spec(t1).is_unit(),
        i.percent_spec(t1).le(i.percent_spec(t2)),
{
    let d = (i.end - i.start) as int;
    assert((t1 - i.start) * d <= (t2 - i.start) * d) by (nonlinear_arith)
        requires t1 - i.start <= t2 - i.start, d >= 0;
}

/// Interpolating at zero gives the start, at one gives the end, and a larger
/// fraction never gives a smaller distance.
pub proof fn lerp_laws(i: DistanceInterval, x1: Fraction, x2: Fraction)
    requires
        i.start <= i.end,
        x1.is_unit(),
        x2.is_unit(),
        x1.le(x2),
    ensures
        i.lerp_spec(Fraction { num: 0, den: x1.den }) == i.start,
        i.lerp_spec(Fraction { num: x1.den, den: x1.den }) == i.end,
        i.lerp_spec(x1) <= i.lerp_spec(x2),
{
    let s = (i.end - i.start) as int;
    let (n1, d1, n2, d2) = (x1.num as int, x1.den as int, x2.num as int, x2.den as int);
    assert(s * 0 == 0) by (nonlinear_arith);
    assert(s * d1 == d1 * s) by (nonlinear_arith);
    vstd::arithmetic::div_mod::lemma_div_multiples_vanish(s, d1);
    let q1 = (s * n1) / d1;
    vstd::arithmetic::div_mod::lemma_fundamental_div_mod(s * n1, d1);
    vstd::arithmetic::div_mod::lemma_mod_bound(s * n1, d1);
    assert(q1 * d1 <= s * n1) by (nonlinear_arith)
        requires s * n1 == d1 * q1 + (s * n1) % d1, (s * n1) % d1 >= 0;
    assert(q1 * d2 <= s * n2) by (nonlinear_arith)
        requires q1 * d1 <= s * n1, n1 * d2 <= n2 * d1, s >= 0, d1 > 0, d2 > 0;
    assert(q1 * d2 / d2 == q1) by {
        assert(q1 * d2 == d2 * q1) by (nonlinear_arith);
        vstd::arithmetic::div_mod::lemma_div_multiples_vanish(q1, d2);
    }
    vstd::arithmetic::div_mod::lemma_div_is_ordered(q1 * d2, s * n2, d2);
}

proof fn lemma_scaled_within(span: int, num: int, den: int)
    requires
        span >= 0,
        0 <= num <= den,
        den > 0,
    ensures
        0 <= span * num <= span * den,
        0 <= (span * num) / den <= span,
{
    assert(0 <= span * num <= span * den) by (nonlinear_arith)
        requires span >= 0, 0 <= num <= den;
    assert(span * den == den * span) by (nonlinear_arith);
    vstd::arithmetic::div_mod::lemma_div_is_ordered(span * num, den * span, den);
    vstd::arithmetic::div_mod::lemma_div_multiples_vanish(span, den);
    vstd::arithmetic::div_mod::lemma_div_pos_is_pos(span * num, den);
}

} // verus!
