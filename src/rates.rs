//! Durations in seconds and rates per second, both exact.

use vstd::prelude::*;
use crate::error::Error;
use crate::rational::{
    abs, fits, gcd, in_lowest_terms, lemma_reciprocal_round_trip, lowest_terms, q_add, q_div, q_int,
    q_mul, q_neg, q_sub, q_zero, Ratio,
};

verus! {

/// A duration, in seconds.
#[derive(Clone, Copy, Debug, PartialEq, Eq, Structural, Hash)]
pub struct Time {
    pub seconds: Ratio,
}

/// A rate, per second.
#[derive(Clone, Copy, Debug, PartialEq, Eq, Structural, Hash)]
pub struct Rate {
    pub persecond: Ratio,
}

impl View for Time {
    type V = (int, int);

    open spec fn view(&self) -> (int, int) {
        self.seconds@
    }
}

impl View for Rate {
    type V = (int, int);

    open spec fn view(&self) -> (int, int) {
        self.persecond@
    }
}

/// A nonzero time and its rate are each other's reciprocals: the rate of a
/// time always fits, the time of that rate is the time again, and their
/// product is one cycle.
pub proof fn lemma_time_rate_round_trip(t: (int, int))
    requires
        t.0 != 0,
        fits(t),
        in_lowest_terms(t),
    ensures
        fits(q_div(q_int(1), t)),
        q_div(q_int(1), t).0 != 0,
        q_div(q_int(1), q_div(q_int(1), t)) == t,
        q_mul(t, q_div(q_int(1), t)) == q_int(1),
{
    lemma_reciprocal_round_trip(t);
    let r = q_div(q_int(1), t);
    let x = abs(t.0) as int * t.1;
    assert(t.0 * r.0 == x && t.1 * r.1 == x && x > 0) by (nonlinear_arith)
        requires
            t.1 > 0,
            t.0 != 0,
            r == (if t.0 < 0 {
                (-t.1, -t.0)
            } else {
                (t.1, t.0)
            }),
            x == abs(t.0) as int * t.1,
    ;
    reveal_with_fuel(gcd, 2);
    assert((x as nat) % (x as nat) == 0) by (nonlinear_arith)
        requires
            x > 0,
    ;
    assert(gcd(x as nat, x as nat) == x);
    assert(x / x == 1) by (nonlinear_arith)
        requires
            x > 0,
    ;
    assert(lowest_terms(x, x) == q_int(1));
}

impl Time {
    pub fn new(seconds: Ratio) -> (r: Time)
        ensures
            r@ == seconds@,
    {
        Time { seconds }
    }

    pub fn zero() -> (r: Time)
        ensures
            r@ == q_zero(),
    {
        Time { seconds: Ratio::zero() }
    }

    pub fn is_zero(&self) -> (r: bool)
        ensures
            r == (self@.0 == 0),
    {
        self.seconds.is_zero()
    }

    pub fn neg(&self) -> (r: Time)
        ensures
            r@ == q_neg(self@),
    {
        Time { seconds: self.seconds.neg() }
    }

    pub fn checked_add(&self, other: &Time) -> (r: Option<Time>)
        ensures
            r is Some <==> fits(q_add(self@, other@)),
            r matches Some(x) ==> x@ == q_add(self@, other@),
    {
        match self.seconds.checked_add(&other.seconds) {
            Some(s) => Some(Time { seconds: s }),
            None => None,
        }
    }

    pub fn checked_sub(&self, other: &Time) -> (r: Option<Time>)
        ensures
            r is Some <==> fits(q_sub(self@, other@)),
            r matches Some(x) ==> x@ == q_sub(self@, other@),
    {
        match self.seconds.checked_sub(&other.seconds) {
            Some(s) => Some(Time { seconds: s }),
            None => None,
        }
    }

    /// The duration scaled by a dimensionless factor.
    pub fn checked_mul(&self, factor: &Ratio) -> (r: Option<Time>)
        ensures
            r is Some <==> fits(q_mul(self@, factor@)),
            r matches Some(x) ==> x@ == q_mul(self@, factor@),
    {
        match self.seconds.checked_mul(factor) {
            Some(s) => Some(Time { seconds: s }),
            None => None,
        }
    }

    /// The number of cycles of length `self` in `rate`'s unit: `self * rate`.
    pub fn cycles(&self, rate: &Rate) -> (r: Option<Ratio>)
        ensures
            r is Some <==> fits(q_mul(self@, rate@)),
            r matches Some(x) ==> x@ == q_mul(self@, rate@),
    {
        self.seconds.checked_mul(&rate.persecond)
    }

    /// The rate of once per `rate`'s reciprocal: `1 / rate`; fails on zero.
    pub fn from_rate(rate: &Rate) -> (r: Result<Time, Error>)
        ensures
            rate@.0 == 0 ==> r == Err::<Time, Error>(Error::DivisionByZero),
            rate@.0 != 0 ==> r is Ok,
            rate@.0 != 0 ==> (r matches Err(e) ==> e == Error::Overflow),
            r matches Ok(x) ==> x@ == q_div(q_int(1), rate@),
    {
        if rate.persecond.is_zero() {
            return Err(Error::DivisionByZero);
        }
        rate.persecond.check_valid();
        proof {
            lemma_time_rate_round_trip(rate@);
        }
        match rate.persecond.recip() {
            Some(s) => Ok(Time { seconds: s }),
            None => Err(Error::Overflow),
        }
    }
}

impl Rate {
    pub fn new(persecond: Ratio) -> (r: Rate)
        ensures
            r@ == persecond@,
    {
        Rate { persecond }
    }

    pub fn zero() -> (r: Rate)
        ensures
            r@ == q_zero(),
    {
        Rate { persecond: Ratio::zero() }
    }

    pub fn is_zero(&self) -> (r: bool)
        ensures
            r == (self@.0 == 0),
    {
        self.persecond.is_zero()
    }

    pub fn is_positive(&self) -> (r: bool)
        ensures
            r == (self@.0 > 0),
    {
        self.persecond.is_positive()
    }

    pub fn is_negative(&self) -> (r: bool)
        ensures
            r == (self@.0 < 0),
    {
        self.persecond.is_negative()
    }

    pub fn neg(&self) -> (r: Rate)
        ensures
            r@ == q_neg(self@),
    {
        Rate { persecond: self.persecond.neg() }
    }

    pub fn checked_add(&self, other: &Rate) -> (r: Option<Rate>)
        ensures
            r is Some <==> fits(q_add(self@, other@)),
            r matches Some(x) ==> x@ == q_add(self@, other@),
    {
        match self.persecond.checked_add(&other.persecond) {
            Some(s) => Some(Rate { persecond: s }),
            None => None,
        }
    }

    pub fn checked_sub(&self, other: &Rate) -> (r: Option<Rate>)
        ensures
            r is Some <==> fits(q_sub(self@, other@)),
            r matches Some(x) ==> x@ == q_sub(self@, other@),
    {
        match self.persecond.checked_sub(&other.persecond) {
            Some(s) => Some(Rate { persecond: s }),
            None => None,
        }
    }

    /// The rate scaled by a dimensionless factor.
    pub fn checked_mul(&self, factor: &Ratio) -> (r: Option<Rate>)
        ensures
            r is Some <==> fits(q_mul(self@, factor@)),
            r matches Some(x) ==> x@ == q_mul(self@, factor@),
    {
        match self.persecond.checked_mul(factor) {
            Some(s) => Some(Rate { persecond: s }),
            None => None,
        }
    }

    /// The dimensionless ratio `self / other` of two rates; fails on a zero `other`.
    pub fn ratio(&self, other: &Rate) -> (r: Result<Ratio, Error>)
        ensures
            other@.0 == 0 ==> r == Err::<Ratio, Error>(Error::DivisionByZero),
            other@.0 != 0 ==> (r is Ok <==> fits(q_div(self@, other@))),
            other@.0 != 0 ==> (r matches Err(e) ==> e == Error::Overflow),
            r matches Ok(x) ==> x@ == q_div(self@, other@),
    {
        if other.persecond.is_zero() {
            return Err(Error::DivisionByZero);
        }
        match self.persecond.checked_div(&other.persecond) {
            Some(s) => Ok(s),
            None => Err(Error::Overflow),
        }
    }

    /// Once per `time`: `1 / time`; fails on zero.
    pub fn from_time(time: &Time) -> (r: Result<Rate, Error>)
        ensures
            time@.0 == 0 ==> r == Err::<Rate, Error>(Error::DivisionByZero),
            time@.0 != 0 ==> r is Ok,
            time@.0 != 0 ==> (r matches Err(e) ==> e == Error::Overflow),
            r matches Ok(x) ==> x@ == q_div(q_int(1), time@),
    {
        if time.seconds.is_zero() {
            return Err(Error::DivisionByZero);
        }
        time.seconds.check_valid();
        proof {
            lemma_time_rate_round_trip(time@);
        }
        match time.seconds.recip() {
            Some(s) => Ok(Rate { persecond: s }),
            None => Err(Error::Overflow),
        }
    }

    /// `amount` items every `period`: `amount / period`; fails on a zero period.
    pub fn per_period(amount: i64, period: &Time) -> (r: Result<Rate, Error>)
        requires
            amount > i64::MIN,
        ensures
            period@.0 == 0 ==> r == Err::<Rate, Error>(Error::DivisionByZero),
            period@.0 != 0 ==> (r is Ok <==> fits(q_div(q_int(amount as int), period@))),
            period@.0 != 0 ==> (r matches Err(e) ==> e == Error::Overflow),
            r matches Ok(x) ==> x@ == q_div(q_int(amount as int), period@),
    {
        if period.seconds.is_zero() {
            return Err(Error::DivisionByZero);
        }
        match Ratio::from_integer(amount).checked_div(&period.seconds) {
            Some(s) => Ok(Rate { persecond: s }),
            None => Err(Error::Overflow),
        }
    }
}

} // verus!
