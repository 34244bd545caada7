//! Exact non-negative rationals for the learning rate.
//!
//! The learning-rate schedule multiplies by 99/100 or 101/100 at each
//! checkpoint. Kept as an exact numerator/denominator pair, those steps
//! are exact: no rounding drifts into the policy. A driver divides the
//! two fields once, at the point where the rate is actually consumed.

use vstd::prelude::*;

verus! {

/// A non-negative rational `num / den`; well-formed when `den >= 1`.
#[derive(Clone, Copy, Debug, PartialEq, Eq, Structural)]
pub struct Frac {
    pub num: u64,
    pub den: u64,
}

/// Two fractions denote the same rational.
pub open spec fn frac_eq(a: Frac, b: Frac) -> bool {
    a.num * b.den == b.num * a.den
}

impl Frac {
    pub open spec fn wf(self) -> bool {
        self.den >= 1
    }

    /// The fraction lies in the unit interval `[0, 1]`.
    pub open spec fn in_unit(self) -> bool {
        self.num <= self.den
    }

    pub fn new(num: u64, den: u64) -> (r: Frac)
        requires
            den >= 1,
        ensures
            r == (Frac { num, den }),
            r.wf(),
    {
        Frac { num, den }
    }

    /// The adaptive learning-rate policy: multiply by 99/100 when the
    /// error worsened since the last checkpoint, by 101/100 otherwise.
    pub fn adjusted(&self, error_worsened: bool) -> (r: Frac)
        requires
            self.wf(),
            self.num <= u64::MAX / 101,
            self.den <= u64::MAX / 100,
        ensures
            r.wf(),
            error_worsened ==> r == (Frac { num: (self.num * 99) as u64, den: (self.den * 100) as u64 }),
            !error_worsened ==> r == (Frac { num: (self.num * 101) as u64, den: (self.den * 100) as u64 }),
    {
        if error_worsened {
            Frac { num: self.num * 99, den: self.den * 100 }
        } else {
            Frac { num: self.num * 101, den: self.den * 100 }
        }
    }

    /// `adjusted`, with the overflow guard tested at run time instead of
    /// demanded of the caller.
    pub fn checked_adjusted(&self, error_worsened: bool) -> (r: Result<Frac, crate::CoreError>)
        requires
            self.wf(),
        ensures
            match r {
                Ok(f) => {
                    &&& self.num <= u64::MAX / 101
                    &&& self.den <= u64::MAX / 100
                    &&& f.wf()
                    &&& (error_worsened ==> f == (Frac {
                        num: (self.num * 99) as u64,
                        den: (self.den * 100) as u64,
                    }))
                    &&& (!error_worsened ==> f == (Frac {
                        num: (self.num * 101) as u64,
                        den: (self.den * 100) as u64,
                    }))
                },
                Err(e) => {
                    &&& (self.num > u64::MAX / 101 || self.den > u64::MAX / 100)
                    &&& e == crate::CoreError::RateOverflow
                },
            },
    {
        if self.num <= u64::MAX / 101 && self.den <= u64::MAX / 100 {
            Ok(self.adjusted(error_worsened))
        } else {
            Err(crate::CoreError::RateOverflow)
        }
    }
}

} // verus!
