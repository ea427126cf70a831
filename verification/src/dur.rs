//! Durations as whole nanosecond counts, with saturating arithmetic.
//!
//! All elapsed-time bookkeeping uses saturating addition and subtraction:
//! a duration never overflows and never goes below zero.
use vstd::prelude::*;

verus! {

pub const NANOS_PER_SEC: u64 = 1_000_000_000;

/// A non-negative span of time, counted in nanoseconds.
#[derive(Clone, Copy, Debug, PartialEq, Eq, Structural)]
pub struct Dur {
    pub nanos: u64,
}

/// `a + b`, clamped to `u64::MAX`.
pub open spec fn sat_add(a: u64, b: u64) -> u64 {
    if a + b <= u64::MAX {
        (a + b) as u64
    } else {
        u64::MAX
    }
}

/// `a * b`, clamped to `u64::MAX`.
pub open spec fn sat_mul(a: u64, b: u64) -> u64 {
    if a * b <= u64::MAX {
        (a * b) as u64
    } else {
        u64::MAX
    }
}

/// `a - b`, floored at zero.
pub open spec fn sat_sub(a: u64, b: u64) -> u64 {
    if a >= b {
        (a - b) as u64
    } else {
        0
    }
}

/// Sum of a sequence of nanosecond counts, saturating at `u64::MAX`.
pub open spec fn sat_sum(s: Seq<u64>) -> u64
    decreases s.len(),
{
    if s.len() == 0 {
        0
    } else {
        sat_add(sat_sum(s.drop_last()), s.last())
    }
}

/// Nanoseconds truncated down to a whole number of seconds.
pub open spec fn trunc_secs(nanos: u64) -> u64 {
    ((nanos / NANOS_PER_SEC) * NANOS_PER_SEC) as u64
}

impl Dur {
    pub open spec fn spec_zero() -> Dur {
        Dur { nanos: 0 }
    }

    pub fn zero() -> (r: Dur)
        ensures
            r == Dur::spec_zero(),
    {
        Dur { nanos: 0 }
    }

    pub fn from_nanos(nanos: u64) -> (r: Dur)
        ensures
            r.nanos == nanos,
    {
        Dur { nanos }
    }

    /// Whole seconds, saturating at the largest count that still fits.
    pub fn from_secs(secs: u64) -> (r: Dur)
        ensures
            secs * NANOS_PER_SEC <= u64::MAX ==> r.nanos == secs * NANOS_PER_SEC,
            secs * NANOS_PER_SEC > u64::MAX ==> r.nanos == u64::MAX,
    {
        match secs.checked_mul(NANOS_PER_SEC) {
            Some(n) => Dur { nanos: n },
            None => Dur { nanos: u64::MAX },
        }
    }

    pub fn saturating_add(self, other: Dur) -> (r: Dur)
        ensures
            r.nanos == sat_add(self.nanos, other.nanos),
    {
        Dur { nanos: self.nanos.saturating_add(other.nanos) }
    }

    pub fn saturating_sub(self, other: Dur) -> (r: Dur)
        ensures
            r.nanos == sat_sub(self.nanos, other.nanos),
    {
        Dur { nanos: self.nanos.saturating_sub(other.nanos) }
    }

    /// The number of whole seconds in this duration.
    pub fn as_secs(self) -> (r: u64)
        ensures
            r == self.nanos / NANOS_PER_SEC,
    {
        self.nanos / NANOS_PER_SEC
    }

    /// This duration truncated down to whole seconds (never rounded up).
    pub fn truncated_to_secs(self) -> (r: Dur)
        ensures
            r.nanos == trunc_secs(self.nanos),
    {
        Dur { nanos: (self.nanos / NANOS_PER_SEC) * NANOS_PER_SEC }
    }
}

/// Saturating the sum of a prefix then adding the next element agrees with
/// the saturating sum of the longer prefix.
pub proof fn lemma_sat_sum_push(s: Seq<u64>, x: u64)
    ensures
        sat_sum(s.push(x)) == sat_add(sat_sum(s), x),
{
    assert(s.push(x).drop_last() =~= s);
    assert(s.push(x).last() == x);
}

} // verus!
