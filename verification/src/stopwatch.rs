//! A stand-alone stopwatch: banked time plus an optional live segment,
//! driven by monotonic clock readings handed in by the caller.
use vstd::prelude::*;

use crate::dur::{sat_add, sat_sub, trunc_secs, Dur};

verus! {

/// Accumulated time, and the monotonic start of the live segment while
/// the watch runs.
#[derive(Debug)]
pub struct Stopwatch {
    pub start_time: Option<u64>,
    pub duration_sum: Dur,
}

/// The live segment's length at monotonic time `now`.
pub open spec fn live_of(start_time: Option<u64>, now: u64) -> u64 {
    match start_time {
        Some(s) => sat_sub(now, s),
        None => 0,
    }
}

impl Stopwatch {
    /// A stopped watch with nothing banked.
    pub fn new() -> (r: Stopwatch)
        ensures
            r.start_time is None,
            r.duration_sum.nanos == 0,
    {
        Stopwatch { start_time: None, duration_sum: Dur::zero() }
    }

    /// A watch running since `now_mono` with nothing banked.
    pub fn new_and_start(now_mono: u64) -> (r: Stopwatch)
        ensures
            r.start_time == Some(now_mono),
            r.duration_sum.nanos == 0,
    {
        let mut stopwatch = Self::new();
        stopwatch.start(now_mono);
        stopwatch
    }

    /// Starts (or restarts) the live segment at `now_mono`.
    pub fn start(&mut self, now_mono: u64)
        ensures
            final(self).start_time == Some(now_mono),
            final(self).duration_sum == old(self).duration_sum,
    {
        self.start_time = Some(now_mono);
    }

    /// The length of the live segment, zero when stopped.
    fn elapsed(&self, now_mono: u64) -> (r: Dur)
        ensures
            r.nanos == live_of(self.start_time, now_mono),
    {
        match self.start_time {
            Some(s) => Dur::from_nanos(now_mono.saturating_sub(s)),
            None => Dur::zero(),
        }
    }

    /// Everything banked plus the live segment.
    pub fn total_elapsed(&self, now_mono: u64) -> (r: Dur)
        ensures
            r.nanos == sat_add(live_of(self.start_time, now_mono), self.duration_sum.nanos),
    {
        self.elapsed(now_mono).saturating_add(self.duration_sum)
    }

    /// The total, truncated down to whole seconds.
    pub fn total_elapsed_seconds(&self, now_mono: u64) -> (r: Dur)
        ensures
            r.nanos == trunc_secs(
                sat_add(live_of(self.start_time, now_mono), self.duration_sum.nanos),
            ),
    {
        self.total_elapsed(now_mono).truncated_to_secs()
    }

    /// Banks the live segment and stops.
    pub fn pause(&mut self, now_mono: u64)
        ensures
            final(self).start_time is None,
            final(self).duration_sum.nanos == sat_add(
                old(self).duration_sum.nanos,
                live_of(old(self).start_time, now_mono),
            ),
    {
        let seg = self.elapsed(now_mono);
        self.duration_sum = self.duration_sum.saturating_add(seg);
        self.start_time = None;
    }
}

} // verus!
