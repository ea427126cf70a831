//! The tracker entities: the persisted per-item record, the running pointer,
//! and the information record reported to callers.
use vstd::prelude::*;

use crate::dur::{sat_add, sat_sub, sat_sum, trunc_secs, Dur, lemma_sat_sum_push};
use crate::wall::WallTime;

verus! {

/// Spec-level image of one paused tracker.
pub ghost struct TrackerModel {
    pub description: Option<Seq<char>>,
    pub acc_nanos: u64,
    pub pos: Seq<u64>,
    pub neg: Seq<u64>,
    pub start_time: WallTime,
}

/// The persisted record for one work item: time banked from earlier run
/// segments plus append-only manual corrections.
#[derive(Debug)]
pub struct PausedTracker {
    /// Optional free text; an empty string is normalized to absent.
    pub description: Option<String>,
    /// Time banked from previous run segments.
    pub duration: Dur,
    /// Append-only log of manual additions.
    pub positive_adjustments: Vec<Dur>,
    /// Append-only log of manual subtractions.
    pub negative_adjustments: Vec<Dur>,
    /// Wall-clock creation stamp, for record-keeping only.
    pub start_time: WallTime,
}

pub open spec fn durs_to_nanos(v: Seq<Dur>) -> Seq<u64> {
    v.map_values(|d: Dur| d.nanos)
}

impl View for PausedTracker {
    type V = TrackerModel;

    open spec fn view(&self) -> TrackerModel {
        TrackerModel {
            description: match self.description {
                Some(ref s) => Some(s@),
                None => None,
            },
            acc_nanos: self.duration.nanos,
            pos: durs_to_nanos(self.positive_adjustments@),
            neg: durs_to_nanos(self.negative_adjustments@),
            start_time: self.start_time,
        }
    }
}

/// The effective elapsed nanoseconds of a tracker, given the live running
/// contribution: banked time plus the live segment plus manual additions,
/// less manual subtractions, floored at zero.
pub open spec fn effective_nanos(t: TrackerModel, live: u64) -> u64 {
    sat_sub(sat_add(sat_add(t.acc_nanos, live), sat_sum(t.pos)), sat_sum(t.neg))
}

impl PausedTracker {
    /// A fresh tracker with zero duration, created at `start_time`.
    pub fn new(start_time: WallTime) -> (r: PausedTracker)
        ensures
            r@ == (TrackerModel {
                description: None,
                acc_nanos: 0,
                pos: Seq::<u64>::empty(),
                neg: Seq::<u64>::empty(),
                start_time,
            }),
    {
        let r = PausedTracker {
            description: None,
            duration: Dur::zero(),
            positive_adjustments: Vec::new(),
            negative_adjustments: Vec::new(),
            start_time,
        };
        assert(durs_to_nanos(r.positive_adjustments@) =~= Seq::<u64>::empty());
        assert(durs_to_nanos(r.negative_adjustments@) =~= Seq::<u64>::empty());
        r
    }

    /// A value-equal copy of this record.
    pub fn duplicate(&self) -> (r: PausedTracker)
        ensures
            r@ == self@,
    {
        let description = match &self.description {
            Some(s) => Some(s.clone()),
            None => None,
        };
        let r = PausedTracker {
            description,
            duration: self.duration,
            positive_adjustments: copy_durs(&self.positive_adjustments),
            negative_adjustments: copy_durs(&self.negative_adjustments),
            start_time: self.start_time,
        };
        r
    }
}

/// An element-for-element copy of a duration log.
pub fn copy_durs(v: &Vec<Dur>) -> (r: Vec<Dur>)
    ensures
        r@ == v@,
{
    let n = v.len();
    let mut out: Vec<Dur> = Vec::new();
    let mut i: usize = 0;
    while i < n
        invariant
            i <= n,
            n == v@.len(),
            out@ == v@.subrange(0, i as int),
        decreases n - i,
    {
        out.push(v[i]);
        assert(out@ =~= v@.subrange(0, i + 1 as int));
        i += 1;
    }
    assert(v@.subrange(0, n as int) =~= v@);
    out
}

/// The saturating sum of a duration log.
pub fn sum_durs(v: &Vec<Dur>) -> (r: Dur)
    ensures
        r.nanos == sat_sum(durs_to_nanos(v@)),
{
    let n = v.len();
    let mut acc = Dur::zero();
    let mut i: usize = 0;
    while i < n
        invariant
            i <= n,
            n == v@.len(),
            acc.nanos == sat_sum(durs_to_nanos(v@.subrange(0, i as int))),
        decreases n - i,
    {
        let prev = Ghost(durs_to_nanos(v@.subrange(0, i as int)));
        acc = acc.saturating_add(v[i]);
        proof {
            assert(durs_to_nanos(v@.subrange(0, i + 1 as int)) =~= prev@.push(v@[i as int].nanos));
            lemma_sat_sum_push(prev@, v@[i as int].nanos);
        }
        i += 1;
    }
    assert(v@.subrange(0, n as int) =~= v@);
    acc
}

/// The effective elapsed duration of one tracker, full precision.
pub fn effective_elapsed(t: &PausedTracker, live: Dur) -> (r: Dur)
    ensures
        r.nanos == effective_nanos(t@, live.nanos),
{
    let pos = sum_durs(&t.positive_adjustments);
    let neg = sum_durs(&t.negative_adjustments);
    t.duration.saturating_add(live).saturating_add(pos).saturating_sub(neg)
}

/// Spec-level image of the running pointer.
pub ghost struct RunModel {
    pub key: Seq<char>,
    pub mono_start: u64,
}

/// The single running pointer: which tracker is live and the monotonic
/// clock reading at the moment it was started.
#[derive(Debug)]
pub struct RunningTracker {
    pub key: String,
    pub mono_start: u64,
}

impl View for RunningTracker {
    type V = RunModel;

    open spec fn view(&self) -> RunModel {
        RunModel { key: self.key@, mono_start: self.mono_start }
    }
}

impl RunningTracker {
    pub fn new(key: &str, mono_start: u64) -> (r: RunningTracker)
        ensures
            r@ == (RunModel { key: key@, mono_start }),
    {
        RunningTracker { key: key.to_owned(), mono_start }
    }

    pub fn duplicate(&self) -> (r: RunningTracker)
        ensures
            r@ == self@,
    {
        RunningTracker { key: self.key.clone(), mono_start: self.mono_start }
    }
}

/// Spec-level image of a reported tracker record.
pub ghost struct InfoModel {
    pub key: Seq<char>,
    pub description: Option<Seq<char>>,
    pub duration_nanos: u64,
    pub running: bool,
    pub start_time: WallTime,
}

/// What callers see of one tracker: its identity, its effective duration
/// truncated to whole seconds, and whether it is the one running now.
#[derive(Debug)]
pub struct TrackerInformation {
    pub key: String,
    pub description: Option<String>,
    pub duration: Dur,
    pub running: bool,
    pub start_time: WallTime,
}

impl View for TrackerInformation {
    type V = InfoModel;

    open spec fn view(&self) -> InfoModel {
        InfoModel {
            key: self.key@,
            description: match self.description {
                Some(ref s) => Some(s@),
                None => None,
            },
            duration_nanos: self.duration.nanos,
            running: self.running,
            start_time: self.start_time,
        }
    }
}

} // verus!
