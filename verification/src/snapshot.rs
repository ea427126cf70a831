//! The snapshot: the complete persisted image of the store at one moment.
use vstd::prelude::*;

use crate::store::{distinct_keys, has_key};
use crate::tracker::{PausedTracker, TrackerModel};

verus! {

/// Spec-level image of the persisted running pointer.
pub ghost struct RunStampModel {
    pub key: Seq<char>,
    pub wall_start: u64,
}

/// The persisted running pointer: its key and the wall-clock equivalent
/// of its monotonic start.
#[derive(Debug)]
pub struct RunStamp {
    pub key: String,
    pub wall_start: u64,
}

impl View for RunStamp {
    type V = RunStampModel;

    open spec fn view(&self) -> RunStampModel {
        RunStampModel { key: self.key@, wall_start: self.wall_start }
    }
}

/// Spec-level image of a snapshot.
pub ghost struct SnapModel {
    pub running: Option<RunStampModel>,
    pub trackers: Seq<(Seq<char>, TrackerModel)>,
}

/// A complete on-disk image of the store: every tracker in insertion
/// order, and the running pointer if one exists.
#[derive(Debug)]
pub struct Snapshot {
    pub running: Option<RunStamp>,
    pub trackers: Vec<(String, PausedTracker)>,
}

impl View for Snapshot {
    type V = SnapModel;

    open spec fn view(&self) -> SnapModel {
        SnapModel {
            running: match self.running {
                Some(r) => Some(r@),
                None => None,
            },
            trackers: Seq::new(
                self.trackers@.len(),
                |i: int| (self.trackers@[i].0@, self.trackers@[i].1@),
            ),
        }
    }
}

/// A usable snapshot: unique keys, a running pointer that names an
/// existing tracker, and well-formed creation stamps.
pub open spec fn snap_wf(s: SnapModel) -> bool {
    &&& distinct_keys(s.trackers)
    &&& (s.running is Some ==> has_key(s.trackers, s.running->Some_0.key))
    &&& (forall|i: int| 0 <= i < s.trackers.len() ==> (#[trigger] s.trackers[i]).1.start_time.wf())
}

} // verus!
