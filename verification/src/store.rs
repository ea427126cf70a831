//! The tracker store: the authoritative in-memory collection of trackers
//! and the single running pointer, with every operation's effect stated
//! over a mathematical model of the store.
//!
//! At most one tracker is ever running.  Starting one tracker while another
//! runs first folds the live segment of the old one into its banked
//! duration, atomically, so no moment exists in which two trackers run or
//! in which elapsed time is lost.
use vstd::prelude::*;

use indexmap::IndexMap;

use crate::dur::{sat_add, sat_sub, sat_sum, trunc_secs, Dur};
use crate::imap::{entries_of, im_clear, im_entries_vec, im_get, im_insert, im_new,
    im_shift_remove};
use crate::key::valid_key;
use crate::snapshot::{snap_wf, RunStamp, Snapshot};
use crate::tracker::{effective_nanos, InfoModel, PausedTracker, RunModel, RunningTracker,
    TrackerInformation, TrackerModel};
use crate::wall::WallTime;

verus! {

/// The error kinds a store operation can report.  Every domain error
/// leaves the store unchanged.
#[derive(Clone, Copy, Debug, PartialEq, Eq, Structural)]
pub enum TrackerError {
    /// The key fails the format policy.
    KeyFormatError,
    /// A tracker with this key already exists.
    OccupiedError,
    /// No tracker has this key, or nothing is running.
    NotFoundError,
    /// A negative adjustment would drive the effective duration below zero.
    DurationAdjustmentError,
}

impl TrackerError {
    /// The HTTP status code the route layer answers with for this error.
    pub fn http_status(&self) -> (r: u16)
        ensures
            *self == TrackerError::KeyFormatError ==> r == 400,
            *self == TrackerError::OccupiedError ==> r == 409,
            *self == TrackerError::NotFoundError ==> r == 404,
            *self == TrackerError::DurationAdjustmentError ==> r == 400,
    {
        match self {
            TrackerError::KeyFormatError => 400,
            TrackerError::OccupiedError => 409,
            TrackerError::NotFoundError => 404,
            TrackerError::DurationAdjustmentError => 400,
        }
    }
}

/// One reading of both clocks, taken by the caller at the operation:
/// a monotonic count for elapsed-time math, and the wall clock both as
/// epoch nanoseconds and as a calendar stamp.
#[derive(Clone, Copy, Debug)]
pub struct ClockSample {
    /// Monotonic nanoseconds; never decreases within a process.
    pub mono_nanos: u64,
    /// Wall-clock nanoseconds since the epoch.
    pub wall_nanos: u64,
    /// The same wall-clock moment as a calendar stamp.
    pub wall_time: WallTime,
}

impl ClockSample {
    pub open spec fn wf(self) -> bool {
        self.wall_time.wf()
    }
}

/// Spec-level image of the whole store.
pub ghost struct StoreModel {
    pub running: Option<RunModel>,
    pub trackers: Seq<(Seq<char>, TrackerModel)>,
}

/// Is some entry keyed `k`?
pub open spec fn has_key(es: Seq<(Seq<char>, TrackerModel)>, k: Seq<char>) -> bool {
    exists|i: int| 0 <= i < es.len() && (#[trigger] es[i]).0 == k
}

/// No two entries share a key.
pub open spec fn distinct_keys(es: Seq<(Seq<char>, TrackerModel)>) -> bool {
    forall|i: int, j: int|
        0 <= i < j < es.len() ==> (#[trigger] es[i]).0 != (#[trigger] es[j]).0
}

/// The index of the entry keyed `k`; meaningful when `has_key` holds.
pub open spec fn key_index(es: Seq<(Seq<char>, TrackerModel)>, k: Seq<char>) -> int {
    choose|i: int| 0 <= i < es.len() && (#[trigger] es[i]).0 == k
}

/// The tracker stored under `k`; meaningful when `has_key` holds.
pub open spec fn tracker_at(es: Seq<(Seq<char>, TrackerModel)>, k: Seq<char>) -> TrackerModel {
    es[key_index(es, k)].1
}

/// The store invariant: keys are unique, the running pointer (if any)
/// names an existing tracker, and every creation stamp is well-formed.
pub open spec fn store_wf(m: StoreModel) -> bool {
    &&& distinct_keys(m.trackers)
    &&& (m.running is Some ==> has_key(m.trackers, m.running->Some_0.key))
    &&& (forall|i: int|
        0 <= i < m.trackers.len() ==> (#[trigger] m.trackers[i]).1.start_time.wf())
}

/// Is `k` the key of the running tracker?
pub open spec fn is_running_key(m: StoreModel, k: Seq<char>) -> bool {
    match m.running {
        Some(r) => r.key == k,
        None => false,
    }
}

/// The live contribution of the running segment to tracker `k` at
/// monotonic time `now`: elapsed nanoseconds since its start if `k` is the
/// running tracker, zero otherwise.
pub open spec fn live_nanos(m: StoreModel, k: Seq<char>, now: u64) -> u64 {
    match m.running {
        Some(r) => if r.key == k {
            sat_sub(now, r.mono_start)
        } else {
            0
        },
        None => 0,
    }
}

/// The effective elapsed nanoseconds of tracker `k` at monotonic `now`,
/// at full precision.
pub open spec fn elapsed_nanos(m: StoreModel, k: Seq<char>, now: u64) -> u64 {
    effective_nanos(tracker_at(m.trackers, k), live_nanos(m, k, now))
}

/// What is reported for the tracker at position `i`: its key, description,
/// effective duration truncated to whole seconds, whether it is running,
/// and its creation stamp.
pub open spec fn info_model(m: StoreModel, i: int, now: u64) -> InfoModel {
    let k = m.trackers[i].0;
    let t = m.trackers[i].1;
    InfoModel {
        key: k,
        description: t.description,
        duration_nanos: trunc_secs(effective_nanos(t, live_nanos(m, k, now))),
        running: is_running_key(m, k),
        start_time: t.start_time,
    }
}

/// What is reported for the tracker keyed `k`.
pub open spec fn info_model_key(m: StoreModel, k: Seq<char>, now: u64) -> InfoModel {
    info_model(m, key_index(m.trackers, k), now)
}

/// A tracker with one finished run segment banked.
pub open spec fn folded_tracker(t: TrackerModel, mono_start: u64, now: u64) -> TrackerModel {
    TrackerModel { acc_nanos: sat_add(t.acc_nanos, sat_sub(now, mono_start)), ..t }
}

/// Pause semantics on the model: the live segment of the running tracker
/// (if any) is folded into its banked duration and the pointer cleared.
pub open spec fn fold_pause(m: StoreModel, now: u64) -> StoreModel {
    match m.running {
        None => m,
        Some(r) => if has_key(m.trackers, r.key) {
            let i = key_index(m.trackers, r.key);
            StoreModel {
                running: None,
                trackers: m.trackers.update(
                    i,
                    (r.key, folded_tracker(m.trackers[i].1, r.mono_start, now)),
                ),
            }
        } else {
            StoreModel { running: None, trackers: m.trackers }
        },
    }
}

/// A description set to the empty string means "absent".
pub open spec fn normalize_desc(d: Option<Seq<char>>) -> Option<Seq<char>> {
    match d {
        Some(s) => if s.len() == 0 {
            None
        } else {
            Some(s)
        },
        None => None,
    }
}

/// A brand-new tracker created at wall time `w`.
pub open spec fn fresh_tracker(w: WallTime) -> TrackerModel {
    TrackerModel {
        description: None,
        acc_nanos: 0,
        pos: Seq::<u64>::empty(),
        neg: Seq::<u64>::empty(),
        start_time: w,
    }
}

/// The store after `set_description(k, d)`.
pub open spec fn with_description(m: StoreModel, k: Seq<char>, d: Option<Seq<char>>) -> StoreModel {
    let i = key_index(m.trackers, k);
    StoreModel {
        running: m.running,
        trackers: m.trackers.update(
            i,
            (k, TrackerModel { description: normalize_desc(d), ..m.trackers[i].1 }),
        ),
    }
}

/// The store after appending `d` to the positive adjustment log of `k`.
pub open spec fn with_positive(m: StoreModel, k: Seq<char>, d: u64) -> StoreModel {
    let i = key_index(m.trackers, k);
    StoreModel {
        running: m.running,
        trackers: m.trackers.update(
            i,
            (k, TrackerModel { pos: m.trackers[i].1.pos.push(d), ..m.trackers[i].1 }),
        ),
    }
}

/// The store after appending `d` to the negative adjustment log of `k`.
pub open spec fn with_negative(m: StoreModel, k: Seq<char>, d: u64) -> StoreModel {
    let i = key_index(m.trackers, k);
    StoreModel {
        running: m.running,
        trackers: m.trackers.update(
            i,
            (k, TrackerModel { neg: m.trackers[i].1.neg.push(d), ..m.trackers[i].1 }),
        ),
    }
}

/// The store after `start(k)`: the old running segment folded, `k` running
/// from monotonic `mono`.
pub open spec fn start_model(m: StoreModel, k: Seq<char>, mono: u64) -> StoreModel {
    StoreModel {
        running: Some(RunModel { key: k, mono_start: mono }),
        trackers: fold_pause(m, mono).trackers,
    }
}

/// The store after `create_tracker(k)`: the old running segment folded, a
/// fresh tracker appended, and `k` running.
pub open spec fn create_model(m: StoreModel, k: Seq<char>, clock: ClockSample) -> StoreModel {
    StoreModel {
        running: Some(RunModel { key: k, mono_start: clock.mono_nanos }),
        trackers: fold_pause(m, clock.mono_nanos).trackers.push((k, fresh_tracker(clock.wall_time))),
    }
}

/// The store `remove(k)` starts from: folded first when `k` is running.
pub open spec fn remove_base(m: StoreModel, k: Seq<char>, now: u64) -> StoreModel {
    if is_running_key(m, k) {
        fold_pause(m, now)
    } else {
        m
    }
}

/// The reported whole-second durations of all trackers, in order.
pub open spec fn durations_of(m: StoreModel, now: u64) -> Seq<u64> {
    Seq::new(m.trackers.len(), |i: int| info_model(m, i, now).duration_nanos)
}

/// An entry's own key finds exactly that entry.
pub proof fn lemma_key_index_of(es: Seq<(Seq<char>, TrackerModel)>, i: int)
    requires
        distinct_keys(es),
        0 <= i < es.len(),
    ensures
        has_key(es, es[i].0),
        key_index(es, es[i].0) == i,
{
    let k = es[i].0;
    assert(has_key(es, k));
    let j = key_index(es, k);
    assert(0 <= j < es.len() && es[j].0 == k);
    if i < j {
        assert(es[i].0 != es[j].0);
    } else if j < i {
        assert(es[j].0 != es[i].0);
    }
}

/// Replacing an entry with one under the same key keeps keys distinct.
pub proof fn lemma_distinct_update(
    es: Seq<(Seq<char>, TrackerModel)>,
    i: int,
    e: (Seq<char>, TrackerModel),
)
    requires
        distinct_keys(es),
        0 <= i < es.len(),
        e.0 == es[i].0,
    ensures
        distinct_keys(es.update(i, e)),
{
    assert forall|a: int, b: int|
        0 <= a < b < es.update(i, e).len() implies (#[trigger] es.update(i, e)[a]).0 != (
    #[trigger] es.update(i, e)[b]).0 by {
        assert(es.update(i, e)[a].0 == es[a].0);
        assert(es.update(i, e)[b].0 == es[b].0);
    }
}

/// Appending a fresh key keeps keys distinct.
pub proof fn lemma_distinct_push(es: Seq<(Seq<char>, TrackerModel)>, e: (Seq<char>, TrackerModel))
    requires
        distinct_keys(es),
        !has_key(es, e.0),
    ensures
        distinct_keys(es.push(e)),
{
    assert forall|a: int, b: int|
        0 <= a < b < es.push(e).len() implies (#[trigger] es.push(e)[a]).0 != (
    #[trigger] es.push(e)[b]).0 by {
        if b < es.len() {
            assert(es.push(e)[a].0 == es[a].0 && es.push(e)[b].0 == es[b].0);
        } else {
            assert(es.push(e)[b] == e);
            assert(es.push(e)[a] == es[a]);
            assert(es[a].0 != e.0);
        }
    }
}

/// Removing an entry keeps keys distinct.
pub proof fn lemma_distinct_remove(es: Seq<(Seq<char>, TrackerModel)>, i: int)
    requires
        distinct_keys(es),
        0 <= i < es.len(),
    ensures
        distinct_keys(es.remove(i)),
{
    assert forall|a: int, b: int|
        0 <= a < b < es.remove(i).len() implies (#[trigger] es.remove(i)[a]).0 != (
    #[trigger] es.remove(i)[b]).0 by {
        let a0: int = if a < i {
            a
        } else {
            a + 1
        };
        let b0: int = if b < i {
            b
        } else {
            b + 1
        };
        assert(es.remove(i)[a] == es[a0]);
        assert(es.remove(i)[b] == es[b0]);
    }
}

/// Two entry sequences with pointwise equal keys agree on key existence,
/// key distinctness and key positions.
pub proof fn lemma_same_keys(es1: Seq<(Seq<char>, TrackerModel)>, es2: Seq<(Seq<char>, TrackerModel)>)
    requires
        es1.len() == es2.len(),
        forall|i: int| 0 <= i < es1.len() ==> (#[trigger] es1[i]).0 == (#[trigger] es2[i]).0,
    ensures
        forall|k: Seq<char>| has_key(es1, k) == has_key(es2, k),
        distinct_keys(es1) == distinct_keys(es2),
        distinct_keys(es1) ==> forall|k: Seq<char>|
            has_key(es1, k) ==> key_index(es1, k) == key_index(es2, k),
{
    assert forall|k: Seq<char>| has_key(es1, k) == has_key(es2, k) by {
        if has_key(es1, k) {
            let i = choose|i: int| 0 <= i < es1.len() && (#[trigger] es1[i]).0 == k;
            assert(es2[i].0 == k);
            assert(has_key(es2, k));
        }
        if has_key(es2, k) {
            let i = choose|i: int| 0 <= i < es2.len() && (#[trigger] es2[i]).0 == k;
            assert(es1[i].0 == k);
            assert(has_key(es1, k));
        }
    }
    if distinct_keys(es1) {
        assert forall|a: int, b: int| 0 <= a < b < es2.len() implies (#[trigger] es2[a]).0 != (
        #[trigger] es2[b]).0 by {
            assert(es1[a].0 != es1[b].0);
        }
    }
    if distinct_keys(es2) {
        assert forall|a: int, b: int| 0 <= a < b < es1.len() implies (#[trigger] es1[a]).0 != (
        #[trigger] es1[b]).0 by {
            assert(es2[a].0 != es2[b].0);
        }
    }
    if distinct_keys(es1) {
        assert forall|k: Seq<char>| has_key(es1, k) implies key_index(es1, k) == key_index(
            es2,
            k,
        ) by {
            let i = key_index(es1, k);
            assert(0 <= i < es1.len() && es1[i].0 == k);
            assert(es2[i].0 == k);
            lemma_key_index_of(es2, i);
        }
    }
}

/// Removing one entry keeps every other key present.
pub proof fn lemma_haskey_remove_other(es: Seq<(Seq<char>, TrackerModel)>, i: int, k: Seq<char>)
    requires
        distinct_keys(es),
        0 <= i < es.len(),
        has_key(es, k),
        es[i].0 != k,
    ensures
        has_key(es.remove(i), k),
{
    let j = key_index(es, k);
    assert(0 <= j < es.len() && es[j].0 == k);
    assert(j != i);
    if j < i {
        assert(es.remove(i)[j] == es[j]);
    } else {
        assert(es.remove(i)[j - 1] == es[j]);
    }
}

/// Folding the running segment does not change which keys exist, nor any
/// entry's key, nor the length.
pub proof fn lemma_fold_keys(m: StoreModel, now: u64)
    requires
        distinct_keys(m.trackers),
    ensures
        fold_pause(m, now).trackers.len() == m.trackers.len(),
        forall|i: int|
            0 <= i < m.trackers.len() ==> (#[trigger] fold_pause(m, now).trackers[i]).0
                == m.trackers[i].0,
        distinct_keys(fold_pause(m, now).trackers),
        forall|k: Seq<char>| has_key(fold_pause(m, now).trackers, k) == has_key(m.trackers, k),
        forall|k: Seq<char>|
            has_key(m.trackers, k) ==> key_index(fold_pause(m, now).trackers, k) == key_index(
                m.trackers,
                k,
            ),
        fold_pause(m, now).running is None,
{
    let f = fold_pause(m, now).trackers;
    assert forall|i: int| 0 <= i < m.trackers.len() implies (#[trigger] f[i]).0
        == m.trackers[i].0 by {}
    assert forall|a: int, b: int| 0 <= a < b < f.len() implies (#[trigger] f[a]).0 != (
    #[trigger] f[b]).0 by {
        assert(f[a].0 == m.trackers[a].0);
        assert(f[b].0 == m.trackers[b].0);
    }
    assert forall|k: Seq<char>| has_key(f, k) == has_key(m.trackers, k) by {
        if has_key(f, k) {
            let i = choose|i: int| 0 <= i < f.len() && (#[trigger] f[i]).0 == k;
            assert(m.trackers[i].0 == k);
            assert(has_key(m.trackers, k));
        }
        if has_key(m.trackers, k) {
            let i = choose|i: int| 0 <= i < m.trackers.len() && (#[trigger] m.trackers[i]).0 == k;
            assert(f[i].0 == k);
            assert(has_key(f, k));
        }
    }
    assert forall|k: Seq<char>| has_key(m.trackers, k) implies key_index(f, k) == key_index(
        m.trackers,
        k,
    ) by {
        let i = key_index(m.trackers, k);
        assert(0 <= i < m.trackers.len() && m.trackers[i].0 == k);
        assert(f[i].0 == k);
        lemma_key_index_of(f, i);
    }
}

/// The store: the tracker collection in insertion order, and the single
/// running pointer.
#[derive(Debug)]
pub struct TrackerStore {
    running: Option<RunningTracker>,
    trackers: IndexMap<String, PausedTracker>,
}

impl View for TrackerStore {
    type V = StoreModel;

    closed spec fn view(&self) -> StoreModel {
        StoreModel {
            running: match self.running {
                Some(r) => Some(r@),
                None => None,
            },
            trackers: entries_of(self.trackers),
        }
    }
}

impl TrackerStore {
    pub open spec fn wf(self) -> bool {
        store_wf(self@)
    }

    /// An empty store: no trackers, nothing running.
    pub fn new() -> (r: TrackerStore)
        ensures
            r.wf(),
            r@ == (StoreModel { running: None, trackers: Seq::<(Seq<char>, TrackerModel)>::empty() }),
    {
        TrackerStore { running: None, trackers: im_new() }
    }

    /// Folds the running tracker's live segment into its banked duration
    /// and clears the running pointer; does nothing when nothing runs.
    pub fn pause(&mut self, now_mono: u64)
        requires
            old(self).wf(),
        ensures
            final(self).wf(),
            final(self)@ == fold_pause(old(self)@, now_mono),
    {
        let ghost m = self@;
        let running = self.running.take();
        match running {
            Some(r) => {
                proof {
                    assert(has_key(m.trackers, r@.key));
                }
                let got = im_get(&self.trackers, r.key.as_str());
                match got {
                    Some(t) => {
                        let ghost i = choose|i: int|
                            0 <= i < m.trackers.len() && (#[trigger] m.trackers[i]) == (
                                r@.key,
                                t@,
                            );
                        proof {
                            lemma_key_index_of(m.trackers, i);
                            assert(key_index(m.trackers, r@.key) == i);
                        }
                        let mut t2 = t.duplicate();
                        let seg = now_mono.saturating_sub(r.mono_start);
                        t2.duration = t2.duration.saturating_add(Dur::from_nanos(seg));
                        proof {
                            assert(t2@ == folded_tracker(m.trackers[i].1, r@.mono_start, now_mono));
                        }
                        im_insert(&mut self.trackers, r.key.as_str(), t2);
                        proof {
                            let es2 = entries_of(self.trackers);
                            let j = choose|j: int|
                                0 <= j < m.trackers.len() && (#[trigger] m.trackers[j]).0 == r@.key
                                    && es2 == m.trackers.update(j, (r@.key, t2@));
                            lemma_key_index_of(m.trackers, j);
                            assert(j == i);
                            lemma_distinct_update(m.trackers, i, (r@.key, t2@));
                            assert(self@ == fold_pause(m, now_mono));
                            assert forall|q: int|
                                0 <= q < self@.trackers.len() implies (
                            #[trigger] self@.trackers[q]).1.start_time.wf() by {
                                if q != i {
                                    assert(self@.trackers[q] == m.trackers[q]);
                                } else {
                                    assert(self@.trackers[q].1.start_time
                                        == m.trackers[i].1.start_time);
                                }
                            }
                        }
                    },
                    None => {
                        proof {
                            let i = choose|i: int|
                                0 <= i < m.trackers.len() && (#[trigger] m.trackers[i]).0
                                    == r@.key;
                            assert(entries_of(self.trackers)[i].0 == r@.key);
                            assert(false);
                        }
                    },
                }
            },
            None => {
                proof {
                    assert(self@ == fold_pause(m, now_mono));
                }
            },
        }
    }

    /// Is a tracker with this key present?
    fn contains(&self, key: &str) -> (r: bool)
        ensures
            r == has_key(self@.trackers, key@),
    {
        let got = im_get(&self.trackers, key);
        proof {
            match got {
                Some(t) => {
                    assert(has_key(self@.trackers, key@));
                },
                None => {
                    if has_key(self@.trackers, key@) {
                        let i = choose|i: int|
                            0 <= i < self@.trackers.len() && (#[trigger] self@.trackers[i]).0
                                == key@;
                        assert(entries_of(self.trackers)[i].0 == key@);
                        assert(false);
                    }
                },
            }
        }
        got.is_some()
    }

    /// The tracker under a key that is known to be present.
    fn get_present<'a>(&'a self, key: &str) -> (r: &'a PausedTracker)
        requires
            self.wf(),
            has_key(self@.trackers, key@),
        ensures
            r@ == tracker_at(self@.trackers, key@),
    {
        match im_get(&self.trackers, key) {
            Some(t) => {
                proof {
                    let i = choose|i: int|
                        0 <= i < entries_of(self.trackers).len() && (#[trigger] entries_of(
                            self.trackers,
                        )[i]) == (key@, t@);
                    lemma_key_index_of(self@.trackers, i);
                }
                t
            },
            None => {
                proof {
                    let i = key_index(self@.trackers, key@);
                    assert(self@.trackers[i].0 == key@);
                    assert(entries_of(self.trackers)[i].0 == key@);
                    assert(false);
                }
                vstd::pervasive::unreached()
            },
        }
    }

    /// Replaces the record under an existing key, keeping its position.
    fn replace_tracker(&mut self, key: &str, t2: PausedTracker)
        requires
            old(self).wf(),
            has_key(old(self)@.trackers, key@),
            t2@.start_time.wf(),
        ensures
            final(self).wf(),
            final(self)@.running == old(self)@.running,
            final(self)@.trackers == old(self)@.trackers.update(
                key_index(old(self)@.trackers, key@),
                (key@, t2@),
            ),
    {
        let ghost m = self@;
        let ghost i = key_index(m.trackers, key@);
        proof {
            assert(0 <= i < m.trackers.len() && m.trackers[i].0 == key@);
        }
        im_insert(&mut self.trackers, key, t2);
        proof {
            let es2 = entries_of(self.trackers);
            let j = choose|j: int|
                0 <= j < m.trackers.len() && (#[trigger] m.trackers[j]).0 == key@ && es2
                    == m.trackers.update(j, (key@, t2@));
            lemma_key_index_of(m.trackers, j);
            lemma_key_index_of(m.trackers, i);
            assert(j == i);
            lemma_distinct_update(m.trackers, i, (key@, t2@));
            lemma_same_keys(m.trackers, es2);
            assert forall|q: int|
                0 <= q < self@.trackers.len() implies (
            #[trigger] self@.trackers[q]).1.start_time.wf() by {
                if q != i {
                    assert(self@.trackers[q] == m.trackers[q]);
                }
            }
        }
    }

    /// The reported record for a present key, live duration included.
    fn get_information(&self, key: &str, now_mono: u64) -> (r: TrackerInformation)
        requires
            self.wf(),
            has_key(self@.trackers, key@),
        ensures
            r@ == info_model_key(self@, key@, now_mono),
    {
        let t = self.get_present(key);
        let live: u64 = match &self.running {
            Some(rt) => if crate::chars::str_eq(rt.key.as_str(), key) {
                now_mono.saturating_sub(rt.mono_start)
            } else {
                0
            },
            None => 0,
        };
        let eff = crate::tracker::effective_elapsed(t, Dur::from_nanos(live));
        let description = match &t.description {
            Some(s) => Some(s.clone()),
            None => None,
        };
        let r = TrackerInformation {
            key: key.to_owned(),
            description,
            duration: eff.truncated_to_secs(),
            running: match &self.running {
                Some(rt) => crate::chars::str_eq(rt.key.as_str(), key),
                None => false,
            },
            start_time: t.start_time,
        };
        proof {
            let i = key_index(self@.trackers, key@);
            assert(self@.trackers[i].0 == key@);
            assert(live == live_nanos(self@, key@, now_mono));
            assert(r@ == info_model_key(self@, key@, now_mono));
        }
        r
    }

    /// The record for the running tracker, or `NotFoundError` when nothing
    /// is running.
    pub fn current(&self, now_mono: u64) -> (r: Result<TrackerInformation, TrackerError>)
        requires
            self.wf(),
        ensures
            self@.running is None ==> r is Err && r->Err_0 == TrackerError::NotFoundError,
            self@.running is Some ==> r is Ok && r->Ok_0@ == info_model_key(
                self@,
                self@.running->Some_0.key,
                now_mono,
            ),
    {
        match &self.running {
            Some(rt) => {
                let k = rt.key.clone();
                Ok(self.get_information(k.as_str(), now_mono))
            },
            None => Err(TrackerError::NotFoundError),
        }
    }

    /// The record for one tracker, or `NotFoundError`.
    pub fn get_tracker(&self, key: &str, now_mono: u64) -> (r: Result<
        TrackerInformation,
        TrackerError,
    >)
        requires
            self.wf(),
        ensures
            !has_key(self@.trackers, key@) ==> r is Err && r->Err_0
                == TrackerError::NotFoundError,
            has_key(self@.trackers, key@) ==> r is Ok && r->Ok_0@ == info_model_key(
                self@,
                key@,
                now_mono,
            ),
    {
        if self.contains(key) {
            Ok(self.get_information(key, now_mono))
        } else {
            Err(TrackerError::NotFoundError)
        }
    }

    /// All trackers in insertion order, each with its live duration.
    pub fn list_trackers(&self, now_mono: u64) -> (r: Vec<TrackerInformation>)
        requires
            self.wf(),
        ensures
            r@.len() == self@.trackers.len(),
            forall|i: int|
                0 <= i < r@.len() ==> (#[trigger] r@[i])@ == info_model(self@, i, now_mono),
    {
        let es = im_entries_vec(&self.trackers);
        let n = es.len();
        let mut out: Vec<TrackerInformation> = Vec::new();
        let mut i: usize = 0;
        while i < n
            invariant
                i <= n,
                n == es@.len(),
                es@.len() == self@.trackers.len(),
                forall|q: int|
                    0 <= q < n ==> ((#[trigger] es@[q]).0@, es@[q].1@) == self@.trackers[q],
                out@.len() == i,
                forall|q: int|
                    0 <= q < i ==> (#[trigger] out@[q])@ == info_model(self@, q, now_mono),
                self.wf(),
            decreases n - i,
        {
            let pair = &es[i];
            let is_run: bool = match &self.running {
                Some(rt) => crate::chars::str_eq(rt.key.as_str(), pair.0.as_str()),
                None => false,
            };
            let live: u64 = match &self.running {
                Some(rt) => if is_run {
                    now_mono.saturating_sub(rt.mono_start)
                } else {
                    0
                },
                None => 0,
            };
            let eff = crate::tracker::effective_elapsed(&pair.1, Dur::from_nanos(live));
            let info = TrackerInformation {
                key: pair.0.clone(),
                description: match &pair.1.description {
                    Some(s) => Some(s.clone()),
                    None => None,
                },
                duration: eff.truncated_to_secs(),
                running: is_run,
                start_time: pair.1.start_time,
            };
            proof {
                assert((es@[i as int].0@, es@[i as int].1@) == self@.trackers[i as int]);
                assert(info@ == info_model(self@, i as int, now_mono));
            }
            out.push(info);
            i += 1;
        }
        out
    }

    /// The full-precision effective duration of one tracker, or `None`
    /// when the key is absent.
    pub fn elapsed(&self, key: &str, now_mono: u64) -> (r: Option<Dur>)
        requires
            self.wf(),
        ensures
            !has_key(self@.trackers, key@) ==> r is None,
            has_key(self@.trackers, key@) ==> r == Some(
                Dur { nanos: elapsed_nanos(self@, key@, now_mono) },
            ),
    {
        if !self.contains(key) {
            return None;
        }
        let t = self.get_present(key);
        let live: u64 = match &self.running {
            Some(rt) => if crate::chars::str_eq(rt.key.as_str(), key) {
                now_mono.saturating_sub(rt.mono_start)
            } else {
                0
            },
            None => 0,
        };
        proof {
            assert(live == live_nanos(self@, key@, now_mono));
        }
        Some(crate::tracker::effective_elapsed(t, Dur::from_nanos(live)))
    }

    /// Sets or clears a tracker's description; an empty string clears it.
    pub fn set_description(
        &mut self,
        key: &str,
        description: Option<String>,
        now_mono: u64,
    ) -> (r: Result<TrackerInformation, TrackerError>)
        requires
            old(self).wf(),
        ensures
            final(self).wf(),
            !has_key(old(self)@.trackers, key@) ==> r is Err && r->Err_0
                == TrackerError::NotFoundError && final(self)@ == old(self)@,
            has_key(old(self)@.trackers, key@) ==> {
                &&& final(self)@ == with_description(
                    old(self)@,
                    key@,
                    match description {
                        Some(s) => Some(s@),
                        None => None,
                    },
                )
                &&& r is Ok
                &&& r->Ok_0@ == info_model_key(final(self)@, key@, now_mono)
            },
    {
        if !self.contains(key) {
            return Err(TrackerError::NotFoundError);
        }
        let ghost m = self@;
        let mut t2 = self.get_present(key).duplicate();
        let norm: Option<String> = match description {
            Some(s) => if s.as_str().is_empty() {
                None
            } else {
                Some(s)
            },
            None => None,
        };
        t2.description = norm;
        self.replace_tracker(key, t2);
        proof {
            assert(final(self)@ == with_description(
                m,
                key@,
                match description {
                    Some(s) => Some(s@),
                    None => None,
                },
            ));
            lemma_same_keys(m.trackers, self@.trackers);
        }
        let info = self.get_information(key, now_mono);
        Ok(info)
    }

    /// Appends a manual addition to a tracker's duration.
    pub fn adjust_positive_duration(&mut self, key: &str, duration: Dur, now_mono: u64) -> (r:
        Result<TrackerInformation, TrackerError>)
        requires
            old(self).wf(),
        ensures
            final(self).wf(),
            !has_key(old(self)@.trackers, key@) ==> r is Err && r->Err_0
                == TrackerError::NotFoundError && final(self)@ == old(self)@,
            has_key(old(self)@.trackers, key@) ==> {
                &&& final(self)@ == with_positive(old(self)@, key@, duration.nanos)
                &&& r is Ok
                &&& r->Ok_0@ == info_model_key(final(self)@, key@, now_mono)
            },
    {
        if !self.contains(key) {
            return Err(TrackerError::NotFoundError);
        }
        let ghost m = self@;
        let mut t2 = self.get_present(key).duplicate();
        t2.positive_adjustments.push(duration);
        proof {
            assert(crate::tracker::durs_to_nanos(t2.positive_adjustments@) =~= tracker_at(
                m.trackers,
                key@,
            ).pos.push(duration.nanos));
        }
        self.replace_tracker(key, t2);
        proof {
            assert(final(self)@ == with_positive(m, key@, duration.nanos));
            lemma_same_keys(m.trackers, self@.trackers);
        }
        let info = self.get_information(key, now_mono);
        Ok(info)
    }

    /// Appends a manual subtraction, refused when it would drive the
    /// tracker's effective duration below zero.  On success the
    /// full-precision effective duration shrinks by exactly the adjustment.
    pub fn adjust_negative_duration(&mut self, key: &str, duration: Dur, now_mono: u64) -> (r:
        Result<TrackerInformation, TrackerError>)
        requires
            old(self).wf(),
        ensures
            final(self).wf(),
            !has_key(old(self)@.trackers, key@) ==> r is Err && r->Err_0
                == TrackerError::NotFoundError && final(self)@ == old(self)@,
            has_key(old(self)@.trackers, key@) && duration.nanos > elapsed_nanos(
                old(self)@,
                key@,
                now_mono,
            ) ==> r is Err && r->Err_0 == TrackerError::DurationAdjustmentError && final(self)@
                == old(self)@,
            has_key(old(self)@.trackers, key@) && duration.nanos <= elapsed_nanos(
                old(self)@,
                key@,
                now_mono,
            ) ==> {
                &&& final(self)@ == with_negative(old(self)@, key@, duration.nanos)
                &&& elapsed_nanos(final(self)@, key@, now_mono) == elapsed_nanos(
                    old(self)@,
                    key@,
                    now_mono,
                ) - duration.nanos
                &&& r is Ok
                &&& r->Ok_0@ == info_model_key(final(self)@, key@, now_mono)
            },
    {
        let elapsed = match self.elapsed(key, now_mono) {
            Some(e) => e,
            None => {
                return Err(TrackerError::NotFoundError);
            },
        };
        if duration.nanos > elapsed.nanos {
            return Err(TrackerError::DurationAdjustmentError);
        }
        let ghost m = self@;
        let mut t2 = self.get_present(key).duplicate();
        t2.negative_adjustments.push(duration);
        proof {
            assert(crate::tracker::durs_to_nanos(t2.negative_adjustments@) =~= tracker_at(
                m.trackers,
                key@,
            ).neg.push(duration.nanos));
        }
        self.replace_tracker(key, t2);
        proof {
            assert(final(self)@ == with_negative(m, key@, duration.nanos));
            lemma_same_keys(m.trackers, self@.trackers);
            lemma_adjust_negative_exact(
                tracker_at(m.trackers, key@),
                live_nanos(m, key@, now_mono),
                duration.nanos,
            );
            let i = key_index(m.trackers, key@);
            lemma_key_index_of(m.trackers, i);
            assert(tracker_at(self@.trackers, key@) == self@.trackers[i].1);
            assert(live_nanos(self@, key@, now_mono) == live_nanos(m, key@, now_mono));
        }
        let info = self.get_information(key, now_mono);
        Ok(info)
    }

    /// Starts a tracker: folds any running segment first, then points the
    /// running pointer at `key` with a fresh monotonic start.
    pub fn start(&mut self, key: &str, clock: ClockSample) -> (r: Result<
        TrackerInformation,
        TrackerError,
    >)
        requires
            old(self).wf(),
        ensures
            final(self).wf(),
            !has_key(old(self)@.trackers, key@) ==> r is Err && r->Err_0
                == TrackerError::NotFoundError && final(self)@ == old(self)@,
            has_key(old(self)@.trackers, key@) ==> {
                &&& final(self)@ == start_model(old(self)@, key@, clock.mono_nanos)
                &&& r is Ok
                &&& r->Ok_0@ == info_model_key(final(self)@, key@, clock.mono_nanos)
            },
    {
        if !self.contains(key) {
            return Err(TrackerError::NotFoundError);
        }
        let ghost m = self@;
        self.pause(clock.mono_nanos);
        proof {
            lemma_fold_keys(m, clock.mono_nanos);
        }
        self.running = Some(RunningTracker::new(key, clock.mono_nanos));
        proof {
            assert(self@ == start_model(m, key@, clock.mono_nanos));
        }
        let info = self.get_information(key, clock.mono_nanos);
        Ok(info)
    }

    /// Creates a tracker under a well-formed, unused key; the new tracker
    /// starts running at once, pausing whatever ran before.
    pub fn create_tracker(&mut self, key: &str, clock: ClockSample) -> (r: Result<
        TrackerInformation,
        TrackerError,
    >)
        requires
            old(self).wf(),
            clock.wf(),
        ensures
            final(self).wf(),
            !valid_key(key@) ==> r is Err && r->Err_0 == TrackerError::KeyFormatError
                && final(self)@ == old(self)@,
            valid_key(key@) && has_key(old(self)@.trackers, key@) ==> r is Err && r->Err_0
                == TrackerError::OccupiedError && final(self)@ == old(self)@,
            valid_key(key@) && !has_key(old(self)@.trackers, key@) ==> {
                &&& final(self)@ == create_model(old(self)@, key@, clock)
                &&& r is Ok
                &&& r->Ok_0@ == info_model_key(final(self)@, key@, clock.mono_nanos)
            },
    {
        if !crate::key::is_valid_key(key) {
            return Err(TrackerError::KeyFormatError);
        }
        if self.contains(key) {
            return Err(TrackerError::OccupiedError);
        }
        let ghost m = self@;
        self.pause(clock.mono_nanos);
        proof {
            lemma_fold_keys(m, clock.mono_nanos);
        }
        let ghost f = self@;
        let t = PausedTracker::new(clock.wall_time);
        im_insert(&mut self.trackers, key, t);
        proof {
            assert(!has_key(f.trackers, key@));
            assert(forall|i: int|
                0 <= i < f.trackers.len() ==> (#[trigger] f.trackers[i]).0 != key@);
            assert(entries_of(self.trackers) == f.trackers.push((key@, t@)));
            lemma_distinct_push(f.trackers, (key@, t@));
        }
        self.running = Some(RunningTracker::new(key, clock.mono_nanos));
        proof {
            let es = self@.trackers;
            assert(es[es.len() - 1] == (key@, t@));
            assert(has_key(es, key@));
            assert forall|q: int| 0 <= q < es.len() implies (
            #[trigger] es[q]).1.start_time.wf() by {
                if q < es.len() - 1 {
                    assert(es[q] == f.trackers[q]);
                }
            }
            assert(self@ == create_model(m, key@, clock));
        }
        let info = self.get_information(key, clock.mono_nanos);
        Ok(info)
    }

    /// Removes a tracker, pausing it first when it is the running one;
    /// the remaining trackers keep their relative order.
    pub fn remove(&mut self, key: &str, now_mono: u64) -> (r: Result<PausedTracker, TrackerError>)
        requires
            old(self).wf(),
        ensures
            final(self).wf(),
            !has_key(old(self)@.trackers, key@) ==> r is Err && r->Err_0
                == TrackerError::NotFoundError && final(self)@ == old(self)@,
            has_key(old(self)@.trackers, key@) ==> {
                &&& final(self)@ == (StoreModel {
                    running: remove_base(old(self)@, key@, now_mono).running,
                    trackers: remove_base(old(self)@, key@, now_mono).trackers.remove(
                        key_index(remove_base(old(self)@, key@, now_mono).trackers, key@),
                    ),
                })
                &&& r is Ok
                &&& r->Ok_0@ == tracker_at(remove_base(old(self)@, key@, now_mono).trackers, key@)
            },
    {
        let ghost m = self@;
        let is_run: bool = match &self.running {
            Some(rt) => crate::chars::str_eq(rt.key.as_str(), key),
            None => false,
        };
        if is_run {
            self.pause(now_mono);
            proof {
                lemma_fold_keys(m, now_mono);
            }
        }
        let ghost m1 = self@;
        proof {
            assert(m1 == remove_base(m, key@, now_mono));
            if is_run {
                assert(has_key(m.trackers, key@));
            }
        }
        match im_shift_remove(&mut self.trackers, key) {
            Some(t) => {
                proof {
                    let es2 = entries_of(self.trackers);
                    let i = choose|i: int|
                        0 <= i < m1.trackers.len() && (#[trigger] m1.trackers[i]) == (key@, t@)
                            && es2 == m1.trackers.remove(i);
                    lemma_key_index_of(m1.trackers, i);
                    lemma_distinct_remove(m1.trackers, i);
                    if m1.running is Some {
                        let rk = m1.running->Some_0.key;
                        assert(rk != key@);
                        lemma_haskey_remove_other(m1.trackers, i, rk);
                    }
                    assert forall|q: int|
                        0 <= q < self@.trackers.len() implies (
                    #[trigger] self@.trackers[q]).1.start_time.wf() by {
                        if q < i {
                            assert(self@.trackers[q] == m1.trackers[q]);
                        } else {
                            assert(self@.trackers[q] == m1.trackers[q + 1]);
                        }
                    }
                }
                Ok(t)
            },
            None => {
                proof {
                    if has_key(m.trackers, key@) {
                        lemma_fold_keys(m, now_mono);
                        let i = key_index(m1.trackers, key@);
                        assert(m1.trackers[i].0 == key@);
                        assert(entries_of(self.trackers)[i].0 == key@);
                        assert(false);
                    }
                }
                Err(TrackerError::NotFoundError)
            },
        }
    }

    /// Pauses the running tracker and removes every tracker, returning the
    /// removed records in insertion order for forwarding.
    pub fn remove_all(&mut self, now_mono: u64) -> (r: Vec<PausedTracker>)
        requires
            old(self).wf(),
        ensures
            final(self).wf(),
            final(self)@ == (StoreModel {
                running: None,
                trackers: Seq::<(Seq<char>, TrackerModel)>::empty(),
            }),
            r@.len() == fold_pause(old(self)@, now_mono).trackers.len(),
            forall|i: int|
                0 <= i < r@.len() ==> (#[trigger] r@[i])@ == fold_pause(
                    old(self)@,
                    now_mono,
                ).trackers[i].1,
    {
        self.pause(now_mono);
        let ghost f = self@;
        let es = im_entries_vec(&self.trackers);
        im_clear(&mut self.trackers);
        let n = es.len();
        let mut out: Vec<PausedTracker> = Vec::new();
        let mut i: usize = 0;
        while i < n
            invariant
                i <= n,
                n == es@.len(),
                es@.len() == f.trackers.len(),
                forall|q: int|
                    0 <= q < n ==> ((#[trigger] es@[q]).0@, es@[q].1@) == f.trackers[q],
                out@.len() == i,
                forall|q: int| 0 <= q < i ==> (#[trigger] out@[q])@ == f.trackers[q].1,
            decreases n - i,
        {
            out.push(es[i].1.duplicate());
            i += 1;
        }
        out
    }

    /// The saturating sum of every tracker's reported duration, the live
    /// segment included.
    pub fn sum(&self, now_mono: u64) -> (r: Dur)
        requires
            self.wf(),
        ensures
            r.nanos == sat_sum(durations_of(self@, now_mono)),
    {
        let infos = self.list_trackers(now_mono);
        let n = infos.len();
        let mut acc = Dur::zero();
        let mut i: usize = 0;
        proof {
            assert(durations_of(self@, now_mono).subrange(0, 0) =~= Seq::<u64>::empty());
        }
        while i < n
            invariant
                i <= n,
                n == infos@.len(),
                infos@.len() == durations_of(self@, now_mono).len(),
                forall|q: int|
                    0 <= q < n ==> (#[trigger] infos@[q])@ == info_model(self@, q, now_mono),
                acc.nanos == sat_sum(durations_of(self@, now_mono).subrange(0, i as int)),
            decreases n - i,
        {
            let ghost pre = durations_of(self@, now_mono).subrange(0, i as int);
            acc = acc.saturating_add(infos[i].duration);
            proof {
                let ds = durations_of(self@, now_mono);
                assert(ds[i as int] == info_model(self@, i as int, now_mono).duration_nanos);
                assert(ds.subrange(0, i + 1 as int) =~= pre.push(ds[i as int]));
                crate::dur::lemma_sat_sum_push(pre, ds[i as int]);
            }
            i += 1;
        }
        proof {
            assert(durations_of(self@, now_mono).subrange(
                0,
                durations_of(self@, now_mono).len() as int,
            ) =~= durations_of(self@, now_mono));
        }
        acc
    }

    /// The persisted image of this store: every tracker in order, and the
    /// running pointer with its monotonic start translated to wall time
    /// through the given clock sample.
    pub fn to_snapshot(&self, clock: ClockSample) -> (r: Snapshot)
        requires
            self.wf(),
        ensures
            snap_wf(r@),
            r@.trackers == self@.trackers,
            self@.running is None ==> r@.running is None,
            self@.running is Some ==> r@.running is Some && r@.running->Some_0.key
                == self@.running->Some_0.key && r@.running->Some_0.wall_start == sat_sub(
                clock.wall_nanos,
                sat_sub(clock.mono_nanos, self@.running->Some_0.mono_start),
            ),
    {
        let running = match &self.running {
            Some(rt) => Some(
                RunStamp {
                    key: rt.key.clone(),
                    wall_start: crate::instant_codec::serialize(
                        rt.mono_start,
                        clock.mono_nanos,
                        clock.wall_nanos,
                    ),
                },
            ),
            None => None,
        };
        let trackers = im_entries_vec(&self.trackers);
        let r = Snapshot { running, trackers };
        proof {
            assert(r@.trackers =~= self@.trackers);
        }
        r
    }

    /// Rebuilds a store from a well-formed snapshot.  The running
    /// pointer's monotonic start is recovered, best-effort, from its wall
    /// stamp and the given clock sample.
    pub fn from_snapshot(snap: &Snapshot, clock: ClockSample) -> (r: TrackerStore)
        requires
            snap_wf(snap@),
        ensures
            r.wf(),
            r@.trackers == snap@.trackers,
            snap@.running is None ==> r@.running is None,
            snap@.running is Some ==> r@.running is Some && r@.running->Some_0.key
                == snap@.running->Some_0.key && r@.running->Some_0.mono_start == sat_sub(
                clock.mono_nanos,
                sat_sub(clock.wall_nanos, snap@.running->Some_0.wall_start),
            ),
    {
        let ghost target = snap@.trackers;
        let mut trackers = im_new();
        let n = snap.trackers.len();
        let mut i: usize = 0;
        proof {
            assert(entries_of(trackers) =~= target.subrange(0, 0));
        }
        while i < n
            invariant
                i <= n,
                n == snap.trackers@.len(),
                target.len() == n,
                target == snap@.trackers,
                snap_wf(snap@),
                entries_of(trackers) == target.subrange(0, i as int),
            decreases n - i,
        {
            let pair = &snap.trackers[i];
            let t2 = pair.1.duplicate();
            proof {
                assert(target[i as int] == (pair.0@, pair.1@));
                assert forall|q: int|
                    0 <= q < entries_of(trackers).len() implies (#[trigger] entries_of(
                    trackers,
                )[q]).0 != pair.0@ by {
                    assert(entries_of(trackers)[q] == target[q]);
                    assert(target[q].0 != target[i as int].0);
                }
            }
            im_insert(&mut trackers, pair.0.as_str(), t2);
            proof {
                assert(entries_of(trackers) =~= target.subrange(0, i + 1 as int));
            }
            i += 1;
        }
        proof {
            assert(target.subrange(0, n as int) =~= target);
        }
        let running = match &snap.running {
            Some(rs) => Some(
                RunningTracker {
                    key: rs.key.clone(),
                    mono_start: crate::instant_codec::deserialize(
                        rs.wall_start,
                        clock.mono_nanos,
                        clock.wall_nanos,
                    ),
                },
            ),
            None => None,
        };
        let r = TrackerStore { running, trackers };
        r
    }

    /// Applies one adjustment request: set or clear the description, or
    /// append a positive or negative duration correction.
    pub fn adjust(&mut self, key: &str, body: AdjustRequest, now_mono: u64) -> (r: Result<
        TrackerInformation,
        TrackerError,
    >)
        requires
            old(self).wf(),
        ensures
            final(self).wf(),
            !has_key(old(self)@.trackers, key@) ==> r is Err && r->Err_0
                == TrackerError::NotFoundError && final(self)@ == old(self)@,
            has_key(old(self)@.trackers, key@) ==> match body {
                AdjustRequest::SetDescription(d) => {
                    &&& final(self)@ == with_description(
                        old(self)@,
                        key@,
                        match d {
                            Some(s) => Some(s@),
                            None => None,
                        },
                    )
                    &&& r is Ok
                    &&& r->Ok_0@ == info_model_key(final(self)@, key@, now_mono)
                },
                AdjustRequest::PositiveDuration(d) => {
                    &&& final(self)@ == with_positive(old(self)@, key@, d.nanos)
                    &&& r is Ok
                    &&& r->Ok_0@ == info_model_key(final(self)@, key@, now_mono)
                },
                AdjustRequest::NegativeDuration(d) => {
                    &&& d.nanos > elapsed_nanos(old(self)@, key@, now_mono) ==> r is Err
                        && r->Err_0 == TrackerError::DurationAdjustmentError && final(self)@
                        == old(self)@
                    &&& d.nanos <= elapsed_nanos(old(self)@, key@, now_mono) ==> {
                        &&& final(self)@ == with_negative(old(self)@, key@, d.nanos)
                        &&& r is Ok
                        &&& r->Ok_0@ == info_model_key(final(self)@, key@, now_mono)
                    }
                },
            },
    {
        match body {
            AdjustRequest::SetDescription(d) => self.set_description(key, d, now_mono),
            AdjustRequest::PositiveDuration(d) => self.adjust_positive_duration(
                key,
                d,
                now_mono,
            ),
            AdjustRequest::NegativeDuration(d) => self.adjust_negative_duration(
                key,
                d,
                now_mono,
            ),
        }
    }
}

/// One adjustment request, as the route layer hands it over: set or clear
/// the description, add time, or subtract time.
#[derive(Debug)]
pub enum AdjustRequest {
    SetDescription(Option<String>),
    PositiveDuration(Dur),
    NegativeDuration(Dur),
}

/// At most one tracker is reported as running: any two positions whose
/// records claim `running = true` are the same position, whatever sequence
/// of operations produced the store.
pub proof fn lemma_single_running(m: StoreModel, now: u64, i: int, j: int)
    requires
        store_wf(m),
        0 <= i < m.trackers.len(),
        0 <= j < m.trackers.len(),
        info_model(m, i, now).running,
        info_model(m, j, now).running,
    ensures
        i == j,
{
    let rk = m.running->Some_0.key;
    assert(m.trackers[i].0 == rk);
    assert(m.trackers[j].0 == rk);
    if i < j {
        assert(m.trackers[i].0 != m.trackers[j].0);
    } else if j < i {
        assert(m.trackers[j].0 != m.trackers[i].0);
    }
}

/// A tracker's effective duration never decreases as the monotonic clock
/// advances: it grows while the tracker runs and stands still otherwise.
pub proof fn lemma_elapsed_monotone(m: StoreModel, k: Seq<char>, t1: u64, t2: u64)
    requires
        t1 <= t2,
    ensures
        elapsed_nanos(m, k, t1) <= elapsed_nanos(m, k, t2),
{
    assert(live_nanos(m, k, t1) <= live_nanos(m, k, t2));
}

/// A paused tracker's effective duration does not depend on the clock at
/// all: it is frozen, whatever `now` is handed in.
pub proof fn lemma_elapsed_frozen(m: StoreModel, k: Seq<char>, t1: u64, t2: u64)
    requires
        !is_running_key(m, k),
    ensures
        elapsed_nanos(m, k, t1) == elapsed_nanos(m, k, t2),
{
    assert(live_nanos(m, k, t1) == 0);
    assert(live_nanos(m, k, t2) == 0);
}

/// Starting tracker `b` while `a` runs is an atomic switch: afterwards `b`
/// alone is running, `a` is still present, and `a`'s banked duration has
/// grown by exactly the monotonic span `a` was live.
pub proof fn lemma_start_switches(m: StoreModel, a: Seq<char>, b: Seq<char>, mono: u64)
    requires
        store_wf(m),
        m.running is Some,
        m.running->Some_0.key == a,
        a != b,
        has_key(m.trackers, b),
        m.running->Some_0.mono_start <= mono,
        tracker_at(m.trackers, a).acc_nanos + (mono - m.running->Some_0.mono_start) <= u64::MAX,
    ensures
        is_running_key(start_model(m, b, mono), b),
        !is_running_key(start_model(m, b, mono), a),
        has_key(start_model(m, b, mono).trackers, a),
        tracker_at(start_model(m, b, mono).trackers, a).acc_nanos == tracker_at(
            m.trackers,
            a,
        ).acc_nanos + (mono - m.running->Some_0.mono_start),
{
    lemma_fold_keys(m, mono);
    let f = fold_pause(m, mono);
    let s2 = start_model(m, b, mono);
    let i = key_index(m.trackers, a);
    assert(0 <= i < m.trackers.len() && m.trackers[i].0 == a);
    assert(f.trackers == m.trackers.update(
        i,
        (a, folded_tracker(m.trackers[i].1, m.running->Some_0.mono_start, mono)),
    ));
    assert(key_index(f.trackers, a) == i);
    assert(tracker_at(f.trackers, a) == f.trackers[i].1);
    assert(tracker_at(m.trackers, a) == m.trackers[i].1);
    assert(s2.trackers == f.trackers);
    assert(has_key(f.trackers, a));
}

/// A negative adjustment not exceeding the effective duration shrinks it
/// by exactly that amount.
pub proof fn lemma_adjust_negative_exact(t: TrackerModel, live: u64, d: u64)
    requires
        d <= effective_nanos(t, live),
    ensures
        effective_nanos(TrackerModel { neg: t.neg.push(d), ..t }, live) == effective_nanos(
            t,
            live,
        ) - d,
{
    let p = sat_add(sat_add(t.acc_nanos, live), sat_sum(t.pos));
    let n = sat_sum(t.neg);
    crate::dur::lemma_sat_sum_push(t.neg, d);
    assert(sat_sum(t.neg.push(d)) == sat_add(n, d));
}

} // verus!
