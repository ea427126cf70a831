//! The launcher menu's entry list: one entry per tracker, followed by the
//! three fixed actions.
use vstd::prelude::*;
use vstd::string::*;

use crate::tracker::TrackerInformation;

verus! {

/// One selectable line of the launcher menu.
#[derive(Debug)]
pub enum Entry {
    /// An existing tracker, selectable by key.
    Tracker(TrackerInformation),
    /// Create a new tracker.
    NewTracker,
    /// Refresh the issue list.
    Refresh,
    /// Submit all finished work.
    Submit,
}

/// The text shown for one entry.
pub fn entry_label(e: &Entry) -> (r: String)
    ensures
        match e {
            Entry::Tracker(t) => r@ == t.key@,
            Entry::NewTracker => r@ == "Add New"@,
            Entry::Refresh => r@ == "Refresh issues"@,
            Entry::Submit => r@ == "Submit"@,
        },
{
    match e {
        Entry::Tracker(t) => t.key.clone(),
        Entry::NewTracker => String::from_str("Add New"),
        Entry::Refresh => String::from_str("Refresh issues"),
        Entry::Submit => String::from_str("Submit"),
    }
}

/// The whole menu: every tracker in order, then the three actions.
pub fn entries_from(trackers: Vec<TrackerInformation>) -> (r: Vec<Entry>)
    ensures
        r@.len() == trackers@.len() + 3,
        forall|i: int|
            0 <= i < trackers@.len() ==> (#[trigger] r@[i]) is Tracker && r@[i]->Tracker_0@
                == trackers@[i]@,
        r@[trackers@.len() as int] is NewTracker,
        r@[trackers@.len() as int + 1] is Refresh,
        r@[trackers@.len() as int + 2] is Submit,
{
    let ghost orig = trackers@;
    let mut entries: Vec<Entry> = Vec::new();
    let mut rest = trackers;
    let n = rest.len();
    let mut i: usize = 0;
    while i < n
        invariant
            i <= n,
            n == rest@.len(),
            rest@ == orig,
            entries@.len() == i,
            forall|j: int|
                0 <= j < i ==> (#[trigger] entries@[j]) is Tracker && entries@[j]->Tracker_0@
                    == orig[j]@,
        decreases n - i,
    {
        let t = copy_info(&rest[i]);
        entries.push(Entry::Tracker(t));
        i += 1;
    }
    entries.push(Entry::NewTracker);
    entries.push(Entry::Refresh);
    entries.push(Entry::Submit);
    entries
}

/// A value-equal copy of a reported record.
pub fn copy_info(t: &TrackerInformation) -> (r: TrackerInformation)
    ensures
        r@ == t@,
{
    TrackerInformation {
        key: t.key.clone(),
        description: match &t.description {
            Some(s) => Some(s.clone()),
            None => None,
        },
        duration: t.duration,
        running: t.running,
        start_time: t.start_time,
    }
}

} // verus!
