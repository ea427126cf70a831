//! The reload decision for the file watcher: which observed filesystem
//! events mean "the snapshot file changed on disk and must be reloaded".
//!
//! The watcher thread itself lives outside the library; it classifies each
//! raw event, canonicalizes the paths it names, and asks this decision
//! whether to invoke the reload path.
use vstd::prelude::*;

use crate::chars::str_eq;

verus! {

/// The event classes a file watcher reports for the snapshot directory.
#[derive(Clone, Copy, Debug, PartialEq, Eq, Structural)]
pub enum WatchEventKind {
    /// A file opened for writing was closed.
    CloseWrite,
    /// A file was renamed into place.
    RenameInto,
    /// Anything else.
    Other,
}

/// Only a completed write or a rename into place can change the file's
/// settled content.
pub open spec fn relevant_kind(k: WatchEventKind) -> bool {
    k == WatchEventKind::CloseWrite || k == WatchEventKind::RenameInto
}

/// Should this event trigger a reload: is it a relevant kind, and does one
/// of its canonical paths name the watched file exactly?
pub fn event_triggers_reload(kind: WatchEventKind, paths: &Vec<String>, watched: &str) -> (r:
    bool)
    ensures
        r == (relevant_kind(kind) && exists|i: int|
            0 <= i < paths@.len() && (#[trigger] paths@[i])@ == watched@),
{
    match kind {
        WatchEventKind::Other => {
            return false;
        },
        _ => {},
    }
    let n = paths.len();
    let mut i: usize = 0;
    while i < n
        invariant
            i <= n,
            n == paths@.len(),
            relevant_kind(kind),
            forall|j: int| 0 <= j < i ==> (#[trigger] paths@[j])@ != watched@,
        decreases n - i,
    {
        if str_eq(paths[i].as_str(), watched) {
            return true;
        }
        i += 1;
    }
    false
}

} // verus!
