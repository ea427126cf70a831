//! The insertion-ordered tracker collection, kept in an
//! [`indexmap::IndexMap`] behind a small trusted surface.
//!
//! The map's contents are named by the uninterpreted [`entries_of`]: the
//! sequence of key/tracker pairs in the map's order.  Every wrapper below
//! states, over that name, exactly what the indexmap source shows for the
//! method it calls; all further reasoning about the collection is verified
//! against these contracts.
use vstd::prelude::*;

use indexmap::IndexMap;

use crate::tracker::{PausedTracker, TrackerModel};

verus! {

#[verifier::external_type_specification]
#[verifier::external_body]
#[verifier::reject_recursive_types(K)]
#[verifier::reject_recursive_types(V)]
#[verifier::reject_recursive_types(S)]
pub struct ExIndexMap<K, V, S>(IndexMap<K, V, S>);

/// What the tracker map holds: its key/tracker pairs, in the map's order.
pub uninterp spec fn entries_of(m: IndexMap<String, PausedTracker>) -> Seq<
    (Seq<char>, TrackerModel),
>;

/// Relies on `IndexMap::new`: a freshly created map is empty.
#[verifier::external_body]
pub(crate) fn im_new() -> (r: IndexMap<String, PausedTracker>)
    ensures
        entries_of(r) == Seq::<(Seq<char>, TrackerModel)>::empty(),
{
    IndexMap::new()
}

/// Relies on `IndexMap::get`: returns the value stored under an equivalent
/// key, or `None` when no entry has that key.
#[verifier::external_body]
pub(crate) fn im_get<'a>(m: &'a IndexMap<String, PausedTracker>, key: &str) -> (r: Option<
    &'a PausedTracker,
>)
    ensures
        match r {
            Some(t) => exists|i: int|
                0 <= i < entries_of(*m).len() && entries_of(*m)[i] == (key@, t@),
            None => forall|i: int|
                0 <= i < entries_of(*m).len() ==> (#[trigger] entries_of(*m)[i]).0 != key@,
        },
{
    m.get(key)
}

/// Relies on `IndexMap::insert`: an existing key keeps its place in the
/// order and only its value is replaced; a new key is appended last.
#[verifier::external_body]
pub(crate) fn im_insert(m: &mut IndexMap<String, PausedTracker>, key: &str, value: PausedTracker)
    ensures
        (exists|i: int|
            0 <= i < entries_of(*old(m)).len() && (#[trigger] entries_of(*old(m))[i]).0 == key@)
            ==> exists|i: int|
            0 <= i < entries_of(*old(m)).len() && (#[trigger] entries_of(*old(m))[i]).0 == key@
                && entries_of(*final(m)) == entries_of(*old(m)).update(i, (key@, value@)),
        (forall|i: int|
            0 <= i < entries_of(*old(m)).len() ==> (#[trigger] entries_of(*old(m))[i]).0 != key@)
            ==> entries_of(*final(m)) == entries_of(*old(m)).push((key@, value@)),
{
    m.insert(key.to_owned(), value);
}

/// Relies on `IndexMap::shift_remove`: removes the keyed entry and shifts
/// the entries after it down, preserving their relative order.
#[verifier::external_body]
pub(crate) fn im_shift_remove(m: &mut IndexMap<String, PausedTracker>, key: &str) -> (r: Option<
    PausedTracker,
>)
    ensures
        match r {
            Some(t) => exists|i: int|
                0 <= i < entries_of(*old(m)).len() && (#[trigger] entries_of(*old(m))[i]) == (
                key@,
                t@,
            ) && entries_of(*final(m)) == entries_of(*old(m)).remove(i),
            None => entries_of(*final(m)) == entries_of(*old(m)) && forall|i: int|
                0 <= i < entries_of(*old(m)).len() ==> (#[trigger] entries_of(*old(m))[i]).0
                    != key@,
        },
{
    m.shift_remove(key)
}

/// Relies on `IndexMap::clear`: removes every entry.
#[verifier::external_body]
pub(crate) fn im_clear(m: &mut IndexMap<String, PausedTracker>)
    ensures
        entries_of(*final(m)) == Seq::<(Seq<char>, TrackerModel)>::empty(),
{
    m.clear()
}

/// Relies on `IndexMap::iter`: yields the entries in the map's order; each
/// pair is copied out.
#[verifier::external_body]
pub(crate) fn im_entries_vec(m: &IndexMap<String, PausedTracker>) -> (r: Vec<
    (String, PausedTracker),
>)
    ensures
        r@.len() == entries_of(*m).len(),
        forall|i: int|
            0 <= i < r@.len() ==> ((#[trigger] r@[i]).0@, r@[i].1@) == entries_of(*m)[i],
{
    m.iter().map(|(k, v)| (k.clone(), v.duplicate())).collect()
}

} // verus!
