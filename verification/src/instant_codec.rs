//! Translating the running pointer's monotonic start to and from a
//! wall-clock equivalent for the snapshot file.
//!
//! A monotonic reading means nothing outside its own process, so the
//! snapshot stores the wall-clock moment the reading corresponds to.
//! Recovering a monotonic reading after a restart is inherently
//! approximate: it is best-effort arithmetic on the wall clock, and it
//! saturates instead of failing when a hand-edited stamp lies in the
//! future.
use vstd::prelude::*;

use crate::dur::sat_sub;

verus! {

/// The wall-clock equivalent of the monotonic reading `mono_start`: the
/// current wall time, less however long ago `mono_start` was.
pub fn serialize(mono_start: u64, mono_now: u64, wall_now: u64) -> (r: u64)
    ensures
        r == sat_sub(wall_now, sat_sub(mono_now, mono_start)),
{
    wall_now.saturating_sub(mono_now.saturating_sub(mono_start))
}

/// The monotonic reading whose wall-clock equivalent is `wall_start`: the
/// current monotonic count, less however long ago `wall_start` was.
pub fn deserialize(wall_start: u64, mono_now: u64, wall_now: u64) -> (r: u64)
    ensures
        r == sat_sub(mono_now, sat_sub(wall_now, wall_start)),
{
    mono_now.saturating_sub(wall_now.saturating_sub(wall_start))
}

/// With both clock readings taken at one moment, a monotonic start lying
/// in the past of both clocks survives the wall-clock round trip exactly.
pub proof fn lemma_instant_round_trip(mono_start: u64, mono_now: u64, wall_now: u64)
    requires
        mono_start <= mono_now,
        mono_now - mono_start <= wall_now,
    ensures
        sat_sub(mono_now, sat_sub(wall_now, sat_sub(wall_now, sat_sub(mono_now, mono_start))))
            == mono_start,
{
}

} // verus!
