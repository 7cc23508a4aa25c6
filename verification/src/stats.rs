//! Computations the renderer needs from a record: the latest and peak value
//! of a series (the headers and the chart axis bounds), how long a process
//! has lived, and the day/hour/minute/second breakdown of a duration.

use vstd::prelude::*;

use crate::entry::{Entry, EntryState, EntryView};

verus! {

/// Seconds from the record's estimated start to `now` if it is alive, or
/// to its time of death if it is dead; never negative.
pub open spec fn elapsed_of(e: EntryView, now: i64) -> int {
    let end = match e.state {
        EntryState::Alive => now as int,
        EntryState::Dead(t) => t as int,
    };
    if end - e.start < 0 {
        0
    } else {
        end - e.start
    }
}

/// The latest sample of a series, or 0 if it has none.
pub fn series_last(v: &Vec<u64>) -> (r: u64)
    ensures
        v@.len() == 0 ==> r == 0,
        v@.len() > 0 ==> r == v@[v@.len() - 1],
{
    if v.len() == 0 {
        0
    } else {
        v[v.len() - 1]
    }
}

/// The peak of a series: an upper bound on every sample, attained by one
/// of them; 0 if the series is empty.
pub fn series_max(v: &Vec<u64>) -> (r: u64)
    ensures
        forall|i: int| 0 <= i < v@.len() ==> v@[i] <= r,
        v@.len() == 0 ==> r == 0,
        v@.len() > 0 ==> exists|i: int| 0 <= i < v@.len() && v@[i] == r,
{
    let mut r: u64 = 0;
    let mut k: usize = 0;
    while k < v.len()
        invariant
            k <= v@.len(),
            forall|i: int| 0 <= i < k ==> v@[i] <= r,
            k == 0 ==> r == 0,
            k > 0 ==> exists|i: int| 0 <= i < k && v@[i] == r,
        decreases v@.len() - k,
    {
        if v[k] > r || k == 0 {
            r = v[k];
        }
        k = k + 1;
    }
    r
}

/// How long the process behind `e` has lived by time `now`: to `now` while
/// it is alive, frozen at its time of death afterwards. A negative span —
/// possible when the clock moved — is clamped to zero.
pub fn elapsed_seconds(e: &Entry, now: i64) -> (r: u64)
    ensures
        r == elapsed_of(e@, now),
{
    let end: i64 = match e.state {
        EntryState::Alive => now,
        EntryState::Dead(t) => t,
    };
    let d: i128 = (end as i128) - (e.start as i128);
    if d < 0 {
        0
    } else {
        d as u64
    }
}

/// Break a duration in seconds into whole days, hours of the day, minutes
/// of the hour, and seconds of the minute.
pub fn split_duration(secs: u64) -> (r: (u64, u64, u64, u64))
    ensures
        r.0 == secs / 86400,
        r.1 == (secs / 3600) % 24,
        r.2 == (secs / 60) % 60,
        r.3 == secs % 60,
{
    (secs / 86400, (secs / 3600) % 24, (secs / 60) % 60, secs % 60)
}

} // verus!
