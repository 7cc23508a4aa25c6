//! The library's laws: properties of whole runs of the registry, proved
//! once and for all over the model that the methods' contracts speak of.

use vstd::prelude::*;

use crate::entry::{die_model, is_alive, EntryLayout, EntryView, Sample};
use crate::registry::{
    apply_rel, distinct_pids, fresh, lemma_sorted_unique, reg_at, reg_has, set_detail_model,
    snap_at, snap_has, sorted_by_pid, successor,
};

verus! {

/// One run of the registry: `states[0]` is the state before the first
/// cycle, and each later state arises from the one before it by applying
/// that cycle's snapshot at that cycle's time.
pub open spec fn trace_ok(
    states: Seq<Seq<EntryView>>,
    snaps: Seq<Seq<Sample>>,
    times: Seq<i64>,
    query: Seq<char>,
) -> bool {
    &&& states.len() == snaps.len() + 1
    &&& times.len() == snaps.len()
    &&& sorted_by_pid(states[0])
    &&& forall|i: int| 0 <= i < snaps.len() ==> distinct_pids(#[trigger] snaps[i])
    &&& forall|i: int|
        0 <= i < snaps.len() ==> apply_rel(
            states[i],
            #[trigger] states[i + 1],
            snaps[i],
            query,
            times[i],
        )
}

/// Identities stay unique and ascending at every point of a run.
pub proof fn lemma_trace_sorted(
    states: Seq<Seq<EntryView>>,
    snaps: Seq<Seq<Sample>>,
    times: Seq<i64>,
    query: Seq<char>,
    i: int,
)
    requires
        trace_ok(states, snaps, times, query),
        0 <= i < states.len(),
    ensures
        sorted_by_pid(states[i]),
{
    if i > 0 {
        let j = i - 1;
        assert(apply_rel(states[j], states[j + 1], snaps[j], query, times[j]));
        assert(states[j + 1] == states[i]);
    }
}

/// An identity has at most one record: in any state of a run, two
/// positions holding the same identity are the same position.
pub proof fn lemma_one_record_per_identity(
    states: Seq<Seq<EntryView>>,
    snaps: Seq<Seq<Sample>>,
    times: Seq<i64>,
    query: Seq<char>,
    i: int,
    pid: u32,
    j: int,
    k: int,
)
    requires
        trace_ok(states, snaps, times, query),
        0 <= i < states.len(),
        0 <= j < states[i].len(),
        0 <= k < states[i].len(),
        states[i][j].pid == pid,
        states[i][k].pid == pid,
    ensures
        j == k,
{
    lemma_trace_sorted(states, snaps, times, query, i);
    lemma_sorted_unique(states[i], j, k);
}

/// An identity that appears in some snapshot of a run has a record in
/// every later state: records are destroyed only by a reset, never by a
/// snapshot.
pub proof fn lemma_once_seen_always_recorded(
    states: Seq<Seq<EntryView>>,
    snaps: Seq<Seq<Sample>>,
    times: Seq<i64>,
    query: Seq<char>,
    pid: u32,
    b: int,
    i: int,
)
    requires
        trace_ok(states, snaps, times, query),
        0 <= b <= i < snaps.len(),
        snap_has(snaps[b], pid),
    ensures
        reg_has(states[i + 1], pid),
    decreases i - b,
{
    if i > b {
        lemma_once_seen_always_recorded(states, snaps, times, query, pid, b, i - 1);
    }
    assert(apply_rel(states[i], states[i + 1], snaps[i], query, times[i]));
}

/// A record continuously observed since its creation grows by one sample
/// per cycle: if identity `pid` was absent before cycle `b` and present in
/// every snapshot from cycle `b` through cycle `i`, then after cycle `i`
/// its record is alive and each of its four series holds one sample per
/// cycle since `b`.
pub proof fn lemma_series_counts(
    states: Seq<Seq<EntryView>>,
    snaps: Seq<Seq<Sample>>,
    times: Seq<i64>,
    query: Seq<char>,
    pid: u32,
    b: int,
    i: int,
)
    requires
        trace_ok(states, snaps, times, query),
        0 <= b <= i < snaps.len(),
        !reg_has(states[b], pid),
        forall|j: int| b <= j <= i ==> snap_has(#[trigger] snaps[j], pid),
    ensures
        reg_has(states[i + 1], pid),
        is_alive(reg_at(states[i + 1], pid)),
        reg_at(states[i + 1], pid).pid == pid,
        reg_at(states[i + 1], pid).mem.len() == i + 1 - b,
        reg_at(states[i + 1], pid).cpu.len() == i + 1 - b,
        reg_at(states[i + 1], pid).read.len() == i + 1 - b,
        reg_at(states[i + 1], pid).write.len() == i + 1 - b,
    decreases i - b,
{
    if i == b {
        assert(apply_rel(states[b], states[b + 1], snaps[b], query, times[b]));
        assert(snap_has(snaps[b], pid));
        assert(reg_at(states[b + 1], pid) == fresh(snap_at(snaps[b], pid), query, times[b]));
        assert(snap_at(snaps[b], pid).pid == pid);
    } else {
        lemma_series_counts(states, snaps, times, query, pid, b, i - 1);
        assert(apply_rel(states[i], states[i + 1], snaps[i], query, times[i]));
        let e = reg_at(states[i], pid);
        assert(snap_has(snaps[i], pid));
        assert(reg_at(states[i + 1], pid) == successor(e, snaps[i], query, times[i]));
    }
}

/// Death is monotonic: the death transition makes a record dead, is
/// idempotent, and leaves a record that is already dead exactly as it is —
/// its death timestamp in particular never changes.
pub proof fn lemma_death_monotonic(e: EntryView, t1: i64, t2: i64)
    ensures
        !is_alive(die_model(e, t1)),
        die_model(die_model(e, t1), t2) == die_model(e, t1),
        !is_alive(e) ==> die_model(e, t1) == e,
{
}

/// Once dead, a record stays dead: as long as its identity is not observed
/// again, every later cycle leaves the record — its death timestamp in
/// particular — exactly as it is.
pub proof fn lemma_dead_record_is_frozen(
    states: Seq<Seq<EntryView>>,
    snaps: Seq<Seq<Sample>>,
    times: Seq<i64>,
    query: Seq<char>,
    pid: u32,
    b: int,
    i: int,
)
    requires
        trace_ok(states, snaps, times, query),
        0 <= b <= i < snaps.len(),
        reg_has(states[b], pid),
        !is_alive(reg_at(states[b], pid)),
        forall|j: int| b <= j <= i ==> !snap_has(#[trigger] snaps[j], pid),
    ensures
        reg_has(states[i + 1], pid),
        reg_at(states[i + 1], pid) == reg_at(states[b], pid),
    decreases i - b,
{
    if i > b {
        lemma_dead_record_is_frozen(states, snaps, times, query, pid, b, i - 1);
    }
    assert(apply_rel(states[i], states[i + 1], snaps[i], query, times[i]));
    let e = reg_at(states[i], pid);
    assert(reg_at(states[i + 1], pid) == successor(e, snaps[i], query, times[i]));
    assert(e.pid == pid);
    assert(!snap_has(snaps[i], pid));
}

/// Applying a snapshot to the empty registry — the state `reset` leaves
/// behind — builds a fresh record for exactly the snapshot's identities,
/// each with a start time estimated anew from this cycle's clock.
pub proof fn lemma_rebuild_after_reset(
    post: Seq<EntryView>,
    snap: Seq<Sample>,
    query: Seq<char>,
    now: i64,
)
    requires
        apply_rel(Seq::<EntryView>::empty(), post, snap, query, now),
    ensures
        forall|p: u32|
            #![trigger reg_has(post, p)]
            #![trigger snap_has(snap, p)]
            reg_has(post, p) <==> snap_has(snap, p),
        forall|p: u32| #[trigger]
            snap_has(snap, p) ==> reg_at(post, p) == fresh(snap_at(snap, p), query, now),
        forall|p: u32| #[trigger]
            snap_has(snap, p) ==> reg_at(post, p).start == crate::entry::start_of(
                now,
                snap_at(snap, p).run_time,
            ),
{
    assert forall|p: u32| !reg_has(Seq::<EntryView>::empty(), p) by {}
}

/// Overwriting every record's detail mode twice with the same mode yields
/// the same state as doing it once.
pub proof fn lemma_set_detail_idempotent(s: Seq<EntryView>, mode: EntryLayout)
    ensures
        set_detail_model(set_detail_model(s, mode), mode) == set_detail_model(s, mode),
{
    assert(set_detail_model(set_detail_model(s, mode), mode) =~= set_detail_model(s, mode));
}

} // verus!
