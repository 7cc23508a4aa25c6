//! The registry owns one record per observed process identity, ordered by
//! ascending identity. Applying a snapshot appends a sample to every record
//! whose process is still present, creates records for identities never seen
//! before, and transitions records of vanished processes to dead.
//!
//! Identity reuse policy: process identifiers may be handed out again by the
//! OS after a process exits. When an identity that maps to a dead record
//! reappears in a snapshot, the dead record is replaced by a fresh one with
//! a freshly estimated start time; a dead record's series never grow.

use vstd::prelude::*;

use crate::entry::{
    appended, created, die_model, is_alive, Entry, EntryLayout, EntryView, Sample,
};

verus! {

/// The models of a sequence of records.
pub open spec fn views_of(s: Seq<Entry>) -> Seq<EntryView> {
    s.map_values(|e: Entry| e@)
}

/// Record identities strictly increase along the sequence; in particular
/// every identity occurs at most once.
pub open spec fn sorted_by_pid(s: Seq<EntryView>) -> bool {
    forall|i: int, j: int| 0 <= i < j < s.len() ==> s[i].pid < s[j].pid
}

/// Some record in `s` has identity `pid`.
pub open spec fn reg_has(s: Seq<EntryView>, pid: u32) -> bool {
    exists|k: int| 0 <= k < s.len() && s[k].pid == pid
}

/// The record in `s` with identity `pid` (meaningful when `reg_has` holds
/// and identities are unique).
pub open spec fn reg_at(s: Seq<EntryView>, pid: u32) -> EntryView {
    s[choose|k: int| 0 <= k < s.len() && s[k].pid == pid]
}

/// Some sample in `snap` has identity `pid`.
pub open spec fn snap_has(snap: Seq<Sample>, pid: u32) -> bool {
    exists|k: int| 0 <= k < snap.len() && snap[k].pid == pid
}

/// The sample in `snap` with identity `pid` (meaningful when `snap_has`
/// holds and identities are distinct).
pub open spec fn snap_at(snap: Seq<Sample>, pid: u32) -> Sample {
    snap[choose|k: int| 0 <= k < snap.len() && snap[k].pid == pid]
}

/// No identity occurs twice in one snapshot, as holds of a process table:
/// identifiers are unique among concurrently live processes.
pub open spec fn distinct_pids(snap: Seq<Sample>) -> bool {
    forall|i: int, j: int| 0 <= i < j < snap.len() ==> snap[i].pid != snap[j].pid
}

/// Some sample among the first `k` of `snap` has identity `pid`.
pub open spec fn seen_in_prefix(snap: Seq<Sample>, k: int, pid: u32) -> bool {
    exists|j: int| 0 <= j < k && snap[j].pid == pid
}

/// The record built for a process first observed in sample `s` at time
/// `now`: created fresh, with `s` as its first sample.
pub open spec fn fresh(s: Sample, query: Seq<char>, now: i64) -> EntryView {
    appended(created(s.name@, query, s.pid, now, s.run_time), s)
}

/// What one application of snapshot `snap` at time `now` does to a record
/// that is already present: append the matching sample if it is alive and
/// still observed, replace it if it is dead and its identity reappeared,
/// let it die (idempotently) if it is no longer observed.
pub open spec fn successor(e: EntryView, snap: Seq<Sample>, query: Seq<char>, now: i64) -> EntryView {
    if snap_has(snap, e.pid) {
        if is_alive(e) {
            appended(e, snap_at(snap, e.pid))
        } else {
            fresh(snap_at(snap, e.pid), query, now)
        }
    } else {
        die_model(e, now)
    }
}

/// Full description of one application of a snapshot: `post` holds exactly
/// the identities of `pre` and of the snapshot; records already present
/// step to their `successor`; identities seen for the first time get a
/// fresh record; and the order by identity is kept.
pub open spec fn apply_rel(
    pre: Seq<EntryView>,
    post: Seq<EntryView>,
    snap: Seq<Sample>,
    query: Seq<char>,
    now: i64,
) -> bool {
    &&& sorted_by_pid(post)
    &&& forall|p: u32|
        #![trigger reg_has(post, p)]
        #![trigger reg_has(pre, p)]
        #![trigger snap_has(snap, p)]
        reg_has(post, p) <==> reg_has(pre, p) || snap_has(snap, p)
    &&& forall|p: u32| #[trigger]
        reg_has(pre, p) ==> reg_at(post, p) == successor(reg_at(pre, p), snap, query, now)
    &&& forall|p: u32|
        !reg_has(pre, p) && #[trigger] snap_has(snap, p) ==> reg_at(post, p) == fresh(
            snap_at(snap, p),
            query,
            now,
        )
}

/// Every record of every layout after `set_detail_all(mode)`: the layout is
/// overwritten, everything else is kept.
pub open spec fn set_detail_model(s: Seq<EntryView>, mode: EntryLayout) -> Seq<EntryView> {
    Seq::new(s.len(), |i: int| EntryView { layout: mode, ..s[i] })
}

/// In a sequence with strictly increasing identities, an identity pins its
/// position.
pub proof fn lemma_sorted_unique(s: Seq<EntryView>, i: int, j: int)
    requires
        sorted_by_pid(s),
        0 <= i < s.len(),
        0 <= j < s.len(),
        s[i].pid == s[j].pid,
    ensures
        i == j,
{
    if i < j {
        assert(s[i].pid < s[j].pid);
    } else if j < i {
        assert(s[j].pid < s[i].pid);
    }
}

/// In a sorted sequence, `reg_at` of the identity at position `i` is the
/// record at position `i`.
pub proof fn lemma_reg_at_index(s: Seq<EntryView>, i: int)
    requires
        sorted_by_pid(s),
        0 <= i < s.len(),
    ensures
        reg_has(s, s[i].pid),
        reg_at(s, s[i].pid) == s[i],
{
    assert(reg_has(s, s[i].pid));
    let k = choose|k: int| 0 <= k < s.len() && s[k].pid == s[i].pid;
    lemma_sorted_unique(s, i, k);
}

/// In a snapshot with distinct identities, `snap_at` of the identity at
/// position `k` is the sample at position `k`.
pub proof fn lemma_snap_at_index(snap: Seq<Sample>, k: int)
    requires
        distinct_pids(snap),
        0 <= k < snap.len(),
    ensures
        snap_has(snap, snap[k].pid),
        snap_at(snap, snap[k].pid) == snap[k],
{
    assert(snap_has(snap, snap[k].pid));
    let j = choose|j: int| 0 <= j < snap.len() && snap[j].pid == snap[k].pid;
    if j < k {
        assert(snap[j].pid != snap[k].pid);
    } else if k < j {
        assert(snap[k].pid != snap[j].pid);
    }
}

/// Index facts about `Seq::insert`.
proof fn lemma_seq_insert_facts<A>(s: Seq<A>, i: int, a: A)
    requires
        0 <= i <= s.len(),
    ensures
        s.insert(i, a).len() == s.len() + 1,
        forall|j: int| 0 <= j < i ==> #[trigger] s.insert(i, a)[j] == s[j],
        s.insert(i, a)[i] == a,
        forall|j: int| i < j <= s.len() ==> #[trigger] s.insert(i, a)[j] == s[j - 1],
{
}

/// Inserting a record between the identities below and above it keeps the
/// order, adds exactly its identity, and moves no other record.
proof fn lemma_sorted_insert(rv: Seq<EntryView>, slot: int, f: EntryView)
    requires
        sorted_by_pid(rv),
        0 <= slot <= rv.len(),
        forall|i: int| 0 <= i < slot ==> rv[i].pid < f.pid,
        forall|i: int| slot <= i < rv.len() ==> rv[i].pid > f.pid,
    ensures
        sorted_by_pid(rv.insert(slot, f)),
        forall|p: u32| #[trigger]
            reg_has(rv.insert(slot, f), p) <==> (reg_has(rv, p) || p == f.pid),
        reg_at(rv.insert(slot, f), f.pid) == f,
        forall|p: u32|
            p != f.pid && #[trigger] reg_has(rv, p) ==> reg_at(rv.insert(slot, f), p) == reg_at(
                rv,
                p,
            ),
{
    lemma_seq_insert_facts(rv, slot, f);
    let rv2 = rv.insert(slot, f);
    assert forall|i: int, j: int| 0 <= i < j < rv2.len() implies rv2[i].pid < rv2[j].pid by {
        if i < slot {
            assert(rv2[i] == rv[i]);
        }
        if j < slot {
            assert(rv2[j] == rv[j]);
        }
        if i > slot {
            assert(rv2[i] == rv[i - 1]);
        }
        if j > slot {
            assert(rv2[j] == rv[j - 1]);
        }
    }
    assert forall|p: u32| #[trigger]
        reg_has(rv2, p) implies (reg_has(rv, p) || p == f.pid) by {
        let k = choose|k: int| 0 <= k < rv2.len() && rv2[k].pid == p;
        if k < slot {
            assert(rv2[k] == rv[k]);
        } else if k == slot {
            assert(rv2[k] == f);
        } else {
            assert(rv2[k] == rv[k - 1]);
        }
    }
    assert forall|p: u32| (reg_has(rv, p) || p == f.pid) implies #[trigger] reg_has(rv2, p) by {
        if p == f.pid {
            assert(rv2[slot].pid == p);
        } else {
            let k = choose|k: int| 0 <= k < rv.len() && rv[k].pid == p;
            if k < slot {
                assert(rv2[k].pid == p);
            } else {
                assert(rv2[k + 1].pid == p);
            }
        }
    }
    assert(rv2[slot] == f);
    lemma_reg_at_index(rv2, slot);
    assert forall|p: u32|
        p != f.pid && #[trigger] reg_has(rv, p) implies reg_at(rv2, p) == reg_at(rv, p) by {
        let k = choose|k: int| 0 <= k < rv.len() && rv[k].pid == p;
        lemma_reg_at_index(rv, k);
        if k < slot {
            assert(rv2[k] == rv[k]);
            lemma_reg_at_index(rv2, k);
        } else {
            assert(rv2[k + 1] == rv[k]);
            lemma_reg_at_index(rv2, k + 1);
        }
    }
}

/// Find the position of the sample with identity `pid`, if any.
fn find_sample(snap: &Vec<Sample>, pid: u32) -> (r: Option<usize>)
    ensures
        match r {
            Some(k) => k < snap@.len() && snap@[k as int].pid == pid,
            None => !snap_has(snap@, pid),
        },
{
    let mut k: usize = 0;
    while k < snap.len()
        invariant
            k <= snap@.len(),
            forall|i: int| 0 <= i < k ==> snap@[i].pid != pid,
        decreases snap@.len() - k,
    {
        if snap[k].pid == pid {
            return Some(k);
        }
        k = k + 1;
    }
    None
}

/// Whether some record in `entries` has identity `pid`.
fn contains_pid(entries: &Vec<Entry>, pid: u32) -> (r: bool)
    ensures
        r == reg_has(views_of(entries@), pid),
{
    let mut k: usize = 0;
    while k < entries.len()
        invariant
            k <= entries@.len(),
            forall|i: int| 0 <= i < k ==> views_of(entries@)[i].pid != pid,
        decreases entries@.len() - k,
    {
        if entries[k].pid == pid {
            assert(views_of(entries@)[k as int].pid == pid);
            return true;
        }
        k = k + 1;
    }
    false
}

/// The position where a record with identity `pid` belongs in a sequence
/// sorted by identity: the first position whose identity is not below `pid`.
fn find_slot(entries: &Vec<Entry>, pid: u32) -> (r: usize)
    requires
        sorted_by_pid(views_of(entries@)),
    ensures
        r <= entries@.len(),
        forall|i: int| 0 <= i < r ==> views_of(entries@)[i].pid < pid,
        forall|i: int| r <= i < entries@.len() ==> views_of(entries@)[i].pid >= pid,
{
    let mut k: usize = 0;
    while k < entries.len()
        invariant
            k <= entries@.len(),
            sorted_by_pid(views_of(entries@)),
            forall|i: int| 0 <= i < k ==> views_of(entries@)[i].pid < pid,
        decreases entries@.len() - k,
    {
        if entries[k].pid >= pid {
            assert forall|i: int| k <= i < entries@.len() implies views_of(entries@)[i].pid
                >= pid by {
                if i > k {
                    assert(views_of(entries@)[k as int].pid < views_of(entries@)[i].pid);
                }
            }
            return k;
        }
        k = k + 1;
    }
    k
}

/// The registry: one record per observed identity, ordered by identity.
pub struct Registry {
    query: String,
    entries: Vec<Entry>,
}

impl View for Registry {
    type V = Seq<EntryView>;

    closed spec fn view(&self) -> Seq<EntryView> {
        views_of(self.entries@)
    }
}

impl Registry {
    /// The query all records of this registry were matched by.
    pub closed spec fn query_view(self) -> Seq<char> {
        self.query@
    }

    /// Identities are unique and ascending.
    pub open spec fn wf(self) -> bool {
        sorted_by_pid(self@)
    }

    /// An empty registry for the given query.
    pub fn new(query: String) -> (r: Registry)
        ensures
            r@ == Seq::<EntryView>::empty(),
            r.query_view() == query@,
            r.wf(),
    {
        let r = Registry { query, entries: Vec::new() };
        proof {
            assert(r@ =~= Seq::<EntryView>::empty());
        }
        r
    }

    /// How many records the registry holds.
    pub fn len(&self) -> (n: usize)
        ensures
            n == self@.len(),
    {
        self.entries.len()
    }

    /// The record at position `i` in identity order.
    pub fn get(&self, i: usize) -> (e: &Entry)
        requires
            i < self@.len(),
        ensures
            e@ == self@[i as int],
    {
        &self.entries[i]
    }

    /// Remove every record. The next snapshot application starts from a
    /// blank state and so computes every start time afresh.
    pub fn reset(&mut self)
        ensures
            final(self)@ == Seq::<EntryView>::empty(),
            final(self).query_view() == old(self).query_view(),
            final(self).wf(),
    {
        self.entries.clear();
        proof {
            assert(self@ =~= Seq::<EntryView>::empty());
        }
    }

    /// Overwrite the detail mode of every record, alive or dead.
    pub fn set_detail_all(&mut self, mode: EntryLayout)
        requires
            old(self).wf(),
        ensures
            final(self)@ == set_detail_model(old(self)@, mode),
            final(self).query_view() == old(self).query_view(),
            final(self).wf(),
    {
        let ghost pre = self@;
        let mut result: Vec<Entry> = Vec::new();
        while self.entries.len() > 0
            invariant
                result@.len() + self.entries@.len() == pre.len(),
                forall|i: int| #![trigger views_of(result@)[i]]
                    0 <= i < result@.len() ==> views_of(result@)[i] == (EntryView {
                        layout: mode,
                        ..pre[i]
                    }),
                forall|i: int| #![trigger views_of(self.entries@)[i]]
                    0 <= i < self.entries@.len() ==> views_of(self.entries@)[i] == pre[result@.len()
                        + i],
                self.query@ == old(self).query_view(),
            decreases self.entries@.len(),
        {
            let ghost prev = self.entries@;
            let ghost done = result@.len() as int;
            let mut e = self.entries.remove(0);
            proof {
                assert(e@ == views_of(prev)[0]);
                assert(e@ == pre[done]);
                assert forall|i: int| 0 <= i < self.entries@.len() implies #[trigger]
                    views_of(self.entries@)[i] == pre[done + 1 + i] by {
                    assert(self.entries@[i] == prev[i + 1]);
                    assert(views_of(prev)[i + 1] == pre[done + i + 1]);
                }
            }
            e.layout = mode;
            proof {
                assert(e@ == (EntryView { layout: mode, ..pre[done] }));
            }
            let ghost pr = result@;
            result.push(e);
            proof {
                assert(views_of(result@) =~= views_of(pr).push(e@));
                assert(views_of(result@)[done] == e@);
            }
        }
        self.entries = result;
        proof {
            assert(self@ =~= set_detail_model(pre, mode));
        }
    }

    /// Apply one snapshot of the process table, taken at time `now`.
    ///
    /// Every identity in the snapshot ends up with a record that gained the
    /// matching sample this cycle — appended to its series if it was alive,
    /// as the first sample of a fresh record if it is new or reuses a dead
    /// record's identity. Every alive record whose identity is absent from
    /// the snapshot dies at `now` and is condensed; dead records stay
    /// untouched. The snapshot must not name one identity twice, which
    /// holds of a process table: identifiers are unique among live
    /// processes.
    pub fn apply_at(&mut self, snapshot: &Vec<Sample>, now: i64)
        requires
            old(self).wf(),
            distinct_pids(snapshot@),
        ensures
            final(self).wf(),
            final(self).query_view() == old(self).query_view(),
            apply_rel(old(self)@, final(self)@, snapshot@, old(self).query_view(), now),
    {
        let ghost pre = self@;
        let ghost q = self.query@;
        let mut result: Vec<Entry> = Vec::new();

        // Step every record that is already present.
        while self.entries.len() > 0
            invariant
                distinct_pids(snapshot@),
                sorted_by_pid(pre),
                result@.len() + self.entries@.len() == pre.len(),
                forall|i: int| #![trigger views_of(result@)[i]]
                    0 <= i < result@.len() ==> views_of(result@)[i] == successor(
                        pre[i],
                        snapshot@,
                        q,
                        now,
                    ) && views_of(result@)[i].pid == pre[i].pid,
                forall|i: int| #![trigger views_of(self.entries@)[i]]
                    0 <= i < self.entries@.len() ==> views_of(self.entries@)[i] == pre[result@.len()
                        + i],
                self.query@ == q,
            decreases self.entries@.len(),
        {
            let ghost prev = self.entries@;
            let ghost done = result@.len() as int;
            let mut e = self.entries.remove(0);
            proof {
                assert(e@ == views_of(prev)[0]);
                assert(e@ == pre[done]);
                assert forall|i: int| 0 <= i < self.entries@.len() implies #[trigger]
                    views_of(self.entries@)[i] == pre[done + 1 + i] by {
                    assert(self.entries@[i] == prev[i + 1]);
                    assert(views_of(prev)[i + 1] == pre[done + i + 1]);
                }
            }
            match find_sample(snapshot, e.pid) {
                Some(k) => {
                    proof {
                        lemma_snap_at_index(snapshot@, k as int);
                    }
                    if e.is_dead() {
                        // Identity reuse: replace the dead record.
                        let name = snapshot[k].name.clone();
                        let query2 = self.query.clone();
                        let mut f = Entry::new(name, query2, snapshot[k].pid, now, snapshot[k].run_time);
                        f.append_sample(&snapshot[k]);
                        assert(f@ == fresh(snapshot@[k as int], q, now));
                        assert(f@ == successor(pre[done], snapshot@, q, now));
                        let ghost pr = result@;
                        result.push(f);
                        proof {
                            assert(views_of(result@) =~= views_of(pr).push(f@));
                            assert(views_of(result@)[done] == f@);
                        }
                    } else {
                        e.append_sample(&snapshot[k]);
                        assert(e@ == successor(pre[done], snapshot@, q, now));
                        let ghost pr = result@;
                        result.push(e);
                        proof {
                            assert(views_of(result@) =~= views_of(pr).push(e@));
                            assert(views_of(result@)[done] == e@);
                        }
                    }
                },
                None => {
                    e.die_at(now);
                    assert(e@ == successor(pre[done], snapshot@, q, now));
                    let ghost pr = result@;
                    result.push(e);
                    proof {
                        assert(views_of(result@) =~= views_of(pr).push(e@));
                        assert(views_of(result@)[done] == e@);
                    }
                },
            }
        }

        proof {
            assert(sorted_by_pid(views_of(result@)));
            assert forall|p: u32| #[trigger]
                reg_has(views_of(result@), p) <==> reg_has(pre, p) by {
                let rv = views_of(result@);
                if reg_has(rv, p) {
                    let k = choose|k: int| 0 <= k < rv.len() && rv[k].pid == p;
                    assert(pre[k].pid == p);
                }
                if reg_has(pre, p) {
                    let k = choose|k: int| 0 <= k < pre.len() && pre[k].pid == p;
                    assert(views_of(result@)[k].pid == p);
                }
            }
            assert forall|p: u32| #[trigger]
                reg_has(pre, p) implies reg_at(views_of(result@), p) == successor(
                reg_at(pre, p),
                snapshot@,
                q,
                now,
            ) by {
                let rv = views_of(result@);
                let k = choose|k: int| 0 <= k < pre.len() && pre[k].pid == p;
                lemma_reg_at_index(pre, k);
                assert(rv[k].pid == p);
                lemma_reg_at_index(rv, k);
            }
        }

        // Insert a fresh record for every identity never seen before.
        let mut k: usize = 0;
        while k < snapshot.len()
            invariant
                distinct_pids(snapshot@),
                sorted_by_pid(pre),
                k <= snapshot@.len(),
                sorted_by_pid(views_of(result@)),
                forall|p: u32|
                    #![trigger reg_has(views_of(result@), p)]
                    #![trigger reg_has(pre, p)]
                    reg_has(views_of(result@), p) <==> (reg_has(pre, p) || seen_in_prefix(
                        snapshot@,
                        k as int,
                        p,
                    )),
                forall|p: u32| #[trigger]
                    reg_has(pre, p) ==> reg_at(views_of(result@), p) == successor(
                        reg_at(pre, p),
                        snapshot@,
                        q,
                        now,
                    ),
                forall|p: u32|
                    !reg_has(pre, p) && #[trigger] seen_in_prefix(snapshot@, k as int, p)
                        ==> reg_at(views_of(result@), p) == fresh(snap_at(snapshot@, p), q, now),
                self.query@ == q,
            decreases snapshot@.len() - k,
        {
            let pid = snapshot[k].pid;
            proof {
                lemma_snap_at_index(snapshot@, k as int);
            }
            if !contains_pid(&result, pid) {
                proof {
                    if reg_has(pre, pid) {
                        assert(reg_has(views_of(result@), pid));
                    }
                }
                let name = snapshot[k].name.clone();
                let query2 = self.query.clone();
                let mut f = Entry::new(name, query2, pid, now, snapshot[k].run_time);
                f.append_sample(&snapshot[k]);
                assert(f@ == fresh(snapshot@[k as int], q, now));
                let ghost rv = views_of(result@);
                let slot = find_slot(&result, pid);
                proof {
                    assert forall|i: int| slot <= i < rv.len() implies rv[i].pid > pid by {
                        if rv[i].pid == pid {
                            assert(reg_has(rv, pid));
                        }
                    }
                }
                result.insert(slot, f);
                proof {
                    assert forall|i: int| 0 <= i < result@.len() implies #[trigger]
                        views_of(result@)[i] == rv.insert(slot as int, f@)[i] by {
                        lemma_seq_insert_facts(rv, slot as int, f@);
                    }
                    assert(views_of(result@) =~= rv.insert(slot as int, f@));
                    lemma_sorted_insert(rv, slot as int, f@);
                }
            } else {
                proof {
                    // A record with this identity is already there; since
                    // identities inserted so far come from earlier samples,
                    // which are distinct from this one, it stems from `pre`.
                    if !reg_has(pre, pid) {
                        assert(seen_in_prefix(snapshot@, k as int, pid));
                        let j = choose|j: int| 0 <= j < k && snapshot@[j].pid == pid;
                        assert(snapshot@[j].pid != snapshot@[k as int].pid);
                    }
                }
            }
            proof {
                assert forall|p: u32|
                    #[trigger] seen_in_prefix(snapshot@, k + 1, p) && !seen_in_prefix(
                        snapshot@,
                        k as int,
                        p,
                    ) implies p == pid by {
                    let j = choose|j: int| 0 <= j < k + 1 && snapshot@[j].pid == p;
                    assert(j == k);
                }
                assert(seen_in_prefix(snapshot@, k + 1, pid)) by {
                    assert(snapshot@[k as int].pid == pid);
                }
            }
            k = k + 1;
        }

        self.entries = result;
        proof {
            assert forall|p: u32| #[trigger]
                snap_has(snapshot@, p) implies seen_in_prefix(
                snapshot@,
                snapshot@.len() as int,
                p,
            ) by {}
            assert forall|p: u32| #[trigger]
                seen_in_prefix(snapshot@, snapshot@.len() as int, p) implies snap_has(
                snapshot@,
                p,
            ) by {}
            assert(apply_rel(pre, self@, snapshot@, q, now));
        }
    }

    /// Apply one snapshot at the current wall-clock time.
    pub fn apply(&mut self, snapshot: &Vec<Sample>)
        requires
            old(self).wf(),
            distinct_pids(snapshot@),
        ensures
            final(self).wf(),
            final(self).query_view() == old(self).query_view(),
            exists|t: i64|
                apply_rel(old(self)@, final(self)@, snapshot@, old(self).query_view(), t),
    {
        let t = crate::clock::now_seconds();
        self.apply_at(snapshot, t);
    }
}

} // verus!
