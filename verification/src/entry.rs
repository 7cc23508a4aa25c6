//! An `Entry` is the durable record kept for one observed process: its
//! identity, name, the query that matched it, an estimated start time, an
//! alive/dead lifecycle, four append-only series of samples, and a detail
//! mode that controls how much vertical space it asks for on screen.
//!
//! Timestamps are plain seconds (`i64`); memory and cumulative disk counters
//! are bytes (`u64`); CPU load is hundredths of a percent (`u64`).

use vstd::prelude::*;
use vstd::string::StrSliceExecFns;

verus! {

/// Lifecycle of a record: alive, or dead since a fixed timestamp (seconds).
/// Once dead, a record stays dead; the timestamp never changes.
#[derive(Clone, Copy, Debug, PartialEq, Eq, Structural)]
pub enum EntryState {
    Alive,
    Dead(i64),
}

/// How much detail a record is drawn with: a full multi-chart view or a
/// compact one. Controls the height the record requires on screen.
#[derive(Clone, Copy, Debug, PartialEq, Eq, Structural)]
pub enum EntryLayout {
    Expanded,
    Condensed,
}

/// One process as reported by the process table in one sampling cycle.
pub struct Sample {
    /// Process identifier; unique among the processes of one snapshot.
    pub pid: u32,
    /// Process name as the OS reports it.
    pub name: String,
    /// Seconds the process has been running at the time of the snapshot.
    pub run_time: u64,
    /// Resident memory in bytes.
    pub mem: u64,
    /// CPU load in hundredths of a percent.
    pub cpu: u64,
    /// Cumulative bytes read from disk since process start.
    pub read: u64,
    /// Cumulative bytes written to disk since process start.
    pub write: u64,
}

/// The record kept for one tracked process.
pub struct Entry {
    pub state: EntryState,
    pub name: String,
    pub pid: u32,
    /// Estimated start time in seconds: the time of first observation minus
    /// the observed run time, clamped into the `i64` range.
    pub start: i64,
    /// The query string that matched this process, kept for highlighting.
    pub query: String,
    pub mem: Vec<u64>,
    pub cpu: Vec<u64>,
    pub read: Vec<u64>,
    pub write: Vec<u64>,
    pub layout: EntryLayout,
}

/// Mathematical model of an `Entry`.
pub ghost struct EntryView {
    pub state: EntryState,
    pub name: Seq<char>,
    pub pid: u32,
    pub start: i64,
    pub query: Seq<char>,
    pub mem: Seq<u64>,
    pub cpu: Seq<u64>,
    pub read: Seq<u64>,
    pub write: Seq<u64>,
    pub layout: EntryLayout,
}

impl View for Entry {
    type V = EntryView;

    open spec fn view(&self) -> EntryView {
        EntryView {
            state: self.state,
            name: self.name@,
            pid: self.pid,
            start: self.start,
            query: self.query@,
            mem: self.mem@,
            cpu: self.cpu@,
            read: self.read@,
            write: self.write@,
            layout: self.layout,
        }
    }
}

pub open spec fn is_alive(e: EntryView) -> bool {
    e.state is Alive
}

/// Height in rows of the chart area of a record drawn in layout `l`.
pub open spec fn chart_height_of(l: EntryLayout) -> int {
    match l {
        EntryLayout::Expanded => 3,
        EntryLayout::Condensed => 1,
    }
}

/// Total height in rows a record drawn in layout `l` requires: one header
/// row plus its chart area.
pub open spec fn required_height_of(l: EntryLayout) -> int {
    1 + chart_height_of(l)
}

/// Estimated start time: `now - run_time`, clamped into the `i64` range.
pub open spec fn start_of(now: i64, run_time: u64) -> i64 {
    if now - run_time < i64::MIN {
        i64::MIN
    } else {
        (now - run_time) as i64
    }
}

/// A record as created on first sighting: alive, expanded, no samples yet.
pub open spec fn created(
    name: Seq<char>,
    query: Seq<char>,
    pid: u32,
    now: i64,
    run_time: u64,
) -> EntryView {
    EntryView {
        state: EntryState::Alive,
        name: name,
        pid: pid,
        start: start_of(now, run_time),
        query: query,
        mem: Seq::empty(),
        cpu: Seq::empty(),
        read: Seq::empty(),
        write: Seq::empty(),
        layout: EntryLayout::Expanded,
    }
}

/// The record `e` after one sample `s` is appended to each series.
pub open spec fn appended(e: EntryView, s: Sample) -> EntryView {
    EntryView {
        mem: e.mem.push(s.mem),
        cpu: e.cpu.push(s.cpu),
        read: e.read.push(s.read),
        write: e.write.push(s.write),
        ..e
    }
}

/// The record `e` after dying at time `now`: dead and condensed, all other
/// fields unchanged.
pub open spec fn died(e: EntryView, now: i64) -> EntryView {
    EntryView { state: EntryState::Dead(now), layout: EntryLayout::Condensed, ..e }
}

/// The death transition: an alive record dies at `now`; a dead record is
/// left exactly as it is, so dying is idempotent and death is monotonic.
pub open spec fn die_model(e: EntryView, now: i64) -> EntryView {
    if is_alive(e) {
        died(e, now)
    } else {
        e
    }
}

/// The query `q` occurs in `name` starting at character position `i`.
pub open spec fn match_at(name: Seq<char>, q: Seq<char>, i: int) -> bool {
    0 <= i && i + q.len() <= name.len() && name.subrange(i, i + q.len()) == q
}

/// The query `q` occurs somewhere in `name`.
pub open spec fn has_match(name: Seq<char>, q: Seq<char>) -> bool {
    exists|i: int| match_at(name, q, i)
}

impl EntryLayout {
    /// Height in rows of the chart area under the one-row header.
    pub fn chart_height(&self) -> (h: u16)
        ensures
            h == chart_height_of(*self),
    {
        match self {
            EntryLayout::Expanded => 3,
            EntryLayout::Condensed => 1,
        }
    }
}

impl Entry {
    /// Create the record for a process first observed now: alive, expanded,
    /// with an estimated start time of `now - run_time` and empty series.
    pub fn new(name: String, query: String, pid: u32, now: i64, run_time: u64) -> (e: Entry)
        ensures
            e@ == created(name@, query@, pid, now, run_time),
    {
        let start: i64 = clamped_start(now, run_time);
        Entry {
            state: EntryState::Alive,
            name: name,
            pid: pid,
            start: start,
            query: query,
            mem: Vec::new(),
            cpu: Vec::new(),
            read: Vec::new(),
            write: Vec::new(),
            layout: EntryLayout::Expanded,
        }
    }

    /// Append one sample to each of the four series; nothing else changes.
    pub fn append_sample(&mut self, s: &Sample)
        ensures
            final(self)@ == appended(old(self)@, *s),
    {
        self.mem.push(s.mem);
        self.cpu.push(s.cpu);
        self.read.push(s.read);
        self.write.push(s.write);
    }

    /// Transition the record to `Dead(now)` and condense it; on a record
    /// that is already dead this is a no-op, so death is monotonic.
    pub fn die_at(&mut self, now: i64)
        ensures
            final(self)@ == die_model(old(self)@, now),
    {
        match self.state {
            EntryState::Alive => {
                self.state = EntryState::Dead(now);
                self.layout = EntryLayout::Condensed;
            },
            EntryState::Dead(_) => {},
        }
    }

    /// Transition the record to dead at the current wall-clock time.
    pub fn die(&mut self)
        ensures
            exists|t: i64| final(self)@ == die_model(old(self)@, t),
    {
        let t = crate::clock::now_seconds();
        self.die_at(t);
    }

    pub fn is_dead(&self) -> (r: bool)
        ensures
            r == !is_alive(self@),
    {
        match self.state {
            EntryState::Alive => false,
            EntryState::Dead(_) => true,
        }
    }

    /// Total height in rows this record requires on screen.
    pub fn required_height(&self) -> (h: u16)
        ensures
            h == required_height_of(self@.layout),
    {
        1 + self.layout.chart_height()
    }

    /// Split the name around the first occurrence of the query, for
    /// highlighting: `(before, matched, after)`. If the name does not
    /// contain the query — possible when the process table's matching rule
    /// is not literal substring containment — the whole name is returned
    /// unmatched: `(name, "", "")`.
    pub fn name_match(&self) -> (r: (String, String, String))
        ensures
            has_match(self@.name, self@.query) ==> exists|i: int|
                {
                    &&& #[trigger] match_at(self@.name, self@.query, i)
                    &&& forall|j: int| 0 <= j < i ==> !match_at(self@.name, self@.query, j)
                    &&& r.0@ == self@.name.subrange(0, i)
                    &&& r.1@ == self@.query
                    &&& r.2@ == self@.name.subrange(i + self@.query.len(), self@.name.len() as int)
                },
            !has_match(self@.name, self@.query) ==> {
                &&& r.0@ == self@.name
                &&& r.1@.len() == 0
                &&& r.2@.len() == 0
            },
    {
        let n: usize = self.name.as_str().unicode_len();
        let m: usize = self.query.as_str().unicode_len();
        if m <= n {
            let mut i: usize = 0;
            while i <= n - m
                invariant
                    m <= n,
                    n == self@.name.len(),
                    m == self@.query.len(),
                    i <= n - m + 1,
                    forall|k: int| 0 <= k < i ==> !match_at(self@.name, self@.query, k),
                decreases n - m + 1 - i,
            {
                let mut j: usize = 0;
                let mut all_eq: bool = true;
                while j < m
                    invariant
                        m <= n,
                        n == self@.name.len(),
                        m == self@.query.len(),
                        i + m <= n,
                        j <= m,
                        all_eq <==> forall|jj: int|
                            0 <= jj < j ==> self@.name[i + jj] == self@.query[jj],
                    decreases m - j,
                {
                    let c1 = self.name.as_str().get_char(i + j);
                    let c2 = self.query.as_str().get_char(j);
                    if c1 != c2 {
                        all_eq = false;
                        j = m;
                    } else {
                        assert(all_eq <==> forall|jj: int|
                            0 <= jj < j + 1 ==> self@.name[i + jj] == self@.query[jj]);
                        j = j + 1;
                    }
                }
                if all_eq {
                    proof {
                        assert(self@.name.subrange(i as int, i + m) =~= self@.query);
                        assert(match_at(self@.name, self@.query, i as int));
                    }
                    let before = self.name.as_str().substring_char(0, i).to_owned();
                    let matched = self.query.clone();
                    let after = self.name.as_str().substring_char(i + m, n).to_owned();
                    return (before, matched, after);
                }
                proof {
                    assert(!match_at(self@.name, self@.query, i as int)) by {
                        if match_at(self@.name, self@.query, i as int) {
                            let bad = choose|jj: int|
                                0 <= jj < m && self@.name[i + jj] != self@.query[jj];
                            assert(self@.name.subrange(i as int, i + m)[bad]
                                == self@.name[i + bad]);
                        }
                    }
                }
                i = i + 1;
            }
            proof {
                assert forall|k: int| !match_at(self@.name, self@.query, k) by {
                    if match_at(self@.name, self@.query, k) {
                        assert(0 <= k <= n - m);
                    }
                }
            }
        } else {
            proof {
                assert forall|k: int| !match_at(self@.name, self@.query, k) by {
                    if match_at(self@.name, self@.query, k) {
                        assert(k + m <= n);
                    }
                }
            }
        }
        (self.name.clone(), String::new(), String::new())
    }
}

/// Compute `now - run_time` in seconds, clamped into the `i64` range.
fn clamped_start(now: i64, run_time: u64) -> (s: i64)
    ensures
        s == start_of(now, run_time),
{
    let d: i128 = (now as i128) - (run_time as i128);
    if d < (i64::MIN as i128) {
        i64::MIN
    } else {
        d as i64
    }
}

} // verus!
