//! The layout planner: given the vertical budget of the terminal, decide
//! how many records are visible and which contiguous region each one gets.
//! Records are taken in registry order; each needs one header row plus its
//! chart area; the visible prefix is the longest one whose total required
//! height fits the budget. There is no scrolling and no partial record.

use vstd::prelude::*;

use crate::entry::{required_height_of, EntryView};
use crate::registry::Registry;

verus! {

/// One contiguous vertical region of the screen: rows `y .. y + height`.
#[derive(Clone, Copy, Debug, PartialEq, Eq, Structural)]
pub struct Region {
    pub y: u16,
    pub height: u16,
}

/// Total height required by the first `n` records.
pub open spec fn total_height(s: Seq<EntryView>, n: int) -> int
    decreases n,
{
    if n <= 0 {
        0
    } else {
        total_height(s, n - 1) + required_height_of(s[n - 1].layout)
    }
}

impl Registry {
    /// Plan one frame within `avail` rows: the visible records are the
    /// longest prefix whose total required height stays within `avail`,
    /// and each gets a region of exactly its required height, stacked
    /// contiguously from the top. If even the first record does not fit,
    /// nothing is visible.
    pub fn plan_layout(&self, avail: u16) -> (r: Vec<Region>)
        ensures
            r@.len() <= self@.len(),
            total_height(self@, r@.len() as int) <= avail,
            r@.len() < self@.len() ==> total_height(self@, r@.len() as int + 1) > avail,
            forall|i: int|
                0 <= i < r@.len() ==> (#[trigger] r@[i]).height == required_height_of(
                    self@[i].layout,
                ) && r@[i].y == total_height(self@, i),
    {
        let n = self.len();
        let mut regions: Vec<Region> = Vec::new();
        let mut total: u32 = 0;
        let mut i: usize = 0;
        while i < n
            invariant
                i <= n,
                n == self@.len(),
                regions@.len() == i,
                total == total_height(self@, i as int),
                total <= avail,
                forall|j: int|
                    0 <= j < i ==> (#[trigger] regions@[j]).height == required_height_of(
                        self@[j].layout,
                    ) && regions@[j].y == total_height(self@, j),
            decreases n - i,
        {
            let h = self.get(i).required_height();
            assert(h == 2 || h == 4);
            if total + (h as u32) > (avail as u32) {
                assert(total_height(self@, i as int + 1) > avail);
                return regions;
            }
            regions.push(Region { y: total as u16, height: h });
            total = total + (h as u32);
            i = i + 1;
        }
        regions
    }
}

} // verus!
