//! The list of the regions of a memory space: gaps and mappings in the order
//! of their addresses, which together cover the range of pages that a process
//! may use.

use vstd::prelude::*;
use crate::memory::{ALLOC_BEGIN_PAGE, PROCESS_END_PAGE};
use super::gap::MemGap;
use super::mapping::{MapResidence, MappingView, MemMapping};
use super::physical_ref_counter::PhysRefCounter;

verus! {

/// Tells whether page `p` lies in the range that a process may use.
pub open spec fn user_page(p: int) -> bool {
    ALLOC_BEGIN_PAGE <= p < PROCESS_END_PAGE
}

/// A region of the virtual memory of a process.
pub enum Region {
    /// A run of free pages.
    Gap(MemGap),
    /// A run of allocated pages.
    Mapping(MemMapping),
}

impl Region {
    /// The number of the first page of the region.
    pub open spec fn begin(self) -> int {
        match self {
            Region::Gap(g) => g.begin(),
            Region::Mapping(m) => m.begin(),
        }
    }

    /// The size of the region in pages.
    pub open spec fn size(self) -> int {
        match self {
            Region::Gap(g) => g.size(),
            Region::Mapping(m) => m.size(),
        }
    }

    /// The number of the page at which the region ends.
    pub open spec fn end(self) -> int {
        self.begin() + self.size()
    }

    /// The region's invariant.
    pub open spec fn wf(self) -> bool {
        match self {
            Region::Gap(g) => g.wf() && 0 <= g.begin(),
            Region::Mapping(m) => m.wf(),
        }
    }

    /// The frame of page `p`, if the region is a mapping that holds the page
    /// and the page is materialized.
    pub open spec fn frame_of(self, p: int) -> Option<usize> {
        match self {
            Region::Gap(_) => None,
            Region::Mapping(m) => m.frame(p - m.begin()),
        }
    }

    /// What identifies the region, if it is a mapping.
    pub open spec fn mapping(self) -> Option<MappingView> {
        match self {
            Region::Gap(_) => None,
            Region::Mapping(m) => Some(m@),
        }
    }

    /// The range of the region, if it is a gap.
    pub open spec fn gap(self) -> Option<(int, int)> {
        match self {
            Region::Gap(g) => Some((g.begin(), g.size())),
            Region::Mapping(_) => None,
        }
    }

    /// Returns the number of the first page of the region.
    pub fn get_begin_page(&self) -> (p: usize)
        ensures
            p == self.begin(),
    {
        match self {
            Region::Gap(g) => g.get_begin_page(),
            Region::Mapping(m) => m.get_begin_page(),
        }
    }

    /// Returns the size of the region in pages.
    pub fn get_size(&self) -> (s: usize)
        ensures
            s == self.size(),
    {
        match self {
            Region::Gap(g) => g.get_size(),
            Region::Mapping(m) => m.get_size(),
        }
    }
}

/// Tells whether region `i` of `r` holds page `p`.
pub open spec fn covers(r: Seq<Region>, i: int, p: int) -> bool {
    0 <= i < r.len() && r[i].begin() <= p < r[i].end()
}

/// Tells whether region `i` of `r` ends where the next one begins.
pub open spec fn joined(r: Seq<Region>, i: int) -> bool {
    r[i].end() == r[i + 1].begin()
}

/// Tells whether one at least of regions `i` and `i + 1` of `r` is a mapping.
pub open spec fn separated(r: Seq<Region>, i: int) -> bool {
    !(r[i] is Gap && r[i + 1] is Gap)
}

/// Tells whether the regions of `r`, in order, cover the range of pages that
/// a process may use: the first one begins where the range begins, each one
/// ends where the next one begins, and the last one ends where the range
/// ends.
pub open spec fn tiled(r: Seq<Region>) -> bool {
    &&& r.len() > 0
    &&& r[0].begin() == ALLOC_BEGIN_PAGE
    &&& r[r.len() - 1].end() == PROCESS_END_PAGE
    &&& forall|i: int| 0 <= i < r.len() ==> (#[trigger] r[i]).wf()
    &&& forall|i: int| 0 <= i < r.len() - 1 ==> #[trigger] joined(r, i)
}

/// Tells whether no two gaps of `r` follow each other.
pub open spec fn coalesced(r: Seq<Region>) -> bool {
    forall|i: int| 0 <= i < r.len() - 1 ==> #[trigger] separated(r, i)
}

/// The index in `r` of the region that holds page `p`.
pub open spec fn index_of(r: Seq<Region>, p: int) -> int {
    choose|i: int| covers(r, i, p)
}

/// In a tiling, a region ends before any later one begins.
pub proof fn lemma_sorted(r: Seq<Region>, i: int, j: int)
    requires
        tiled(r),
        0 <= i < j < r.len(),
    ensures
        r[i].end() <= r[j].begin(),
    decreases j - i,
{
    if j == i + 1 {
        assert(joined(r, i));
    } else {
        lemma_sorted(r, i, j - 1);
        assert(joined(r, j - 1));
        assert(r[j - 1].wf());
    }
}

/// In a tiling, every region lies in the range that a process may use.
pub proof fn lemma_bounds(r: Seq<Region>, i: int)
    requires
        tiled(r),
        0 <= i < r.len(),
    ensures
        ALLOC_BEGIN_PAGE <= r[i].begin(),
        r[i].begin() < r[i].end(),
        r[i].end() <= PROCESS_END_PAGE,
{
    assert(r[i].wf());
    assert(r[0].wf());
    assert(r[r.len() - 1].wf());
    if 0 < i {
        lemma_sorted(r, 0, i);
    }
    if i < r.len() - 1 {
        lemma_sorted(r, i, r.len() - 1);
    }
}

/// In a tiling, a page that lies at or after the beginning of region `k`, in
/// the range that a process may use, is held by some region.
proof fn lemma_covered_from(r: Seq<Region>, p: int, k: int)
    requires
        tiled(r),
        0 <= k < r.len(),
        r[k].begin() <= p < PROCESS_END_PAGE,
    ensures
        exists|i: int| covers(r, i, p),
    decreases r.len() - k,
{
    if p < r[k].end() {
        assert(covers(r, k, p));
    } else {
        assert(joined(r, k));
        lemma_covered_from(r, p, k + 1);
    }
}

/// In a tiling, each page of the range that a process may use is held by the
/// region that [`index_of`] gives.
pub proof fn lemma_covered(r: Seq<Region>, p: int)
    requires
        tiled(r),
        user_page(p),
    ensures
        covers(r, index_of(r, p), p),
{
    lemma_covered_from(r, p, 0);
}

/// In a tiling, a page is held by one region only.
pub proof fn lemma_index(r: Seq<Region>, i: int, p: int)
    requires
        tiled(r),
        covers(r, i, p),
    ensures
        index_of(r, p) == i,
        user_page(p),
{
    let j = index_of(r, p);
    assert(covers(r, j, p));
    if i < j {
        lemma_sorted(r, i, j);
    }
    if j < i {
        lemma_sorted(r, j, i);
    }
    lemma_bounds(r, i);
}

/// The region of `r` that holds page `p`.
pub open spec fn region_in(r: Seq<Region>, p: int) -> Region {
    r[index_of(r, p)]
}

/// The mapping of `r` that holds page `p`, if there is one.
pub open spec fn mapping_in(r: Seq<Region>, p: int) -> Option<MappingView> {
    if user_page(p) {
        region_in(r, p).mapping()
    } else {
        None
    }
}

/// The gap of `r` that holds page `p`, if there is one: its first page and
/// its size.
pub open spec fn gap_in(r: Seq<Region>, p: int) -> Option<(int, int)> {
    if user_page(p) {
        region_in(r, p).gap()
    } else {
        None
    }
}

/// The frame that page `p` has in `r`, if the page is materialized.
pub open spec fn frame_in(r: Seq<Region>, p: int) -> Option<usize> {
    if user_page(p) {
        region_in(r, p).frame_of(p)
    } else {
        None
    }
}

/// The mapping that holds page `p` once the mapping `m`, if `at` lies inside
/// it, has been split in two at page `at`.
pub open spec fn cut_at(m: Option<MappingView>, at: int, p: int) -> Option<MappingView> {
    match m {
        None => None,
        Some(m) => if m.begin < at < m.begin + m.size {
            if p < at {
                Some(MappingView { size: at - m.begin, ..m })
            } else {
                Some(
                    MappingView {
                        begin: at,
                        size: m.begin + m.size - at,
                        flags: m.flags,
                        residence: m.residence.skip(at - m.begin),
                    },
                )
            }
        } else {
            Some(m)
        },
    }
}

/// The gap that holds page `p` once the gap `g`, if `at` lies inside it, has
/// been split in two at page `at`.
pub open spec fn cut_gap_at(g: Option<(int, int)>, at: int, p: int) -> Option<(int, int)> {
    match g {
        None => None,
        Some((begin, size)) => if begin < at < begin + size {
            if p < at {
                Some((begin, at - begin))
            } else {
                Some((at, begin + size - at))
            }
        } else {
            Some((begin, size))
        },
    }
}

/// In a tiling, the region that holds a page is the one that
/// [`region_in`] gives.
pub proof fn lemma_at(r: Seq<Region>, i: int, p: int)
    requires
        tiled(r),
        covers(r, i, p),
    ensures
        region_in(r, p) == r[i],
        index_of(r, p) == i,
        user_page(p),
{
    lemma_index(r, i, p);
}

/// Splits region `i` of `v` in two at page `at`, which lies inside it.
pub fn split_region(v: &mut Vec<Region>, i: usize, at: usize)
    requires
        tiled(old(v)@),
        i < old(v)@.len(),
        old(v)@[i as int].begin() < at < old(v)@[i as int].end(),
    ensures
        tiled(final(v)@),
        final(v)@.len() == old(v)@.len() + 1,
        forall|j: int| 0 <= j < i ==> #[trigger] final(v)@[j] == old(v)@[j],
        forall|j: int| i < j < old(v)@.len() ==> #[trigger] old(v)@[j] == final(v)@[j + 1],
        final(v)@[i as int].begin() == old(v)@[i as int].begin(),
        final(v)@[i as int].end() == at,
        final(v)@[i + 1].begin() == at,
        final(v)@[i + 1].end() == old(v)@[i as int].end(),
        final(v)@[i as int] is Gap == old(v)@[i as int] is Gap,
        final(v)@[i + 1] is Gap == old(v)@[i as int] is Gap,
        forall|p: int| #[trigger] frame_in(final(v)@, p) == frame_in(old(v)@, p),
        forall|p: int|
            #[trigger] mapping_in(final(v)@, p) == cut_at(mapping_in(old(v)@, p), at as int, p),
        forall|p: int|
            #[trigger] gap_in(final(v)@, p) == cut_gap_at(gap_in(old(v)@, p), at as int, p),
        boundary(final(v)@, at as int),
        forall|x: int| boundary(old(v)@, x) ==> #[trigger] boundary(final(v)@, x),
{
    let ghost before = v@;
    let n = v.len();
    proof {
        assert(before[i as int].wf());
        lemma_bounds(before, i as int);
    }
    let whole = v.remove(i);
    proof {
        before.remove_ensures(i as int);
    }
    let ghost removed = v@;
    match whole {
        Region::Gap(g) => {
            let begin = g.get_begin_page();
            let size = g.get_size();
            v.insert(i, Region::Gap(MemGap::from_pages(begin, at - begin)));
            proof {
                removed.insert_ensures(i as int, v@[i as int]);
            }
            let ghost mid = v@;
            v.insert(i + 1, Region::Gap(MemGap::from_pages(at, begin + size - at)));
            proof {
                mid.insert_ensures(i + 1, v@[i + 1]);
            }
        },
        Region::Mapping(m) => {
            let begin = m.get_begin_page();
            let (a, b) = m.split(at - begin);
            v.insert(i, Region::Mapping(a));
            proof {
                removed.insert_ensures(i as int, v@[i as int]);
            }
            let ghost mid = v@;
            v.insert(i + 1, Region::Mapping(b));
            proof {
                mid.insert_ensures(i + 1, v@[i + 1]);
            }
        },
    }
    proof {
        let after = v@;
        assert forall|j: int| 0 <= j < i implies #[trigger] after[j] == before[j] by {}
        assert forall|j: int| i < j < before.len() implies #[trigger] before[j] == after[j + 1] by {
            assert(removed[j - 1] == before[j]);
        }
        assert forall|j: int| 0 <= j < after.len() implies (#[trigger] after[j]).wf() by {
            if j < i {
                assert(after[j] == before[j]);
            } else if j > i + 1 {
                assert(before[j - 1] == after[j]);
            }
        }
        assert forall|j: int| 0 <= j < after.len() - 1 implies #[trigger] joined(after, j) by {
            if j < i - 1 {
                assert(joined(before, j));
                assert(after[j] == before[j]);
                assert(after[j + 1] == before[j + 1]);
            } else if j == i - 1 {
                assert(joined(before, j));
                assert(after[j] == before[j]);
            } else if j == i {
            } else if j == i + 1 {
                assert(joined(before, i as int));
                assert(before[i + 1] == after[i + 2]);
            } else {
                assert(joined(before, j - 1));
                assert(before[j - 1] == after[j]);
                assert(before[j] == after[j + 1]);
            }
        }
        if i > 0 {
            assert(after[0] == before[0]);
        }
        if i < before.len() - 1 {
            assert(before[before.len() - 1] == after[after.len() - 1]);
        }
        assert(tiled(after));
        assert forall|p: int| #[trigger] frame_in(after, p) == frame_in(before, p) by {
            lemma_split_page(before, after, i as int, at as int, p);
        }
        assert forall|p: int| #[trigger] mapping_in(after, p) == cut_at(
            mapping_in(before, p),
            at as int,
            p,
        ) by {
            lemma_split_page(before, after, i as int, at as int, p);
        }
        assert forall|p: int| #[trigger] gap_in(after, p) == cut_gap_at(
            gap_in(before, p),
            at as int,
            p,
        ) by {
            lemma_split_page(before, after, i as int, at as int, p);
        }
        assert forall|x: int| (x == at || boundary(before, x)) implies #[trigger] boundary(
            after,
            x,
        ) by {
            lemma_split_boundary(before, after, i as int, at as int, x);
        }
    }
}

/// What a split does to the boundaries of regions: it keeps them, and adds
/// one where the region is split.
proof fn lemma_split_boundary(before: Seq<Region>, after: Seq<Region>, i: int, at: int, x: int)
    requires
        tiled(before),
        0 <= i < before.len(),
        after.len() == before.len() + 1,
        before[i].begin() < at < before[i].end(),
        forall|j: int| 0 <= j < i ==> #[trigger] after[j] == before[j],
        forall|j: int| i < j < before.len() ==> #[trigger] before[j] == after[j + 1],
        after[i].begin() == before[i].begin(),
        after[i].end() == at,
        after[i + 1].begin() == at,
        after[i + 1].end() == before[i].end(),
        x == at || boundary(before, x),
    ensures
        boundary(after, x),
{
    assert forall|j: int| 0 <= j < after.len() implies !#[trigger] inside(after[j], x) by {
        if j < i {
            assert(after[j] == before[j]);
            if x == at {
                lemma_sorted(before, j, i);
            } else {
                assert(!inside(before[j], x));
            }
        } else if j > i + 1 {
            assert(before[j - 1] == after[j]);
            if x == at {
                lemma_sorted(before, i, j - 1);
                assert(before[j - 1].wf());
            } else {
                assert(!inside(before[j - 1], x));
            }
        } else {
            if x != at {
                assert(!inside(before[i], x));
            }
        }
    }
}

/// Tells whether `a` and `b` are the two parts of `whole` split at page
/// `at`.
pub open spec fn halves(whole: Region, a: Region, b: Region, at: int) -> bool {
    &&& a.begin() == whole.begin()
    &&& a.end() == at
    &&& b.begin() == at
    &&& b.end() == whole.end()
    &&& match whole {
        Region::Gap(_) => a is Gap && b is Gap,
        Region::Mapping(m) => {
            &&& a matches Region::Mapping(ma)
            &&& b matches Region::Mapping(mb)
            &&& ma@ == (MappingView { size: at - m.begin(), ..m@ })
            &&& mb@ == (MappingView {
                begin: at,
                size: m.end() - at,
                flags: m.flags(),
                residence: m@.residence.skip(at - m.begin()),
            })
            &&& forall|k: int| 0 <= k < at - m.begin() ==> #[trigger] ma.frame(k) == m.frame(k)
            &&& forall|k: int|
                0 <= k < m.end() - at ==> #[trigger] mb.frame(k) == m.frame(k + (at - m.begin()))
        },
    }
}

/// What a split does to each page: its frame stays, and its mapping is cut.
proof fn lemma_split_page(before: Seq<Region>, after: Seq<Region>, i: int, at: int, p: int)
    requires
        tiled(before),
        tiled(after),
        0 <= i < before.len(),
        after.len() == before.len() + 1,
        before[i].begin() < at < before[i].end(),
        forall|j: int| 0 <= j < i ==> #[trigger] after[j] == before[j],
        forall|j: int| i < j < before.len() ==> #[trigger] before[j] == after[j + 1],
        halves(before[i], after[i], after[i + 1], at),
    ensures
        frame_in(after, p) == frame_in(before, p),
        mapping_in(after, p) == cut_at(mapping_in(before, p), at, p),
        gap_in(after, p) == cut_gap_at(gap_in(before, p), at, p),
{
    if user_page(p) {
        lemma_covered(before, p);
        let j = index_of(before, p);
        if j < i {
            assert(after[j] == before[j]);
            lemma_at(after, j, p);
            lemma_sorted(before, j, i);
        } else if j > i {
            assert(before[j] == after[j + 1]);
            lemma_at(after, j + 1, p);
            lemma_sorted(before, i, j);
        } else {
            if p < at {
                lemma_at(after, i, p);
            } else {
                lemma_at(after, i + 1, p);
            }
        }
    }
}

/// Merges the gaps that are regions `i` and `i + 1` of `v` into one.
pub fn merge_gaps(v: &mut Vec<Region>, i: usize)
    requires
        tiled(old(v)@),
        i + 1 < old(v)@.len(),
        old(v)@[i as int] is Gap,
        old(v)@[i + 1] is Gap,
    ensures
        tiled(final(v)@),
        final(v)@.len() == old(v)@.len() - 1,
        forall|j: int| 0 <= j < i ==> #[trigger] final(v)@[j] == old(v)@[j],
        forall|j: int| i < j < final(v)@.len() ==> #[trigger] final(v)@[j] == old(v)@[j + 1],
        final(v)@[i as int] is Gap,
        final(v)@[i as int].begin() == old(v)@[i as int].begin(),
        final(v)@[i as int].end() == old(v)@[i + 1].end(),
        forall|p: int| #[trigger] frame_in(final(v)@, p) == frame_in(old(v)@, p),
        forall|p: int| #[trigger] mapping_in(final(v)@, p) == mapping_in(old(v)@, p),
{
    let ghost before = v@;
    proof {
        assert(before[i as int].wf());
        assert(before[i + 1].wf());
        assert(joined(before, i as int));
        lemma_bounds(before, i as int);
        lemma_bounds(before, i + 1);
    }
    let n = v.len();
    let begin = v[i].get_begin_page();
    let size = v[i].get_size() + v[i + 1].get_size();
    v.set(i, Region::Gap(MemGap::from_pages(begin, size)));
    let ghost mid = v@;
    let _ = v.remove(i + 1);
    proof {
        mid.remove_ensures(i + 1);
        let after = v@;
        assert forall|j: int| 0 <= j < i implies #[trigger] after[j] == before[j] by {}
        assert forall|j: int| i < j < after.len() implies #[trigger] after[j] == before[j + 1] by {}
        assert forall|j: int| 0 <= j < after.len() implies (#[trigger] after[j]).wf() by {
            if j < i {
                assert(after[j] == before[j]);
            } else if j > i {
                assert(after[j] == before[j + 1]);
            }
        }
        assert forall|j: int| 0 <= j < after.len() - 1 implies #[trigger] joined(after, j) by {
            if j < i - 1 {
                assert(joined(before, j));
                assert(after[j] == before[j]);
                assert(after[j + 1] == before[j + 1]);
            } else if j == i - 1 {
                assert(joined(before, j));
                assert(after[j] == before[j]);
            } else if j == i {
                assert(joined(before, i + 1));
                assert(after[j + 1] == before[j + 2]);
            } else {
                assert(joined(before, j + 1));
                assert(after[j] == before[j + 1]);
                assert(after[j + 1] == before[j + 2]);
            }
        }
        if i > 0 {
            assert(after[0] == before[0]);
        }
        if i < after.len() - 1 {
            assert(after[after.len() - 1] == before[before.len() - 1]);
        }
        assert(tiled(after));
        assert forall|p: int| #[trigger] frame_in(after, p) == frame_in(before, p) by {
            lemma_merge_page(before, after, i as int, p);
        }
        assert forall|p: int| #[trigger] mapping_in(after, p) == mapping_in(before, p) by {
            lemma_merge_page(before, after, i as int, p);
        }
    }
}

/// What the merger of two gaps does to each page: nothing.
proof fn lemma_merge_page(before: Seq<Region>, after: Seq<Region>, i: int, p: int)
    requires
        tiled(before),
        tiled(after),
        0 <= i,
        i + 1 < before.len(),
        after.len() == before.len() - 1,
        before[i] is Gap,
        before[i + 1] is Gap,
        after[i] is Gap,
        after[i].begin() == before[i].begin(),
        after[i].end() == before[i + 1].end(),
        forall|j: int| 0 <= j < i ==> #[trigger] after[j] == before[j],
        forall|j: int| i < j < after.len() ==> #[trigger] after[j] == before[j + 1],
    ensures
        frame_in(after, p) == frame_in(before, p),
        mapping_in(after, p) == mapping_in(before, p),
{
    if user_page(p) {
        lemma_covered(before, p);
        let j = index_of(before, p);
        if j < i {
            assert(after[j] == before[j]);
            lemma_at(after, j, p);
        } else if j > i + 1 {
            assert(after[j - 1] == before[j]);
            lemma_at(after, j - 1, p);
        } else {
            assert(joined(before, i));
            lemma_at(after, i, p);
        }
    }
}

/// Merges the gaps of `v` that follow each other.
pub fn coalesce(v: &mut Vec<Region>)
    requires
        tiled(old(v)@),
    ensures
        tiled(final(v)@),
        coalesced(final(v)@),
        forall|p: int| #[trigger] frame_in(final(v)@, p) == frame_in(old(v)@, p),
        forall|p: int| #[trigger] mapping_in(final(v)@, p) == mapping_in(old(v)@, p),
{
    let mut i: usize = 0;
    while v.len() > 0 && i < v.len() - 1
        invariant
            tiled(v@),
            forall|j: int| 0 <= j < i && j < v@.len() - 1 ==> #[trigger] separated(v@, j),
            forall|p: int| #[trigger] frame_in(v@, p) == frame_in(old(v)@, p),
            forall|p: int| #[trigger] mapping_in(v@, p) == mapping_in(old(v)@, p),
        decreases v@.len() - i,
    {
        let both = match (&v[i], &v[i + 1]) {
            (Region::Gap(_), Region::Gap(_)) => true,
            _ => false,
        };
        if both {
            let ghost before = v@;
            merge_gaps(v, i);
            proof {
                assert forall|j: int| 0 <= j < i && j < v@.len() - 1 implies #[trigger] separated(
                    v@,
                    j,
                ) by {
                    assert(separated(before, j));
                    assert(v@[j] == before[j]);
                    if j + 1 < i {
                        assert(v@[j + 1] == before[j + 1]);
                    }
                }
                assert forall|p: int| #[trigger] frame_in(v@, p) == frame_in(old(v)@, p) by {
                    assert(frame_in(before, p) == frame_in(old(v)@, p));
                }
                assert forall|p: int| #[trigger] mapping_in(v@, p) == mapping_in(old(v)@, p) by {
                    assert(mapping_in(before, p) == mapping_in(old(v)@, p));
                }
            }
        } else {
            i = i + 1;
        }
    }
}

/// Tells whether page `x` lies inside region `r`, its first page apart.
pub open spec fn inside(r: Region, x: int) -> bool {
    r.begin() < x < r.end()
}

/// Tells whether no region of `r` has page `x` inside: a region begins at
/// `x`, or `x` is not a page of the range that a process may use.
pub open spec fn boundary(r: Seq<Region>, x: int) -> bool {
    forall|j: int| 0 <= j < r.len() ==> !#[trigger] inside(r[j], x)
}

/// Splits the region of `v` that has page `at` inside, if there is one.
pub fn split_at(v: &mut Vec<Region>, at: usize)
    requires
        tiled(old(v)@),
    ensures
        tiled(final(v)@),
        boundary(final(v)@, at as int),
        forall|x: int| boundary(old(v)@, x) ==> #[trigger] boundary(final(v)@, x),
        forall|p: int| #[trigger] frame_in(final(v)@, p) == frame_in(old(v)@, p),
        forall|p: int|
            #[trigger] mapping_in(final(v)@, p) == cut_at(mapping_in(old(v)@, p), at as int, p),
        forall|p: int|
            #[trigger] gap_in(final(v)@, p) == cut_gap_at(gap_in(old(v)@, p), at as int, p),
{
    let mut i: usize = 0;
    while i < v.len()
        invariant
            v@ == old(v)@,
            tiled(v@),
            forall|j: int| 0 <= j < i ==> !#[trigger] inside(v@[j], at as int),
        decreases v@.len() - i,
    {
        let begin = v[i].get_begin_page();
        let size = v[i].get_size();
        proof {
            assert(v@[i as int].wf());
            lemma_bounds(v@, i as int);
        }
        if begin < at && at < begin + size {
            split_region(v, i, at);
            return ;
        }
        i = i + 1;
    }
    proof {
        assert forall|p: int| #[trigger] mapping_in(v@, p) == cut_at(
            mapping_in(old(v)@, p),
            at as int,
            p,
        ) by {
            if user_page(p) {
                lemma_covered(v@, p);
                assert(!inside(v@[index_of(v@, p)], at as int));
            }
        }
        assert forall|p: int| #[trigger] gap_in(v@, p) == cut_gap_at(
            gap_in(old(v)@, p),
            at as int,
            p,
        ) by {
            if user_page(p) {
                lemma_covered(v@, p);
                assert(!inside(v@[index_of(v@, p)], at as int));
            }
        }
    }
}

/// Turns the mappings of `v` that lie between pages `lo` and `hi` into gaps.
/// No region may have `lo` or `hi` inside.
pub fn clear_range(v: &mut Vec<Region>, lo: usize, hi: usize)
    requires
        tiled(old(v)@),
        boundary(old(v)@, lo as int),
        boundary(old(v)@, hi as int),
    ensures
        tiled(final(v)@),
        forall|p: int|
            #[trigger] frame_in(final(v)@, p) == if lo <= p < hi {
                None
            } else {
                frame_in(old(v)@, p)
            },
        forall|p: int|
            #[trigger] mapping_in(final(v)@, p) == if lo <= p < hi {
                None
            } else {
                mapping_in(old(v)@, p)
            },
{
    let mut i: usize = 0;
    while i < v.len()
        invariant
            tiled(v@),
            v@.len() == old(v)@.len(),
            forall|j: int|
                0 <= j < v@.len() ==> (#[trigger] v@[j]).begin() == old(v)@[j].begin() && v@[j].end()
                    == old(v)@[j].end(),
            forall|j: int| i <= j < v@.len() ==> #[trigger] v@[j] == old(v)@[j],
            forall|j: int|
                0 <= j < i ==> #[trigger] v@[j] == (if lo <= old(v)@[j].begin() < hi
                    && old(v)@[j] is Mapping {
                    Region::Gap(MemGap::from_pages_spec(old(v)@[j].begin(), old(v)@[j].size()))
                } else {
                    old(v)@[j]
                }),
        decreases v@.len() - i,
    {
        let begin = v[i].get_begin_page();
        let size = v[i].get_size();
        let is_mapping = match &v[i] {
            Region::Mapping(_) => true,
            Region::Gap(_) => false,
        };
        if is_mapping && lo <= begin && begin < hi {
            let ghost before = v@;
            proof {
                assert(before[i as int].wf());
            }
            v.set(i, Region::Gap(MemGap::from_pages(begin, size)));
            proof {
                let after = v@;
                assert forall|j: int| 0 <= j < after.len() implies (#[trigger] after[j]).wf() by {
                    if j != i {
                        assert(after[j] == before[j]);
                        assert(before[j].wf());
                    }
                }
                assert forall|j: int| 0 <= j < after.len() - 1 implies #[trigger] joined(
                    after,
                    j,
                ) by {
                    assert(joined(before, j));
                }
            }
        }
        i = i + 1;
    }
    proof {
        let before = old(v)@;
        let after = v@;
        assert forall|p: int| #[trigger] frame_in(after, p) == if lo <= p < hi {
            None
        } else {
            frame_in(before, p)
        } by {
            lemma_clear_page(before, after, lo as int, hi as int, p);
        }
        assert forall|p: int| #[trigger] mapping_in(after, p) == if lo <= p < hi {
            None
        } else {
            mapping_in(before, p)
        } by {
            lemma_clear_page(before, after, lo as int, hi as int, p);
        }
    }
}

/// What turning the mappings between `lo` and `hi` into gaps does to each
/// page.
proof fn lemma_clear_page(before: Seq<Region>, after: Seq<Region>, lo: int, hi: int, p: int)
    requires
        tiled(before),
        tiled(after),
        boundary(before, lo),
        boundary(before, hi),
        after.len() == before.len(),
        forall|j: int|
            0 <= j < before.len() ==> #[trigger] after[j] == (if lo <= before[j].begin() < hi
                && before[j] is Mapping {
                Region::Gap(MemGap::from_pages_spec(before[j].begin(), before[j].size()))
            } else {
                before[j]
            }),
    ensures
        frame_in(after, p) == if lo <= p < hi {
            None
        } else {
            frame_in(before, p)
        },
        mapping_in(after, p) == if lo <= p < hi {
            None
        } else {
            mapping_in(before, p)
        },
{
    if user_page(p) {
        lemma_covered(before, p);
        let j = index_of(before, p);
        assert(!inside(before[j], lo));
        assert(!inside(before[j], hi));
        assert(before[j].wf());
        let a = after[j];
        MemGap::lemma_from_pages(before[j].begin(), before[j].size());
        assert(a.begin() == before[j].begin() && a.end() == before[j].end());
        lemma_at(after, j, p);
        if lo <= p < hi {
            // The region lies between `lo` and `hi`: it is a gap by now.
            assert(lo <= before[j].begin() < hi);
        } else {
            assert(!(lo <= before[j].begin() < hi) || before[j].begin() == before[j].end());
        }
    }
}

/// Tells whether page `p` is materialized in `r` and has frame `f`.
pub open spec fn holds(r: Seq<Region>, p: int, f: int) -> bool {
    frame_in(r, p) matches Some(x) && x == f
}

/// The number of pages between `lo` and `hi` that have frame `f` in `r`.
pub open spec fn refs_in(r: Seq<Region>, f: int, lo: int, hi: int) -> nat
    decreases hi - lo,
{
    if hi <= lo {
        0
    } else {
        refs_in(r, f, lo, hi - 1) + if holds(r, hi - 1, f) {
            1nat
        } else {
            0nat
        }
    }
}

/// The pages of a range that have a frame are those of its two parts.
pub proof fn lemma_refs_split(r: Seq<Region>, f: int, lo: int, mid: int, hi: int)
    requires
        lo <= mid <= hi,
    ensures
        refs_in(r, f, lo, hi) == refs_in(r, f, lo, mid) + refs_in(r, f, mid, hi),
    decreases hi - mid,
{
    if mid < hi {
        lemma_refs_split(r, f, lo, mid, hi - 1);
    }
}

/// Two lists in which the pages of a range have the same frames have as many
/// pages with a given frame in that range.
pub proof fn lemma_refs_same(r1: Seq<Region>, r2: Seq<Region>, f: int, lo: int, hi: int)
    requires
        forall|p: int| lo <= p < hi ==> #[trigger] frame_in(r1, p) == frame_in(r2, p),
    ensures
        refs_in(r1, f, lo, hi) == refs_in(r2, f, lo, hi),
    decreases hi - lo,
{
    if lo < hi {
        lemma_refs_same(r1, r2, f, lo, hi - 1);
        assert(frame_in(r1, hi - 1) == frame_in(r2, hi - 1));
    }
}

/// A range in which no page has frame `f` counts no page for it.
pub proof fn lemma_refs_none(r: Seq<Region>, f: int, lo: int, hi: int)
    requires
        forall|p: int| lo <= p < hi ==> !#[trigger] holds(r, p, f),
    ensures
        refs_in(r, f, lo, hi) == 0,
    decreases hi - lo,
{
    if lo < hi {
        lemma_refs_none(r, f, lo, hi - 1);
        assert(!holds(r, hi - 1, f));
    }
}

/// A range counts no more pages for a frame than it has pages.
pub proof fn lemma_refs_most(r: Seq<Region>, f: int, lo: int, hi: int)
    requires
        lo <= hi,
    ensures
        refs_in(r, f, lo, hi) <= hi - lo,
    decreases hi - lo,
{
    if lo < hi {
        lemma_refs_most(r, f, lo, hi - 1);
    }
}

/// A range that holds page `p`, which has frame `f`, counts one page at
/// least for it.
pub proof fn lemma_refs_one(r: Seq<Region>, f: int, lo: int, hi: int, p: int)
    requires
        lo <= p < hi,
        holds(r, p, f),
    ensures
        refs_in(r, f, lo, hi) >= refs_in(r, f, lo, p) + 1,
{
    lemma_refs_split(r, f, lo, p, hi);
    lemma_refs_split(r, f, p, p + 1, hi);
    assert(refs_in(r, f, p, p + 1) == refs_in(r, f, p, p) + 1);
}

/// What the change of the frame of one page does to the count of the pages
/// that have frame `f`.
pub proof fn lemma_refs_update(r1: Seq<Region>, r2: Seq<Region>, f: int, lo: int, hi: int, p: int)
    requires
        lo <= p < hi,
        forall|q: int| lo <= q < hi && q != p ==> #[trigger] frame_in(r1, q) == frame_in(r2, q),
    ensures
        refs_in(r2, f, lo, hi) + (if holds(r1, p, f) {
            1nat
        } else {
            0nat
        }) == refs_in(r1, f, lo, hi) + (if holds(r2, p, f) {
            1nat
        } else {
            0nat
        }),
{
    lemma_refs_split(r1, f, lo, p, hi);
    lemma_refs_split(r1, f, p, p + 1, hi);
    lemma_refs_split(r2, f, lo, p, hi);
    lemma_refs_split(r2, f, p, p + 1, hi);
    lemma_refs_same(r1, r2, f, lo, p);
    lemma_refs_same(r1, r2, f, p + 1, hi);
    assert(refs_in(r1, f, p, p + 1) == refs_in(r1, f, p, p) + if holds(r1, p, f) {
        1nat
    } else {
        0nat
    });
    assert(refs_in(r2, f, p, p + 1) == refs_in(r2, f, p, p) + if holds(r2, p, f) {
        1nat
    } else {
        0nat
    });
}

/// Tells whether the mapping `m`, if any, is anonymous.
pub open spec fn anonymous(m: Option<MappingView>) -> bool {
    m matches Some(v) && v.residence is Normal
}

/// Tells whether the reference that page `q` holds is the last one of frame
/// `x`, when the references of the pages from `lo` on are dropped in order,
/// and the page belongs to an anonymous mapping.
pub open spec fn drops_frame(r: Seq<Region>, refs: &PhysRefCounter, x: int, lo: int, q: int) -> bool {
    &&& holds(r, q, x)
    &&& anonymous(mapping_in(r, q))
    &&& refs.count(x) == refs_in(r, x, lo, q + 1)
}

/// Tells whether one of the pages between `lo` and `hi` holds the last
/// reference of frame `x`, when their references are dropped in order, and
/// belongs to an anonymous mapping.
pub open spec fn dropped_in(r: Seq<Region>, refs: &PhysRefCounter, x: int, lo: int, hi: int) -> bool
    decreases hi - lo,
{
    if hi <= lo {
        false
    } else {
        dropped_in(r, refs, x, lo, hi - 1) || drops_frame(r, refs, x, lo, hi - 1)
    }
}

/// A frame whose references are all held by pages between `lo` and `hi`,
/// each one of an anonymous mapping, loses its last reference to one of them.
pub proof fn lemma_dropped(r: Seq<Region>, refs: &PhysRefCounter, x: int, lo: int, hi: int)
    requires
        refs.count(x) > 0,
        refs.count(x) == refs_in(r, x, lo, hi),
        forall|q: int| lo <= q < hi && #[trigger] holds(r, q, x) ==> anonymous(mapping_in(r, q)),
    ensures
        dropped_in(r, refs, x, lo, hi),
    decreases hi - lo,
{
    if lo < hi {
        if holds(r, hi - 1, x) {
            assert(drops_frame(r, refs, x, lo, hi - 1));
        } else {
            lemma_dropped(r, refs, x, lo, hi - 1);
        }
    }
}

/// A frame that loses its last reference between `lo` and `hi` loses it to
/// a page of that range, which is returned.
pub proof fn lemma_dropped_page(r: Seq<Region>, refs: &PhysRefCounter, x: int, lo: int, hi: int) -> (q:
    int)
    requires
        dropped_in(r, refs, x, lo, hi),
    ensures
        lo <= q < hi,
        drops_frame(r, refs, x, lo, q),
    decreases hi - lo,
{
    if drops_frame(r, refs, x, lo, hi - 1) {
        hi - 1
    } else {
        lemma_dropped_page(r, refs, x, lo, hi - 1)
    }
}

/// Returns the index of the region of `v` that holds page number `p`.
pub fn locate(v: &Vec<Region>, p: usize) -> (i: usize)
    requires
        tiled(v@),
        user_page(p as int),
    ensures
        covers(v@, i as int, p as int),
        i == index_of(v@, p as int),
{
    let mut i: usize = 0;
    let n = v.len();
    loop
        invariant
            tiled(v@),
            n == v@.len(),
            0 <= i < v@.len(),
            v@[i as int].begin() <= p < PROCESS_END_PAGE,
        ensures
            covers(v@, i as int, p as int),
        decreases v@.len() - i,
    {
        let r = &v[i];
        assert(v@[i as int].wf());
        if p < r.get_begin_page() + r.get_size() {
            break ;
        }
        assert(i < v@.len() - 1);
        assert(joined(v@, i as int));
        i = i + 1;
    }
    proof {
        lemma_index(v@, i as int, p as int);
    }
    i
}

/// Returns the frame of page number `p` of `v`, if the page is materialized.
pub fn page_frame(v: &Vec<Region>, p: usize) -> (f: Option<usize>)
    requires
        tiled(v@),
        user_page(p as int),
    ensures
        f == frame_in(v@, p as int),
{
    let i = locate(v, p);
    proof {
        lemma_at(v@, i as int, p as int);
    }
    match &v[i] {
        Region::Mapping(m) => m.get_frame(p - m.get_begin_page()),
        Region::Gap(_) => None,
    }
}

/// Returns the number of pages of `v` between `lo` and `hi` that have frame
/// number `f`.
pub fn count_pages(v: &Vec<Region>, f: usize, lo: usize, hi: usize) -> (n: usize)
    requires
        tiled(v@),
        ALLOC_BEGIN_PAGE <= lo <= hi <= PROCESS_END_PAGE,
    ensures
        n == refs_in(v@, f as int, lo as int, hi as int),
{
    let mut n: usize = 0;
    let mut p: usize = lo;
    while p < hi
        invariant
            tiled(v@),
            ALLOC_BEGIN_PAGE <= lo <= p <= hi <= PROCESS_END_PAGE,
            n == refs_in(v@, f as int, lo as int, p as int),
            n <= p - lo,
        decreases hi - p,
    {
        let found = match page_frame(v, p) {
            Some(x) => x == f,
            None => false,
        };
        assert(found == holds(v@, p as int, f as int));
        assert(refs_in(v@, f as int, lo as int, p + 1) == refs_in(v@, f as int, lo as int, p as int)
            + if holds(v@, p as int, f as int) {
            1nat
        } else {
            0nat
        });
        if found {
            n = n + 1;
        }
        p = p + 1;
    }
    n
}

/// In a tiling in which no two gaps follow each other, a run of pages that
/// belong to no mapping lies in one gap.
pub proof fn lemma_gap_run(r: Seq<Region>, b: int, n: int)
    requires
        tiled(r),
        coalesced(r),
        n > 0,
        user_page(b),
        user_page(b + n - 1),
        forall|p: int| b <= p < b + n ==> #[trigger] mapping_in(r, p) is None,
    ensures
        gap_in(r, b) matches Some((g, s)) && g <= b && b + n <= g + s,
    decreases n,
{
    lemma_covered(r, b);
    let i = index_of(r, b);
    assert(mapping_in(r, b) is None);
    if n > 1 {
        lemma_gap_run(r, b, n - 1);
        let last = b + n - 1;
        if last >= r[i].end() {
            // The page begins the next region, which is a gap as well.
            assert(joined(r, i));
            assert(r[i + 1].wf());
            lemma_at(r, i + 1, last);
            assert(mapping_in(r, last) is None);
            assert(separated(r, i));
        }
    }
}

/// Tells whether the mapping of region `i` of `after` has the range and the
/// frames of the one of `before`, but for the frame of page `p`, and the
/// other regions are the same.
pub open spec fn frame_set(before: Seq<Region>, after: Seq<Region>, i: int, p: int) -> bool {
    &&& after.len() == before.len()
    &&& forall|j: int| 0 <= j < before.len() && j != i ==> #[trigger] after[j] == before[j]
    &&& before[i] matches Region::Mapping(m0)
    &&& after[i] matches Region::Mapping(m1)
    &&& m1@ == m0@
    &&& m1.wf()
    &&& forall|k: int| k != p - m0.begin() ==> #[trigger] m1.frame(k) == m0.frame(k)
}

/// What the change of the frame of one page does to each page.
pub proof fn lemma_frame_set(before: Seq<Region>, after: Seq<Region>, i: int, p: int)
    requires
        tiled(before),
        covers(before, i, p),
        frame_set(before, after, i, p),
    ensures
        tiled(after),
        coalesced(before) ==> coalesced(after),
        after[i] matches Region::Mapping(m) && frame_in(after, p) == m.frame(p - m.begin()),
        forall|q: int| q != p ==> #[trigger] frame_in(after, q) == frame_in(before, q),
        forall|q: int| #[trigger] mapping_in(after, q) == mapping_in(before, q),
        forall|q: int| #[trigger] gap_in(after, q) == gap_in(before, q),
{
    assert forall|j: int| 0 <= j < after.len() implies (#[trigger] after[j]).wf() by {
        if j != i {
            assert(after[j] == before[j]);
            assert(before[j].wf());
        }
    }
    assert forall|j: int| 0 <= j < after.len() - 1 implies #[trigger] joined(after, j) by {
        assert(joined(before, j));
    }
    if coalesced(before) {
        assert forall|j: int| 0 <= j < after.len() - 1 implies #[trigger] separated(after, j) by {
            assert(separated(before, j));
        }
    }
    lemma_at(after, i, p);
    assert forall|q: int| q != p implies #[trigger] frame_in(after, q) == frame_in(before, q) by {
        if user_page(q) {
            lemma_covered(before, q);
            lemma_at(after, index_of(before, q), q);
        }
    }
    assert forall|q: int| #[trigger] mapping_in(after, q) == mapping_in(before, q) by {
        if user_page(q) {
            lemma_covered(before, q);
            lemma_at(after, index_of(before, q), q);
        }
    }
    assert forall|q: int| #[trigger] gap_in(after, q) == gap_in(before, q) by {
        if user_page(q) {
            lemma_covered(before, q);
            lemma_at(after, index_of(before, q), q);
        }
    }
}

/// Records that page number `p` of `v`, which belongs to a mapping, has
/// frame `frame`, or none.
pub fn set_page_frame(v: &mut Vec<Region>, p: usize, frame: Option<usize>)
    requires
        tiled(old(v)@),
        mapping_in(old(v)@, p as int) is Some,
        frame matches Some(f) ==> f < crate::memory::ADDRESSABLE_PAGES,
    ensures
        tiled(final(v)@),
        coalesced(old(v)@) ==> coalesced(final(v)@),
        frame_in(final(v)@, p as int) == frame,
        forall|q: int| q != p ==> #[trigger] frame_in(final(v)@, q) == frame_in(old(v)@, q),
        forall|q: int| #[trigger] mapping_in(final(v)@, q) == mapping_in(old(v)@, q),
        forall|q: int| #[trigger] gap_in(final(v)@, q) == gap_in(old(v)@, q),
{
    let i = locate(v, p);
    proof {
        lemma_at(v@, i as int, p as int);
        assert(v@[i as int].wf());
    }
    match &mut v[i] {
        Region::Mapping(m) => {
            let begin = m.get_begin_page();
            m.set_frame(p - begin, frame);
        },
        Region::Gap(_) => {},
    }
    proof {
        assert(frame_set(old(v)@, v@, i as int, p as int));
        lemma_frame_set(old(v)@, v@, i as int, p as int);
    }
}

/// Tells whether region `j` of `r` is a gap of `pages` pages at least that
/// begins at page `min` or after it.
pub open spec fn fits(r: Seq<Region>, j: int, pages: int, min: int) -> bool {
    0 <= j < r.len() && r[j] is Gap && r[j].size() >= pages && r[j].begin() >= min
}

/// Looks for the smallest gap of `v` that has `pages` pages at least and
/// begins at page `min` or after it; of several such gaps of the same size,
/// the first one is chosen.
pub fn find_gap(v: &Vec<Region>, pages: usize, min: usize) -> (r: Option<usize>)
    requires
        tiled(v@),
    ensures
        match r {
            Some(i) => {
                &&& fits(v@, i as int, pages as int, min as int)
                &&& forall|j: int| #[trigger]
                    fits(v@, j, pages as int, min as int) ==> v@[i as int].size() < v@[j].size() || (
                    v@[i as int].size() == v@[j].size() && i <= j)
            },
            None => forall|j: int| !#[trigger] fits(v@, j, pages as int, min as int),
        },
{
    let mut best: Option<usize> = None;
    let mut j: usize = 0;
    while j < v.len()
        invariant
            j <= v@.len(),
            match best {
                Some(i) => {
                    &&& i < j
                    &&& fits(v@, i as int, pages as int, min as int)
                    &&& forall|k: int|
                        0 <= k < j && #[trigger] fits(v@, k, pages as int, min as int) ==> v@[i as int].size()
                            < v@[k].size() || (v@[i as int].size() == v@[k].size() && i <= k)
                },
                None => forall|k: int| 0 <= k < j ==> !#[trigger] fits(v@, k, pages as int, min as int),
            },
        decreases v@.len() - j,
    {
        let fit = match &v[j] {
            Region::Gap(g) => g.get_size() >= pages && g.get_begin_page() >= min,
            Region::Mapping(_) => false,
        };
        if fit {
            let better = match best {
                Some(i) => v[j].get_size() < v[i].get_size(),
                None => true,
            };
            if better {
                best = Some(j);
            }
        }
        j = j + 1;
    }
    best
}

/// Makes a mapping of the `pages` pages from page number `b` on, which lie
/// in one gap of `v`. No page of the mapping is materialized.
pub fn carve(v: &mut Vec<Region>, b: usize, pages: usize, flags: u8, residence: MapResidence)
    requires
        tiled(old(v)@),
        pages > 0,
        gap_in(old(v)@, b as int) matches Some((g, s)) && g <= b && b + pages <= g + s,
    ensures
        tiled(final(v)@),
        coalesced(final(v)@),
        forall|p: int| #[trigger] frame_in(final(v)@, p) == frame_in(old(v)@, p),
        forall|p: int|
            #[trigger] mapping_in(final(v)@, p) == if b <= p < b + pages {
                Some(
                    MappingView {
                        begin: b as int,
                        size: pages as int,
                        flags,
                        residence: residence@,
                    },
                )
            } else {
                mapping_in(old(v)@, p)
            },
{
    proof {
        lemma_covered(v@, b as int);
        lemma_bounds(v@, index_of(v@, b as int));
    }
    split_at(v, b);
    split_at(v, b + pages);
    let ghost mid = v@;
    let i = locate(v, b);
    proof {
        lemma_at(mid, i as int, b as int);
        assert(gap_in(mid, b as int) == Some((b as int, pages as int)));
    }
    v.set(i, Region::Mapping(MemMapping::new(b, pages, flags, residence)));
    proof {
        let after = v@;
        assert forall|j: int| 0 <= j < after.len() implies (#[trigger] after[j]).wf() by {
            if j != i {
                assert(after[j] == mid[j]);
                assert(mid[j].wf());
            }
        }
        assert forall|j: int| 0 <= j < after.len() - 1 implies #[trigger] joined(after, j) by {
            assert(joined(mid, j));
        }
        assert(tiled(after));
        assert forall|p: int| #[trigger] frame_in(after, p) == frame_in(old(v)@, p) by {
            lemma_carve_page(old(v)@, mid, after, i as int, b as int, pages as int, p);
        }
        assert forall|p: int| #[trigger] mapping_in(after, p) == (if b <= p < b + pages {
            after[i as int].mapping()
        } else {
            mapping_in(old(v)@, p)
        }) by {
            lemma_carve_page(old(v)@, mid, after, i as int, b as int, pages as int, p);
        }
    }
    coalesce(v);
}

/// What the making of a mapping out of a gap does to each page.
proof fn lemma_carve_page(
    before: Seq<Region>,
    mid: Seq<Region>,
    after: Seq<Region>,
    i: int,
    b: int,
    pages: int,
    p: int,
)
    requires
        tiled(before),
        tiled(mid),
        tiled(after),
        pages > 0,
        gap_in(before, b) matches Some((g, s)) && g <= b && b + pages <= g + s,
        user_page(b),
        frame_in(mid, p) == frame_in(before, p),
        mapping_in(mid, p) == cut_at(cut_at(mapping_in(before, p), b, p), b + pages, p),
        gap_in(mid, b) == Some((b, pages)),
        covers(mid, i, b),
        after.len() == mid.len(),
        forall|j: int| 0 <= j < mid.len() && j != i ==> #[trigger] after[j] == mid[j],
        after[i] matches Region::Mapping(m) && m.begin() == b && m.size() == pages && (forall|
            k: int,
        | #[trigger] m.frame(k).is_none()),
    ensures
        frame_in(after, p) == frame_in(before, p),
        mapping_in(after, p) == (if b <= p < b + pages {
            after[i].mapping()
        } else {
            mapping_in(before, p)
        }),
{
    lemma_at(mid, i, b);
    lemma_covered(before, b);
    let i0 = index_of(before, b);
    lemma_bounds(before, i0);
    lemma_bounds(mid, i);
    assert(before[i0].gap() == gap_in(before, b));
    assert(mid[i].gap() == Some((b, pages)));
    if user_page(p) {
        lemma_covered(mid, p);
        let j = index_of(mid, p);
        lemma_at(after, j, p);
        lemma_covered(before, p);
        let j0 = index_of(before, p);
        if j != i {
            if j < i {
                lemma_sorted(mid, j, i);
            } else {
                lemma_sorted(mid, i, j);
            }
            assert(!(b <= p < b + pages));
            // The mappings of the other regions have no page in the gap,
            // so that the splits left them whole.
            if j0 == i0 {
                assert(mapping_in(before, p) is None);
            } else {
                if j0 < i0 {
                    lemma_sorted(before, j0, i0);
                } else {
                    lemma_sorted(before, i0, j0);
                }
                match before[j0] {
                    Region::Mapping(m) => {
                        assert(!(m.begin() < b < m.end()));
                        assert(!(m.begin() < b + pages < m.end()));
                        assert(mapping_in(before, p) == Some(m@));
                        assert(cut_at(Some(m@), b, p) == Some(m@));
                    },
                    Region::Gap(_) => {},
                }
            }
        } else {
            let m = after[i]->Mapping_0;
            assert(m.frame(p - m.begin()).is_none());
            assert(frame_in(mid, p).is_none());
        }
    }
}

/// Tells whether region `b` has the range, the kind, the mapping and the
/// frames of region `a`.
pub open spec fn same_region(a: Region, b: Region) -> bool {
    &&& b.begin() == a.begin()
    &&& b.size() == a.size()
    &&& b.wf() == a.wf()
    &&& b is Gap == a is Gap
    &&& b.mapping() == a.mapping()
    &&& forall|p: int| #[trigger] b.frame_of(p) == a.frame_of(p)
}

/// Two lists whose regions are the same, one for one, hold the same pages.
pub proof fn lemma_same_regions(r0: Seq<Region>, r1: Seq<Region>)
    requires
        tiled(r0),
        r1.len() == r0.len(),
        forall|j: int| 0 <= j < r0.len() ==> #[trigger] same_region(r0[j], r1[j]),
    ensures
        tiled(r1),
        coalesced(r0) ==> coalesced(r1),
        forall|p: int| #[trigger] frame_in(r1, p) == frame_in(r0, p),
        forall|p: int| #[trigger] mapping_in(r1, p) == mapping_in(r0, p),
        forall|p: int| #[trigger] gap_in(r1, p) == gap_in(r0, p),
{
    assert(same_region(r0[0], r1[0]));
    assert(same_region(r0[r0.len() - 1], r1[r0.len() - 1]));
    assert forall|j: int| 0 <= j < r1.len() implies (#[trigger] r1[j]).wf() by {
        assert(same_region(r0[j], r1[j]));
        assert(r0[j].wf());
    }
    assert forall|j: int| 0 <= j < r1.len() - 1 implies #[trigger] joined(r1, j) by {
        assert(same_region(r0[j], r1[j]));
        assert(same_region(r0[j + 1], r1[j + 1]));
        assert(joined(r0, j));
    }
    if coalesced(r0) {
        assert forall|j: int| 0 <= j < r1.len() - 1 implies #[trigger] separated(r1, j) by {
            assert(same_region(r0[j], r1[j]));
            assert(same_region(r0[j + 1], r1[j + 1]));
            assert(separated(r0, j));
        }
    }
    assert forall|p: int| #[trigger] frame_in(r1, p) == frame_in(r0, p) by {
        if user_page(p) {
            lemma_covered(r0, p);
            let j = index_of(r0, p);
            assert(same_region(r0[j], r1[j]));
            lemma_at(r1, j, p);
        }
    }
    assert forall|p: int| #[trigger] mapping_in(r1, p) == mapping_in(r0, p) by {
        if user_page(p) {
            lemma_covered(r0, p);
            let j = index_of(r0, p);
            assert(same_region(r0[j], r1[j]));
            lemma_at(r1, j, p);
        }
    }
    assert forall|p: int| #[trigger] gap_in(r1, p) == gap_in(r0, p) by {
        if user_page(p) {
            lemma_covered(r0, p);
            let j = index_of(r0, p);
            assert(same_region(r0[j], r1[j]));
            lemma_at(r1, j, p);
        }
    }
}

/// Creates a copy of the list of regions `v`.
pub fn duplicate_regions(v: &Vec<Region>) -> (r: Vec<Region>)
    requires
        tiled(v@),
    ensures
        tiled(r@),
        coalesced(v@) ==> coalesced(r@),
        r@.len() == v@.len(),
        forall|j: int| 0 <= j < v@.len() ==> #[trigger] same_region(v@[j], r@[j]),
        forall|p: int| #[trigger] frame_in(r@, p) == frame_in(v@, p),
        forall|p: int| #[trigger] mapping_in(r@, p) == mapping_in(v@, p),
        forall|p: int| #[trigger] gap_in(r@, p) == gap_in(v@, p),
{
    let mut r: Vec<Region> = Vec::new();
    let mut j: usize = 0;
    while j < v.len()
        invariant
            tiled(v@),
            j <= v@.len(),
            r@.len() == j,
            forall|k: int| 0 <= k < j ==> #[trigger] same_region(v@[k], r@[k]),
        decreases v@.len() - j,
    {
        proof {
            assert(v@[j as int].wf());
        }
        let copy = match &v[j] {
            Region::Gap(g) => Region::Gap(MemGap::from_pages(g.get_begin_page(), g.get_size())),
            Region::Mapping(m) => Region::Mapping(m.duplicate()),
        };
        assert(same_region(v@[j as int], copy));
        r.push(copy);
        j = j + 1;
    }
    proof {
        lemma_same_regions(v@, r@);
    }
    r
}

} // verus!
