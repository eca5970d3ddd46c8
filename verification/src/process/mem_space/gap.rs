//! A gap is a region of the virtual memory of a process which is available
//! for allocation.

use vstd::prelude::*;
use crate::limits::PAGE_SIZE;
use crate::memory::{VirtAddr, ADDRESSABLE_PAGES};

verus! {

/// A contiguous run of free pages of virtual memory.
#[derive(Clone, Copy, Debug, PartialEq, Eq, Structural)]
pub struct MemGap {
    /// The number of the first page of the gap.
    begin: usize,
    /// The size of the gap in pages.
    size: usize,
}

impl MemGap {
    /// The number of the first page of the gap.
    pub closed spec fn begin(&self) -> int {
        self.begin as int
    }

    /// The size of the gap in pages.
    pub closed spec fn size(&self) -> int {
        self.size as int
    }

    /// The number of the page at which the gap ends.
    pub open spec fn end(&self) -> int {
        self.begin() + self.size()
    }

    /// The gap's invariant: it is not empty and lies in what paging can
    /// address.
    pub open spec fn wf(&self) -> bool {
        self.size() > 0 && self.end() <= ADDRESSABLE_PAGES
    }

    /// Creates the gap of `size` pages that begins at the page of address
    /// `begin`.
    pub fn new(begin: VirtAddr, size: usize) -> (g: Self)
        ensures
            g.begin() == begin.0 as int / PAGE_SIZE as int,
            g.size() == size,
    {
        MemGap { begin: begin.0 / PAGE_SIZE, size }
    }

    /// The gap of `size` pages that begins at page number `begin`.
    pub closed spec fn from_pages_spec(begin: int, size: int) -> MemGap {
        MemGap { begin: begin as usize, size: size as usize }
    }

    /// The range of the gap that [`Self::from_pages_spec`] gives.
    pub proof fn lemma_from_pages(begin: int, size: int)
        requires
            0 <= begin <= usize::MAX,
            0 <= size <= usize::MAX,
        ensures
            Self::from_pages_spec(begin, size).begin() == begin,
            Self::from_pages_spec(begin, size).size() == size,
    {
    }

    /// Creates the gap of `size` pages that begins at page number `begin`.
    pub fn from_pages(begin: usize, size: usize) -> (g: Self)
        ensures
            g == Self::from_pages_spec(begin as int, size as int),
            g.begin() == begin,
            g.size() == size,
    {
        MemGap { begin, size }
    }

    /// Returns the address of the beginning of the gap.
    pub fn get_begin(&self) -> (a: VirtAddr)
        requires
            self.wf(),
        ensures
            a.0 == self.begin() * PAGE_SIZE,
    {
        VirtAddr(self.begin * PAGE_SIZE)
    }

    /// Returns the number of the first page of the gap.
    pub fn get_begin_page(&self) -> (p: usize)
        ensures
            p == self.begin(),
    {
        self.begin
    }

    /// Returns the size of the gap in pages.
    pub fn get_size(&self) -> (s: usize)
        ensures
            s == self.size(),
    {
        self.size
    }

    /// Creates the gap that is left when the first `size` pages of this one
    /// are taken: `None` if nothing is left.
    pub fn consume(&self, size: usize) -> (rest: Option<MemGap>)
        requires
            self.wf(),
            size <= self.size(),
        ensures
            size == self.size() ==> rest.is_none(),
            size < self.size() ==> (rest matches Some(g) && g.begin() == self.begin() + size
                && g.size() == self.size() - size && g.wf()),
    {
        if size < self.size {
            Some(MemGap { begin: self.begin + size, size: self.size - size })
        } else {
            None
        }
    }
}

} // verus!
