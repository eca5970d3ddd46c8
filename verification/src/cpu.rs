//! The state of the processor that memory management depends on: the bound
//! page directory, the translation lookaside buffer and the protection
//! switches.

use vstd::prelude::*;
use crate::memory::PhysAddr;
use crate::memory::vmem::x86::Entry;

verus! {

/// The number of slots in the translation lookaside buffer.
pub const TLB_SLOTS: usize = 64;

/// A translation kept in the lookaside buffer.
#[derive(Clone, Copy, Debug, PartialEq, Eq, Structural)]
pub struct Cached {
    /// The number of the page.
    pub page: usize,
    /// The entry that the page had when it was last looked up.
    pub entry: Entry,
}

/// The processor.
pub struct Cpu {
    page_dir: Option<PhysAddr>,
    tlb: Vec<Option<Cached>>,
    write_protected: bool,
    smap: bool,
    interrupts: bool,
}

impl Cpu {
    /// The processor's invariant.
    pub closed spec fn wf(&self) -> bool {
        &&& self.tlb@.len() == TLB_SLOTS
        &&& forall|i: int|
            0 <= i < TLB_SLOTS ==> (#[trigger] self.tlb@[i] matches Some(c) ==> c.page % TLB_SLOTS
                == i)
    }

    /// The page directory that the processor translates through, if any.
    pub closed spec fn page_dir(&self) -> Option<PhysAddr> {
        self.page_dir
    }

    /// The entry that the lookaside buffer holds for page `page`, if any.
    pub closed spec fn cached(&self, page: int) -> Option<Entry> {
        match self.tlb@[page % TLB_SLOTS as int] {
            Some(c) => if c.page == page {
                Some(c.entry)
            } else {
                None
            },
            None => None,
        }
    }

    /// Whether the kernel is denied writes to read-only pages.
    pub closed spec fn write_protected(&self) -> bool {
        self.write_protected
    }

    /// Whether the kernel is denied access to userspace pages.
    pub closed spec fn smap_enabled(&self) -> bool {
        self.smap
    }

    /// Whether interrupts are enabled.
    pub closed spec fn interrupts_enabled(&self) -> bool {
        self.interrupts
    }

    /// Tells whether `other` differs from this state in the lookaside buffer
    /// at most.
    pub open spec fn same_switches(&self, other: &Cpu) -> bool {
        &&& self.page_dir() == other.page_dir()
        &&& self.write_protected() == other.write_protected()
        &&& self.smap_enabled() == other.smap_enabled()
        &&& self.interrupts_enabled() == other.interrupts_enabled()
    }

    /// Creates a processor with no page directory bound, an empty lookaside
    /// buffer, all protections on and interrupts enabled.
    pub fn new() -> (cpu: Self)
        ensures
            cpu.wf(),
            cpu.page_dir().is_none(),
            forall|p: int| #[trigger] cpu.cached(p).is_none(),
            cpu.write_protected(),
            cpu.smap_enabled(),
            cpu.interrupts_enabled(),
    {
        let mut tlb: Vec<Option<Cached>> = Vec::new();
        let mut i: usize = 0;
        while i < TLB_SLOTS
            invariant
                i <= TLB_SLOTS,
                tlb@.len() == i,
                forall|j: int| 0 <= j < i ==> #[trigger] tlb@[j] is None,
            decreases TLB_SLOTS - i,
        {
            tlb.push(None);
            i = i + 1;
        }
        Cpu { page_dir: None, tlb, write_protected: true, smap: true, interrupts: true }
    }

    /// Returns the page directory that the processor translates through.
    pub fn get_page_dir(&self) -> (r: Option<PhysAddr>)
        ensures
            r == self.page_dir(),
    {
        self.page_dir
    }

    /// Makes the processor translate through the page directory at `root`.
    /// The lookaside buffer is emptied.
    pub fn set_page_dir(&mut self, root: PhysAddr)
        requires
            old(self).wf(),
        ensures
            final(self).wf(),
            final(self).page_dir() == Some(root),
            forall|p: int| #[trigger] final(self).cached(p).is_none(),
            final(self).write_protected() == old(self).write_protected(),
            final(self).smap_enabled() == old(self).smap_enabled(),
            final(self).interrupts_enabled() == old(self).interrupts_enabled(),
    {
        self.page_dir = Some(root);
        self.flush();
    }

    /// Makes the processor translate through no page directory. The lookaside
    /// buffer is emptied.
    pub fn unbind(&mut self)
        requires
            old(self).wf(),
        ensures
            final(self).wf(),
            final(self).page_dir().is_none(),
            forall|p: int| #[trigger] final(self).cached(p).is_none(),
            final(self).write_protected() == old(self).write_protected(),
            final(self).smap_enabled() == old(self).smap_enabled(),
            final(self).interrupts_enabled() == old(self).interrupts_enabled(),
    {
        self.page_dir = None;
        self.flush();
    }

    /// Forgets the translation of page number `page`.
    pub fn invalidate(&mut self, page: usize)
        requires
            old(self).wf(),
        ensures
            final(self).wf(),
            final(self).same_switches(old(self)),
            final(self).cached(page as int).is_none(),
            forall|p: int| p != page ==> #[trigger] final(self).cached(p) == old(self).cached(p),
    {
        let i = page % TLB_SLOTS;
        let hit = match self.tlb[i] {
            Some(c) => c.page == page,
            None => false,
        };
        if hit {
            self.tlb.set(i, None);
        }
    }

    /// Forgets every translation.
    pub fn flush(&mut self)
        requires
            old(self).wf(),
        ensures
            final(self).wf(),
            final(self).same_switches(old(self)),
            forall|p: int| #[trigger] final(self).cached(p).is_none(),
    {
        let mut i: usize = 0;
        while i < TLB_SLOTS
            invariant
                i <= TLB_SLOTS,
                self.wf(),
                self.same_switches(old(self)),
                forall|j: int| 0 <= j < i ==> #[trigger] self.tlb@[j] is None,
            decreases TLB_SLOTS - i,
        {
            self.tlb.set(i, None);
            i = i + 1;
        }
    }

    /// Returns the entry that the lookaside buffer holds for page number
    /// `page`, if any.
    pub fn lookup(&self, page: usize) -> (r: Option<Entry>)
        requires
            self.wf(),
        ensures
            r == self.cached(page as int),
    {
        match self.tlb[page % TLB_SLOTS] {
            Some(c) => if c.page == page {
                Some(c.entry)
            } else {
                None
            },
            None => None,
        }
    }

    /// Records in the lookaside buffer that page number `page` has entry
    /// `entry`. The translation that shared its slot, if any, is forgotten.
    pub fn fill(&mut self, page: usize, entry: Entry)
        requires
            old(self).wf(),
        ensures
            final(self).wf(),
            final(self).same_switches(old(self)),
            final(self).cached(page as int) == Some(entry),
            forall|p: int|
                p != page ==> #[trigger] final(self).cached(p) == (if p % TLB_SLOTS as int == page
                    % TLB_SLOTS {
                    None
                } else {
                    old(self).cached(p)
                }),
    {
        self.tlb.set(page % TLB_SLOTS, Some(Cached { page, entry }));
    }

    /// Allows or denies the kernel writes to read-only pages.
    pub fn set_write_protected(&mut self, on: bool)
        ensures
            final(self).wf() == old(self).wf(),
            final(self).write_protected() == on,
            final(self).page_dir() == old(self).page_dir(),
            final(self).smap_enabled() == old(self).smap_enabled(),
            final(self).interrupts_enabled() == old(self).interrupts_enabled(),
            forall|p: int| #[trigger] final(self).cached(p) == old(self).cached(p),
    {
        self.write_protected = on;
    }

    /// Allows or denies the kernel access to userspace pages.
    pub fn set_smap_enabled(&mut self, on: bool)
        ensures
            final(self).wf() == old(self).wf(),
            final(self).smap_enabled() == on,
            final(self).page_dir() == old(self).page_dir(),
            final(self).write_protected() == old(self).write_protected(),
            final(self).interrupts_enabled() == old(self).interrupts_enabled(),
            forall|p: int| #[trigger] final(self).cached(p) == old(self).cached(p),
    {
        self.smap = on;
    }

    /// Enables or disables interrupts, and returns whether they were enabled.
    pub fn set_interrupts(&mut self, on: bool) -> (was: bool)
        ensures
            was == old(self).interrupts_enabled(),
            final(self).wf() == old(self).wf(),
            final(self).interrupts_enabled() == on,
            final(self).page_dir() == old(self).page_dir(),
            final(self).write_protected() == old(self).write_protected(),
            final(self).smap_enabled() == old(self).smap_enabled(),
            forall|p: int| #[trigger] final(self).cached(p) == old(self).cached(p),
    {
        let was = self.interrupts;
        self.interrupts = on;
        was
    }
}

} // verus!
