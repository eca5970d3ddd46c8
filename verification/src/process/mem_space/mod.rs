//! This module implements the MemSpace structure which is responsible for
//! handling the memory mapping of execution contexts.
//!
//! The memory space contains two types of structures:
//! - Mapping: A region of virtual memory that is allocated
//! - Gap: A region of virtual memory that is available to be allocated
//!
//! Gaps and mappings are kept in one list, in the order of their addresses:
//! together they cover the range of pages that a process may use, each page
//! once.

pub mod gap;
pub mod mapping;
pub mod physical_ref_counter;
pub mod regions;

use vstd::prelude::*;
use crate::cpu::Cpu;
use crate::errno::{AllocError, AllocResult, EResult, Errno};
use crate::limits::PAGE_SIZE;
use crate::memory::ram::Ram;
use crate::memory::{
    offset_of, page_of, PhysAddr, PhysMemory, VirtAddr, ADDRESSABLE_PAGES, ALLOC_BEGIN_PAGE,
    PROCESS_END_PAGE,
};
use crate::memory::buddy::{FrameAllocator, Zone};
use crate::memory::vmem::VMem;
use crate::memory::vmem::x86::{
    Entry, TableView, FLAG_USER, FLAG_WRITE, PAGE_FAULT_USER, PAGE_FAULT_WRITE,
};
use gap::MemGap;
use mapping::{MapResidence, MappingView, ResidenceView};
use physical_ref_counter::PhysRefCounter;
use regions::{
    anonymous, carve, duplicate_regions, dropped_in, drops_frame, find_gap, fits, lemma_gap_run, locate,
    set_page_frame, clear_range, coalesce, coalesced, covers, cut_at, frame_in, gap_in, holds, index_of,
    joined, lemma_at, lemma_bounds, lemma_covered, lemma_index, lemma_refs_none, lemma_refs_one,
    lemma_refs_same, lemma_refs_split, lemma_refs_update, lemma_sorted, mapping_in, refs_in,
    separated, split_at, tiled, user_page, Region,
};

verus! {

/// Flag telling that a memory mapping can be written to.
pub const MAPPING_FLAG_WRITE: u8 = 0b00001;

/// Flag telling that a memory mapping can contain executable instructions.
pub const MAPPING_FLAG_EXEC: u8 = 0b00010;

/// Flag telling that a memory mapping is accessible from userspace.
pub const MAPPING_FLAG_USER: u8 = 0b00100;

/// Flag telling that a memory mapping must allocate its physical memory right
/// away and not when the process tries to write to it.
pub const MAPPING_FLAG_NOLAZY: u8 = 0b01000;

/// Flag telling that a memory mapping has its physical memory shared with one
/// or more other mappings.
pub const MAPPING_FLAG_SHARED: u8 = 0b10000;

/// Tells whether the flags `flags` of a mapping hold the flag `flag`.
pub open spec fn has_flag(flags: u8, flag: u8) -> bool {
    flags & flag != 0
}

/// The flags of the page table entry of a page of a mapping with flags
/// `flags`: the page is accessible from userspace if the mapping is, and can
/// be written to if the mapping can and `write` is set.
pub open spec fn pte_flags(flags: u8, write: bool) -> u32 {
    if has_flag(flags, MAPPING_FLAG_USER) {
        if write && has_flag(flags, MAPPING_FLAG_WRITE) {
            6
        } else {
            FLAG_USER
        }
    } else {
        if write && has_flag(flags, MAPPING_FLAG_WRITE) {
            FLAG_WRITE
        } else {
            0
        }
    }
}

/// Computes the flags of the page table entry of a page of a mapping with
/// flags `flags`.
pub fn get_pte_flags(flags: u8, write: bool) -> (f: u32)
    ensures
        f == pte_flags(flags, write),
{
    let user = flags & MAPPING_FLAG_USER != 0;
    let writable = write && flags & MAPPING_FLAG_WRITE != 0;
    if user {
        if writable {
            6
        } else {
            FLAG_USER
        }
    } else {
        if writable {
            FLAG_WRITE
        } else {
            0
        }
    }
}

/// Tells whether a page table entry with flags `pte` grants nothing that a
/// mapping with flags `flags` does not: it allows writes only if the mapping
/// does, and access from userspace only if the mapping does.
pub open spec fn flags_within(pte: u32, flags: u8) -> bool {
    &&& pte & FLAG_WRITE != 0 ==> has_flag(flags, MAPPING_FLAG_WRITE)
    &&& pte & FLAG_USER != 0 ==> has_flag(flags, MAPPING_FLAG_USER)
}

/// The flags that a page of a mapping gets grant nothing that the mapping
/// does not.
pub proof fn lemma_pte_flags_within(flags: u8, write: bool)
    ensures
        flags_within(pte_flags(flags, write), flags),
{
    assert(6u32 & 2u32 != 0 && 6u32 & 4u32 != 0 && 4u32 & 2u32 == 0 && 4u32 & 4u32 != 0 && 2u32
        & 2u32 != 0 && 2u32 & 4u32 == 0 && 0u32 & 2u32 == 0 && 0u32 & 4u32 == 0) by (bit_vector);
}

/// Constraint on the address of a new mapping.
#[derive(Clone, Copy, Debug)]
pub enum MapConstraint {
    /// No constraint.
    Any,
    /// The mapping must begin at the given address.
    Fixed(VirtAddr),
    /// The mapping must begin at the given address or after it.
    Min(VirtAddr),
}

/// What became of a page fault.
#[derive(Clone, Copy, Debug, PartialEq, Eq, Structural)]
pub enum Resolution {
    /// The fault is an error of the process: no mapping covers the address,
    /// or the mapping does not allow the access.
    Unresolved,
    /// The page is in place: the process can carry on.
    Resolved,
}

/// Tells whether the page tables `t` agree with the regions `r` on page `p`:
/// the page has an entry iff it is materialized, and then the entry names the
/// frame of the page and has the flags that the flags of the mapping give,
/// with or without the right to write.
pub open spec fn agrees(r: Seq<Region>, t: TableView, p: int) -> bool {
    match t.entry(p) {
        Some(e) => {
            &&& mapping_in(r, p) matches Some(m)
            &&& frame_in(r, p) == Some(e.frame)
            &&& e.flags == pte_flags(m.flags, true) || e.flags == pte_flags(m.flags, false)
        },
        None => frame_in(r, p).is_none(),
    }
}

/// Tells whether the pages of mapping `m` are copied when they are written
/// to after a fork: the mapping is anonymous and not shared.
pub open spec fn copied_on_write(m: MappingView) -> bool {
    m.residence is Normal && !has_flag(m.flags, MAPPING_FLAG_SHARED)
}

/// The entry that page `q` has after a fork, in the page tables of the parent
/// and in those of the child: the one it had in `t`, without the right to
/// write if the pages of its mapping are copied when they are written to.
pub open spec fn forked(r: Seq<Region>, t: TableView, q: int) -> Option<Entry> {
    match t.entry(q) {
        Some(e) => match mapping_in(r, q) {
            Some(m) => Some(
                Entry {
                    frame: e.frame,
                    flags: if copied_on_write(m) {
                        pte_flags(m.flags, false)
                    } else {
                        e.flags
                    },
                },
            ),
            None => Some(e),
        },
        None => None,
    }
}

/// Maps page number `p` of `vmem` to frame number `f` with flags `flags`, in
/// a transaction of its own. The function tells whether the page could be
/// mapped; if not, nothing changes but that the processor may have forgotten
/// the translation of the page.
pub fn install_entry(vmem: &mut VMem<false>, cpu: &mut Cpu, p: usize, f: usize, flags: u32) -> (ok:
    bool)
    requires
        old(vmem).wf(),
        old(cpu).wf(),
        user_page(p as int),
        f < ADDRESSABLE_PAGES,
    ensures
        final(vmem).wf(),
        final(cpu).wf(),
        final(vmem).capacity() == old(vmem).capacity(),
        final(vmem).root() == old(vmem).root(),
        final(cpu).same_switches(old(cpu)),
        forall|q: int| q != p ==> #[trigger] final(cpu).cached(q) == old(cpu).cached(q),
        ok == old(vmem).own().can_map(old(vmem).capacity(), (f * PAGE_SIZE) as usize, p as int),
        ok ==> final(vmem).own() == old(vmem).own().map(p as int, Entry { frame: f, flags }) && final(cpu).cached(p as int).is_none(),
        !ok ==> final(vmem).own() == old(vmem).own(),
{
    let mut t = vmem.transaction();
    assert(page_of((f * PAGE_SIZE) as usize) == f);
    assert(page_of((p * PAGE_SIZE) as usize) == p);
    assert(crate::memory::vmem::step_allowed::<false>((p * PAGE_SIZE) as usize, 1));
    match t.map(cpu, PhysAddr(f * PAGE_SIZE), VirtAddr(p * PAGE_SIZE), flags) {
        Ok(()) => {
            t.commit();
            true
        },
        Err(_) => {
            t.rollback();
            false
        },
    }
}

/// Shares the pages of the regions `r`, which `parent` maps, with `child`:
/// every materialized page is mapped in `child` to the frame it has, which
/// gets one more reference, and the pages that are copied when they are
/// written to lose the right to write in both.
fn fork_pages(
    r: &Vec<Region>,
    parent: &mut VMem<false>,
    child: &mut VMem<false>,
    refs: &mut PhysRefCounter,
    cpu: &mut Cpu,
)
    requires
        tiled(r@),
        old(parent).wf(),
        old(child).wf(),
        old(child).own() == TableView::empty(),
        old(child).capacity() == old(parent).capacity(),
        forall|q: int| #[trigger] agrees(r@, old(parent).own(), q),
        old(refs).wf(),
        old(cpu).wf(),
        forall|f: int|
            #[trigger] old(refs).count(f) + refs_in(
                r@,
                f,
                ALLOC_BEGIN_PAGE as int,
                PROCESS_END_PAGE as int,
            ) <= usize::MAX,
    ensures
        final(parent).wf(),
        final(child).wf(),
        final(refs).wf(),
        final(cpu).wf(),
        final(parent).capacity() == old(parent).capacity(),
        final(child).capacity() == old(child).capacity(),
        final(parent).root() == old(parent).root(),
        final(child).root() == old(child).root(),
        final(parent).own().tables == old(parent).own().tables,
        final(child).own().tables.subset_of(old(parent).own().tables),
        final(child).own().tight(),
        forall|q: int| #[trigger] final(parent).own().entry(q) == forked(r@, old(parent).own(), q),
        forall|q: int| #[trigger] final(child).own().entry(q) == forked(r@, old(parent).own(), q),
        forall|f: int|
            #[trigger] final(refs).count(f) == old(refs).count(f) + refs_in(
                r@,
                f,
                ALLOC_BEGIN_PAGE as int,
                PROCESS_END_PAGE as int,
            ),
        final(cpu).same_switches(old(cpu)),
        forall|q: int|
            #[trigger] final(cpu).cached(q) == if frame_in(r@, q) is Some {
                None
            } else {
                old(cpu).cached(q)
            },
{
    let ghost t0 = parent.own();
    let ghost a = ALLOC_BEGIN_PAGE as int;
    let ghost e = PROCESS_END_PAGE as int;
    proof {
        parent.lemma_view_wf();
        assert forall|q: int| #[trigger]
            parent.own().entry(q) == if q < ALLOC_BEGIN_PAGE {
                forked(r@, t0, q)
            } else {
                t0.entry(q)
            } by {
            assert(agrees(r@, t0, q));
        }
        assert forall|q: int| #[trigger]
            child.own().entry(q) == if q < ALLOC_BEGIN_PAGE {
                forked(r@, t0, q)
            } else {
                None
            } by {
            assert(agrees(r@, t0, q));
        }
    }
    let mut p: usize = ALLOC_BEGIN_PAGE;
    while p < PROCESS_END_PAGE
        invariant
            ALLOC_BEGIN_PAGE <= p <= PROCESS_END_PAGE,
            a == ALLOC_BEGIN_PAGE,
            e == PROCESS_END_PAGE,
            tiled(r@),
            t0 == old(parent).own(),
            t0.wf(),
            t0.tables.finite(),
            t0.tables.len() <= old(parent).capacity(),
            forall|q: int| #[trigger] agrees(r@, t0, q),
            parent.wf(),
            child.wf(),
            refs.wf(),
            cpu.wf(),
            parent.capacity() == old(parent).capacity(),
            child.capacity() == old(parent).capacity(),
            parent.root() == old(parent).root(),
            child.root() == old(child).root(),
            parent.own().tables == t0.tables,
            child.own().tables.subset_of(t0.tables),
            child.own().tight(),
            forall|q: int|
                #[trigger] parent.own().entry(q) == if q < p {
                    forked(r@, t0, q)
                } else {
                    t0.entry(q)
                },
            forall|q: int|
                #[trigger] child.own().entry(q) == if q < p {
                    forked(r@, t0, q)
                } else {
                    None
                },
            forall|f: int| #[trigger] old(refs).count(f) + refs_in(r@, f, a, e) <= usize::MAX,
            forall|f: int| #[trigger] refs.count(f) == old(refs).count(f) + refs_in(r@, f, a, p as int),
            cpu.same_switches(old(cpu)),
            forall|q: int|
                #[trigger] cpu.cached(q) == if q < p && frame_in(r@, q) is Some {
                    None
                } else {
                    old(cpu).cached(q)
                },
        decreases PROCESS_END_PAGE - p,
    {
        let i = locate(r, p);
        proof {
            lemma_at(r@, i as int, p as int);
            lemma_bounds(r@, i as int);
            assert(r@[i as int].wf());
            assert(agrees(r@, t0, p as int));
        }
        let ghost refs1 = *refs;
        let ghost cpu1 = *cpu;
        let ghost pt1 = parent.own();
        let ghost ct1 = child.own();
        let next: usize = match &r[i] {
            Region::Gap(g) => {
                let end = g.get_begin_page() + g.get_size();
                proof {
                    assert forall|q: int| p <= q < end implies (#[trigger] frame_in(r@, q)).is_none()
                        && t0.entry(q).is_none() by {
                        lemma_at(r@, i as int, q);
                        assert(agrees(r@, t0, q));
                    }
                    assert forall|f: int| #[trigger]
                        refs.count(f) == old(refs).count(f) + refs_in(r@, f, a, end as int) by {
                        lemma_refs_split(r@, f, a, p as int, end as int);
                        assert forall|q: int| p <= q < end implies !#[trigger] holds(
                            r@,
                            q,
                            f,
                        ) by {
                            assert(frame_in(r@, q).is_none());
                        }
                        lemma_refs_none(r@, f, p as int, end as int);
                    }
                    assert forall|q: int| #[trigger]
                        parent.own().entry(q) == if q < end {
                            forked(r@, t0, q)
                        } else {
                            t0.entry(q)
                        } by {
                        if p <= q < end {
                            assert(frame_in(r@, q).is_none());
                        }
                    }
                    assert forall|q: int| #[trigger]
                        child.own().entry(q) == if q < end {
                            forked(r@, t0, q)
                        } else {
                            None
                        } by {
                        if p <= q < end {
                            assert(frame_in(r@, q).is_none());
                        }
                    }
                    assert forall|q: int| #[trigger]
                        cpu.cached(q) == if q < end && frame_in(r@, q) is Some {
                            None
                        } else {
                            old(cpu).cached(q)
                        } by {
                        if p <= q < end {
                            assert(frame_in(r@, q).is_none());
                        }
                    }
                }
                end
            },
            Region::Mapping(m) => {
                let index = p - m.get_begin_page();
                match m.get_frame(index) {
                    Some(f) => {
                        let entry = parent.get_entry(p);
                        proof {
                            parent.lemma_seen(p as int);
                        }
                        let down = match m.get_residence() {
                            MapResidence::Normal => m.get_flags() & MAPPING_FLAG_SHARED == 0,
                            _ => false,
                        };
                        let flags = if down {
                            get_pte_flags(m.get_flags(), false)
                        } else {
                            match entry {
                                Some(e) => e.flags,
                                None => 0,
                            }
                        };
                        proof {
                            assert(m.frame_ok(index as int));
                            assert(t0.entry(p as int) matches Some(e0) && e0.frame == f);
                            assert(t0.tables.contains(crate::memory::vmem::x86::dir_of(p as int)));
                            child.lemma_view_wf();
                            let d = crate::memory::vmem::x86::dir_of(p as int);
                            if !child.own().tables.contains(d) {
                                assert(child.own().tables.subset_of(t0.tables.remove(d)));
                                vstd::set_lib::lemma_len_subset(child.own().tables, t0.tables.remove(d));
                            }
                            assert(holds(r@, p as int, f as int));
                            lemma_refs_one(r@, f as int, a, e, p as int);
                        }
                        let ok = install_entry(child, cpu, p, f, flags);
                        assert(ok);
                        proof {
                            ct1.lemma_map_tight(p as int, Entry { frame: f, flags });
                        }
                        if down {
                            let ok = install_entry(parent, cpu, p, f, flags);
                            assert(ok);
                        }
                        refs.incr(f);
                        proof {
                            assert(parent.own().tables =~= t0.tables);
                            assert forall|q: int| #[trigger]
                                parent.own().entry(q) == if q < p + 1 {
                                    forked(r@, t0, q)
                                } else {
                                    t0.entry(q)
                                } by {
                                assert(pt1.entry(q) == if q < p {
                                    forked(r@, t0, q)
                                } else {
                                    t0.entry(q)
                                });
                            }
                            assert forall|q: int| #[trigger]
                                child.own().entry(q) == if q < p + 1 {
                                    forked(r@, t0, q)
                                } else {
                                    None
                                } by {
                                assert(ct1.entry(q) == if q < p {
                                    forked(r@, t0, q)
                                } else {
                                    None
                                });
                            }
                            assert forall|x: int| #[trigger]
                                refs.count(x) == old(refs).count(x) + refs_in(r@, x, a, p + 1) by {
                                assert(refs1.count(x) == old(refs).count(x) + refs_in(
                                    r@,
                                    x,
                                    a,
                                    p as int,
                                ));
                            }
                            assert forall|q: int| #[trigger]
                                cpu.cached(q) == if q < p + 1 && frame_in(r@, q) is Some {
                                    None
                                } else {
                                    old(cpu).cached(q)
                                } by {
                                assert(cpu1.cached(q) == if q < p && frame_in(r@, q) is Some {
                                    None
                                } else {
                                    old(cpu).cached(q)
                                });
                            }
                        }
                    },
                    None => {
                        proof {
                            assert(t0.entry(p as int).is_none());
                            assert forall|x: int| #[trigger]
                                refs.count(x) == old(refs).count(x) + refs_in(r@, x, a, p + 1) by {
                                assert(!holds(r@, p as int, x));
                            }
                            assert forall|q: int| #[trigger]
                                parent.own().entry(q) == if q < p + 1 {
                                    forked(r@, t0, q)
                                } else {
                                    t0.entry(q)
                                } by {}
                            assert forall|q: int| #[trigger]
                                child.own().entry(q) == if q < p + 1 {
                                    forked(r@, t0, q)
                                } else {
                                    None
                                } by {}
                        }
                    },
                }
                p + 1
            },
        };
        p = next;
    }
    proof {
        assert forall|q: int| #[trigger] parent.own().entry(q) == forked(r@, t0, q) by {
            assert(agrees(r@, t0, q));
        }
        assert forall|q: int| #[trigger] child.own().entry(q) == forked(r@, t0, q) by {
            assert(agrees(r@, t0, q));
        }
        assert forall|q: int| #[trigger]
            cpu.cached(q) == if frame_in(r@, q) is Some {
                None
            } else {
                old(cpu).cached(q)
            } by {}
    }
}

/// Structure representing the virtual memory space of a context.
pub struct MemSpace {
    /// The gaps and the mappings, in the order of their addresses.
    regions: Vec<Region>,
    /// The virtual memory context handler.
    vmem: VMem<false>,
}

impl MemSpace {
    /// What the page tables of the memory space hold of its own: the pages
    /// of its mappings that are materialized.
    pub closed spec fn table(&self) -> TableView {
        self.vmem.own()
    }

    /// What the processor sees through the memory space: its own pages, and
    /// the kernel's range.
    pub open spec fn seen(&self) -> TableView {
        crate::memory::vmem::over_kernel(self.table())
    }

    /// The regions of the memory space, in the order of their addresses.
    pub closed spec fn regions(&self) -> Seq<Region> {
        self.regions@
    }

    /// The mapping that holds page `p`, if there is one.
    pub open spec fn mapping_at(&self, p: int) -> Option<MappingView> {
        mapping_in(self.regions(), p)
    }

    /// The gap that holds page `p`, if there is one: its first page and its
    /// size.
    pub open spec fn gap_at(&self, p: int) -> Option<(int, int)> {
        gap_in(self.regions(), p)
    }

    /// The frame of page `p`, if the page is materialized.
    pub open spec fn frame_at(&self, p: int) -> Option<usize> {
        frame_in(self.regions(), p)
    }

    /// The number of pages between `lo` and `hi` that have frame `f`.
    pub open spec fn refs_in(&self, f: int, lo: int, hi: int) -> nat {
        refs_in(self.regions(), f, lo, hi)
    }

    /// The number of pages of the memory space that have frame `f`.
    pub open spec fn refs(&self, f: int) -> nat {
        refs_in(self.regions(), f, ALLOC_BEGIN_PAGE as int, PROCESS_END_PAGE as int)
    }

    /// Tells whether the counter `refs` counts, for each frame, at least the
    /// pages of this memory space that have it.
    pub open spec fn counted_by(&self, refs: &PhysRefCounter) -> bool {
        forall|f: int| #[trigger] self.refs(f) <= refs.count(f)
    }

    /// Tells whether the page tables agree with the mappings on page `p`: the
    /// page has an entry iff it is materialized, and then the entry names the
    /// frame of the page and has the flags that the flags of the mapping
    /// give, with or without the right to write.
    pub open spec fn page_ok(&self, p: int) -> bool {
        agrees(self.regions(), self.table(), p)
    }

    /// The invariant of the memory space: gaps and mappings cover the range
    /// that a process may use, each page once; no two gaps follow each other;
    /// and the page tables agree with the mappings on every page.
    pub closed spec fn inv(&self) -> bool {
        &&& tiled(self.regions@)
        &&& coalesced(self.regions@)
        &&& self.vmem.wf()
        &&& forall|p: int| #[trigger] self.page_ok(p)
    }

    /// What the invariant says of the regions and of each page.
    pub proof fn lemma_inv(&self)
        requires
            self.inv(),
        ensures
            tiled(self.regions()),
            coalesced(self.regions()),
            self.table().wf(),
            forall|p: int| #[trigger] self.page_ok(p),
    {
        self.vmem.lemma_view_wf();
    }

    /// Gaps and mappings partition the range that a process may use: every
    /// page of the range lies either in one gap or in one mapping, and a page
    /// outside of the range lies in none.
    pub proof fn lemma_partition(&self, p: int)
        requires
            self.inv(),
        ensures
            user_page(p) ==> covers(self.regions(), index_of(self.regions(), p), p),
            user_page(p) ==> (self.gap_at(p).is_some() != self.mapping_at(p).is_some()),
            !user_page(p) ==> self.gap_at(p).is_none() && self.mapping_at(p).is_none(),
            forall|i: int| covers(self.regions(), i, p) ==> i == index_of(self.regions(), p),
    {
        if user_page(p) {
            lemma_covered(self.regions(), p);
        }
        assert forall|i: int| covers(self.regions(), i, p) implies i == index_of(
            self.regions(),
            p,
        ) by {
            lemma_index(self.regions(), i, p);
        }
    }

    /// Every entry of the page tables belongs to a page of a mapping, and
    /// grants nothing that the mapping does not.
    pub proof fn lemma_entries_within_mappings(&self, p: int)
        requires
            self.inv(),
            self.table().entry(p).is_some(),
        ensures
            user_page(p),
            self.mapping_at(p) matches Some(m) && m.begin <= p < m.begin + m.size && flags_within(
                self.table().entry(p)->0.flags,
                m.flags,
            ),
    {
        assert(self.page_ok(p));
        let m = self.mapping_at(p)->0;
        lemma_pte_flags_within(m.flags, true);
        lemma_pte_flags_within(m.flags, false);
        lemma_covered(self.regions(), p);
    }

    /// Creates a new virtual memory object, made of one gap that spans the
    /// whole range that a process may use.
    ///
    /// The frame of the page directory is taken from the kernel's zone of
    /// `mem`; `tables` is the number of page tables that the memory space may
    /// hold. The function fails with `ENOMEM`, and changes nothing, iff the
    /// zone has no free frame.
    pub fn new(mem: &mut PhysMemory, tables: usize) -> (r: EResult<Self>)
        requires
            old(mem).wf(),
        ensures
            final(mem).wf(),
            final(mem).frames.same_layout(&old(mem).frames),
            final(mem).refs == old(mem).refs,
            final(mem).ram == old(mem).ram,
            old(mem).sound() ==> final(mem).sound(),
            match r {
                Ok(s) => {
                    &&& s.inv()
                    &&& s.table() == TableView::empty()
                    &&& s.regions().len() == 1
                    &&& forall|p: int|
                        user_page(p) ==> #[trigger] s.gap_at(p) == Some(
                            (ALLOC_BEGIN_PAGE as int, PROCESS_END_PAGE - ALLOC_BEGIN_PAGE),
                        )
                    &&& forall|f: int| #[trigger] s.refs(f) == 0
                    &&& s.root().0 == s.root_frame() * PAGE_SIZE
                    &&& old(mem).frames.is_free_in(Zone::Kernel, s.root_frame())
                    &&& forall|g: int|
                        g < s.root_frame() ==> !#[trigger] old(mem).frames.is_free_in(Zone::Kernel, g)
                    &&& forall|x: int|
                        #![auto]
                        final(mem).frames.is_free(x) == (old(mem).frames.is_free(x) && x
                            != s.root_frame())
                },
                Err(e) => {
                    &&& e == Errno::ENOMEM
                    &&& forall|g: int| !#[trigger] old(mem).frames.is_free_in(Zone::Kernel, g)
                    &&& forall|x: int|
                        #![auto]
                        final(mem).frames.is_free(x) == old(mem).frames.is_free(x)
                },
            },
    {
        let vmem = match VMem::new(&mut mem.frames, tables) {
            Ok(vmem) => vmem,
            Err(_) => {
                return Err(Errno::ENOMEM);
            },
        };
        let mut regions: Vec<Region> = Vec::new();
        regions.push(
            Region::Gap(MemGap::from_pages(ALLOC_BEGIN_PAGE, PROCESS_END_PAGE - ALLOC_BEGIN_PAGE)),
        );
        let s = MemSpace { regions, vmem };
        proof {
            assert forall|p: int| user_page(p) implies #[trigger] s.gap_at(p) == Some(
                (ALLOC_BEGIN_PAGE as int, PROCESS_END_PAGE - ALLOC_BEGIN_PAGE),
            ) by {
                lemma_index(s.regions@, 0, p);
            }
            assert forall|p: int| #[trigger] s.page_ok(p) by {
                if user_page(p) {
                    lemma_index(s.regions@, 0, p);
                }
            }
            let f = page_of(s.vmem.root().0);
            assert(old(mem).frames.is_free_in(Zone::Kernel, f));
            assert forall|f: int| #[trigger] s.refs(f) == 0 by {
                assert forall|p: int| ALLOC_BEGIN_PAGE <= p < PROCESS_END_PAGE implies !#[trigger] holds(
                    s.regions(),
                    p,
                    f,
                ) by {
                    lemma_index(s.regions@, 0, p);
                }
                lemma_refs_none(s.regions(), f, ALLOC_BEGIN_PAGE as int, PROCESS_END_PAGE as int);
            }
        }
        Ok(s)
    }

    /// Returns a reference to the virtual memory context.
    pub fn get_vmem(&self) -> (v: &VMem<false>)
        ensures
            v.own() == self.table(),
            v@ == self.seen(),
            self.inv() ==> v.wf(),
    {
        &self.vmem
    }

    /// Translates the virtual address `virt` to the physical address that the
    /// page tables give it, if any: an address of the kernel's range is
    /// translated as in every context.
    pub fn translate(&self, virt: VirtAddr) -> (r: Option<PhysAddr>)
        requires
            self.inv(),
        ensures
            r == self.seen().translate(virt.0),
    {
        self.vmem.translate(virt)
    }

    /// Binds the processor `cpu` to this memory space.
    pub fn bind(&self, cpu: &mut Cpu)
        requires
            old(cpu).wf(),
        ensures
            final(cpu).wf(),
            self.bound_to(final(cpu)),
            forall|p: int| #[trigger] final(cpu).cached(p).is_none(),
            final(cpu).write_protected() == old(cpu).write_protected(),
            final(cpu).smap_enabled() == old(cpu).smap_enabled(),
            final(cpu).interrupts_enabled() == old(cpu).interrupts_enabled(),
    {
        self.vmem.bind(cpu);
    }

    /// Tells whether the processor `cpu` translates through the page tables
    /// of this memory space.
    pub open spec fn bound_to(&self, cpu: &Cpu) -> bool {
        cpu.page_dir() == Some(self.root())
    }

    /// Tells whether the memory space is bound to the processor `cpu`.
    pub fn is_bound(&self, cpu: &Cpu) -> (b: bool)
        ensures
            b == self.bound_to(cpu),
    {
        self.vmem.is_bound(cpu)
    }

    /// Returns the number of pages of the memory space that have frame
    /// number `frame`.
    pub fn count_pages(&self, frame: usize) -> (n: usize)
        requires
            self.inv(),
        ensures
            n == self.refs(frame as int),
    {
        proof {
            self.lemma_inv();
        }
        regions::count_pages(&self.regions, frame, ALLOC_BEGIN_PAGE, PROCESS_END_PAGE)
    }

    /// Tells whether the counter `refs` counts, for each frame, at least the
    /// pages of the memory space that have it.
    pub fn is_counted_by(&self, refs: &PhysRefCounter) -> (b: bool)
        requires
            self.inv(),
            refs.wf(),
        ensures
            b == self.counted_by(refs),
    {
        proof {
            self.lemma_inv();
        }
        let mut p: usize = ALLOC_BEGIN_PAGE;
        while p < PROCESS_END_PAGE
            invariant
                self.inv(),
                refs.wf(),
                tiled(self.regions@),
                ALLOC_BEGIN_PAGE <= p <= PROCESS_END_PAGE,
                forall|q: int, f: int|
                    ALLOC_BEGIN_PAGE <= q < p && #[trigger] holds(self.regions@, q, f) ==> self.refs(f)
                        <= refs.count(f),
            decreases PROCESS_END_PAGE - p,
        {
            match regions::page_frame(&self.regions, p) {
                Some(f) => {
                    if self.count_pages(f) > refs.get(f) {
                        assert(self.refs(f as int) > refs.count(f as int));
                        return false;
                    }
                },
                None => {},
            }
            p = p + 1;
        }
        proof {
            assert forall|f: int| #[trigger] self.refs(f) <= refs.count(f) by {
                if forall|q: int|
                    ALLOC_BEGIN_PAGE <= q < PROCESS_END_PAGE ==> !#[trigger] holds(self.regions@, q, f) {
                    regions::lemma_refs_none(
                        self.regions@,
                        f,
                        ALLOC_BEGIN_PAGE as int,
                        PROCESS_END_PAGE as int,
                    );
                }
            }
        }
        true
    }

    /// Tells whether a mapping that allows the access holds page `p`: the
    /// mapping is accessible from userspace if `user` is set, and can be
    /// written to if `write` is set.
    pub open spec fn admits(&self, p: int, user: bool, write: bool) -> bool {
        self.mapping_at(p) matches Some(m) && (user ==> has_flag(m.flags, MAPPING_FLAG_USER)) && (
        write ==> has_flag(m.flags, MAPPING_FLAG_WRITE))
    }

    /// Tells whether the given region of memory `ptr` of size `size` in bytes
    /// can be accessed.
    ///
    /// `user` tells whether the memory must be accessible from userspace or
    /// just kernelspace. `write` tells whether to check for write permission.
    ///
    /// Every page that the region touches must lie in a mapping that allows
    /// the access. A region of no byte can always be accessed.
    pub fn can_access(&self, ptr: VirtAddr, size: usize, user: bool, write: bool) -> (b: bool)
        requires
            self.inv(),
        ensures
            b == (size == 0 || (ptr.0 + size - 1 <= usize::MAX && forall|p: int|
                page_of(ptr.0) <= p <= (ptr.0 + size - 1) / PAGE_SIZE as int ==> #[trigger] self.admits(
                    p,
                    user,
                    write,
                ))),
    {
        if size == 0 {
            return true;
        }
        if ptr.0 > usize::MAX - (size - 1) {
            return false;
        }
        let first = ptr.0 / PAGE_SIZE;
        let last = (ptr.0 + (size - 1)) / PAGE_SIZE;
        if first < ALLOC_BEGIN_PAGE {
            assert(!self.admits(first as int, user, write));
            return false;
        }
        if last >= PROCESS_END_PAGE {
            assert(!self.admits(last as int, user, write));
            return false;
        }
        let mut p: usize = first;
        while p <= last
            invariant
                self.inv(),
                size > 0,
                ptr.0 + size - 1 <= usize::MAX,
                first == page_of(ptr.0),
                last == (ptr.0 + size - 1) / PAGE_SIZE as int,
                ALLOC_BEGIN_PAGE <= first <= p,
                last < PROCESS_END_PAGE,
                p <= last + 1,
                first <= last,
                forall|q: int| first <= q < p ==> #[trigger] self.admits(q, user, write),
            decreases last + 1 - p,
        {
            let i = locate(&self.regions, p);
            proof {
                lemma_bounds(self.regions@, i as int);
            }
            match &self.regions[i] {
                Region::Gap(_) => {
                    assert(!self.admits(p as int, user, write));
                    return false;
                },
                Region::Mapping(m) => {
                    let flags = m.get_flags();
                    if (user && flags & MAPPING_FLAG_USER == 0) || (write && flags
                        & MAPPING_FLAG_WRITE == 0) {
                        assert(!self.admits(p as int, user, write));
                        return false;
                    }
                    let end = m.get_begin_page() + m.get_size();
                    proof {
                        assert forall|q: int| p <= q < end implies #[trigger] self.admits(
                            q,
                            user,
                            write,
                        ) by {
                            lemma_index(self.regions@, i as int, q);
                        }
                    }
                    p = if end > last {
                        last + 1
                    } else {
                        end
                    };
                },
            }
        }
        true
    }
}

impl MemSpace {
    /// Tells whether one of the pages between `lo` and `hi` holds the last
    /// reference of frame `x`, when their references are dropped in order,
    /// and belongs to an anonymous mapping.
    pub open spec fn dropped_in(&self, refs: &PhysRefCounter, x: int, lo: int, hi: int) -> bool {
        dropped_in(self.regions(), refs, x, lo, hi)
    }

    /// What unmapping the pages between `lo` and `hi` makes of the memory
    /// space `before` and of the physical memory `mem_before`.
    ///
    /// The pages of the range belong to no mapping; a mapping that reached
    /// over an end of the range is cut there. The page tables have no entry
    /// for the pages of the range. The counter has lost one reference for
    /// each page of the range that was materialized, and the frames of
    /// anonymous mappings that are left without reference are free.
    pub open spec fn unmapped(
        before: &MemSpace,
        after: &MemSpace,
        mem_before: &PhysMemory,
        mem_after: &PhysMemory,
        lo: int,
        hi: int,
    ) -> bool {
        Self::replaced(before, after, mem_before, mem_after, lo, hi, None)
    }

    /// What unmapping the pages between `lo` and `hi`, and then making of
    /// them the mapping `inside`, if any, makes of the memory space `before`
    /// and of the physical memory `mem_before`. No page of the range is
    /// materialized.
    pub open spec fn replaced(
        before: &MemSpace,
        after: &MemSpace,
        mem_before: &PhysMemory,
        mem_after: &PhysMemory,
        lo: int,
        hi: int,
        inside: Option<MappingView>,
    ) -> bool {
        &&& forall|p: int|
            #[trigger] after.mapping_at(p) == if lo <= p < hi {
                inside
            } else {
                cut_at(cut_at(before.mapping_at(p), lo, p), hi, p)
            }
        &&& forall|p: int|
            #[trigger] after.frame_at(p) == if lo <= p < hi {
                None
            } else {
                before.frame_at(p)
            }
        &&& after.table() == crate::memory::vmem::unmap_range(before.table(), lo, (hi - lo) as nat)
        &&& forall|f: int|
            #[trigger] mem_after.refs.count(f) == mem_before.refs.count(f) - before.refs_in(f, lo, hi)
        &&& forall|f: int| #[trigger] after.refs(f) == before.refs(f) - before.refs_in(f, lo, hi)
        &&& forall|x: int|
            #[trigger] mem_after.frames.is_free(x) == (mem_before.frames.is_free(x)
                || mem_before.frames.manages(x) && before.dropped_in(&mem_before.refs, x, lo, hi))
        &&& mem_after.frames.same_layout(&mem_before.frames)
        &&& mem_after.ram == mem_before.ram
    }

    /// Drops the references that the pages between `lo` and `hi` hold: the
    /// counter loses one reference for each page that is materialized, and a
    /// frame that is left without reference is freed if the page belongs to
    /// an anonymous mapping.
    fn drop_refs(&self, mem: &mut PhysMemory, lo: usize, hi: usize)
        requires
            tiled(self.regions@),
            old(mem).wf(),
            self.counted_by(&old(mem).refs),
            ALLOC_BEGIN_PAGE <= lo <= hi <= PROCESS_END_PAGE,
        ensures
            final(mem).wf(),
            final(mem).frames.same_layout(&old(mem).frames),
            final(mem).ram == old(mem).ram,
            forall|f: int|
                #[trigger] final(mem).refs.count(f) == old(mem).refs.count(f) - self.refs_in(
                    f,
                    lo as int,
                    hi as int,
                ),
            forall|x: int|
                #[trigger] final(mem).frames.is_free(x) == (old(mem).frames.is_free(x) || old(mem).frames.manages(x) && self.dropped_in(&old(mem).refs, x, lo as int, hi as int)),
            old(mem).sound() ==> final(mem).sound(),
    {
        let mut p: usize = lo;
        while p < hi
            invariant
                tiled(self.regions@),
                self.counted_by(&old(mem).refs),
                ALLOC_BEGIN_PAGE <= lo <= p <= hi <= PROCESS_END_PAGE,
                mem.wf(),
                mem.frames.same_layout(&old(mem).frames),
                mem.ram == old(mem).ram,
                forall|f: int|
                    #[trigger] mem.refs.count(f) == old(mem).refs.count(f) - self.refs_in(
                        f,
                        lo as int,
                        p as int,
                    ),
                forall|x: int|
                    #[trigger] mem.frames.is_free(x) == (old(mem).frames.is_free(x) || old(mem).frames.manages(x) && self.dropped_in(&old(mem).refs, x, lo as int, p as int)),
                old(mem).sound() ==> mem.sound(),
            decreases hi - p,
        {
            let i = locate(&self.regions, p);
            let ghost before_refs = mem.refs;
            let ghost before_frames = mem.frames;
            let mut freed: Ghost<bool> = Ghost(false);
            let mut held: Ghost<Option<usize>> = Ghost(None);
            proof {
                lemma_at(self.regions@, i as int, p as int);
            }
            match &self.regions[i] {
                Region::Mapping(m) => {
                    match m.get_frame(p - m.get_begin_page()) {
                        Some(f) => {
                            proof {
                                held@ = Some(f);
                                assert(holds(self.regions@, p as int, f as int));
                                assert(self.refs(f as int) <= old(mem).refs.count(f as int));
                                lemma_refs_split(
                                    self.regions@,
                                    f as int,
                                    ALLOC_BEGIN_PAGE as int,
                                    lo as int,
                                    PROCESS_END_PAGE as int,
                                );
                                lemma_refs_one(
                                    self.regions@,
                                    f as int,
                                    lo as int,
                                    PROCESS_END_PAGE as int,
                                    p as int,
                                );
                                assert(mem.refs.count(f as int) > 0);
                            }
                            let zero = mem.refs.decr(f);
                            let anon = match m.get_residence() {
                                MapResidence::Normal => true,
                                _ => false,
                            };
                            if zero && anon {
                                proof {
                                    assert(m.frame_ok(p - m.begin()));
                                    freed@ = true;
                                }
                                mem.frames.free_frame(PhysAddr(f * PAGE_SIZE));
                            }
                        },
                        None => {},
                    }
                },
                Region::Gap(_) => {},
            }
            proof {
                let r = self.regions@;
                assert forall|f: int| #[trigger]
                    mem.refs.count(f) == old(mem).refs.count(f) - self.refs_in(
                        f,
                        lo as int,
                        p + 1,
                    ) by {
                    assert(before_refs.count(f) == old(mem).refs.count(f) - self.refs_in(
                        f,
                        lo as int,
                        p as int,
                    ));
                    assert(refs_in(r, f, lo as int, p + 1) == refs_in(r, f, lo as int, p as int)
                        + if holds(r, p as int, f) {
                        1nat
                    } else {
                        0nat
                    });
                }
                assert forall|x: int| #[trigger]
                    mem.frames.is_free(x) == (old(mem).frames.is_free(x) || old(mem).frames.manages(x) && self.dropped_in(&old(mem).refs, x, lo as int, p + 1)) by {
                    assert(before_frames.is_free(x) == (old(mem).frames.is_free(x) || old(mem).frames.manages(x) && self.dropped_in(
                        &old(mem).refs,
                        x,
                        lo as int,
                        p as int,
                    )));
                    assert(before_refs.count(x) == old(mem).refs.count(x) - self.refs_in(
                        x,
                        lo as int,
                        p as int,
                    ));
                    assert(refs_in(r, x, lo as int, p + 1) == refs_in(r, x, lo as int, p as int)
                        + if holds(r, p as int, x) {
                        1nat
                    } else {
                        0nat
                    });
                    assert(dropped_in(r, &old(mem).refs, x, lo as int, p + 1) == (dropped_in(
                        r,
                        &old(mem).refs,
                        x,
                        lo as int,
                        p as int,
                    ) || drops_frame(r, &old(mem).refs, x, lo as int, p as int)));
                    assert(before_frames.manages(x) == old(mem).frames.manages(x));
                }
            }
            p = p + 1;
        }
    }

    /// Unmaps the given region of memory.
    ///
    /// `virt` represents the address of the beginning of the region on the
    /// virtual memory, which must be a multiple of the size of a page, or the
    /// function fails with `EINVAL`. `pages` represents the size of the region
    /// in number of memory pages. If the region reaches beyond the end of the
    /// range that a process may use, the function fails with `ENOMEM`. A
    /// function that fails changes nothing.
    ///
    /// The function frees the physical memory the region points to unless
    /// shared by one or several other memory mappings. After this function
    /// returns, the access to the region of memory shall be revoked and
    /// further attempts to access it shall result in a page fault. Pages of
    /// the region that belong to no mapping are left as they are.
    pub fn unmap(&mut self, mem: &mut PhysMemory, cpu: &mut Cpu, virt: VirtAddr, pages: usize) -> (r:
        EResult<()>)
        requires
            old(self).inv(),
            old(mem).wf(),
            old(cpu).wf(),
            old(self).counted_by(&old(mem).refs),
        ensures
            final(self).inv(),
            final(mem).wf(),
            final(cpu).wf(),
            final(self).counted_by(&final(mem).refs),
            old(mem).sound() ==> final(mem).sound(),
            final(cpu).same_switches(old(cpu)),
            final(self).table().tables == old(self).table().tables,
            final(self).table_capacity() == old(self).table_capacity(),
            final(self).root() == old(self).root(),
            match r {
                Ok(()) => {
                    let lo = if page_of(virt.0) < ALLOC_BEGIN_PAGE {
                        ALLOC_BEGIN_PAGE as int
                    } else {
                        page_of(virt.0)
                    };
                    let hi = page_of(virt.0) + pages;
                    &&& virt.0 % PAGE_SIZE == 0
                    &&& hi <= PROCESS_END_PAGE
                    &&& if lo < hi {
                        &&& Self::unmapped(old(self), final(self), old(mem), final(mem), lo, hi)
                        &&& forall|p: int|
                            #[trigger] final(cpu).cached(p) == if lo <= p < hi {
                                None
                            } else {
                                old(cpu).cached(p)
                            }
                    } else {
                        *final(self) == *old(self) && *final(mem) == *old(mem) && *final(cpu) == *old(cpu)
                    }
                },
                Err(e) => {
                    &&& *final(self) == *old(self)
                    &&& *final(mem) == *old(mem)
                    &&& *final(cpu) == *old(cpu)
                    &&& e == if virt.0 % PAGE_SIZE != 0 {
                        Errno::EINVAL
                    } else {
                        Errno::ENOMEM
                    }
                    &&& virt.0 % PAGE_SIZE != 0 || page_of(virt.0) + pages > PROCESS_END_PAGE
                },
            },
    {
        if virt.0 % PAGE_SIZE != 0 {
            return Err(Errno::EINVAL);
        }
        let first = virt.0 / PAGE_SIZE;
        if pages > PROCESS_END_PAGE || first > PROCESS_END_PAGE - pages {
            return Err(Errno::ENOMEM);
        }
        let hi = first + pages;
        let lo = if first < ALLOC_BEGIN_PAGE {
            ALLOC_BEGIN_PAGE
        } else {
            first
        };
        if lo >= hi {
            return Ok(());
        }
        proof {
            self.vmem.lemma_view_wf();
        }
        let ghost table0 = self.vmem.own();
        // Remove the entries of the pages
        let mut t = self.vmem.transaction();
        let res = t.unmap_range(cpu, VirtAddr(lo * PAGE_SIZE), hi - lo);
        assert(page_of((lo * PAGE_SIZE) as usize) == lo);
        match res {
            Ok(()) => {
                t.commit();
            },
            Err(_) => {
                proof {
                    assert(crate::memory::vmem::step_allowed::<false>(
                        (lo * PAGE_SIZE) as usize,
                        (hi - lo) as usize,
                    ));
                    assert(false);
                }
                t.rollback();
                return Err(Errno::ENOMEM);
            },
        }
        proof {
            assert forall|p: int| #[trigger] self.vmem.own().entry(p) == if lo <= p < hi {
                None
            } else {
                table0.entry(p)
            } by {
                crate::memory::vmem::lemma_unmap_range_entry(table0, lo as int, (hi - lo) as nat, p);
            }
            crate::memory::vmem::lemma_unmap_range_entry(table0, lo as int, (hi - lo) as nat, 0);
        }
        // Drop the references to the frames of the pages
        proof {
            assert forall|f: int| #[trigger] self.refs(f) <= mem.refs.count(f) by {
                assert(old(self).refs(f) <= old(mem).refs.count(f));
            }
        }
        self.drop_refs(mem, lo, hi);
        // Turn the mappings of the range into a gap
        split_at(&mut self.regions, lo);
        split_at(&mut self.regions, hi);
        clear_range(&mut self.regions, lo, hi);
        coalesce(&mut self.regions);
        proof {
            let r0 = old(self).regions@;
            let r1 = self.regions@;
            assert forall|p: int| #[trigger] self.mapping_at(p) == if lo <= p < hi {
                None
            } else {
                cut_at(cut_at(old(self).mapping_at(p), lo as int, p), hi as int, p)
            } by {}
            assert forall|p: int| #[trigger] self.frame_at(p) == if lo <= p < hi {
                None
            } else {
                old(self).frame_at(p)
            } by {}
            assert forall|p: int| #[trigger] self.page_ok(p) by {
                assert(old(self).page_ok(p));
                assert(self.mapping_at(p) == if lo <= p < hi {
                    None
                } else {
                    cut_at(cut_at(old(self).mapping_at(p), lo as int, p), hi as int, p)
                });
                assert(self.frame_at(p) == if lo <= p < hi {
                    None
                } else {
                    old(self).frame_at(p)
                });
            }
            assert forall|f: int| #[trigger] self.refs(f) == old(self).refs(f) - old(self).refs_in(
                f,
                lo as int,
                hi as int,
            ) by {
                let a = ALLOC_BEGIN_PAGE as int;
                let e = PROCESS_END_PAGE as int;
                lemma_refs_split(r0, f, a, lo as int, e);
                lemma_refs_split(r0, f, lo as int, hi as int, e);
                lemma_refs_split(r1, f, a, lo as int, e);
                lemma_refs_split(r1, f, lo as int, hi as int, e);
                assert forall|q: int| a <= q < lo implies #[trigger] frame_in(r0, q) == frame_in(
                    r1,
                    q,
                ) by {
                    assert(self.frame_at(q) == old(self).frame_at(q));
                }
                assert forall|q: int| hi <= q < e implies #[trigger] frame_in(r0, q) == frame_in(
                    r1,
                    q,
                ) by {
                    assert(self.frame_at(q) == old(self).frame_at(q));
                }
                lemma_refs_same(r0, r1, f, a, lo as int);
                lemma_refs_same(r0, r1, f, hi as int, e);
                assert forall|q: int| lo <= q < hi implies !#[trigger] holds(r1, q, f) by {
                    assert(self.frame_at(q).is_none());
                }
                lemma_refs_none(r1, f, lo as int, hi as int);
            }
            assert forall|f: int| #[trigger] self.refs(f) <= mem.refs.count(f) by {
                assert(old(self).refs(f) <= old(mem).refs.count(f));
                assert(self.refs(f) == old(self).refs(f) - old(self).refs_in(
                    f,
                    lo as int,
                    hi as int,
                ));
                assert(mem.refs.count(f) == old(mem).refs.count(f) - old(self).refs_in(
                    f,
                    lo as int,
                    hi as int,
                ));
            }
        }
        Ok(())
    }
}

/// The first page that a mapping made under constraint `constraint` may
/// begin at.
pub open spec fn min_page(constraint: MapConstraint) -> int {
    match constraint {
        MapConstraint::Min(v) => (v.0 + PAGE_SIZE - 1) / PAGE_SIZE as int,
        _ => 0,
    }
}

impl MemSpace {
    /// Tells whether page `q` lies in a gap of `pages` pages at least that
    /// begins at page `min` or after it.
    pub open spec fn fits_at(&self, q: int, pages: int, min: int) -> bool {
        self.gap_at(q) matches Some((b, s)) && s >= pages && b >= min
    }

    /// Tells whether the gap that begins at page `b` is the best one for a
    /// mapping of `pages` pages that begins at page `min` or after it: the
    /// smallest of the gaps that are large enough, and of several gaps of the
    /// same size the first one.
    pub open spec fn best_fit(&self, b: int, pages: int, min: int) -> bool {
        &&& self.fits_at(b, pages, min)
        &&& self.gap_begin(b) == b
        &&& forall|q: int| #[trigger]
            self.fits_at(q, pages, min) ==> self.gap_size(b) < self.gap_size(q) || (self.gap_size(
                b,
            ) == self.gap_size(q) && b <= self.gap_begin(q))
    }

    /// The first page of the gap that holds page `q`.
    pub open spec fn gap_begin(&self, q: int) -> int {
        match self.gap_at(q) {
            Some((b, _)) => b,
            None => 0,
        }
    }

    /// The size of the gap that holds page `q`.
    pub open spec fn gap_size(&self, q: int) -> int {
        match self.gap_at(q) {
            Some((_, s)) => s,
            None => 0,
        }
    }

    /// Tells whether `after` is `before` with one more mapping, `m`, which
    /// has no page materialized.
    pub open spec fn mapped(before: &MemSpace, after: &MemSpace, m: MappingView) -> bool {
        &&& forall|p: int|
            #[trigger] after.mapping_at(p) == if m.begin <= p < m.begin + m.size {
                Some(m)
            } else {
                before.mapping_at(p)
            }
        &&& forall|p: int| #[trigger] after.frame_at(p) == before.frame_at(p)
        &&& forall|f: int| #[trigger] after.refs(f) == before.refs(f)
        &&& after.table() == before.table()
    }

    /// Maps a region of memory, no page of which is materialized.
    ///
    /// `constraint` tells where the mapping may begin; `pages` is the size of
    /// the region in pages; `flags` are the flags of the mapping, and
    /// `residence` tells where its physical pages come from. The function
    /// returns the address of the beginning of the mapping.
    ///
    /// - A mapping of no page is not made: the function succeeds and changes
    ///   nothing.
    /// - With [`MapConstraint::Fixed`], the address must be a multiple of the
    ///   size of a page, or the function fails with `EINVAL`; and the region
    ///   must lie in the range that a process may use, or the function fails
    ///   with `ENOMEM`. What was mapped in the region is unmapped first.
    /// - Otherwise the mapping takes the beginning of the smallest gap that is
    ///   large enough, and that begins at the address of
    ///   [`MapConstraint::Min`] or after it, if it is given. The function
    ///   fails with `ENOMEM` if there is no such gap.
    ///
    /// A function that fails changes nothing.
    pub fn map_lazy(
        &mut self,
        mem: &mut PhysMemory,
        cpu: &mut Cpu,
        constraint: MapConstraint,
        pages: usize,
        flags: u8,
        residence: MapResidence,
    ) -> (r: EResult<VirtAddr>)
        requires
            old(self).inv(),
            old(mem).wf(),
            old(cpu).wf(),
            old(self).counted_by(&old(mem).refs),
        ensures
            final(self).inv(),
            final(mem).wf(),
            final(cpu).wf(),
            final(self).counted_by(&final(mem).refs),
            old(mem).sound() ==> final(mem).sound(),
            final(cpu).same_switches(old(cpu)),
            final(self).table().tables == old(self).table().tables,
            final(self).table_capacity() == old(self).table_capacity(),
            final(self).root() == old(self).root(),
            Self::map_result(
                old(self),
                final(self),
                old(mem),
                final(mem),
                old(cpu),
                final(cpu),
                constraint,
                pages,
                flags,
                residence@,
                r,
            ),
    {
        if pages == 0 {
            return Ok(
                match constraint {
                    MapConstraint::Any => VirtAddr(crate::memory::ALLOC_BEGIN),
                    MapConstraint::Fixed(v) => v,
                    MapConstraint::Min(v) => v,
                },
            );
        }
        match constraint {
            MapConstraint::Fixed(v) => {
                if v.0 % PAGE_SIZE != 0 {
                    return Err(Errno::EINVAL);
                }
                let b = v.0 / PAGE_SIZE;
                if b < ALLOC_BEGIN_PAGE || pages > PROCESS_END_PAGE || b > PROCESS_END_PAGE - pages {
                    return Err(Errno::ENOMEM);
                }
                match self.unmap(mem, cpu, v, pages) {
                    Ok(()) => {},
                    Err(e) => {
                        return Err(e);
                    },
                }
                let ghost s1 = *self;
                let ghost mid = self.regions@;
                proof {
                    assert(Self::unmapped(old(self), &s1, old(mem), mem, b as int, b + pages));
                    assert forall|p: int| b <= p < b + pages implies #[trigger] mapping_in(
                        mid,
                        p,
                    ) is None by {
                        assert(s1.mapping_at(p) is None);
                    }
                    lemma_gap_run(mid, b as int, pages as int);
                }
                let ghost view = MappingView {
                    begin: b as int,
                    size: pages as int,
                    flags,
                    residence: residence@,
                };
                carve(&mut self.regions, b, pages, flags, residence);
                proof {
                    assert forall|p: int| #[trigger] self.mapping_at(p) == if b <= p < b + pages {
                        Some(view)
                    } else {
                        cut_at(cut_at(old(self).mapping_at(p), b as int, p), b + pages, p)
                    } by {
                        assert(s1.mapping_at(p) == if b <= p < b + pages {
                            None
                        } else {
                            cut_at(cut_at(old(self).mapping_at(p), b as int, p), b + pages, p)
                        });
                    }
                    assert forall|p: int| #[trigger] self.frame_at(p) == if b <= p < b + pages {
                        None
                    } else {
                        old(self).frame_at(p)
                    } by {
                        assert(s1.frame_at(p) == if b <= p < b + pages {
                            None
                        } else {
                            old(self).frame_at(p)
                        });
                    }
                    self.lemma_same_frames(mid);
                    assert forall|f: int| #[trigger] self.refs(f) == old(self).refs(f) - old(self).refs_in(f, b as int, b + pages) by {
                        assert(s1.refs(f) == old(self).refs(f) - old(self).refs_in(
                            f,
                            b as int,
                            b + pages,
                        ));
                    }
                    assert forall|f: int| #[trigger] self.refs(f) <= mem.refs.count(f) by {
                        assert(s1.refs(f) <= mem.refs.count(f));
                    }
                    assert forall|p: int| #[trigger] self.page_ok(p) by {
                        assert(s1.page_ok(p));
                        assert(s1.frame_at(p) == frame_in(mid, p));
                        assert(s1.mapping_at(p) == mapping_in(mid, p));
                        assert(self.frame_at(p) == frame_in(mid, p));
                        self.lemma_page_kept(mid, p);
                    }
                }
                Ok(v)
            },
            _ => {
                let min = match constraint {
                    MapConstraint::Min(v) => {
                        if v.0 % PAGE_SIZE == 0 {
                            v.0 / PAGE_SIZE
                        } else {
                            v.0 / PAGE_SIZE + 1
                        }
                    },
                    _ => 0,
                };
                assert(min == min_page(constraint));
                let found = find_gap(&self.regions, pages, min);
                match found {
                    Some(i) => {
                        let ghost r0 = self.regions@;
                        let b = self.regions[i].get_begin_page();
                        proof {
                            assert(r0[i as int].wf());
                            lemma_bounds(r0, i as int);
                            lemma_at(r0, i as int, b as int);
                            assert forall|q: int| #[trigger]
                                self.fits_at(q, pages as int, min as int) implies self.gap_size(
                                b as int,
                            ) < self.gap_size(q) || (self.gap_size(b as int) == self.gap_size(q)
                                && b <= self.gap_begin(q)) by {
                                lemma_covered(r0, q);
                                let j = index_of(r0, q);
                                assert(fits(r0, j, pages as int, min as int));
                                if i < j {
                                    lemma_sorted(r0, i as int, j);
                                }
                            }
                        }
                        carve(&mut self.regions, b, pages, flags, residence);
                        proof {
                            self.lemma_same_frames(r0);
                            assert forall|p: int| #[trigger] self.page_ok(p) by {
                                assert(old(self).page_ok(p));
                                if b <= p < b + pages {
                                    lemma_at(r0, i as int, p);
                                }
                                self.lemma_page_kept(r0, p);
                            }
                            assert forall|f: int| #[trigger] self.refs(f) <= mem.refs.count(f) by {
                                assert(old(self).refs(f) <= old(mem).refs.count(f));
                            }
                        }
                        Ok(VirtAddr(b * PAGE_SIZE))
                    },
                    None => {
                        proof {
                            let r0 = self.regions@;
                            assert forall|q: int| !#[trigger] self.fits_at(
                                q,
                                pages as int,
                                min as int,
                            ) by {
                                if user_page(q) {
                                    lemma_covered(r0, q);
                                    assert(!fits(r0, index_of(r0, q), pages as int, min as int));
                                }
                            }
                        }
                        Err(Errno::ENOMEM)
                    },
                }
            },
        }
    }

    /// What [`Self::map_lazy`] returns and does.
    pub open spec fn map_result(
        before: &MemSpace,
        after: &MemSpace,
        mem_before: &PhysMemory,
        mem_after: &PhysMemory,
        cpu_before: &Cpu,
        cpu_after: &Cpu,
        constraint: MapConstraint,
        pages: usize,
        flags: u8,
        residence: ResidenceView,
        r: EResult<VirtAddr>,
    ) -> bool {
        let unchanged = *after == *before && *mem_after == *mem_before && *cpu_after == *cpu_before;
        if pages == 0 {
            &&& unchanged
            &&& r == Ok::<VirtAddr, Errno>(
                match constraint {
                    MapConstraint::Any => VirtAddr(crate::memory::ALLOC_BEGIN),
                    MapConstraint::Fixed(v) => v,
                    MapConstraint::Min(v) => v,
                },
            )
        } else {
            match constraint {
                MapConstraint::Fixed(v) => {
                    let b = page_of(v.0);
                    if v.0 % PAGE_SIZE != 0 {
                        unchanged && r == Err::<VirtAddr, Errno>(Errno::EINVAL)
                    } else if b < ALLOC_BEGIN_PAGE || b + pages > PROCESS_END_PAGE {
                        unchanged && r == Err::<VirtAddr, Errno>(Errno::ENOMEM)
                    } else {
                        &&& r == Ok::<VirtAddr, Errno>(v)
                        &&& Self::replaced(
                            before,
                            after,
                            mem_before,
                            mem_after,
                            b,
                            b + pages,
                            Some(
                                MappingView { begin: b, size: pages as int, flags, residence },
                            ),
                        )
                        &&& forall|p: int|
                            #[trigger] cpu_after.cached(p) == if b <= p < b + pages {
                                None
                            } else {
                                cpu_before.cached(p)
                            }
                    }
                },
                _ => {
                    let min = min_page(constraint);
                    match r {
                        Ok(addr) => {
                            let b = page_of(addr.0);
                            &&& addr.0 == b * PAGE_SIZE
                            &&& before.best_fit(b, pages as int, min)
                            &&& Self::mapped(
                                before,
                                after,
                                MappingView { begin: b, size: pages as int, flags, residence },
                            )
                            &&& *mem_after == *mem_before
                            &&& *cpu_after == *cpu_before
                        },
                        Err(e) => {
                            &&& e == Errno::ENOMEM
                            &&& unchanged
                            &&& forall|q: int| !#[trigger] before.fits_at(q, pages as int, min)
                        },
                    }
                },
            }
        }
    }

    /// A mapping of no page succeeds and changes nothing.
    pub proof fn lemma_map_nothing(
        before: &MemSpace,
        after: &MemSpace,
        mem_before: &PhysMemory,
        mem_after: &PhysMemory,
        cpu_before: &Cpu,
        cpu_after: &Cpu,
        constraint: MapConstraint,
        flags: u8,
        residence: ResidenceView,
        r: EResult<VirtAddr>,
    )
        requires
            Self::map_result(
                before,
                after,
                mem_before,
                mem_after,
                cpu_before,
                cpu_after,
                constraint,
                0,
                flags,
                residence,
                r,
            ),
        ensures
            r.is_ok(),
            *after == *before,
            *mem_after == *mem_before,
            *cpu_after == *cpu_before,
    {
    }

    /// A mapping at a fixed address of pages that do not all lie below the
    /// range of the kernel fails with `ENOMEM`, and changes nothing.
    pub proof fn lemma_map_kernel_refused(
        before: &MemSpace,
        after: &MemSpace,
        mem_before: &PhysMemory,
        mem_after: &PhysMemory,
        cpu_before: &Cpu,
        cpu_after: &Cpu,
        virt: VirtAddr,
        pages: usize,
        flags: u8,
        residence: ResidenceView,
        r: EResult<VirtAddr>,
    )
        requires
            pages > 0,
            virt.0 % PAGE_SIZE == 0,
            virt.0 + pages * PAGE_SIZE > crate::memory::KERNEL_BEGIN,
            Self::map_result(
                before,
                after,
                mem_before,
                mem_after,
                cpu_before,
                cpu_after,
                MapConstraint::Fixed(virt),
                pages,
                flags,
                residence,
                r,
            ),
        ensures
            r == Err::<VirtAddr, Errno>(Errno::ENOMEM),
            *after == *before,
            *mem_after == *mem_before,
            *cpu_after == *cpu_before,
    {
        assert(page_of(virt.0) * PAGE_SIZE == virt.0);
        assert(page_of(virt.0) + pages > PROCESS_END_PAGE);
    }

    /// A list of regions in which each page has the frame it has in this
    /// memory space counts as many pages for each frame.
    proof fn lemma_same_frames(&self, r0: Seq<Region>)
        requires
            forall|p: int| #[trigger] frame_in(self.regions(), p) == frame_in(r0, p),
        ensures
            forall|f: int|
                #[trigger] self.refs(f) == refs_in(
                    r0,
                    f,
                    ALLOC_BEGIN_PAGE as int,
                    PROCESS_END_PAGE as int,
                ),
    {
        assert forall|f: int| #[trigger]
            self.refs(f) == refs_in(r0, f, ALLOC_BEGIN_PAGE as int, PROCESS_END_PAGE as int) by {
            lemma_refs_same(
                self.regions(),
                r0,
                f,
                ALLOC_BEGIN_PAGE as int,
                PROCESS_END_PAGE as int,
            );
        }
    }

    /// The page tables agree on page `p` with a list of regions in which
    /// they agreed with it, if the page has the same frame and the same
    /// flags in both, or no entry and no frame.
    proof fn lemma_page_kept(&self, r0: Seq<Region>, p: int)
        requires
            frame_in(self.regions(), p) == frame_in(r0, p),
            match self.table().entry(p) {
                Some(e) => {
                    &&& mapping_in(r0, p) matches Some(m0)
                    &&& frame_in(r0, p) == Some(e.frame)
                    &&& e.flags == pte_flags(m0.flags, true) || e.flags == pte_flags(m0.flags, false)
                    &&& mapping_in(self.regions(), p) matches Some(m1)
                    &&& m1.flags == m0.flags
                },
                None => frame_in(r0, p).is_none(),
            },
        ensures
            self.page_ok(p),
    {
    }
}

/// Tells whether the page fault code `code` tells of a write.
pub open spec fn is_write(code: u32) -> bool {
    code & PAGE_FAULT_WRITE != 0
}

/// Tells whether the page fault code `code` tells of an access from
/// userspace.
pub open spec fn is_user(code: u32) -> bool {
    code & PAGE_FAULT_USER != 0
}

/// Tells whether frame `f` is the free frame of the userspace zone of
/// `frames` with the lowest address.
pub open spec fn lowest_free(frames: &FrameAllocator, f: int) -> bool {
    &&& frames.is_free_in(Zone::User, f)
    &&& forall|g: int| g < f ==> !#[trigger] frames.is_free_in(Zone::User, g)
}

/// Tells whether the userspace zone of `frames` has no free frame.
pub open spec fn none_free(frames: &FrameAllocator) -> bool {
    forall|g: int| !#[trigger] frames.is_free_in(Zone::User, g)
}

impl MemSpace {
    /// The number of page tables that the memory space may hold.
    pub closed spec fn table_capacity(&self) -> nat {
        self.vmem.capacity()
    }

    /// The mapping that a fault at page `p` with code `code` is resolved in:
    /// the one that holds the page, if it allows the access.
    pub open spec fn fault_target(&self, p: int, code: u32) -> Option<MappingView> {
        match self.mapping_at(p) {
            Some(m) => if (is_user(code) && !has_flag(m.flags, MAPPING_FLAG_USER)) || (is_write(code)
                && !has_flag(m.flags, MAPPING_FLAG_WRITE)) {
                None
            } else {
                Some(m)
            },
            None => None,
        }
    }

    /// Tells whether `after` differs from `before` at most in the frame and
    /// in the entry of page `p`.
    pub open spec fn same_but(before: &MemSpace, after: &MemSpace, p: int) -> bool {
        &&& forall|q: int| #[trigger] after.mapping_at(q) == before.mapping_at(q)
        &&& forall|q: int| q != p ==> #[trigger] after.frame_at(q) == before.frame_at(q)
        &&& after.table_capacity() == before.table_capacity()
    }

    /// Tells whether `after` is `before` in which page `p` has frame `f`,
    /// mapped with the flags `flags`.
    pub open spec fn installed(before: &MemSpace, after: &MemSpace, p: int, f: int, flags: u32) -> bool {
        &&& Self::same_but(before, after, p)
        &&& after.frame_at(p) == Some(f as usize)
        &&& after.table() == before.table().map(p, Entry { frame: f as usize, flags })
    }

    /// Tells whether the counter `after` is `before` with one reference less
    /// to frame `less`, if any, and one more to frame `more`.
    pub open spec fn recounted(
        before: &PhysRefCounter,
        after: &PhysRefCounter,
        less: Option<int>,
        more: int,
    ) -> bool {
        forall|x: int|
            #[trigger] after.count(x) == before.count(x) - (if less == Some(x) {
                1int
            } else {
                0int
            }) + (if x == more {
                1int
            } else {
                0int
            })
    }

    /// Tells whether the allocator `after` is `before` in which frame `f` is
    /// allocated.
    pub open spec fn taken(before: &FrameAllocator, after: &FrameAllocator, f: int) -> bool {
        &&& after.same_layout(before)
        &&& forall|x: int| #[trigger] after.is_free(x) == (before.is_free(x) && x != f)
    }

    /// What the resolution of a fault at page `p` of mapping `m`, with code
    /// `code`, makes of the memory space and of physical memory.
    ///
    /// - A page that is not materialized gets a frame: the one that the
    ///   residence of the mapping has for it, or else the free frame of
    ///   userspace with the lowest address, which then holds the bytes that
    ///   the residence gives the page. The page is mapped with the flags of
    ///   the mapping, and the frame has one more reference.
    /// - A page that is materialized, on a write that its entry does not
    ///   allow: if its frame has other references and the mapping is not
    ///   shared, the page gets the free frame of userspace with the lowest
    ///   address, which then holds the bytes of the frame it had; the page is
    ///   mapped to it with the flags of the mapping, the frame it had has one
    ///   reference less and the new one has one more. Otherwise the page is
    ///   mapped to the frame it has with the flags of the mapping.
    /// - In any other case, nothing changes.
    pub open spec fn resolved(
        before: &MemSpace,
        after: &MemSpace,
        mem_before: &PhysMemory,
        mem_after: &PhysMemory,
        p: int,
        m: MappingView,
        code: u32,
    ) -> bool {
        let index = p - m.begin;
        let flags = pte_flags(m.flags, true);
        let f = match after.frame_at(p) {
            Some(f) => f as int,
            None => -1,
        };
        match before.frame_at(p) {
            None => match m.residence.static_frame(index) {
                Some(sf) => {
                    &&& f == sf
                    &&& Self::installed(before, after, p, f, flags)
                    &&& Self::recounted(&mem_before.refs, &mem_after.refs, None, f)
                    &&& mem_after.frames == mem_before.frames
                    &&& mem_after.ram == mem_before.ram
                },
                None => {
                    &&& lowest_free(&mem_before.frames, f)
                    &&& Self::installed(before, after, p, f, flags)
                    &&& Self::recounted(&mem_before.refs, &mem_after.refs, None, f)
                    &&& Self::taken(&mem_before.frames, &mem_after.frames, f)
                    &&& mem_after.ram.content(f) == m.residence.initial_content(index)
                    &&& forall|x: int|
                        x != f ==> #[trigger] mem_after.ram.content(x) == mem_before.ram.content(x)
                },
            },
            Some(f0) => if is_write(code) && before.table().entry(p) != Some(
                Entry { frame: f0, flags },
            ) {
                if mem_before.refs.count(f0 as int) > 1 && !has_flag(m.flags, MAPPING_FLAG_SHARED) {
                    &&& lowest_free(&mem_before.frames, f)
                    &&& Self::installed(before, after, p, f, flags)
                    &&& Self::recounted(&mem_before.refs, &mem_after.refs, Some(f0 as int), f)
                    &&& Self::taken(&mem_before.frames, &mem_after.frames, f)
                    &&& mem_after.ram.content(f) == mem_before.ram.content(f0 as int)
                    &&& forall|x: int|
                        x != f ==> #[trigger] mem_after.ram.content(x) == mem_before.ram.content(x)
                } else {
                    &&& Self::installed(before, after, p, f0 as int, flags)
                    &&& *mem_after == *mem_before
                }
            } else {
                &&& Self::same_but(before, after, p)
                &&& after.frame_at(p) == before.frame_at(p)
                &&& after.table() == before.table()
                &&& *mem_after == *mem_before
            },
        }
    }

    /// Tells whether the frame that the residence of the mapping of page `p`
    /// has for it, if it has one, is in use in `frames`.
    pub open spec fn static_held(&self, frames: &FrameAllocator, p: int) -> bool {
        self.mapping_at(p) matches Some(m) ==> (m.residence.static_frame(p - m.begin) matches Some(
            sf,
        ) ==> !frames.is_free(sf))
    }

    /// The first access to a page of an anonymous mapping, once the fault is
    /// resolved, gives the page the free frame of userspace with the lowest
    /// address: the page is mapped to it with the flags of its mapping, the
    /// frame holds zeros, and the page holds its only reference.
    pub proof fn lemma_first_touch(
        before: &MemSpace,
        after: &MemSpace,
        mem_before: &PhysMemory,
        mem_after: &PhysMemory,
        cpu_before: &Cpu,
        cpu_after: &Cpu,
        virt: VirtAddr,
        code: u32,
    )
        requires
            mem_before.sound(),
            before.fault_target(page_of(virt.0), code) matches Some(m) && m.residence is Normal,
            before.frame_at(page_of(virt.0)).is_none(),
            Self::fault_handled(
                before,
                after,
                mem_before,
                mem_after,
                cpu_before,
                cpu_after,
                virt,
                code,
                Ok(Resolution::Resolved),
            ),
        ensures
            after.frame_at(page_of(virt.0)) matches Some(f) && {
                &&& lowest_free(&mem_before.frames, f as int)
                &&& !mem_after.frames.is_free(f as int)
                &&& mem_after.refs.count(f as int) == 1
                &&& mem_after.ram.content(f as int) == crate::memory::ram::zero_page()
                &&& after.table().entry(page_of(virt.0)) == Some(
                    Entry {
                        frame: f,
                        flags: pte_flags(before.mapping_at(page_of(virt.0))->0.flags, true),
                    },
                )
            },
            forall|a: usize|
                page_of(a) == page_of(virt.0) ==> #[trigger] after.byte_at(&mem_after.ram, a) == 0,
    {
        let p = page_of(virt.0);
        let m = before.mapping_at(p)->0;
        assert(Self::resolved(before, after, mem_before, mem_after, p, m, code));
        let f = after.frame_at(p)->0 as int;
        assert(lowest_free(&mem_before.frames, f));
        assert(mem_before.frames.is_free(f));
        assert(mem_before.refs.count(f) == 0);
        assert(Self::installed(before, after, p, f, pte_flags(m.flags, true)));
        assert(after.table().entry(p) == Some(
            Entry { frame: f as usize, flags: pte_flags(m.flags, true) },
        ));
    }

    /// The first write to a page that a fork left shared gives the page a
    /// frame of its own, the free frame of userspace with the lowest address.
    /// The frame holds the bytes of the frame that the page had, and the page
    /// holds its only reference. The frame that the page had has lost one
    /// reference and holds what it held, so that another memory space in
    /// which a page has it, `other`, shows the bytes that it showed.
    pub proof fn lemma_copy_on_write(
        before: &MemSpace,
        after: &MemSpace,
        other: &MemSpace,
        mem_before: &PhysMemory,
        mem_after: &PhysMemory,
        cpu_before: &Cpu,
        cpu_after: &Cpu,
        virt: VirtAddr,
        code: u32,
    )
        requires
            mem_before.sound(),
            is_write(code),
            before.fault_target(page_of(virt.0), code) matches Some(m) && !has_flag(
                m.flags,
                MAPPING_FLAG_SHARED,
            ) && before.table().entry(page_of(virt.0)) != Some(
                Entry { frame: before.frame_at(page_of(virt.0))->0, flags: pte_flags(m.flags, true) },
            ),
            before.frame_at(page_of(virt.0)) matches Some(f0) && mem_before.refs.count(f0 as int) > 1,
            Self::fault_handled(
                before,
                after,
                mem_before,
                mem_after,
                cpu_before,
                cpu_after,
                virt,
                code,
                Ok(Resolution::Resolved),
            ),
        ensures
            after.frame_at(page_of(virt.0)) matches Some(f) && {
                &&& Some(f) != before.frame_at(page_of(virt.0))
                &&& lowest_free(&mem_before.frames, f as int)
                &&& mem_after.refs.count(f as int) == 1
                &&& mem_after.ram.content(f as int) == mem_before.ram.content(
                    before.frame_at(page_of(virt.0))->0 as int,
                )
                &&& after.table().entry(page_of(virt.0)) == Some(
                    Entry {
                        frame: f,
                        flags: pte_flags(before.mapping_at(page_of(virt.0))->0.flags, true),
                    },
                )
            },
            before.frame_at(page_of(virt.0)) matches Some(f0) && {
                &&& mem_after.refs.count(f0 as int) == mem_before.refs.count(f0 as int) - 1
                &&& mem_after.ram.content(f0 as int) == mem_before.ram.content(f0 as int)
            },
            forall|a: usize|
                page_of(a) == page_of(virt.0) ==> #[trigger] after.byte_at(&mem_after.ram, a)
                    == before.byte_at(&mem_before.ram, a),
            forall|a: usize|
                other.frame_at(page_of(a)) == before.frame_at(page_of(virt.0)) ==> #[trigger] other.byte_at(
                    &mem_after.ram,
                    a,
                ) == other.byte_at(&mem_before.ram, a),
    {
        let p = page_of(virt.0);
        let m = before.mapping_at(p)->0;
        let f0 = before.frame_at(p)->0 as int;
        assert(Self::resolved(before, after, mem_before, mem_after, p, m, code));
        let f = after.frame_at(p)->0 as int;
        assert(lowest_free(&mem_before.frames, f));
        assert(mem_before.frames.is_free(f));
        assert(mem_before.refs.count(f) == 0);
        assert(f != f0);
        assert(Self::installed(before, after, p, f, pte_flags(m.flags, true)));
        assert(after.table().entry(p) == Some(
            Entry { frame: f as usize, flags: pte_flags(m.flags, true) },
        ));
    }

    /// A page fault keeps the invariant of the frames, if the frame that the
    /// residence of the mapping has for the page, if it has one, is in use.
    pub proof fn lemma_fault_sound(
        before: &MemSpace,
        after: &MemSpace,
        mem_before: &PhysMemory,
        mem_after: &PhysMemory,
        cpu_before: &Cpu,
        cpu_after: &Cpu,
        virt: VirtAddr,
        code: u32,
        r: AllocResult<Resolution>,
    )
        requires
            Self::fault_handled(
                before,
                after,
                mem_before,
                mem_after,
                cpu_before,
                cpu_after,
                virt,
                code,
                r,
            ),
            mem_before.sound(),
            before.static_held(&mem_before.frames, page_of(virt.0)),
        ensures
            mem_after.sound(),
    {
        let p = page_of(virt.0);
        match before.fault_target(p, code) {
            None => {},
            Some(m) => {
                if r.is_ok() {
                    assert(Self::resolved(before, after, mem_before, mem_after, p, m, code));
                    assert forall|f: int| #[trigger] mem_after.frames.is_free(f) implies mem_after.refs.count(
                        f,
                    ) == 0 by {
                        assert(mem_before.frames.is_free(f) ==> mem_before.refs.count(f) == 0);
                    }
                } else {
                    assert forall|f: int| #[trigger] mem_after.frames.is_free(f) implies mem_after.refs.count(
                        f,
                    ) == 0 by {
                        assert(mem_before.frames.is_free(f));
                    }
                }
            },
        }
    }

    /// Tells whether the resolution of a fault at page `p` of mapping `m`,
    /// with code `code`, fails for want of memory: the page needs a frame
    /// and userspace has no free one, or the page needs a page table and the
    /// memory space can hold no more.
    pub open spec fn starved(&self, mem: &PhysMemory, p: int, m: MappingView, code: u32) -> bool {
        let index = p - m.begin;
        match self.frame_at(p) {
            None => match m.residence.static_frame(index) {
                Some(f) => !self.table().can_map(
                    self.table_capacity(),
                    (f * PAGE_SIZE) as usize,
                    p,
                ),
                None => none_free(&mem.frames) || !(self.table().tables.contains(
                    crate::memory::vmem::x86::dir_of(p),
                ) || self.table().tables.len() < self.table_capacity()),
            },
            Some(f0) => {
                &&& is_write(code)
                &&& self.table().entry(p) != Some(
                    Entry { frame: f0, flags: pte_flags(m.flags, true) },
                )
                &&& mem.refs.count(f0 as int) > 1
                &&& !has_flag(m.flags, MAPPING_FLAG_SHARED)
                &&& none_free(&mem.frames)
            },
        }
    }

    /// Maps page number `p` to frame number `f` with flags `flags`, in a
    /// transaction of its own.
    fn install(&mut self, cpu: &mut Cpu, p: usize, f: usize, flags: u32) -> (ok: bool)
        requires
            old(self).vmem.wf(),
            old(cpu).wf(),
            user_page(p as int),
            f < ADDRESSABLE_PAGES,
        ensures
            final(self).vmem.wf(),
            final(cpu).wf(),
            final(self).regions == old(self).regions,
            final(self).table_capacity() == old(self).table_capacity(),
            final(self).root() == old(self).root(),
            final(cpu).same_switches(old(cpu)),
            forall|q: int| q != p ==> #[trigger] final(cpu).cached(q) == old(cpu).cached(q),
            ok == old(self).table().can_map(
                old(self).table_capacity(),
                (f * PAGE_SIZE) as usize,
                p as int,
            ),
            ok ==> final(self).table() == old(self).table().map(p as int, Entry { frame: f, flags })
                && final(cpu).cached(p as int).is_none(),
            !ok ==> final(self).table() == old(self).table(),
    {
        install_entry(&mut self.vmem, cpu, p, f, flags)
    }

    /// What [`Self::handle_page_fault`] returns and does, for a fault at
    /// address `virt` with code `code`.
    pub open spec fn fault_handled(
        before: &MemSpace,
        after: &MemSpace,
        mem_before: &PhysMemory,
        mem_after: &PhysMemory,
        cpu_before: &Cpu,
        cpu_after: &Cpu,
        virt: VirtAddr,
        code: u32,
        r: AllocResult<Resolution>,
    ) -> bool {
        match before.fault_target(page_of(virt.0), code) {
            None => {
                &&& r == Ok::<Resolution, AllocError>(Resolution::Unresolved)
                &&& *after == *before
                &&& *mem_after == *mem_before
                &&& *cpu_after == *cpu_before
            },
            Some(m) => match r {
                Ok(res) => {
                    &&& res == Resolution::Resolved
                    &&& !before.starved(mem_before, page_of(virt.0), m, code)
                    &&& Self::resolved(
                        before,
                        after,
                        mem_before,
                        mem_after,
                        page_of(virt.0),
                        m,
                        code,
                    )
                    &&& cpu_after.cached(page_of(virt.0)).is_none()
                },
                Err(_) => {
                    &&& before.starved(mem_before, page_of(virt.0), m, code)
                    &&& Self::same_but(before, after, page_of(virt.0))
                    &&& after.frame_at(page_of(virt.0)) == before.frame_at(
                        page_of(virt.0),
                    )
                    &&& after.table() == before.table()
                    &&& mem_after.refs == mem_before.refs
                    &&& mem_after.ram == mem_before.ram
                    &&& mem_after.frames.same_layout(&mem_before.frames)
                    &&& forall|x: int|
                        #[trigger] mem_after.frames.is_free(x) == mem_before.frames.is_free(x)
                },
            },
        }
    }

    /// Function called whenever the CPU triggered a page fault for the
    /// context. This function determines whether the process should continue
    /// or not. If continuing, the function must resolve the issue before
    /// returning.
    ///
    /// `virt` is the virtual address of the wrong memory access that caused
    /// the fault. `code` is the error code given along with the error.
    ///
    /// The fault is unresolved, and nothing changes, if no mapping holds the
    /// address or if the mapping does not allow the access: an access from
    /// userspace to a mapping that is not accessible from userspace, or a
    /// write to a mapping that cannot be written to. Otherwise the page is
    /// put in place as [`Self::resolved`] tells, and the processor forgets
    /// its translation. The function fails, for want of memory, as
    /// [`Self::starved`] tells; the memory space and physical memory are then
    /// left as they were.
    pub fn handle_page_fault(
        &mut self,
        mem: &mut PhysMemory,
        cpu: &mut Cpu,
        virt: VirtAddr,
        code: u32,
    ) -> (r: AllocResult<Resolution>)
        requires
            old(self).inv(),
            old(mem).wf(),
            old(cpu).wf(),
            old(self).counted_by(&old(mem).refs),
            old(mem).refs.has_room(),
        ensures
            final(self).inv(),
            final(mem).wf(),
            final(cpu).wf(),
            final(self).counted_by(&final(mem).refs),
            final(self).root() == old(self).root(),
            final(cpu).same_switches(old(cpu)),
            forall|q: int|
                q != page_of(virt.0) ==> #[trigger] final(cpu).cached(q) == old(cpu).cached(q),
            forall|f: int|
                #[trigger] final(mem).refs.count(f) - final(self).refs(f) == old(mem).refs.count(f)
                    - old(self).refs(f),
            Self::fault_handled(old(self), final(self), old(mem), final(mem), old(cpu), final(cpu), virt, code, r),
            old(mem).sound() && old(self).static_held(&old(mem).frames, page_of(virt.0)) ==> final(mem).sound(),
    {
        let p = virt.0 / PAGE_SIZE;
        if p < ALLOC_BEGIN_PAGE || p >= PROCESS_END_PAGE {
            return Ok(Resolution::Unresolved);
        }
        let i = locate(&self.regions, p);
        let ghost r0 = self.regions@;
        proof {
            lemma_at(r0, i as int, p as int);
            assert(r0[i as int].wf());
            self.vmem.lemma_view_wf();
            self.lemma_own_refs();
        }
        let (flags, index, frame, fixed) = match &self.regions[i] {
            Region::Gap(_) => {
                return Ok(Resolution::Unresolved);
            },
            Region::Mapping(m) => {
                let index = p - m.get_begin_page();
                (m.get_flags(), index, m.get_frame(index), m.get_residence().get_static_frame(index))
            },
        };
        let ghost m = old(self).mapping_at(p as int)->0;
        let user = code & PAGE_FAULT_USER != 0;
        let write = code & PAGE_FAULT_WRITE != 0;
        if (user && flags & MAPPING_FLAG_USER == 0) || (write && flags & MAPPING_FLAG_WRITE == 0) {
            return Ok(Resolution::Unresolved);
        }
        let pte = get_pte_flags(flags, true);
        assert(old(self).page_ok(p as int));
        match frame {
            None => {
                // The page is not materialized: give it a frame
                let f = match fixed {
                    Some(f) => f,
                    None => match mem.frames.alloc_frame(Zone::User) {
                        Ok(addr) => addr.0 / PAGE_SIZE,
                        Err(e) => {
                            return Err(e);
                        },
                    },
                };
                let ghost frames1 = mem.frames;
                if !self.install(cpu, p, f, pte) {
                    if fixed.is_none() {
                        mem.frames.free_frame(PhysAddr(f * PAGE_SIZE));
                        proof {
                            old(mem).frames.lemma_free_is_managed(f as int);
                        }
                    }
                    proof {
                        self.lemma_unchanged(old(self));
                    }
                    return Err(AllocError);
                }
                if fixed.is_none() {
                    match &self.regions[i] {
                        Region::Mapping(m) => {
                            m.get_residence().fill(&mut mem.ram, index, f);
                        },
                        Region::Gap(_) => {},
                    }
                }
                mem.refs.incr(f);
                set_page_frame(&mut self.regions, p, Some(f));
                proof {
                    self.lemma_frame_changed(old(self), &old(mem).refs, &mem.refs, p as int, None, f as int);
                    assert forall|q: int| #[trigger] self.page_ok(q) by {
                        assert(old(self).page_ok(q));
                    }
                    if fixed.is_none() {
                        assert(lowest_free(&old(mem).frames, f as int));
                    }
                }
                Ok(Resolution::Resolved)
            },
            Some(f0) => {
                let entry = self.vmem.get_entry(p);
                proof {
                    self.vmem.lemma_seen(p as int);
                }
                let allowed = match entry {
                    Some(e) => e.flags == pte,
                    None => false,
                };
                proof {
                    assert(r0[i as int]->Mapping_0.frame_ok(index as int));
                }
                if write && !allowed {
                    let shared = mem.refs.is_shared(f0) && flags & MAPPING_FLAG_SHARED == 0;
                    if shared {
                        // The frame is shared: give the page a copy of it
                        let f = match mem.frames.alloc_frame(Zone::User) {
                            Ok(addr) => addr.0 / PAGE_SIZE,
                            Err(e) => {
                                return Err(e);
                            },
                        };
                        if !self.install(cpu, p, f, pte) {
                            proof {
                                assert(false);
                            }
                            return Err(AllocError);
                        }
                        mem.ram.copy(f0, f);
                        let _ = mem.refs.decr(f0);
                        mem.refs.incr(f);
                        set_page_frame(&mut self.regions, p, Some(f));
                        proof {
                            self.lemma_frame_changed(
                                old(self),
                                &old(mem).refs,
                                &mem.refs,
                                p as int,
                                Some(f0 as int),
                                f as int,
                            );
                            assert forall|q: int| #[trigger] self.page_ok(q) by {
                                assert(old(self).page_ok(q));
                            }
                            assert(lowest_free(&old(mem).frames, f as int));
                        }
                    } else {
                        // The frame belongs to the page alone: allow writes
                        if !self.install(cpu, p, f0, pte) {
                            proof {
                                assert(false);
                            }
                            return Err(AllocError);
                        }
                        proof {
                            self.lemma_unchanged_regions(old(self));
                            assert forall|q: int| #[trigger] self.page_ok(q) by {
                                assert(old(self).page_ok(q));
                            }
                        }
                    }
                } else {
                    cpu.invalidate(p);
                }
                Ok(Resolution::Resolved)
            },
        }
    }

    /// The memory space counts for each frame what its own list of regions
    /// counts.
    proof fn lemma_own_refs(&self)
        ensures
            forall|f: int|
                #[trigger] self.refs(f) == refs_in(
                    self.regions@,
                    f,
                    ALLOC_BEGIN_PAGE as int,
                    PROCESS_END_PAGE as int,
                ),
    {
    }

    /// A memory space with the regions of `other` has the same mappings and
    /// the same frames, and counts the same pages for each frame.
    proof fn lemma_unchanged_regions(&self, other: &MemSpace)
        requires
            self.regions == other.regions,
        ensures
            forall|q: int| #[trigger] self.mapping_at(q) == other.mapping_at(q),
            forall|q: int| #[trigger] self.frame_at(q) == other.frame_at(q),
            forall|f: int| #[trigger] self.refs(f) == other.refs(f),
    {
    }

    /// A memory space with the regions and the page tables of `other`, which
    /// was in order, is in order, and counted by the same counters.
    proof fn lemma_unchanged(&self, other: &MemSpace)
        requires
            other.inv(),
            self.regions == other.regions,
            self.vmem.wf(),
            self.table() == other.table(),
        ensures
            self.inv(),
            forall|q: int| #[trigger] self.mapping_at(q) == other.mapping_at(q),
            forall|q: int| #[trigger] self.frame_at(q) == other.frame_at(q),
            forall|f: int| #[trigger] self.refs(f) == other.refs(f),
    {
        assert forall|q: int| #[trigger] self.page_ok(q) by {
            assert(other.page_ok(q));
        }
    }

    /// What the change of the frame of page `p` does to the count of the
    /// pages that have each frame: one page less for the frame that the page
    /// had, and one more for the frame that it has.
    proof fn lemma_frame_changed(
        &self,
        before: &MemSpace,
        refs_before: &PhysRefCounter,
        refs_after: &PhysRefCounter,
        p: int,
        less: Option<int>,
        more: int,
    )
        requires
            user_page(p),
            before.counted_by(refs_before),
            forall|q: int| q != p ==> #[trigger] self.frame_at(q) == before.frame_at(q),
            self.frame_at(p) == Some(more as usize),
            0 <= more <= usize::MAX,
            match less {
                Some(f0) => before.frame_at(p) == Some(f0 as usize) && 0 <= f0 <= usize::MAX,
                None => before.frame_at(p).is_none(),
            },
            Self::recounted(refs_before, refs_after, less, more),
        ensures
            self.counted_by(refs_after),
            forall|f: int|
                #[trigger] refs_after.count(f) - self.refs(f) == refs_before.count(f) - before.refs(f),
    {
        assert forall|f: int| #[trigger]
            refs_after.count(f) - self.refs(f) == refs_before.count(f) - before.refs(f)
            && self.refs(f) <= refs_after.count(f) by {
            assert forall|q: int| q != p implies #[trigger] frame_in(before.regions(), q)
                == frame_in(self.regions(), q) by {
                assert(self.frame_at(q) == before.frame_at(q));
            }
            lemma_refs_update(
                before.regions(),
                self.regions(),
                f,
                ALLOC_BEGIN_PAGE as int,
                PROCESS_END_PAGE as int,
                p,
            );
            assert(before.refs(f) <= refs_before.count(f));
            assert(refs_after.count(f) == refs_before.count(f) - (if less == Some(f) {
                1int
            } else {
                0int
            }) + (if f == more {
                1int
            } else {
                0int
            }));
        }
    }
}

impl MemSpace {
    /// The entry that page `q` has after a fork, in the page tables of this
    /// memory space and in those of its copy: the one it has, without the
    /// right to write if the pages of its mapping are copied when they are
    /// written to.
    pub open spec fn forked_entry(&self, q: int) -> Option<Entry> {
        forked(self.regions(), self.table(), q)
    }

    /// Clones the current memory space for process forking.
    ///
    /// The copy has the gaps and the mappings of this memory space, and its
    /// pages have the same frames, each of which gets one more reference; it
    /// has the page tables of the pages that are materialized, and no other. In
    /// the page tables of both, the pages of the mappings that are anonymous
    /// and not shared lose the right to write, so that the first write to
    /// such a page gives it a frame of its own. The processor forgets the
    /// translation of every materialized page.
    ///
    /// The frame of the page directory of the copy is taken from the kernel's
    /// zone. The function fails with `ENOMEM`, and changes nothing, iff the
    /// zone has no free frame.
    pub fn fork(&mut self, mem: &mut PhysMemory, cpu: &mut Cpu) -> (r: EResult<MemSpace>)
        requires
            old(self).inv(),
            old(mem).wf(),
            old(cpu).wf(),
            old(self).counted_by(&old(mem).refs),
            forall|f: int| #[trigger] old(mem).refs.count(f) + old(self).refs(f) <= usize::MAX,
        ensures
            final(self).inv(),
            final(mem).wf(),
            final(cpu).wf(),
            final(self).counted_by(&final(mem).refs),
            old(mem).sound() ==> final(mem).sound(),
            final(cpu).same_switches(old(cpu)),
            final(mem).ram == old(mem).ram,
            final(mem).frames.same_layout(&old(mem).frames),
            final(self).table_capacity() == old(self).table_capacity(),
            final(self).root() == old(self).root(),
            final(self).table().tables == old(self).table().tables,
            forall|q: int| #[trigger] final(self).mapping_at(q) == old(self).mapping_at(q),
            forall|q: int| #[trigger] final(self).gap_at(q) == old(self).gap_at(q),
            forall|q: int| #[trigger] final(self).frame_at(q) == old(self).frame_at(q),
            forall|f: int| #[trigger] final(self).refs(f) == old(self).refs(f),
            match r {
                Ok(child) => {
                    &&& child.inv()
                    &&& child.counted_by(&final(mem).refs)
                    &&& child.table_capacity() == old(self).table_capacity()
                    &&& child.table().tables.subset_of(old(self).table().tables)
                    &&& child.table().tight()
                    &&& forall|q: int| #[trigger] child.mapping_at(q) == old(self).mapping_at(q)
                    &&& forall|q: int| #[trigger] child.gap_at(q) == old(self).gap_at(q)
                    &&& forall|q: int| #[trigger] child.frame_at(q) == old(self).frame_at(q)
                    &&& forall|f: int| #[trigger] child.refs(f) == old(self).refs(f)
                    &&& forall|q: int|
                        #[trigger] child.table().entry(q) == old(self).forked_entry(q)
                    &&& forall|q: int|
                        #[trigger] final(self).table().entry(q) == old(self).forked_entry(q)
                    &&& forall|f: int|
                        #[trigger] final(mem).refs.count(f) == old(mem).refs.count(f) + old(self).refs(f)
                    &&& exists|f: int|
                        #![trigger old(mem).frames.is_free_in(Zone::Kernel, f)]
                        old(mem).frames.is_free_in(Zone::Kernel, f) && Self::taken(
                            &old(mem).frames,
                            &final(mem).frames,
                            f,
                        )
                    &&& forall|q: int|
                        #[trigger] final(cpu).cached(q) == if old(self).frame_at(q) is Some {
                            None
                        } else {
                            old(cpu).cached(q)
                        }
                },
                Err(e) => {
                    &&& e == Errno::ENOMEM
                    &&& forall|g: int| !#[trigger] old(mem).frames.is_free_in(Zone::Kernel, g)
                    &&& *final(self) == *old(self)
                    &&& *final(cpu) == *old(cpu)
                    &&& final(mem).refs == old(mem).refs
                    &&& forall|x: int|
                        #[trigger] final(mem).frames.is_free(x) == old(mem).frames.is_free(x)
                },
            },
    {
        let cap = self.vmem.get_capacity();
        let mut vmem = match VMem::new(&mut mem.frames, cap) {
            Ok(vmem) => vmem,
            Err(_) => {
                return Err(Errno::ENOMEM);
            },
        };
        let regions = duplicate_regions(&self.regions);
        let ghost r0 = self.regions@;
        let ghost t0 = self.vmem.own();
        proof {
            assert forall|q: int| #[trigger] agrees(r0, t0, q) by {
                assert(self.page_ok(q));
            }
            assert forall|f: int| #[trigger]
                mem.refs.count(f) + refs_in(
                    r0,
                    f,
                    ALLOC_BEGIN_PAGE as int,
                    PROCESS_END_PAGE as int,
                ) <= usize::MAX by {
                assert(old(mem).refs.count(f) + old(self).refs(f) <= usize::MAX);
            }
        }
        fork_pages(&self.regions, &mut self.vmem, &mut vmem, &mut mem.refs, cpu);
        let child = MemSpace { regions, vmem };
        proof {
            let f = page_of(child.vmem.root().0);
            assert(old(mem).frames.is_free_in(Zone::Kernel, f));
            assert(Self::taken(&old(mem).frames, &mem.frames, f));
            self.lemma_unchanged_regions(old(self));
            lemma_pte_flags_within(0, true);
            assert forall|q: int| #[trigger] self.page_ok(q) by {
                assert(self.table().entry(q) == forked(r0, t0, q));
                assert(agrees(r0, t0, q));
            }
            assert forall|q: int| #[trigger] child.page_ok(q) by {
                assert(child.table().entry(q) == forked(r0, t0, q));
                assert(agrees(r0, t0, q));
                assert(mapping_in(child.regions@, q) == mapping_in(r0, q));
                assert(frame_in(child.regions@, q) == frame_in(r0, q));
            }
            assert forall|q: int| #[trigger] child.mapping_at(q) == old(self).mapping_at(q) by {
                assert(mapping_in(child.regions@, q) == mapping_in(r0, q));
            }
            assert forall|q: int| #[trigger] child.frame_at(q) == old(self).frame_at(q) by {
                assert(frame_in(child.regions@, q) == frame_in(r0, q));
            }
            child.lemma_same_frames(r0);
            assert forall|f: int| #[trigger] child.refs(f) == old(self).refs(f) by {}
            assert forall|f: int| #[trigger]
                mem.refs.count(f) == old(mem).refs.count(f) + old(self).refs(f) by {}
            assert forall|f: int| #[trigger] self.refs(f) <= mem.refs.count(f) by {
                assert(mem.refs.count(f) == old(mem).refs.count(f) + old(self).refs(f));
            }
            assert forall|f: int| #[trigger] child.refs(f) <= mem.refs.count(f) by {
                assert(mem.refs.count(f) == old(mem).refs.count(f) + old(self).refs(f));
                assert(child.refs(f) == old(self).refs(f));
            }
            assert forall|q: int| #[trigger]
                cpu.cached(q) == if old(self).frame_at(q) is Some {
                    None
                } else {
                    old(cpu).cached(q)
                } by {}
            assert forall|q: int| #[trigger] child.gap_at(q) == old(self).gap_at(q) by {
                child.lemma_gaps_follow(old(self), q);
            }
        }
        Ok(child)
    }
}

impl MemSpace {
    /// Tells whether `after` is `mid` in which the first `n` pages of the
    /// mapping that begins at page `b` are materialized, and physical memory
    /// `mem_after` is `mem_mid` with their frames.
    ///
    /// Each of those pages has the frame that the residence of the mapping
    /// has for it, or else a frame that was free, which holds the bytes that
    /// the residence gives the page. It is mapped with the flags of the
    /// mapping. The counter has one more reference for each, and no other
    /// frame has been taken.
    pub open spec fn materialized(
        mid: &MemSpace,
        after: &MemSpace,
        mem_mid: &PhysMemory,
        mem_after: &PhysMemory,
        b: int,
        n: int,
    ) -> bool {
        &&& forall|q: int| #[trigger] after.mapping_at(q) == mid.mapping_at(q)
        &&& forall|q: int| !(b <= q < b + n) ==> #[trigger] after.frame_at(q) == mid.frame_at(q)
        &&& forall|q: int|
            !(b <= q < b + n) ==> #[trigger] after.table().entry(q) == mid.table().entry(q)
        &&& forall|q: int| b <= q < b + n ==> #[trigger] Self::in_place(mid, after, mem_mid, mem_after, b, q)
        &&& forall|f: int|
            #[trigger] mem_after.refs.count(f) - after.refs(f) == mem_mid.refs.count(f) - mid.refs(f)
        &&& forall|x: int| #[trigger] mem_after.frames.is_free(x) ==> mem_mid.frames.is_free(x)
        &&& forall|x: int|
            mem_mid.frames.is_free(x) && !mem_after.frames.is_free(x) ==> #[trigger] Self::taken_for(
                after,
                x,
                b,
                n,
            )
        &&& forall|x: int|
            !mem_mid.frames.is_free(x) ==> #[trigger] mem_after.ram.content(x)
                == mem_mid.ram.content(x)
        &&& mem_after.frames.same_layout(&mem_mid.frames)
        &&& after.table_capacity() == mid.table_capacity()
    }

    /// Tells whether one of the first `n` pages of the mapping that begins
    /// at page `b` has frame `x` in `after`.
    pub open spec fn taken_for(after: &MemSpace, x: int, b: int, n: int) -> bool {
        exists|q: int| b <= q < b + n && #[trigger] holds(after.regions(), q, x)
    }

    /// Tells whether page `q` of the mapping that begins at page `b` is
    /// materialized in `after`, as [`Self::materialized`] tells.
    pub open spec fn in_place(
        mid: &MemSpace,
        after: &MemSpace,
        mem_mid: &PhysMemory,
        mem_after: &PhysMemory,
        b: int,
        q: int,
    ) -> bool {
        &&& mid.mapping_at(q) matches Some(m)
        &&& after.frame_at(q) matches Some(f)
        &&& after.table().entry(q) == Some(Entry { frame: f, flags: pte_flags(m.flags, true) })
        &&& match m.residence.static_frame(q - m.begin) {
            Some(sf) => f == sf,
            None => {
                &&& mem_mid.frames.is_free(f as int)
                &&& !mem_after.frames.is_free(f as int)
                &&& mem_after.ram.content(f as int) == m.residence.initial_content(q - m.begin)
            },
        }
    }

    /// Tells whether the pages of the mapping that begins at page `b` have
    /// been materialized in `stuck`, in turn, up to page `k` of its `pages`
    /// pages, which cannot be for want of memory.
    pub open spec fn stuck_at(
        mid: &MemSpace,
        stuck: &MemSpace,
        mem_mid: &PhysMemory,
        mem_stuck: &PhysMemory,
        b: int,
        k: int,
        pages: int,
    ) -> bool {
        &&& 0 <= k < pages
        &&& Self::materialized(mid, stuck, mem_mid, mem_stuck, b, k)
        &&& stuck.mapping_at(b + k) matches Some(m) && stuck.starved(mem_stuck, b + k, m, 0)
    }

    /// Tells whether the memory space `after` and physical memory
    /// `mem_after` are as `before` and `mem_before` were: each page has the
    /// gap or the mapping, the frame and the entry that it had, and each
    /// frame has as many references as it had; with `frames`, the frames
    /// that were free are free, and no other.
    pub open spec fn restored(
        before: &MemSpace,
        after: &MemSpace,
        mem_before: &PhysMemory,
        mem_after: &PhysMemory,
        frames: bool,
    ) -> bool {
        &&& forall|p: int| #[trigger] after.mapping_at(p) == before.mapping_at(p)
        &&& forall|p: int| #[trigger] after.gap_at(p) == before.gap_at(p)
        &&& forall|p: int| #[trigger] after.frame_at(p) == before.frame_at(p)
        &&& forall|p: int| #[trigger] after.table().entry(p) == before.table().entry(p)
        &&& forall|f: int| #[trigger] after.refs(f) == before.refs(f)
        &&& forall|f: int| #[trigger] mem_after.refs.count(f) == mem_before.refs.count(f)
        &&& frames ==> forall|x: int|
            #[trigger] mem_after.frames.is_free(x) == mem_before.frames.is_free(x)
    }

    /// A mapping is the mapping of each of its pages.
    pub proof fn lemma_mapping_pages(&self, p: int, q: int)
        requires
            self.inv(),
            self.mapping_at(p) matches Some(m) && m.begin <= q < m.begin + m.size,
        ensures
            self.mapping_at(q) == self.mapping_at(p),
            self.mapping_at(p) matches Some(m) && m.begin <= p < m.begin + m.size,
    {
        let r = self.regions();
        self.lemma_inv();
        lemma_covered(r, p);
        let i = index_of(r, p);
        assert(r[i].wf());
        lemma_at(r, i, q);
    }

    /// A mapping that is made where the memory space chooses, and is undone
    /// because one of its pages is stuck, leaves the memory space as it was:
    /// each page has the mapping, the frame and the entry that it had, and
    /// each frame has as many references as it had. If the mapping is
    /// anonymous, and no free frame had a reference, the frames that were
    /// free are free again, and no other.
    pub proof fn lemma_eager_undone(
        before: &MemSpace,
        mid: &MemSpace,
        stuck: &MemSpace,
        after: &MemSpace,
        mem_before: &PhysMemory,
        mem_stuck: &PhysMemory,
        mem_after: &PhysMemory,
        m: MappingView,
        k: int,
    )
        requires
            before.inv(),
            mid.inv(),
            stuck.inv(),
            m.size > 0,
            before.gap_at(m.begin) matches Some((g, n)) && g <= m.begin && m.begin + m.size <= g + n,
            Self::mapped(before, mid, m),
            0 <= k <= m.size,
            Self::materialized(mid, stuck, mem_before, mem_stuck, m.begin, k),
            Self::unmapped(stuck, after, mem_stuck, mem_after, m.begin, m.begin + m.size),
        ensures
            forall|p: int| #[trigger] after.mapping_at(p) == before.mapping_at(p),
            forall|p: int| #[trigger] after.frame_at(p) == before.frame_at(p),
            forall|p: int| #[trigger] after.table().entry(p) == before.table().entry(p),
            forall|f: int| #[trigger] after.refs(f) == before.refs(f),
            forall|f: int| #[trigger] mem_after.refs.count(f) == mem_before.refs.count(f),
            mem_before.sound() && before.counted_by(&mem_before.refs) && m.residence is Normal
                ==> forall|x: int|
                #[trigger] mem_after.frames.is_free(x) == mem_before.frames.is_free(x),
    {
        let b = m.begin;
        let e = m.begin + m.size;
        let lo = ALLOC_BEGIN_PAGE as int;
        let hi = PROCESS_END_PAGE as int;
        before.lemma_gap_maximal(b);
        before.lemma_inv();
        assert forall|p: int| b <= p < e implies before.mapping_at(p).is_none() && before.frame_at(
            p,
        ).is_none() && before.table().entry(p).is_none() by {
            before.lemma_gap_pages(b, p);
            assert(before.page_ok(p));
        }
        assert forall|p: int| #[trigger] after.mapping_at(p) == before.mapping_at(p) by {
            if !(b <= p < e) {
                assert(stuck.mapping_at(p) == mid.mapping_at(p));
                assert(mid.mapping_at(p) == before.mapping_at(p));
                if let Some(v) = before.mapping_at(p) {
                    if v.begin < b < v.begin + v.size {
                        before.lemma_mapping_pages(p, b);
                    }
                    if v.begin < e < v.begin + v.size {
                        before.lemma_mapping_pages(p, e - 1);
                    }
                }
            }
        }
        assert forall|p: int| #[trigger] after.frame_at(p) == before.frame_at(p) by {
            if !(b <= p < e) {
                assert(stuck.frame_at(p) == mid.frame_at(p));
                assert(mid.frame_at(p) == before.frame_at(p));
            }
        }
        assert forall|p: int| #[trigger] after.table().entry(p) == before.table().entry(p) by {
            crate::memory::vmem::lemma_unmap_range_entry(stuck.table(), b, (e - b) as nat, p);
            assert(after.table() == crate::memory::vmem::unmap_range(stuck.table(), b, (e - b) as nat));
            if b <= p < e {
                before.lemma_gap_pages(b, p);
                assert(before.page_ok(p));
                assert(before.table().entry(p).is_none());
            } else {
                assert(stuck.table().entry(p) == mid.table().entry(p));
                assert(mid.table() == before.table());
            }
        }
        assert(user_page(b) && user_page(e - 1));
        assert forall|f: int| #[trigger] after.refs(f) == before.refs(f) by {
            let rs = stuck.regions();
            let rb = before.regions();
            lemma_refs_split(rs, f, lo, b, hi);
            lemma_refs_split(rs, f, b, e, hi);
            lemma_refs_split(rb, f, lo, b, hi);
            lemma_refs_split(rb, f, b, e, hi);
            assert forall|q: int| lo <= q < b implies #[trigger] frame_in(rs, q) == frame_in(rb, q) by {
                assert(stuck.frame_at(q) == mid.frame_at(q));
                assert(mid.frame_at(q) == before.frame_at(q));
            }
            assert forall|q: int| e <= q < hi implies #[trigger] frame_in(rs, q) == frame_in(rb, q) by {
                assert(stuck.frame_at(q) == mid.frame_at(q));
                assert(mid.frame_at(q) == before.frame_at(q));
            }
            lemma_refs_same(rs, rb, f, lo, b);
            lemma_refs_same(rs, rb, f, e, hi);
            assert forall|q: int| b <= q < e implies !#[trigger] holds(rb, q, f) by {
                assert(before.frame_at(q).is_none());
            }
            lemma_refs_none(rb, f, b, e);
        }
        assert forall|f: int| #[trigger] mem_after.refs.count(f) == mem_before.refs.count(f) by {
            assert(after.refs(f) == before.refs(f));
            assert(mid.refs(f) == before.refs(f));
            assert(mem_stuck.refs.count(f) - stuck.refs(f) == mem_before.refs.count(f) - mid.refs(f));
            assert(after.refs(f) == stuck.refs(f) - stuck.refs_in(f, b, e));
            assert(mem_after.refs.count(f) == mem_stuck.refs.count(f) - stuck.refs_in(f, b, e));
        }
        if mem_before.sound() && before.counted_by(&mem_before.refs) && m.residence is Normal {
            let rs = stuck.regions();
            let rb = before.regions();
            assert forall|x: int| #[trigger]
                mem_after.frames.is_free(x) == mem_before.frames.is_free(x) by {
                assert(mem_after.frames.is_free(x) == (mem_stuck.frames.is_free(x)
                    || mem_stuck.frames.manages(x) && stuck.dropped_in(&mem_stuck.refs, x, b, e)));
                assert(mem_stuck.frames.is_free(x) ==> mem_before.frames.is_free(x));
                if mem_before.frames.is_free(x) && !mem_stuck.frames.is_free(x) {
                    assert(Self::taken_for(stuck, x, m.begin, k));
                    let q = choose|q: int| b <= q < b + k && #[trigger] holds(rs, q, x);
                    assert(mem_before.refs.count(x) == 0);
                    assert(before.refs(x) <= mem_before.refs.count(x));
                    assert(mid.refs(x) == before.refs(x));
                    assert(mem_stuck.refs.count(x) - stuck.refs(x) == mem_before.refs.count(x)
                        - mid.refs(x));
                    lemma_refs_split(rs, x, lo, b, hi);
                    lemma_refs_split(rs, x, b, e, hi);
                    lemma_refs_split(rb, x, lo, b, hi);
                    lemma_refs_split(rb, x, b, e, hi);
                    assert forall|j: int| lo <= j < b implies #[trigger] frame_in(rs, j) == frame_in(
                        rb,
                        j,
                    ) by {
                        assert(stuck.frame_at(j) == mid.frame_at(j));
                        assert(mid.frame_at(j) == before.frame_at(j));
                    }
                    assert forall|j: int| e <= j < hi implies #[trigger] frame_in(rs, j) == frame_in(
                        rb,
                        j,
                    ) by {
                        assert(stuck.frame_at(j) == mid.frame_at(j));
                        assert(mid.frame_at(j) == before.frame_at(j));
                    }
                    lemma_refs_same(rs, rb, x, lo, b);
                    lemma_refs_same(rs, rb, x, e, hi);
                    assert(mem_stuck.refs.count(x) == refs_in(rs, x, b, e));
                    lemma_refs_one(rs, x, b, e, q);
                    assert forall|j: int| b <= j < e && #[trigger] holds(rs, j, x) implies anonymous(
                        mapping_in(rs, j),
                    ) by {
                        assert(stuck.mapping_at(j) == mid.mapping_at(j));
                        assert(mid.mapping_at(j) == Some(m));
                    }
                    regions::lemma_dropped(rs, &mem_stuck.refs, x, b, e);
                    mem_before.frames.lemma_free_is_managed(x);
                    assert(mem_stuck.frames.manages(x));
                }
                if !mem_stuck.frames.is_free(x) && stuck.dropped_in(&mem_stuck.refs, x, b, e) {
                    let q = regions::lemma_dropped_page(rs, &mem_stuck.refs, x, b, e);
                    assert(holds(rs, q, x));
                    if q >= b + k {
                        assert(stuck.frame_at(q) == mid.frame_at(q));
                        assert(mid.frame_at(q) == before.frame_at(q));
                        assert(before.frame_at(q).is_none());
                    } else {
                        assert(Self::in_place(mid, stuck, mem_before, mem_stuck, m.begin, q));
                        assert(mid.mapping_at(q) == Some(m));
                    }
                }
            }
        }
    }

    /// Maps a region of memory.
    ///
    /// `constraint` tells where the mapping may begin; `pages` is the size of
    /// the region in pages; `flags` are the flags of the mapping, and
    /// `residence` tells where its physical pages come from. The function
    /// returns the address of the beginning of the mapping.
    ///
    /// The mapping is made as [`Self::map_lazy`] makes it. If the flags hold
    /// `MAPPING_FLAG_NOLAZY`, its pages are then materialized at once, in
    /// order; iff one of them cannot be, for want of memory, as
    /// [`Self::stuck_at`] tells, the mapping is unmapped again and the
    /// function fails with `ENOMEM`. A function that fails, where the
    /// constraint is not [`MapConstraint::Fixed`], leaves the memory space
    /// and the counter as [`Self::restored`] tells.
    pub fn map(
        &mut self,
        mem: &mut PhysMemory,
        cpu: &mut Cpu,
        constraint: MapConstraint,
        pages: usize,
        flags: u8,
        residence: MapResidence,
    ) -> (r: EResult<VirtAddr>)
        requires
            old(self).inv(),
            old(mem).wf(),
            old(cpu).wf(),
            old(self).counted_by(&old(mem).refs),
            forall|f: int| #[trigger] old(mem).refs.count(f) + pages < usize::MAX,
        ensures
            final(self).inv(),
            final(mem).wf(),
            final(cpu).wf(),
            final(self).counted_by(&final(mem).refs),
            old(mem).sound() && !(residence@ is Static) ==> final(mem).sound(),
            final(cpu).same_switches(old(cpu)),
            final(self).table_capacity() == old(self).table_capacity(),
            final(self).root() == old(self).root(),
            r is Err && !(constraint is Fixed) ==> Self::restored(
                old(self),
                final(self),
                old(mem),
                final(mem),
                old(mem).sound() && residence@ is Normal,
            ),
            !has_flag(flags, MAPPING_FLAG_NOLAZY) || pages == 0 ==> Self::map_result(
                old(self),
                final(self),
                old(mem),
                final(mem),
                old(cpu),
                final(cpu),
                constraint,
                pages,
                flags,
                residence@,
                r,
            ),
            has_flag(flags, MAPPING_FLAG_NOLAZY) && pages > 0 ==> match r {
                Ok(addr) => exists|mid: MemSpace, mem_mid: PhysMemory, cpu_mid: Cpu|
                    {
                        &&& #[trigger] Self::map_result(
                            old(self),
                            &mid,
                            old(mem),
                            &mem_mid,
                            old(cpu),
                            &cpu_mid,
                            constraint,
                            pages,
                            flags,
                            residence@,
                            r,
                        )
                        &&& Self::materialized(
                            &mid,
                            final(self),
                            &mem_mid,
                            final(mem),
                            page_of(addr.0),
                            pages as int,
                        )
                    },
                Err(e) => Self::map_result(
                    old(self),
                    final(self),
                    old(mem),
                    final(mem),
                    old(cpu),
                    final(cpu),
                    constraint,
                    pages,
                    flags,
                    residence@,
                    r,
                ) || (e == Errno::ENOMEM && exists|
                    addr: VirtAddr,
                    mid: MemSpace,
                    mem_mid: PhysMemory,
                    cpu_mid: Cpu,
                    stuck: MemSpace,
                    mem_stuck: PhysMemory,
                    k: int,
                |
                    {
                        &&& #[trigger] Self::map_result(
                            old(self),
                            &mid,
                            old(mem),
                            &mem_mid,
                            old(cpu),
                            &cpu_mid,
                            constraint,
                            pages,
                            flags,
                            residence@,
                            Ok::<VirtAddr, Errno>(addr),
                        )
                        &&& #[trigger] Self::stuck_at(
                            &mid,
                            &stuck,
                            &mem_mid,
                            &mem_stuck,
                            page_of(addr.0),
                            k,
                            pages as int,
                        )
                        &&& Self::unmapped(
                            &stuck,
                            final(self),
                            &mem_stuck,
                            final(mem),
                            page_of(addr.0),
                            page_of(addr.0) + pages,
                        )
                    }),
            },
    {
        let nolazy = flags & MAPPING_FLAG_NOLAZY != 0;
        let addr = match self.map_lazy(mem, cpu, constraint, pages, flags, residence) {
            Ok(addr) => addr,
            Err(e) => {
                return Err(e);
            },
        };
        if !nolazy || pages == 0 {
            return Ok(addr);
        }
        let ghost s1 = *self;
        let ghost mem1 = *mem;
        let ghost cpu1 = *cpu;
        let b = addr.0 / PAGE_SIZE;
        let ghost view = MappingView {
            begin: b as int,
            size: pages as int,
            flags,
            residence: residence@,
        };
        proof {
            assert(0u32 & 2 == 0 && 0u32 & 4 == 0) by (bit_vector);
            assert forall|q: int| b <= q < b + pages implies #[trigger] s1.mapping_at(q) == Some(
                view,
            ) by {}
            assert forall|q: int| b <= q < b + pages implies #[trigger] s1.frame_at(q).is_none() by {
                match constraint {
                    MapConstraint::Fixed(v) => {},
                    _ => {
                        assert(old(self).fits_at(b as int, pages as int, min_page(constraint)));
                        old(self).lemma_gap_pages(b as int, q);
                        assert(s1.frame_at(q) == old(self).frame_at(q));
                    },
                }
            }
            assert(user_page(b as int) && user_page(b + pages - 1)) by {
                assert(s1.mapping_at(b as int) == Some(view));
                assert(s1.mapping_at(b + pages - 1) == Some(view));
            }
        }
        let mut k: usize = 0;
        while k < pages
            invariant
                k <= pages,
                pages > 0,
                has_flag(flags, MAPPING_FLAG_NOLAZY),
                !is_user(0) && !is_write(0),
                view.begin == b,
                view.flags == flags,
                addr.0 == b * PAGE_SIZE,
                self.table_capacity() == old(self).table_capacity(),
                self.root() == old(self).root(),
                b + pages <= PROCESS_END_PAGE,
                ALLOC_BEGIN_PAGE <= b,
                self.inv(),
                mem.wf(),
                cpu.wf(),
                self.counted_by(&mem.refs),
                old(self).inv(),
                old(self).counted_by(&old(mem).refs),
                s1.inv(),
                view.size == pages,
                cpu.same_switches(old(cpu)),
                forall|f: int| #[trigger] mem.refs.count(f) + (pages - k) < usize::MAX,
                forall|q: int| b <= q < b + pages ==> #[trigger] s1.mapping_at(q) == Some(view),
                forall|q: int| b <= q < b + pages ==> #[trigger] s1.frame_at(q).is_none(),
                Self::materialized(&s1, self, &mem1, mem, b as int, k as int),
                view.residence == residence@,
                old(mem).sound() && !(residence@ is Static) ==> mem.sound(),
                Self::map_result(
                    old(self),
                    &s1,
                    old(mem),
                    &mem1,
                    old(cpu),
                    &cpu1,
                    constraint,
                    pages,
                    flags,
                    residence@,
                    Ok::<VirtAddr, Errno>(addr),
                ),
            decreases pages - k,
        {
            let p = b + k;
            let ghost s2 = *self;
            let ghost mem2 = *mem;
            proof {
                assert(s2.mapping_at(p as int) == s1.mapping_at(p as int));
                assert(s1.mapping_at(p as int) == Some(view));
                assert(s2.frame_at(p as int) == s1.frame_at(p as int));
                assert(s1.frame_at(p as int).is_none());
                assert(mem.refs.has_room()) by {
                    assert forall|f: int| #[trigger] mem.refs.count(f) < usize::MAX by {
                        assert(mem.refs.count(f) + (pages - k) < usize::MAX);
                    }
                }
                assert(page_of((p * PAGE_SIZE) as usize) == p);
            }
            match self.handle_page_fault(mem, cpu, VirtAddr(p * PAGE_SIZE), 0) {
                Ok(_) => {},
                Err(_) => {
                    let ghost s3 = *self;
                    let ghost mem3 = *mem;
                    proof {
                        assert forall|f: int| #[trigger] self.refs(f) <= mem.refs.count(f) by {}
                        assert(Self::same_but(&s2, &s3, p as int));
                        assert(s2.starved(&mem2, p as int, view, 0));
                        assert(s3.frame_at(p as int) == s2.frame_at(p as int));
                        assert(s3.table() == s2.table());
                        assert(mem3.refs == mem2.refs);
                        assert forall|g: int| #[trigger]
                            mem3.frames.is_free_in(Zone::User, g) == mem2.frames.is_free_in(
                                Zone::User,
                                g,
                            ) by {
                            assert(mem3.frames.same_layout(&mem2.frames));
                            assert(mem3.frames.is_free(g) == mem2.frames.is_free(g));
                        }
                        if none_free(&mem2.frames) {
                            assert forall|g: int| !#[trigger] mem3.frames.is_free_in(Zone::User, g) by {
                                assert(!mem2.frames.is_free_in(Zone::User, g));
                            }
                        }
                        assert(s3.starved(&mem3, p as int, view, 0));
                        assert(s3.mapping_at(p as int) == Some(view));
                        assert(Self::materialized(&s1, &s3, &mem1, &mem3, b as int, k as int)) by {
                            assert forall|q: int| b <= q < b + k implies #[trigger] Self::in_place(
                                &s1,
                                &s3,
                                &mem1,
                                &mem3,
                                b as int,
                                q,
                            ) by {
                                assert(Self::in_place(&s1, &s2, &mem1, &mem2, b as int, q));
                            }
                            assert forall|x: int|
                                mem1.frames.is_free(x) && !mem3.frames.is_free(x) implies #[trigger] Self::taken_for(
                                &s3,
                                x,
                                b as int,
                                k as int,
                            ) by {
                                assert(mem3.frames.is_free(x) == mem2.frames.is_free(x));
                                assert(Self::taken_for(&s2, x, b as int, k as int));
                                let q = choose|q: int|
                                    b <= q < b + k && #[trigger] holds(s2.regions(), q, x);
                                assert(s3.frame_at(q) == s2.frame_at(q));
                                assert(holds(s3.regions(), q, x));
                            }
                        }
                        assert(Self::stuck_at(&s1, &s3, &mem1, &mem3, b as int, k as int, pages as int));
                        assert(Self::map_result(
                            old(self),
                            &s1,
                            old(mem),
                            &mem1,
                            old(cpu),
                            &cpu1,
                            constraint,
                            pages,
                            flags,
                            residence@,
                            Ok::<VirtAddr, Errno>(addr),
                        ));
                    }
                    let undone = self.unmap(mem, cpu, addr, pages);
                    proof {
                        assert(undone.is_ok());
                        assert(Self::unmapped(&s3, self, &mem3, mem, b as int, b + pages));
                        if !(constraint is Fixed) {
                            assert(old(self).best_fit(b as int, pages as int, min_page(constraint)));
                            assert(Self::mapped(old(self), &s1, view));
                            assert(mem1 == *old(mem));
                            Self::lemma_eager_undone(
                                old(self),
                                &s1,
                                &s3,
                                self,
                                old(mem),
                                &mem3,
                                mem,
                                view,
                                k as int,
                            );
                            assert forall|q: int| #[trigger] self.gap_at(q) == old(self).gap_at(q) by {
                                self.lemma_gaps_follow(old(self), q);
                            }
                        }
                    }
                    return Err(Errno::ENOMEM);
                },
            }
            proof {
                assert(Self::resolved(&s2, self, &mem2, mem, p as int, view, 0));
                Self::lemma_one_more(&s1, &s2, self, &mem1, &mem2, mem, b as int, k as int, view);
                assert forall|f: int| #[trigger] mem.refs.count(f) + (pages - (k + 1))
                    < usize::MAX by {
                    assert(mem2.refs.count(f) + (pages - k) < usize::MAX);
                    assert(mem.refs.count(f) - self.refs(f) == mem2.refs.count(f) - s2.refs(f));
                    self.lemma_one_ref(&s2, p as int, f);
                }
            }
            k = k + 1;
        }
        proof {
            assert(Self::map_result(
                old(self),
                &s1,
                old(mem),
                &mem1,
                old(cpu),
                &cpu1,
                constraint,
                pages,
                flags,
                residence@,
                Ok::<VirtAddr, Errno>(addr),
            ));
        }
        Ok(addr)
    }

    /// Gaps are what the mappings leave: a gap is a run of pages of the range
    /// that a process may use that belong to no mapping, and it ends on each
    /// side at a mapping or at the end of the range. So the gaps follow from
    /// the mappings, and no two gaps touch each other.
    pub proof fn lemma_gap_maximal(&self, q: int)
        requires
            self.inv(),
            self.gap_at(q).is_some(),
        ensures
            ALLOC_BEGIN_PAGE <= self.gap_begin(q) <= q < self.gap_begin(q) + self.gap_size(q)
                <= PROCESS_END_PAGE,
            forall|p: int|
                self.gap_begin(q) <= p < self.gap_begin(q) + self.gap_size(q)
                    ==> #[trigger] self.mapping_at(p).is_none(),
            forall|p: int|
                self.gap_begin(q) <= p < self.gap_begin(q) + self.gap_size(q) ==> #[trigger] self.gap_at(
                    p,
                ) == self.gap_at(q),
            self.gap_begin(q) > ALLOC_BEGIN_PAGE ==> self.mapping_at(self.gap_begin(q) - 1).is_some(),
            self.gap_begin(q) + self.gap_size(q) < PROCESS_END_PAGE ==> self.mapping_at(
                self.gap_begin(q) + self.gap_size(q),
            ).is_some(),
    {
        let r = self.regions();
        self.lemma_inv();
        lemma_covered(r, q);
        let i = index_of(r, q);
        let g = self.gap_begin(q);
        let n = self.gap_size(q);
        lemma_bounds(r, i);
        assert(r[i].wf());
        assert forall|p: int| g <= p < g + n implies #[trigger] self.mapping_at(p).is_none() by {
            lemma_at(r, i, p);
        }
        assert forall|p: int| g <= p < g + n implies #[trigger] self.gap_at(p) == self.gap_at(q) by {
            lemma_at(r, i, p);
        }
        if g > ALLOC_BEGIN_PAGE {
            assert(i > 0);
            assert(joined(r, i - 1));
            assert(separated(r, i - 1));
            lemma_bounds(r, i - 1);
            lemma_at(r, i - 1, g - 1);
        }
        if g + n < PROCESS_END_PAGE {
            assert(i < r.len() - 1);
            assert(joined(r, i));
            assert(separated(r, i));
            lemma_bounds(r, i + 1);
            lemma_at(r, i + 1, g + n);
        }
    }

    /// A run of pages of the range that a process may use that belong to no
    /// mapping, and that ends on each side at a mapping or at the end of the
    /// range, is a gap: after any mapping or unmapping, the gaps are the runs
    /// that the mappings leave.
    pub proof fn lemma_gap_is_run(&self, g: int, e: int, q: int)
        requires
            self.inv(),
            ALLOC_BEGIN_PAGE <= g <= q < e <= PROCESS_END_PAGE,
            forall|p: int| g <= p < e ==> #[trigger] self.mapping_at(p).is_none(),
            g > ALLOC_BEGIN_PAGE ==> self.mapping_at(g - 1).is_some(),
            e < PROCESS_END_PAGE ==> self.mapping_at(e).is_some(),
        ensures
            self.gap_at(q) == Some((g, e - g)),
    {
        self.lemma_partition(q);
        assert(self.mapping_at(q).is_none());
        self.lemma_gap_maximal(q);
        let ga = self.gap_begin(q);
        let ea = ga + self.gap_size(q);
        if ga < g {
            assert(self.mapping_at(g - 1).is_none());
        }
        if g < ga {
            assert(self.mapping_at(ga - 1).is_none());
        }
        if ea < e {
            assert(self.mapping_at(ea).is_none());
        }
        if e < ea {
            assert(self.mapping_at(e).is_none());
        }
    }

    /// A mapping that is made at the beginning of a gap of `n` pages takes
    /// its pages from the gap: what is left of the gap is a gap, which begins
    /// where the mapping ends, and the other gaps are as they were.
    pub proof fn lemma_gaps_after_map(before: &MemSpace, after: &MemSpace, m: MappingView, n: int, p: int)
        requires
            before.inv(),
            after.inv(),
            0 < m.size <= n,
            before.gap_at(m.begin) == Some((m.begin, n)),
            Self::mapped(before, after, m),
        ensures
            after.gap_at(p) == if m.begin <= p < m.begin + m.size {
                None
            } else if m.begin + m.size <= p < m.begin + n {
                Some((m.begin + m.size, n - m.size))
            } else {
                before.gap_at(p)
            },
    {
        let b = m.begin;
        before.lemma_gap_maximal(b);
        before.lemma_partition(p);
        after.lemma_partition(p);
        assert(after.mapping_at(b + m.size - 1) == Some(m));
        if b <= p < b + m.size {
            assert(after.mapping_at(p) == Some(m));
        } else if b + m.size <= p < b + n {
            assert forall|x: int| b + m.size <= x < b + n implies #[trigger] after.mapping_at(
                x,
            ).is_none() by {
                assert(before.mapping_at(x).is_none());
            }
            if b + n < PROCESS_END_PAGE {
                assert(after.mapping_at(b + n) == before.mapping_at(b + n));
            }
            after.lemma_gap_is_run(b + m.size, b + n, p);
        } else if before.gap_at(p).is_some() {
            before.lemma_gap_maximal(p);
            let g = before.gap_begin(p);
            let e = g + before.gap_size(p);
            assert forall|x: int| g <= x < e implies #[trigger] after.mapping_at(x).is_none() by {
                assert(before.gap_at(x) == before.gap_at(p));
                if b <= x < b + n {
                    assert(before.gap_at(x) == before.gap_at(b));
                }
                assert(before.mapping_at(x).is_none());
            }
            if g > ALLOC_BEGIN_PAGE {
                assert(before.mapping_at(g - 1).is_some());
                assert(after.mapping_at(g - 1).is_some());
            }
            if e < PROCESS_END_PAGE {
                assert(before.mapping_at(e).is_some());
                assert(after.mapping_at(e).is_some());
            }
            after.lemma_gap_is_run(g, e, p);
        } else {
            assert(after.mapping_at(p).is_some() == before.mapping_at(p).is_some());
        }
    }

    /// The pages that are unmapped lie in one gap, which reaches on each side
    /// as far as the gap that was there, if there was one.
    pub proof fn lemma_gap_after_unmap(
        before: &MemSpace,
        after: &MemSpace,
        mem_before: &PhysMemory,
        mem_after: &PhysMemory,
        lo: int,
        hi: int,
        p: int,
    )
        requires
            before.inv(),
            after.inv(),
            ALLOC_BEGIN_PAGE <= lo <= p < hi <= PROCESS_END_PAGE,
            Self::unmapped(before, after, mem_before, mem_after, lo, hi),
        ensures
            ({
                let g = if before.gap_at(lo - 1).is_some() {
                    before.gap_begin(lo - 1)
                } else {
                    lo
                };
                let e = if before.gap_at(hi).is_some() {
                    before.gap_begin(hi) + before.gap_size(hi)
                } else {
                    hi
                };
                after.gap_at(p) == Some((g, e - g))
            }),
    {
        let g = if before.gap_at(lo - 1).is_some() {
            before.gap_begin(lo - 1)
        } else {
            lo
        };
        let e = if before.gap_at(hi).is_some() {
            before.gap_begin(hi) + before.gap_size(hi)
        } else {
            hi
        };
        before.lemma_partition(lo - 1);
        before.lemma_partition(hi);
        if before.gap_at(lo - 1).is_some() {
            before.lemma_gap_maximal(lo - 1);
        }
        if before.gap_at(hi).is_some() {
            before.lemma_gap_maximal(hi);
        }
        assert forall|x: int| g <= x < e implies #[trigger] after.mapping_at(x).is_none() by {
            if !(lo <= x < hi) {
                assert(before.mapping_at(x).is_none());
            }
        }
        if g > ALLOC_BEGIN_PAGE {
            assert(before.mapping_at(g - 1).is_some());
            assert(after.mapping_at(g - 1).is_some());
        }
        if e < PROCESS_END_PAGE {
            assert(before.mapping_at(e).is_some());
            assert(after.mapping_at(e).is_some());
        }
        after.lemma_gap_is_run(g, e, p);
    }

    /// Two memory spaces in which the same pages belong to a mapping have
    /// the same gaps: whatever makes or removes mappings, the gaps are the
    /// runs of pages that the mappings leave.
    pub proof fn lemma_gaps_follow(&self, other: &MemSpace, q: int)
        requires
            self.inv(),
            other.inv(),
            forall|p: int| #[trigger] self.mapping_at(p).is_some() == other.mapping_at(p).is_some(),
        ensures
            self.gap_at(q) == other.gap_at(q),
    {
        self.lemma_partition(q);
        other.lemma_partition(q);
        assert(self.mapping_at(q).is_some() == other.mapping_at(q).is_some());
        if self.gap_at(q).is_some() {
            self.lemma_gap_maximal(q);
            other.lemma_gap_maximal(q);
            let ga = self.gap_begin(q);
            let gb = other.gap_begin(q);
            let ea = ga + self.gap_size(q);
            let eb = gb + other.gap_size(q);
            if ga < gb {
                assert(other.mapping_at(gb - 1).is_some());
                assert(self.mapping_at(gb - 1).is_none());
            }
            if gb < ga {
                assert(self.mapping_at(ga - 1).is_some());
                assert(other.mapping_at(ga - 1).is_none());
            }
            if ea < eb {
                assert(self.mapping_at(ea).is_some());
                assert(other.mapping_at(ea).is_none());
            }
            if eb < ea {
                assert(other.mapping_at(eb).is_some());
                assert(self.mapping_at(eb).is_none());
            }
        }
    }

    /// The pages of a gap belong to no mapping and have no frame.
    pub proof fn lemma_gap_pages(&self, b: int, q: int)
        requires
            self.inv(),
            self.gap_at(b) matches Some((g, s)) && g <= q < g + s,
        ensures
            self.gap_at(q) == self.gap_at(b),
            self.mapping_at(q).is_none(),
            self.frame_at(q).is_none(),
    {
        lemma_covered(self.regions(), b);
        lemma_at(self.regions(), index_of(self.regions(), b), q);
    }

    /// A memory space that differs from another one in the frame of one page
    /// at most counts one page more than it, at most, for each frame.
    proof fn lemma_one_ref(&self, before: &MemSpace, p: int, f: int)
        requires
            user_page(p),
            forall|q: int| q != p ==> #[trigger] self.frame_at(q) == before.frame_at(q),
        ensures
            self.refs(f) <= before.refs(f) + 1,
    {
        assert forall|q: int| q != p implies #[trigger] frame_in(before.regions(), q) == frame_in(
            self.regions(),
            q,
        ) by {
            assert(self.frame_at(q) == before.frame_at(q));
        }
        lemma_refs_update(
            before.regions(),
            self.regions(),
            f,
            ALLOC_BEGIN_PAGE as int,
            PROCESS_END_PAGE as int,
            p,
        );
    }

    /// The materialization of one more page of a mapping.
    proof fn lemma_one_more(
        s1: &MemSpace,
        s2: &MemSpace,
        s3: &MemSpace,
        mem1: &PhysMemory,
        mem2: &PhysMemory,
        mem3: &PhysMemory,
        b: int,
        k: int,
        view: MappingView,
    )
        requires
            0 <= k,
            Self::materialized(s1, s2, mem1, mem2, b, k),
            s1.mapping_at(b + k) == Some(view),
            s1.frame_at(b + k).is_none(),
            view.begin == b,
            Self::resolved(s2, s3, mem2, mem3, b + k, view, 0),
            mem3.frames.same_layout(&mem2.frames),
            forall|f: int|
                #[trigger] mem3.refs.count(f) - s3.refs(f) == mem2.refs.count(f) - s2.refs(f),
        ensures
            Self::materialized(s1, s3, mem1, mem3, b, k + 1),
    {
        let p = b + k;
        assert(s2.mapping_at(p) == s1.mapping_at(p));
        assert(s2.frame_at(p) == s1.frame_at(p));
        let fixed = view.residence.static_frame(p - b);
        let f = match s3.frame_at(p) {
            Some(f) => f as int,
            None => -1,
        };
        assert(Self::installed(s2, s3, p, f, pte_flags(view.flags, true)));
        assert forall|q: int| #[trigger] s3.mapping_at(q) == s1.mapping_at(q) by {
            assert(s3.mapping_at(q) == s2.mapping_at(q));
            assert(s2.mapping_at(q) == s1.mapping_at(q));
        }
        assert forall|q: int| !(b <= q < b + k + 1) implies #[trigger] s3.frame_at(q)
            == s1.frame_at(q) by {
            assert(s3.frame_at(q) == s2.frame_at(q));
            assert(s2.frame_at(q) == s1.frame_at(q));
        }
        assert forall|q: int| !(b <= q < b + k + 1) implies #[trigger] s3.table().entry(q)
            == s1.table().entry(q) by {
            assert(s2.table().entry(q) == s1.table().entry(q));
        }
        assert forall|x: int| #[trigger] mem3.frames.is_free(x) implies mem1.frames.is_free(x) by {
            assert(mem3.frames.is_free(x) ==> mem2.frames.is_free(x));
            if mem2.frames.is_free(x) {
                assert(mem1.frames.is_free(x));
            }
        }
        assert forall|x: int| !mem1.frames.is_free(x) implies #[trigger] mem3.ram.content(x)
            == mem1.ram.content(x) by {
            assert(mem2.ram.content(x) == mem1.ram.content(x));
            if mem2.frames.is_free(x) {
                assert(mem1.frames.is_free(x));
            }
        }
        assert forall|q: int| b <= q < b + k + 1 implies #[trigger] Self::in_place(
            s1,
            s3,
            mem1,
            mem3,
            b,
            q,
        ) by {
            if q < b + k {
                assert(Self::in_place(s1, s2, mem1, mem2, b, q));
                assert(s3.frame_at(q) == s2.frame_at(q));
                assert(s1.mapping_at(q) == s2.mapping_at(q));
                let m = s1.mapping_at(q)->0;
                let fq = s2.frame_at(q)->0;
                if m.residence.static_frame(q - m.begin).is_none() {
                    assert(!mem2.frames.is_free(fq as int));
                    assert(mem3.frames.is_free(fq as int) ==> mem2.frames.is_free(fq as int));
                }
            } else {
                if fixed.is_none() {
                    assert(mem2.frames.is_free(f));
                    assert(mem1.frames.is_free(f));
                }
            }
        }
        assert forall|x: int| #[trigger]
            mem3.refs.count(x) - s3.refs(x) == mem1.refs.count(x) - s1.refs(x) by {
            assert(mem3.refs.count(x) - s3.refs(x) == mem2.refs.count(x) - s2.refs(x));
            assert(mem2.refs.count(x) - s2.refs(x) == mem1.refs.count(x) - s1.refs(x));
        }
        assert forall|x: int| mem1.frames.is_free(x) && !mem3.frames.is_free(x) implies #[trigger] Self::taken_for(
            s3,
            x,
            b,
            k + 1,
        ) by {
            if mem2.frames.is_free(x) {
                assert(mem3.frames.is_free(x) == (mem2.frames.is_free(x) && x != f));
                assert(holds(s3.regions(), p, x));
            } else {
                assert(Self::taken_for(s2, x, b, k));
                let q = choose|q: int| b <= q < b + k && #[trigger] holds(s2.regions(), q, x);
                assert(s3.frame_at(q) == s2.frame_at(q));
                assert(holds(s3.regions(), q, x));
            }
        }
    }

    /// Same as `map`, except the function returns the address of the end of
    /// the memory region.
    pub fn map_stack(
        &mut self,
        mem: &mut PhysMemory,
        cpu: &mut Cpu,
        constraint: MapConstraint,
        pages: usize,
        flags: u8,
    ) -> (r: EResult<VirtAddr>)
        requires
            old(self).inv(),
            old(mem).wf(),
            old(cpu).wf(),
            old(self).counted_by(&old(mem).refs),
            forall|f: int| #[trigger] old(mem).refs.count(f) + pages < usize::MAX,
        ensures
            final(self).inv(),
            final(mem).wf(),
            final(cpu).wf(),
            final(self).counted_by(&final(mem).refs),
            old(mem).sound() ==> final(mem).sound(),
            final(cpu).same_switches(old(cpu)),
            final(self).table_capacity() == old(self).table_capacity(),
            final(self).root() == old(self).root(),
            r is Err && !(constraint is Fixed) ==> Self::restored(
                old(self),
                final(self),
                old(mem),
                final(mem),
                old(mem).sound(),
            ),
            has_flag(flags, MAPPING_FLAG_NOLAZY) && pages > 0 ==> match r {
                Ok(end) => exists|begin: VirtAddr, mid: MemSpace, mem_mid: PhysMemory, cpu_mid: Cpu|
                    {
                        &&& end.0 == begin.0 + pages * PAGE_SIZE
                        &&& #[trigger] Self::map_result(
                            old(self),
                            &mid,
                            old(mem),
                            &mem_mid,
                            old(cpu),
                            &cpu_mid,
                            constraint,
                            pages,
                            flags,
                            ResidenceView::Normal,
                            Ok::<VirtAddr, Errno>(begin),
                        )
                        &&& Self::materialized(
                            &mid,
                            final(self),
                            &mem_mid,
                            final(mem),
                            page_of(begin.0),
                            pages as int,
                        )
                    },
                Err(e) => Self::map_result(
                    old(self),
                    final(self),
                    old(mem),
                    final(mem),
                    old(cpu),
                    final(cpu),
                    constraint,
                    pages,
                    flags,
                    ResidenceView::Normal,
                    Err::<VirtAddr, Errno>(e),
                ) || (e == Errno::ENOMEM && exists|
                    addr: VirtAddr,
                    mid: MemSpace,
                    mem_mid: PhysMemory,
                    cpu_mid: Cpu,
                    stuck: MemSpace,
                    mem_stuck: PhysMemory,
                    k: int,
                |
                    {
                        &&& #[trigger] Self::map_result(
                            old(self),
                            &mid,
                            old(mem),
                            &mem_mid,
                            old(cpu),
                            &cpu_mid,
                            constraint,
                            pages,
                            flags,
                            ResidenceView::Normal,
                            Ok::<VirtAddr, Errno>(addr),
                        )
                        &&& #[trigger] Self::stuck_at(
                            &mid,
                            &stuck,
                            &mem_mid,
                            &mem_stuck,
                            page_of(addr.0),
                            k,
                            pages as int,
                        )
                        &&& Self::unmapped(
                            &stuck,
                            final(self),
                            &mem_stuck,
                            final(mem),
                            page_of(addr.0),
                            page_of(addr.0) + pages,
                        )
                    }),
            },
            !has_flag(flags, MAPPING_FLAG_NOLAZY) || pages == 0 ==> match r {
                Ok(end) => exists|begin: VirtAddr|
                    {
                        &&& end.0 == begin.0 + pages * PAGE_SIZE
                        &&& #[trigger] Self::map_result(
                            old(self),
                            final(self),
                            old(mem),
                            final(mem),
                            old(cpu),
                            final(cpu),
                            constraint,
                            pages,
                            flags,
                            ResidenceView::Normal,
                            Ok::<VirtAddr, Errno>(begin),
                        )
                    },
                Err(e) => Self::map_result(
                    old(self),
                    final(self),
                    old(mem),
                    final(mem),
                    old(cpu),
                    final(cpu),
                    constraint,
                    pages,
                    flags,
                    ResidenceView::Normal,
                    Err::<VirtAddr, Errno>(e),
                ) || (e == Errno::ENOMEM && exists|begin: VirtAddr|
                    begin.0 + pages * PAGE_SIZE > usize::MAX && #[trigger] Self::map_result(
                        old(self),
                        final(self),
                        old(mem),
                        final(mem),
                        old(cpu),
                        final(cpu),
                        constraint,
                        pages,
                        flags,
                        ResidenceView::Normal,
                        Ok::<VirtAddr, Errno>(begin),
                    )),
            },
    {
        let begin = match self.map(mem, cpu, constraint, pages, flags, MapResidence::Normal) {
            Ok(begin) => begin,
            Err(e) => {
                return Err(e);
            },
        };
        proof {
            if pages > 0 {
                let last = page_of(begin.0) + pages - 1;
                assert(self.mapping_at(last).is_some());
                self.lemma_partition(last);
            }
        }
        let Some(size) = pages.checked_mul(PAGE_SIZE) else {
            return Err(Errno::ENOMEM);
        };
        match begin.0.checked_add(size) {
            Some(end) => Ok(VirtAddr(end)),
            None => Err(Errno::ENOMEM),
        }
    }
}

impl MemSpace {
    /// Destroys the memory space: its mappings are unmapped, and the frame of
    /// its page directory is given back. The memory space must not be bound
    /// to `cpu`.
    pub fn destroy(self, mem: &mut PhysMemory, cpu: &mut Cpu)
        requires
            self.inv(),
            old(mem).wf(),
            old(cpu).wf(),
            self.counted_by(&old(mem).refs),
            !self.bound_to(old(cpu)),
        ensures
            final(mem).wf(),
            old(mem).sound() && old(mem).refs.count(self.root_frame()) == 0 ==> final(mem).sound(),
            final(cpu).wf(),
            final(cpu).same_switches(old(cpu)),
            final(mem).frames.same_layout(&old(mem).frames),
            final(mem).ram == old(mem).ram,
            forall|f: int|
                #[trigger] final(mem).refs.count(f) == old(mem).refs.count(f) - self.refs(f),
            forall|x: int|
                #[trigger] final(mem).frames.is_free(x) == (old(mem).frames.is_free(x) || old(mem).frames.manages(x) && (x == self.root_frame() || self.dropped_in(
                    &old(mem).refs,
                    x,
                    ALLOC_BEGIN_PAGE as int,
                    PROCESS_END_PAGE as int,
                ))),
    {
        let mut space = self;
        let ghost root = space.root();
        let _ = space.unmap(
            mem,
            cpu,
            VirtAddr(crate::memory::ALLOC_BEGIN),
            PROCESS_END_PAGE - ALLOC_BEGIN_PAGE,
        );
        let ghost mid = mem.frames;
        let MemSpace { regions: _, vmem } = space;
        vmem.free(&mut mem.frames, cpu);
        proof {
            assert forall|x: int| #[trigger]
                mem.frames.is_free(x) == (old(mem).frames.is_free(x) || old(mem).frames.manages(x)
                    && (x == self.root_frame() || self.dropped_in(
                    &old(mem).refs,
                    x,
                    ALLOC_BEGIN_PAGE as int,
                    PROCESS_END_PAGE as int,
                ))) by {
                assert(mid.is_free(x) == (old(mem).frames.is_free(x) || old(mem).frames.manages(x)
                    && self.dropped_in(
                    &old(mem).refs,
                    x,
                    ALLOC_BEGIN_PAGE as int,
                    PROCESS_END_PAGE as int,
                )));
                assert(mid.manages(x) == old(mem).frames.manages(x));
                if old(mem).frames.is_free(x) {
                    old(mem).frames.lemma_free_is_managed(x);
                }
            }
        }
    }

    /// The number of the frame of the page directory of the memory space.
    pub open spec fn root_frame(&self) -> int {
        page_of(self.root().0)
    }

    /// The physical address of the page directory of the memory space.
    pub closed spec fn root(&self) -> PhysAddr {
        self.vmem.root()
    }
}

/// The number of pages of the memory spaces `spaces` that have frame `f`.
pub open spec fn total_refs(spaces: Seq<MemSpace>, f: int) -> nat
    decreases spaces.len(),
{
    if spaces.len() == 0 {
        0
    } else {
        total_refs(spaces.drop_last(), f) + spaces.last().refs(f)
    }
}

/// Tells whether the counter `refs` counts, for each frame, the pages of the
/// memory spaces `spaces` that have it, and no more.
pub open spec fn counts_all(refs: &PhysRefCounter, spaces: Seq<MemSpace>) -> bool {
    forall|f: int| #[trigger] refs.count(f) == total_refs(spaces, f)
}

/// What the replacement of one memory space does to the count of the pages
/// that have a frame.
proof fn lemma_total_update(spaces: Seq<MemSpace>, i: int, after: MemSpace, f: int)
    requires
        0 <= i < spaces.len(),
    ensures
        total_refs(spaces.update(i, after), f) + spaces[i].refs(f) == total_refs(spaces, f)
            + after.refs(f),
    decreases spaces.len(),
{
    let updated = spaces.update(i, after);
    if i == spaces.len() - 1 {
        assert(updated.drop_last() =~= spaces.drop_last());
    } else {
        assert(updated.drop_last() =~= spaces.drop_last().update(i, after));
        lemma_total_update(spaces.drop_last(), i, after, f);
    }
}

/// A counter that counts the pages of a set of memory spaces counts at least
/// those of each of them.
pub proof fn lemma_counted(refs: &PhysRefCounter, spaces: Seq<MemSpace>, i: int)
    requires
        counts_all(refs, spaces),
        0 <= i < spaces.len(),
    ensures
        spaces[i].counted_by(refs),
{
    assert forall|f: int| #[trigger] spaces[i].refs(f) <= refs.count(f) by {
        lemma_total_update(spaces, i, spaces[i], f);
        lemma_total_least(spaces, i, f);
    }
}

/// The pages of a set of memory spaces that have a frame are at least those
/// of each of them.
proof fn lemma_total_least(spaces: Seq<MemSpace>, i: int, f: int)
    requires
        0 <= i < spaces.len(),
    ensures
        spaces[i].refs(f) <= total_refs(spaces, f),
    decreases spaces.len(),
{
    if i < spaces.len() - 1 {
        lemma_total_least(spaces.drop_last(), i, f);
    }
}

/// The count of the references to each frame is the number of the pages that
/// have it, in all the memory spaces: an operation that changes one memory
/// space, and the counter by as much for each frame as the pages of that
/// memory space that have the frame, keeps it so. Mapping, unmapping and the
/// resolution of a page fault are such operations.
pub proof fn lemma_refcount_kept(
    spaces: Seq<MemSpace>,
    i: int,
    after: MemSpace,
    refs_before: &PhysRefCounter,
    refs_after: &PhysRefCounter,
)
    requires
        0 <= i < spaces.len(),
        counts_all(refs_before, spaces),
        forall|f: int|
            #[trigger] refs_after.count(f) - after.refs(f) == refs_before.count(f)
                - spaces[i].refs(f),
    ensures
        counts_all(refs_after, spaces.update(i, after)),
{
    assert forall|f: int| #[trigger] refs_after.count(f) == total_refs(
        spaces.update(i, after),
        f,
    ) by {
        lemma_total_update(spaces, i, after, f);
        assert(refs_before.count(f) == total_refs(spaces, f));
        assert(refs_after.count(f) - after.refs(f) == refs_before.count(f) - spaces[i].refs(f));
    }
}

/// The count of the references to each frame is the number of the pages that
/// have it, in all the memory spaces: a fork, which adds a memory space whose
/// pages have the frames of those of its parent, and one reference to each
/// frame for each of these pages, keeps it so.
pub proof fn lemma_refcount_forked(
    spaces: Seq<MemSpace>,
    i: int,
    parent: MemSpace,
    child: MemSpace,
    refs_before: &PhysRefCounter,
    refs_after: &PhysRefCounter,
)
    requires
        0 <= i < spaces.len(),
        counts_all(refs_before, spaces),
        forall|f: int| #[trigger] parent.refs(f) == spaces[i].refs(f),
        forall|f: int| #[trigger] child.refs(f) == spaces[i].refs(f),
        forall|f: int| #[trigger] refs_after.count(f) == refs_before.count(f) + spaces[i].refs(f),
    ensures
        counts_all(refs_after, spaces.update(i, parent).push(child)),
{
    let all = spaces.update(i, parent).push(child);
    assert forall|f: int| #[trigger] refs_after.count(f) == total_refs(all, f) by {
        assert(all.drop_last() =~= spaces.update(i, parent));
        lemma_total_update(spaces, i, parent, f);
        assert(refs_before.count(f) == total_refs(spaces, f));
        assert(parent.refs(f) == spaces[i].refs(f));
        assert(child.refs(f) == spaces[i].refs(f));
        assert(refs_after.count(f) == refs_before.count(f) + spaces[i].refs(f));
    }
}

impl MemSpace {
    /// The byte that the process sees at virtual address `addr`: the one
    /// that the frame of the page holds there, if the page is materialized;
    /// or else the one that the page will hold when it is, which is the one
    /// of the frame that the residence of the mapping has for it, or the one
    /// that the residence gives the page. An address that belongs to no
    /// mapping shows zero.
    pub open spec fn byte_at(&self, ram: &Ram, addr: usize) -> u8 {
        let p = page_of(addr);
        let off = offset_of(addr);
        match self.frame_at(p) {
            Some(f) => ram.content(f as int)[off],
            None => match self.mapping_at(p) {
                Some(m) => match m.residence.static_frame(p - m.begin) {
                    Some(sf) => ram.content(sf)[off],
                    None => m.residence.initial_content(p - m.begin)[off],
                },
                None => 0,
            },
        }
    }

    /// Returns the byte that the process sees at virtual address `addr`.
    pub fn read_byte(&self, ram: &Ram, addr: VirtAddr) -> (b: u8)
        requires
            self.inv(),
            ram.wf(),
        ensures
            b == self.byte_at(ram, addr.0),
    {
        let p = addr.0 / PAGE_SIZE;
        let off = addr.0 % PAGE_SIZE;
        if p < ALLOC_BEGIN_PAGE || p >= PROCESS_END_PAGE {
            return 0;
        }
        let i = locate(&self.regions, p);
        proof {
            lemma_at(self.regions@, i as int, p as int);
            assert(self.regions@[i as int].wf());
        }
        match &self.regions[i] {
            Region::Gap(_) => 0,
            Region::Mapping(m) => {
                let index = p - m.get_begin_page();
                proof {
                    assert(m.frame_ok(index as int));
                }
                let frame = match m.get_frame(index) {
                    Some(f) => Some(f),
                    None => m.get_residence().get_static_frame(index),
                };
                match frame {
                    Some(f) => {
                        assert(page_of((f * PAGE_SIZE + off) as usize) == f);
                        assert(offset_of((f * PAGE_SIZE + off) as usize) == off);
                        ram.read(PhysAddr(f * PAGE_SIZE + off))
                    },
                    None => m.get_residence().initial_byte(index, off),
                }
            },
        }
    }

    /// Reads `len` bytes of the memory of the process from virtual address
    /// `addr` on.
    ///
    /// The function fails with `EFAULT` iff userspace cannot read the whole
    /// range.
    pub fn read_user(&self, ram: &Ram, addr: VirtAddr, len: usize) -> (r: EResult<Vec<u8>>)
        requires
            self.inv(),
            ram.wf(),
        ensures
            match r {
                Ok(data) => {
                    &&& self.user_range(addr, len, false)
                    &&& data@.len() == len
                    &&& forall|i: int|
                        0 <= i < len ==> #[trigger] data@[i] == self.byte_at(
                            ram,
                            (addr.0 + i) as usize,
                        )
                },
                Err(e) => e == Errno::EFAULT && !self.user_range(addr, len, false),
            },
    {
        if !self.can_access(addr, len, true, false) {
            return Err(Errno::EFAULT);
        }
        let mut data: Vec<u8> = Vec::new();
        let mut i: usize = 0;
        while i < len
            invariant
                i <= len,
                self.inv(),
                ram.wf(),
                len > 0 ==> addr.0 + len - 1 <= usize::MAX,
                data@.len() == i,
                forall|k: int|
                    0 <= k < i ==> #[trigger] data@[k] == self.byte_at(ram, (addr.0 + k) as usize),
            decreases len - i,
        {
            data.push(self.read_byte(ram, VirtAddr(addr.0 + i)));
            i = i + 1;
        }
        Ok(data)
    }

    /// Tells whether byte `i` of the string at address `ptr` can be accessed.
    pub open spec fn byte_admitted(&self, ptr: usize, i: int, user: bool, write: bool) -> bool {
        ptr + i <= usize::MAX && self.admits(page_of((ptr + i) as usize), user, write)
    }

    /// Tells whether byte `i` of the string at address `ptr` is not the one
    /// that ends it.
    pub open spec fn byte_goes_on(&self, ram: &Ram, ptr: usize, i: int) -> bool {
        self.byte_at(ram, (ptr + i) as usize) != 0
    }

    /// Tells whether the string at address `ptr` has `n` bytes before the
    /// zero that ends it, and can be accessed up to that zero.
    pub open spec fn string_at(&self, ram: &Ram, ptr: usize, n: int, user: bool, write: bool) -> bool {
        &&& 0 <= n
        &&& forall|i: int| 0 <= i <= n ==> #[trigger] self.byte_admitted(ptr, i, user, write)
        &&& forall|i: int| 0 <= i < n ==> #[trigger] self.byte_goes_on(ram, ptr, i)
        &&& !self.byte_goes_on(ram, ptr, n)
    }

    /// Tells whether the given zero-terminated string beginning at `ptr` can
    /// be accessed.
    ///
    /// `user` tells whether the memory must be accessible from userspace or
    /// just kernelspace. `write` tells whether to check for write
    /// permission.
    ///
    /// If the memory cannot be accessed up to the zero that ends the string,
    /// the function returns None. If it can be accessed, it returns the
    /// length of the string located at the pointer `ptr`.
    pub fn can_access_string(&self, ram: &Ram, ptr: VirtAddr, user: bool, write: bool) -> (r: Option<
        usize,
    >)
        requires
            self.inv(),
            ram.wf(),
        ensures
            match r {
                Some(n) => self.string_at(ram, ptr.0, n as int, user, write),
                None => forall|n: int| !#[trigger] self.string_at(ram, ptr.0, n, user, write),
            },
    {
        let mut i: usize = 0;
        loop
            invariant
                self.inv(),
                ram.wf(),
                ptr.0 + i <= usize::MAX,
                forall|j: int| 0 <= j < i ==> #[trigger] self.byte_admitted(ptr.0, j, user, write),
                forall|j: int| 0 <= j < i ==> #[trigger] self.byte_goes_on(ram, ptr.0, j),
            decreases usize::MAX - ptr.0 - i,
        {
            let a = VirtAddr(ptr.0 + i);
            if !self.can_access(a, 1, user, write) {
                proof {
                    assert(!self.admits(page_of(a.0), user, write));
                    assert forall|n: int| !#[trigger] self.string_at(ram, ptr.0, n, user, write) by {
                        if self.string_at(ram, ptr.0, n, user, write) {
                            if n < i {
                                assert(self.byte_goes_on(ram, ptr.0, n));
                            } else {
                                assert(self.byte_admitted(ptr.0, i as int, user, write));
                            }
                        }
                    }
                }
                return None;
            }
            if self.read_byte(ram, a) == 0 {
                proof {
                    assert(self.byte_admitted(ptr.0, i as int, user, write));
                }
                return Some(i);
            }
            if ptr.0 + i == usize::MAX {
                proof {
                    assert forall|n: int| !#[trigger] self.string_at(ram, ptr.0, n, user, write) by {
                        if self.string_at(ram, ptr.0, n, user, write) {
                            if n <= i {
                                if n < i {
                                    assert(self.byte_goes_on(ram, ptr.0, n));
                                }
                            } else {
                                assert(self.byte_admitted(ptr.0, n, user, write));
                            }
                        }
                    }
                }
                return None;
            }
            proof {
                assert(self.byte_admitted(ptr.0, i as int, user, write));
                assert(self.byte_goes_on(ram, ptr.0, i as int));
            }
            i = i + 1;
        }
    }

    /// Tells whether userspace can read the `len` bytes from virtual address
    /// `addr` on, and write to them if `write` is set: every page that the
    /// range touches lies in a mapping that allows it.
    pub open spec fn user_range(&self, addr: VirtAddr, len: usize, write: bool) -> bool {
        len == 0 || (addr.0 + len - 1 <= usize::MAX && forall|p: int|
            page_of(addr.0) <= p <= (addr.0 + len - 1) / PAGE_SIZE as int ==> #[trigger] self.admits(
                p,
                true,
                write,
            ))
    }

    /// Tells whether the memory space shows the first `n` bytes of `data`
    /// from address `addr` on, but for those that lie in a page before the
    /// last one whose frame another of the pages has.
    pub open spec fn written(space: &MemSpace, ram: &Ram, addr: VirtAddr, data: Seq<u8>, n: int) -> bool {
        forall|k: int|
            0 <= k < n && (page_of((addr.0 + k) as usize) == page_of((addr.0 + n - 1) as usize)
                || space.frame_alone(
                page_of(addr.0),
                page_of((addr.0 + n - 1) as usize),
                page_of((addr.0 + k) as usize),
            )) ==> #[trigger] space.byte_at(ram, (addr.0 + k) as usize) == data[k]
    }

    /// Tells whether no other page between `lo` and `hi`, both included, has
    /// the frame of page `p`.
    pub open spec fn frame_alone(&self, lo: int, hi: int, p: int) -> bool {
        forall|q: int| lo <= q <= hi && q != p ==> #[trigger] self.frame_at(q) != self.frame_at(p)
    }

    /// Writes the bytes `data` to the memory of the process at virtual
    /// address `addr`, in order, as userspace would: each page is first put
    /// in place for writing, as a page fault would have it.
    ///
    /// The function fails with `EFAULT`, and changes nothing, iff userspace
    /// cannot write to the whole range. It fails with `ENOMEM` if a page
    /// cannot be put in place: the page of one of the bytes can then not be
    /// put in place in the memory space that is left, as
    /// [`Self::write_starved`] tells, and the bytes before that one are
    /// written, as [`Self::written`] tells. If it is the first page, no byte
    /// is written; where the range lies in one page, the function fails in no
    /// other case.
    ///
    /// After a success the bytes are written, as [`Self::written`] tells:
    /// those of the last page of the range are read back as they were
    /// written, and so are those of each page whose frame no other page of
    /// the range has. A byte that is written through a later page to the
    /// same frame, at the same offset, takes the place of the earlier one.
    pub fn write_user(&mut self, mem: &mut PhysMemory, cpu: &mut Cpu, addr: VirtAddr, data: &Vec<u8>) -> (r:
        EResult<()>)
        requires
            old(self).inv(),
            old(mem).wf(),
            old(cpu).wf(),
            old(self).counted_by(&old(mem).refs),
            forall|f: int| #[trigger] old(mem).refs.count(f) + data@.len() < usize::MAX,
        ensures
            final(self).inv(),
            final(mem).wf(),
            final(cpu).wf(),
            final(self).counted_by(&final(mem).refs),
            old(mem).sound() && (forall|p: int| #[trigger] old(self).static_held(&old(mem).frames, p))
                ==> final(mem).sound(),
            final(self).root() == old(self).root(),
            final(self).table_capacity() == old(self).table_capacity(),
            final(cpu).same_switches(old(cpu)),
            forall|q: int| #[trigger] final(self).mapping_at(q) == old(self).mapping_at(q),
            forall|f: int|
                #[trigger] final(mem).refs.count(f) - final(self).refs(f) == old(mem).refs.count(f)
                    - old(self).refs(f),
            match r {
                Ok(()) => {
                    &&& old(self).user_range(addr, data@.len() as usize, true)
                    &&& data@.len() > 0 ==> !old(self).write_starved(old(mem), addr)
                    &&& Self::written(final(self), &final(mem).ram, addr, data@, data@.len() as int)
                },
                Err(e) => if old(self).user_range(addr, data@.len() as usize, true) {
                    &&& e == Errno::ENOMEM
                    &&& data@.len() > 0
                    &&& page_of(addr.0) == page_of((addr.0 + data@.len() - 1) as usize) ==> old(
                        self,
                    ).write_starved(old(mem), addr)
                    &&& old(self).write_starved(old(mem), addr) ==> final(self).table() == old(
                        self,
                    ).table() && final(mem).ram == old(mem).ram && final(mem).refs == old(mem).refs
                    &&& exists|i: int|
                        0 <= i < data@.len() && #[trigger] final(self).write_starved(
                            final(mem),
                            VirtAddr((addr.0 + i) as usize),
                        ) && Self::written(final(self), &final(mem).ram, addr, data@, i)
                } else {
                    &&& e == Errno::EFAULT
                    &&& *final(self) == *old(self)
                    &&& *final(mem) == *old(mem)
                    &&& *final(cpu) == *old(cpu)
                },
            },
    {
        let len = data.len();
        if !self.can_access(addr, len, true, true) {
            return Err(Errno::EFAULT);
        }
        proof {
            assert(6u32 & 2 != 0 && 6u32 & 4 != 0) by (bit_vector);
        }
        let ghost single = len > 0 && page_of(addr.0) == page_of((addr.0 + len - 1) as usize);
        let mut i: usize = 0;
        while i < len
            invariant
                i <= len,
                len == data@.len(),
                self.inv(),
                mem.wf(),
                cpu.wf(),
                self.counted_by(&mem.refs),
                self.root() == old(self).root(),
                self.table_capacity() == old(self).table_capacity(),
                cpu.same_switches(old(cpu)),
                is_write(6) && is_user(6),
                old(self).user_range(addr, len, true),
                single == (len > 0 && page_of(addr.0) == page_of((addr.0 + len - 1) as usize)),
                len > 0 ==> addr.0 + len - 1 <= usize::MAX,
                forall|q: int| #[trigger] self.mapping_at(q) == old(self).mapping_at(q),
                forall|f: int|
                    #[trigger] mem.refs.count(f) - self.refs(f) == old(mem).refs.count(f) - old(self).refs(f),
                forall|f: int| #[trigger] mem.refs.count(f) + (len - i) < usize::MAX,
                i > 0 ==> self.writable(page_of((addr.0 + i - 1) as usize)),
                i > 0 ==> !old(self).write_starved(old(mem), addr),
                forall|x: int| #[trigger] mem.frames.is_free(x) ==> old(mem).frames.is_free(x),
                old(mem).sound() && (forall|p: int|
                    #[trigger] old(self).static_held(&old(mem).frames, p)) ==> mem.sound(),
                i == 0 ==> *self == *old(self) && *mem == *old(mem),
                forall|k: int|
                    0 <= k < i && page_of((addr.0 + k) as usize) == page_of((addr.0 + i - 1) as usize)
                        ==> #[trigger] self.byte_at(&mem.ram, (addr.0 + k) as usize) == data@[k],
                forall|k: int|
                    0 <= k < i && self.frame_alone(
                        page_of(addr.0),
                        page_of((addr.0 + i - 1) as usize),
                        page_of((addr.0 + k) as usize),
                    ) ==> #[trigger] self.byte_at(&mem.ram, (addr.0 + k) as usize) == data@[k],
                i > 0 ==> forall|q: int|
                    page_of(addr.0) <= q <= page_of((addr.0 + i - 1) as usize) ==> (
                    #[trigger] self.frame_at(q)).is_some(),
            decreases len - i,
        {
            let a = addr.0 + i;
            let p = a / PAGE_SIZE;
            let ghost s2 = *self;
            let ghost mem2 = *mem;
            let ghost m = s2.mapping_at(p as int)->0;
            proof {
                assert(old(self).admits(p as int, true, true));
                assert(s2.mapping_at(p as int) == old(self).mapping_at(p as int));
                assert(mem.refs.has_room()) by {
                    assert forall|f: int| #[trigger] mem.refs.count(f) < usize::MAX by {
                        assert(mem.refs.count(f) + (len - i) < usize::MAX);
                    }
                }
                if single {
                    assert(p == page_of(addr.0));
                }
                if old(mem).sound() && (forall|q: int|
                    #[trigger] old(self).static_held(&old(mem).frames, q)) {
                    assert(old(self).static_held(&old(mem).frames, p as int));
                    assert(s2.static_held(&mem2.frames, p as int));
                }
                assert(page_of(a) == p);
            }
            // Put the page in place for writing
            match self.handle_page_fault(mem, cpu, VirtAddr(a), 6) {
                Ok(_) => {},
                Err(_) => {
                    proof {
                        assert forall|q: int| #[trigger] self.mapping_at(q) == old(self).mapping_at(q) by {
                            assert(s2.mapping_at(q) == old(self).mapping_at(q));
                        }
                        assert forall|f: int| #[trigger]
                            mem.refs.count(f) - self.refs(f) == old(mem).refs.count(f) - old(self).refs(f) by {
                            assert(mem2.refs.count(f) - s2.refs(f) == old(mem).refs.count(f) - old(self).refs(f));
                        }
                        assert(s2.starved(&mem2, p as int, m, 6));
                        assert forall|g: int| #[trigger]
                            mem.frames.is_free_in(Zone::User, g) == mem2.frames.is_free_in(
                                Zone::User,
                                g,
                            ) by {
                            assert(mem.frames.same_layout(&mem2.frames));
                            assert(mem.frames.is_free(g) == mem2.frames.is_free(g));
                        }
                        if none_free(&mem2.frames) {
                            assert forall|g: int| !#[trigger] mem.frames.is_free_in(Zone::User, g) by {
                                assert(!mem2.frames.is_free_in(Zone::User, g));
                            }
                        }
                        assert(self.starved(mem, p as int, m, 6));
                        assert(self.mapping_at(p as int) == Some(m));
                        assert(self.write_starved(mem, VirtAddr((addr.0 + i) as usize)));
                        assert forall|q: int| #[trigger] self.frame_at(q) == s2.frame_at(q) by {}
                        assert(mem.ram == mem2.ram);
                        assert forall|k: int|
                            0 <= k < i && (page_of((addr.0 + k) as usize) == page_of(
                                (addr.0 + i - 1) as usize,
                            ) || self.frame_alone(
                                page_of(addr.0),
                                page_of((addr.0 + i - 1) as usize),
                                page_of((addr.0 + k) as usize),
                            )) implies #[trigger] self.byte_at(&mem.ram, (addr.0 + k) as usize)
                            == data@[k] by {
                            let first = page_of(addr.0);
                            let last = page_of((addr.0 + i - 1) as usize);
                            let pk = page_of((addr.0 + k) as usize);
                            if self.frame_alone(first, last, pk) {
                                assert forall|q: int|
                                    first <= q <= last && q != pk implies #[trigger] s2.frame_at(q)
                                    != s2.frame_at(pk) by {
                                    assert(self.frame_at(q) == s2.frame_at(q));
                                    assert(self.frame_at(pk) == s2.frame_at(pk));
                                }
                                assert(s2.frame_alone(first, last, pk));
                            }
                            assert(s2.byte_at(&mem2.ram, (addr.0 + k) as usize) == data@[k]);
                        }
                        assert(Self::written(self, &mem.ram, addr, data@, i as int));
                    }
                    return Err(Errno::ENOMEM);
                },
            }
            let ghost mem3 = *mem;
            proof {
                assert(Self::resolved(&s2, self, &mem2, mem, p as int, m, 6));
                assert(self.page_ok(p as int));
                assert(self.writable(p as int));
                if i > 0 && page_of((a - 1) as usize) == p {
                    assert(s2.writable(p as int));
                    assert(*mem == mem2);
                    assert forall|k: int|
                        0 <= k < i && page_of((addr.0 + k) as usize) == p implies #[trigger] self.byte_at(
                        &mem.ram,
                        (addr.0 + k) as usize,
                    ) == data@[k] by {
                        assert(s2.byte_at(&mem2.ram, (addr.0 + k) as usize) == data@[k]);
                    }
                }
            }
            let phys = match self.translate(VirtAddr(a)) {
                Some(phys) => phys,
                None => {
                    proof {
                        assert(false);
                    }
                    return Err(Errno::EFAULT);
                },
            };
            mem.ram.write(phys, data[i]);
            proof {
                let f = self.frame_at(p as int)->0 as int;
                assert(self.table().wf()) by {
                    self.lemma_inv();
                }
                assert(self.table().entry(p as int)->0.frame < ADDRESSABLE_PAGES);
                assert(page_of(phys.0) == f);
                assert(offset_of(phys.0) == offset_of(a));
                mem3.ram.lemma_content_len(f);
                assert forall|k: int|
                    0 <= k < i + 1 && page_of((addr.0 + k) as usize) == p implies #[trigger] self.byte_at(
                    &mem.ram,
                    (addr.0 + k) as usize,
                ) == data@[k] by {
                    if k < i {
                        assert(page_of((addr.0 + k) as usize) <= page_of((a - 1) as usize) <= p);
                        assert(self.byte_at(&mem3.ram, (addr.0 + k) as usize) == data@[k]);
                        assert(offset_of((addr.0 + k) as usize) != offset_of(a));
                    }
                }
                let first = page_of(addr.0);
                assert forall|q: int| first <= q <= p implies (#[trigger] self.frame_at(q)).is_some() by {
                    if q != p {
                        assert(i > 0 && q <= page_of((a - 1) as usize));
                        assert(self.frame_at(q) == s2.frame_at(q));
                    }
                }
                assert forall|k: int|
                    0 <= k < i + 1 && self.frame_alone(
                        first,
                        p as int,
                        page_of((addr.0 + k) as usize),
                    ) implies #[trigger] self.byte_at(&mem.ram, (addr.0 + k) as usize) == data@[k] by {
                    let qk = page_of((addr.0 + k) as usize);
                    if k < i && qk != p {
                        let pp = page_of((a - 1) as usize);
                        assert(first <= qk <= pp <= p);
                        assert forall|q: int| first <= q <= pp && q != qk implies #[trigger] s2.frame_at(
                            q,
                        ) != s2.frame_at(qk) by {
                            assert(self.frame_at(q) != self.frame_at(qk));
                            assert(self.frame_at(qk) == s2.frame_at(qk));
                            if q != p {
                                assert(self.frame_at(q) == s2.frame_at(q));
                            } else {
                                assert(s2.writable(p as int));
                            }
                        }
                        assert(s2.frame_alone(first, pp, qk));
                        assert(s2.byte_at(&mem2.ram, (addr.0 + k) as usize) == data@[k]);
                        assert(s2.frame_at(qk).is_some());
                        let fq = s2.frame_at(qk)->0 as int;
                        assert(self.frame_at(p as int) != self.frame_at(qk));
                        assert(f != fq);
                        assert(mem3.ram.content(fq) == mem2.ram.content(fq));
                        assert(mem.ram.content(fq) == mem3.ram.content(fq));
                    }
                }
                assert forall|q: int| #[trigger] self.mapping_at(q) == old(self).mapping_at(q) by {
                    assert(s2.mapping_at(q) == old(self).mapping_at(q));
                }
                assert forall|f: int| #[trigger]
                    mem.refs.count(f) - self.refs(f) == old(mem).refs.count(f) - old(self).refs(
                        f,
                    ) by {
                    assert(mem2.refs.count(f) - s2.refs(f) == old(mem).refs.count(f) - old(self).refs(f));
                }
                assert forall|f: int| #[trigger] mem.refs.count(f) + (len - (i + 1))
                    < usize::MAX by {
                    assert(mem2.refs.count(f) + (len - i) < usize::MAX);
                    assert(mem.refs.count(f) - self.refs(f) == mem2.refs.count(f) - s2.refs(f));
                    self.lemma_one_ref(&s2, p as int, f);
                }
            }
            i = i + 1;
        }
        Ok(())
    }

    /// Tells whether the page of address `addr`, which lies in a mapping,
    /// cannot be put in place for a write from userspace, for want of
    /// memory.
    pub open spec fn write_starved(&self, mem: &PhysMemory, addr: VirtAddr) -> bool {
        self.mapping_at(page_of(addr.0)) matches Some(m) && self.starved(
            mem,
            page_of(addr.0),
            m,
            6,
        )
    }

    /// Tells whether page `p` is in place for writing: it is materialized,
    /// and its entry has the flags of its mapping.
    pub open spec fn writable(&self, p: int) -> bool {
        &&& self.mapping_at(p) matches Some(m)
        &&& self.frame_at(p) matches Some(f)
        &&& self.table().entry(p) == Some(Entry { frame: f, flags: pte_flags(m.flags, true) })
    }
}

} // verus!
