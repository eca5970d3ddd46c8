//! Virtual memory contexts.
//!
//! A [`VMem`] wraps a page directory. It is edited through a
//! [`VMemTransaction`], which records how to undo each edit: a transaction
//! ends either in [`VMemTransaction::commit`], which keeps the edits, or in
//! [`VMemTransaction::rollback`], which restores the context as it was when
//! the transaction began.

pub mod x86;

use vstd::prelude::*;
use crate::cpu::Cpu;
use crate::errno::{AllocError, AllocResult};
use crate::limits::PAGE_SIZE;
use crate::memory::{
    offset_of, page_of, PhysAddr, VirtAddr, ADDRESSABLE_PAGES, PROCESS_END, PROCESS_END_PAGE,
};
use crate::memory::buddy::{FrameAllocator, Zone};
use x86::{Entry, Rollback, Table, TableView};

verus! {

/// Tells whether the range of `pages` pages that begins at `virtaddr` reaches
/// into the kernel's range.
pub open spec fn overlaps_kernelspace(virtaddr: usize, pages: usize) -> bool {
    virtaddr + pages * PAGE_SIZE > PROCESS_END
}

/// Tells whether the given range of memory overlaps with the kernelspace.
///
/// Arguments:
/// - `virtaddr` is the start of the range.
/// - `pages` is the size of the range in pages.
pub fn is_kernelspace(virtaddr: VirtAddr, pages: usize) -> (b: bool)
    ensures
        b == overlaps_kernelspace(virtaddr.0, pages),
{
    let Some(size) = pages.checked_mul(PAGE_SIZE) else {
        return true;
    };
    let Some(end) = virtaddr.0.checked_add(size) else {
        return true;
    };
    end > PROCESS_END
}

/// An edit of a page directory.
pub enum Edit {
    /// Page `page` is mapped with entry `entry`.
    Install { page: int, entry: Entry },
    /// Page `page` is unmapped.
    Remove { page: int },
}

impl Edit {
    /// The page that the edit is about.
    pub open spec fn page(self) -> int {
        match self {
            Edit::Install { page, .. } => page,
            Edit::Remove { page } => page,
        }
    }

    /// The entry that the page has after the edit.
    pub open spec fn outcome(self) -> Option<Entry> {
        match self {
            Edit::Install { entry, .. } => Some(entry),
            Edit::Remove { .. } => None,
        }
    }
}

/// The directory after `edit` has been made on `s`.
pub open spec fn apply(s: TableView, edit: Edit) -> TableView {
    match edit {
        Edit::Install { page, entry } => s.map(page, entry),
        Edit::Remove { page } => s.unmap(page),
    }
}

/// The directory after the edits `edits` have been made on `s`, in order.
pub open spec fn apply_all(s: TableView, edits: Seq<Edit>) -> TableView
    decreases edits.len(),
{
    if edits.len() == 0 {
        s
    } else {
        apply(apply_all(s, edits.drop_last()), edits.last())
    }
}

/// The handles that the edits `edits`, made in order on `s`, hand back.
pub open spec fn tokens(s: TableView, edits: Seq<Edit>) -> Seq<Rollback>
    decreases edits.len(),
{
    if edits.len() == 0 {
        Seq::empty()
    } else {
        tokens(s, edits.drop_last()).push(
            apply_all(s, edits.drop_last()).token(edits.last().page(), edits.last() is Install),
        )
    }
}

/// The last of `edits` that is about page `page`, if any.
pub open spec fn last_edit(edits: Seq<Edit>, page: int) -> Option<Edit>
    decreases edits.len(),
{
    if edits.len() == 0 {
        None
    } else if edits.last().page() == page {
        Some(edits.last())
    } else {
        last_edit(edits.drop_last(), page)
    }
}

/// The directory after the `n` pages from `page` on have been mapped to the
/// `n` frames from `frame` on, with flags `flags`.
pub open spec fn map_range(s: TableView, page: int, frame: int, n: nat, flags: u32) -> TableView
    decreases n,
{
    if n == 0 {
        s
    } else {
        map_range(s, page, frame, (n - 1) as nat, flags).map(
            page + n - 1,
            Entry { frame: (frame + n - 1) as usize, flags },
        )
    }
}

/// The directory after the `n` pages from `page` on have been unmapped.
pub open spec fn unmap_range(s: TableView, page: int, n: nat) -> TableView
    decreases n,
{
    if n == 0 {
        s
    } else {
        unmap_range(s, page, (n - 1) as nat).unmap(page + n - 1)
    }
}

/// After a sequence of edits, a page has the entry that the last edit about
/// it gave it; a page that no edit was about has the entry it had before.
pub proof fn lemma_edits_agree(s: TableView, edits: Seq<Edit>, page: int)
    ensures
        apply_all(s, edits).entry(page) == match last_edit(edits, page) {
            Some(e) => e.outcome(),
            None => s.entry(page),
        },
    decreases edits.len(),
{
    if edits.len() > 0 {
        lemma_edits_agree(s, edits.drop_last(), page);
    }
}

/// Edits of addressable pages keep a directory well-formed, provided that
/// the entries they install name addressable frames.
pub proof fn lemma_edits_wf(s: TableView, edits: Seq<Edit>)
    requires
        s.wf(),
        forall|i: int|
            0 <= i < edits.len() ==> 0 <= (#[trigger] edits[i]).page() < ADDRESSABLE_PAGES && (
            edits[i] matches Edit::Install { entry, .. } ==> entry.frame < ADDRESSABLE_PAGES),
    ensures
        apply_all(s, edits).wf(),
    decreases edits.len(),
{
    if edits.len() > 0 {
        let init = edits.drop_last();
        assert forall|i: int| 0 <= i < init.len() implies 0 <= (#[trigger] init[i]).page()
            < ADDRESSABLE_PAGES && (init[i] matches Edit::Install { entry, .. } ==> entry.frame
            < ADDRESSABLE_PAGES) by {
            assert(init[i] == edits[i]);
        }
        lemma_edits_wf(s, init);
        let e = edits.last();
        assert(e == edits[edits.len() - 1]);
        assert(0 <= e.page() < ADDRESSABLE_PAGES);
    }
}

/// Undoing a sequence of edits, the last one first, restores the directory
/// that the edits were made on.
pub proof fn lemma_undo_all_restores(s: TableView, edits: Seq<Edit>)
    requires
        s.wf(),
        forall|i: int|
            0 <= i < edits.len() ==> 0 <= (#[trigger] edits[i]).page() < ADDRESSABLE_PAGES && (
            edits[i] matches Edit::Install { entry, .. } ==> entry.frame < ADDRESSABLE_PAGES),
    ensures
        apply_all(s, edits).undo_all(tokens(s, edits)) == s,
    decreases edits.len(),
{
    if edits.len() > 0 {
        let init = edits.drop_last();
        let e = edits.last();
        assert forall|i: int| 0 <= i < init.len() implies 0 <= (#[trigger] init[i]).page()
            < ADDRESSABLE_PAGES && (init[i] matches Edit::Install { entry, .. } ==> entry.frame
            < ADDRESSABLE_PAGES) by {
            assert(init[i] == edits[i]);
        }
        assert(e == edits[edits.len() - 1]);
        lemma_edits_wf(s, init);
        lemma_undo_all_restores(s, init);
        let mid = apply_all(s, init);
        let toks = tokens(s, edits);
        assert(toks.last() == mid.token(e.page(), e is Install));
        assert(toks.drop_last() =~= tokens(s, init));
        match e {
            Edit::Install { page, entry } => {
                x86::lemma_undo_map(mid, page, entry);
            },
            Edit::Remove { page } => {
                x86::lemma_undo_unmap(mid, page);
            },
        }
    }
}

/// A page that has just been mapped translates to the frame it was mapped
/// to: for addresses `virt` and `phys` at the same offset in their pages,
/// `virt` translates to `phys`.
pub proof fn lemma_map_translate(s: TableView, phys: usize, virt: usize, flags: u32)
    requires
        offset_of(phys) == offset_of(virt),
    ensures
        s.map(page_of(virt), Entry { frame: page_of(phys) as usize, flags }).translate(virt)
            == Some(PhysAddr(phys)),
{
}

/// A page that has been mapped and then unmapped does not translate.
pub proof fn lemma_map_unmap_translate(s: TableView, phys: usize, virt: usize, flags: u32)
    ensures
        s.map(page_of(virt), Entry { frame: page_of(phys) as usize, flags }).unmap(
            page_of(virt),
        ).translate(virt).is_none(),
{
}

/// What mapping a range does to each page: the pages of the range get the
/// frames of the range, one for one, and the others keep their entries.
pub proof fn lemma_map_range_entry(s: TableView, page: int, frame: int, n: nat, flags: u32, p: int)
    ensures
        map_range(s, page, frame, n, flags).entry(p) == if page <= p < page + n {
            Some(Entry { frame: (frame + (p - page)) as usize, flags })
        } else {
            s.entry(p)
        },
        map_range(s, page, frame, n, flags).tables.contains(x86::dir_of(p)) == (s.tables.contains(
            x86::dir_of(p),
        ) || exists|q: int| page <= q < page + n && x86::dir_of(q) == x86::dir_of(p)),
    decreases n,
{
    if n > 0 {
        lemma_map_range_entry(s, page, frame, (n - 1) as nat, flags, p);
        let prev = map_range(s, page, frame, (n - 1) as nat, flags);
        if prev.tables.contains(x86::dir_of(p)) && !s.tables.contains(x86::dir_of(p)) {
            let q = choose|q: int| page <= q < page + n - 1 && x86::dir_of(q) == x86::dir_of(p);
            assert(page <= q < page + n && x86::dir_of(q) == x86::dir_of(p));
        }
        if x86::dir_of(page + n - 1) == x86::dir_of(p) {
            assert(page <= page + n - 1 < page + n && x86::dir_of(page + n - 1) == x86::dir_of(p));
        }
    }
}

/// What unmapping a range does to each page: the pages of the range have no
/// entry, and the others keep theirs.
pub proof fn lemma_unmap_range_entry(s: TableView, page: int, n: nat, p: int)
    ensures
        unmap_range(s, page, n).entry(p) == if page <= p < page + n {
            None
        } else {
            s.entry(p)
        },
        unmap_range(s, page, n).tables == s.tables,
    decreases n,
{
    if n > 0 {
        lemma_unmap_range_entry(s, page, (n - 1) as nat, p);
    }
}

/// A virtual memory context.
///
/// This structure implements operations to modify virtual memory in an
/// architecture-independent way.
///
/// `KERNEL` specifies whether mapping in kernelspace is allowed. If not
/// allowed, trying to do it results in an error.
pub struct VMem<const KERNEL: bool> {
    root: PhysAddr,
    page_dir: Table,
}

impl<const KERNEL: bool> View for VMem<KERNEL> {
    type V = TableView;

    /// What the processor sees through the context: what the context holds
    /// itself and, for a context that may not edit the kernel's range, that
    /// range as every context shares it.
    open spec fn view(&self) -> TableView {
        if KERNEL {
            self.own()
        } else {
            over_kernel(self.own())
        }
    }
}

/// The entry through which every context sees page `p` of the kernel's
/// range: the page shows the frame that is as far from the beginning of
/// physical memory as the page is from the beginning of the range.
pub open spec fn kernel_entry(p: int) -> Option<Entry> {
    if PROCESS_END_PAGE <= p < ADDRESSABLE_PAGES {
        Some(Entry { frame: (p - PROCESS_END_PAGE) as usize, flags: x86::FLAG_WRITE | x86::FLAG_GLOBAL })
    } else {
        None
    }
}

/// What the processor sees through a context that holds `own` and may not
/// edit the kernel's range: the pages of `own` below that range, and the
/// kernel's range.
pub open spec fn over_kernel(own: TableView) -> TableView {
    TableView {
        tables: own.tables.union(
            Set::new(|d: int| x86::dir_of(PROCESS_END_PAGE as int) <= d < x86::ENTRIES_PER_TABLE),
        ),
        entries: Map::new(
            |p: int| (p < PROCESS_END_PAGE && own.entries.contains_key(p)) || kernel_entry(p).is_some(),
            |p: int|
                if p < PROCESS_END_PAGE {
                    own.entries[p]
                } else {
                    kernel_entry(p)->0
                },
        ),
    }
}

impl VMem<false> {
    /// Creates a new virtual memory context, in which the kernel's range is
    /// mapped, as in every context, and nothing else.
    ///
    /// The frame that holds the page directory is taken from the kernel's
    /// zone of `frames`; the function fails if the zone has no free frame.
    /// `tables` is the number of page tables that the context may hold.
    pub fn new(frames: &mut FrameAllocator, tables: usize) -> (r: AllocResult<Self>)
        requires
            old(frames).wf(),
        ensures
            final(frames).wf(),
            final(frames).same_layout(old(frames)),
            created(old(frames), final(frames), tables, r),
    {
        match frames.alloc_frame(Zone::Kernel) {
            Ok(root) => Ok(VMem { root, page_dir: Table::new(tables) }),
            Err(e) => Err(e),
        }
    }
}

impl VMem<true> {
    /// Creates a new virtual memory context which is allowed to modify
    /// kernelspace, with nothing mapped.
    ///
    /// The frame that holds the page directory is taken from the kernel's
    /// zone of `frames`; the function fails if the zone has no free frame.
    /// `tables` is the number of page tables that the context may hold.
    pub fn new_kernel(frames: &mut FrameAllocator, tables: usize) -> (r: AllocResult<Self>)
        requires
            old(frames).wf(),
        ensures
            final(frames).wf(),
            final(frames).same_layout(old(frames)),
            created(old(frames), final(frames), tables, r),
    {
        match frames.alloc_frame(Zone::Kernel) {
            Ok(root) => Ok(VMem { root, page_dir: Table::new(tables) }),
            Err(e) => Err(e),
        }
    }
}

/// What the creation of a context does: on success the context holds no page
/// of its own, so that a context that may not edit the kernel's range shows
/// that range and nothing else; it may hold `tables` page tables, and its page directory lies in the lowest frame of the kernel's zone that was
/// free, which is now allocated; the creation fails, and changes nothing, iff
/// the zone had no free frame.
pub open spec fn created<const KERNEL: bool>(
    before: &FrameAllocator,
    after: &FrameAllocator,
    tables: usize,
    r: AllocResult<VMem<KERNEL>>,
) -> bool {
    match r {
        Ok(vmem) => {
            let f = page_of(vmem.root().0);
            &&& vmem.wf()
            &&& vmem.own() == TableView::empty()
            &&& vmem@ == (if KERNEL {
                TableView::empty()
            } else {
                over_kernel(TableView::empty())
            })
            &&& vmem.capacity() == tables
            &&& vmem.root().0 == f * PAGE_SIZE
            &&& before.is_free_in(Zone::Kernel, f)
            &&& forall|g: int| g < f ==> !#[trigger] before.is_free_in(Zone::Kernel, g)
            &&& forall|x: int| #![auto] after.is_free(x) == (before.is_free(x) && x != f)
        },
        Err(_) => {
            &&& forall|g: int| !#[trigger] before.is_free_in(Zone::Kernel, g)
            &&& forall|x: int| #![auto] after.is_free(x) == before.is_free(x)
        },
    }
}

impl<const KERNEL: bool> VMem<KERNEL> {
    /// The context's invariant.
    pub closed spec fn wf(&self) -> bool {
        self.page_dir.wf()
    }

    /// What the context holds itself: the pages that its transactions have
    /// mapped.
    pub closed spec fn own(&self) -> TableView {
        self.page_dir@
    }

    /// The physical address of the page directory, by which the processor
    /// names the context.
    pub closed spec fn root(&self) -> PhysAddr {
        self.root
    }

    /// The number of page tables that the context may hold.
    pub closed spec fn capacity(&self) -> nat {
        self.page_dir.capacity()
    }

    /// Tells whether the processor `cpu` translates through this context.
    pub open spec fn bound_to(&self, cpu: &Cpu) -> bool {
        cpu.page_dir() == Some(self.root())
    }

    /// What a well-formed context holds is well-formed.
    pub proof fn lemma_view_wf(&self)
        requires
            self.wf(),
        ensures
            self.own().wf(),
            self.own().tables.finite(),
            self.own().tables.len() <= self.capacity(),
    {
        self.page_dir.lemma_view_wf();
    }

    /// The processor sees the pages below the kernel's range as the context
    /// holds them, and a context that may not edit the kernel's range shows
    /// each page of that range at its frame.
    pub proof fn lemma_seen(&self, p: int)
        ensures
            p < PROCESS_END_PAGE ==> self@.entry(p) == self.own().entry(p),
            !KERNEL && p >= PROCESS_END_PAGE ==> self@.entry(p) == kernel_entry(p),
    {
    }

    /// Returns an immutable reference to the **architecture-dependent** inner
    /// representation.
    pub fn inner(&self) -> (t: &Table)
        ensures
            t@ == self.own(),
            t.wf() == self.wf(),
            t.capacity() == self.capacity(),
    {
        &self.page_dir
    }

    /// Returns the physical address of the page directory.
    pub fn get_root(&self) -> (r: PhysAddr)
        ensures
            r == self.root(),
    {
        self.root
    }

    /// Translates the given virtual address `addr` to the corresponding
    /// physical address.
    ///
    /// If the address is not mapped, the function returns `None`.
    pub fn translate(&self, addr: VirtAddr) -> (r: Option<PhysAddr>)
        requires
            self.wf(),
        ensures
            r == self@.translate(addr.0),
    {
        let page = addr.0 / PAGE_SIZE;
        if !KERNEL && page >= PROCESS_END_PAGE {
            if page < ADDRESSABLE_PAGES {
                Some(PhysAddr((page - PROCESS_END_PAGE) * PAGE_SIZE + addr.0 % PAGE_SIZE))
            } else {
                None
            }
        } else {
            x86::translate(&self.page_dir, addr)
        }
    }

    /// Returns the number of page tables that the context may hold.
    pub fn get_capacity(&self) -> (c: usize)
        ensures
            c == self.capacity(),
    {
        self.page_dir.get_capacity()
    }

    /// Returns the entry of page number `page`, if the page is mapped.
    pub fn get_entry(&self, page: usize) -> (e: Option<Entry>)
        requires
            self.wf(),
        ensures
            e == self@.entry(page as int),
    {
        if !KERNEL && page >= PROCESS_END_PAGE {
            if page < ADDRESSABLE_PAGES {
                Some(Entry { frame: page - PROCESS_END_PAGE, flags: x86::FLAG_WRITE | x86::FLAG_GLOBAL })
            } else {
                None
            }
        } else {
            self.page_dir.get_entry(page)
        }
    }

    /// Begins a transaction.
    pub fn transaction(&mut self) -> (t: VMemTransaction<'_, KERNEL>)
        requires
            old(self).wf(),
        ensures
            t.wf(),
            t.context() == *old(self),
            t.initial() == old(self).own(),
            t.edits() == 0,
            *final(self) == *final(t.vmem),
    {
        proof {
            self.lemma_view_wf();
        }
        let ghost initial = self.own();
        VMemTransaction { vmem: self, rollback: Vec::new(), initial: Ghost(initial) }
    }

    /// Binds the virtual memory context to the processor `cpu`, whose
    /// lookaside buffer is emptied.
    pub fn bind(&self, cpu: &mut Cpu)
        requires
            old(cpu).wf(),
        ensures
            final(cpu).wf(),
            self.bound_to(final(cpu)),
            forall|p: int| #[trigger] final(cpu).cached(p).is_none(),
            final(cpu).write_protected() == old(cpu).write_protected(),
            final(cpu).smap_enabled() == old(cpu).smap_enabled(),
            final(cpu).interrupts_enabled() == old(cpu).interrupts_enabled(),
    {
        cpu.set_page_dir(self.root);
    }

    /// Tells whether the context is bound to the processor `cpu`.
    pub fn is_bound(&self, cpu: &Cpu) -> (b: bool)
        ensures
            b == self.bound_to(cpu),
    {
        match cpu.get_page_dir() {
            Some(root) => root.0 == self.root.0,
            None => false,
        }
    }

    /// Destroys the context and gives the frame of its page directory back
    /// to `frames`. The context must not be bound to `cpu`: to destroy a
    /// context that the processor translates through is fatal.
    pub fn free(self, frames: &mut FrameAllocator, cpu: &Cpu)
        requires
            old(frames).wf(),
            !self.bound_to(cpu),
        ensures
            final(frames).wf(),
            final(frames).same_layout(old(frames)),
            forall|x: int|
                #![auto]
                final(frames).is_free(x) == (old(frames).is_free(x) || (x == page_of(self.root().0)
                    && old(frames).manages(x))),
    {
        frames.free_frame(self.root);
    }
}

/// Handle allowing to roll back operations on a virtual memory context.
///
/// A transaction that is rolled back leaves the context as it was when the
/// transaction began; one that is committed leaves it with all its edits.
pub struct VMemTransaction<'v, const KERNEL: bool> {
    /// The virtual memory context on which the transaction applies.
    pub vmem: &'v mut VMem<KERNEL>,
    /// The vector of handles to roll back the whole transaction.
    pub rollback: Vec<Rollback>,
    /// What the context held when the transaction began.
    pub initial: Ghost<TableView>,
}

/// What one step of a transaction may end in.
pub open spec fn step_allowed<const KERNEL: bool>(virtaddr: usize, pages: usize) -> bool {
    KERNEL || !overlaps_kernelspace(virtaddr, pages)
}

impl<'v, const KERNEL: bool> VMemTransaction<'v, KERNEL> {
    /// The context as the transaction has left it so far.
    pub open spec fn context(&self) -> VMem<KERNEL> {
        *self.vmem
    }

    /// What the context held when the transaction began.
    pub open spec fn initial(&self) -> TableView {
        self.initial@
    }

    /// The number of edits that the transaction has made.
    pub open spec fn edits(&self) -> nat {
        self.rollback@.len()
    }

    /// The transaction's invariant: the context is well-formed, and undoing
    /// the recorded edits, the last one first, gives what the context held
    /// when the transaction began.
    pub open spec fn wf(&self) -> bool {
        &&& self.vmem.wf()
        &&& self.initial@.wf()
        &&& forall|i: int| 0 <= i < self.rollback@.len() ==> (#[trigger] self.rollback@[i]).wf()
        &&& self.vmem.own().undo_all(self.rollback@) == self.initial@
    }

    /// A transaction with no edit has left the context as it was.
    pub proof fn lemma_no_edit(&self)
        requires
            self.wf(),
            self.edits() == 0,
        ensures
            self.context().own() == self.initial(),
    {
    }

    /// Records the handle of an edit that has just been made.
    fn record(&mut self, r: Rollback, Ghost(before): Ghost<TableView>)
        requires
            r.wf(),
            old(self).context().wf(),
            old(self).initial@.wf(),
            forall|i: int|
                0 <= i < old(self).rollback@.len() ==> (#[trigger] old(self).rollback@[i]).wf(),
            before.undo_all(old(self).rollback@) == old(self).initial@,
            old(self).context().own().undo(r) == before,
        ensures
            final(self).wf(),
            final(self).context() == old(self).context(),
            *final(final(self).vmem) == *final(old(self).vmem),
            final(self).initial() == old(self).initial(),
            final(self).edits() == old(self).edits() + 1,
    {
        self.rollback.push(r);
        assert(self.rollback@.drop_last() =~= old(self).rollback@);
    }

    /// Maps the page numbered `page` to the frame numbered `frame`.
    fn map_page(&mut self, cpu: &mut Cpu, frame: usize, page: usize, flags: u32) -> (r:
        AllocResult<()>)
        requires
            old(self).wf(),
            old(cpu).wf(),
            frame < ADDRESSABLE_PAGES,
            page < ADDRESSABLE_PAGES,
        ensures
            final(self).wf(),
            final(cpu).wf(),
            *final(final(self).vmem) == *final(old(self).vmem),
            final(self).initial() == old(self).initial(),
            final(self).context().root() == old(self).context().root(),
            final(self).context().capacity() == old(self).context().capacity(),
            final(cpu).same_switches(old(cpu)),
            final(cpu).cached(page as int).is_none(),
            forall|p: int| p != page ==> #[trigger] final(cpu).cached(p) == old(cpu).cached(p),
            match r {
                Ok(()) => {
                    &&& old(self).context().own().can_map(
                        old(self).context().capacity(),
                        (frame * PAGE_SIZE) as usize,
                        page as int,
                    )
                    &&& final(self).context().own() == old(self).context().own().map(page as int, Entry { frame, flags })
                    &&& final(self).edits() == old(self).edits() + 1
                },
                Err(_) => {
                    &&& !old(self).context().own().can_map(
                        old(self).context().capacity(),
                        (frame * PAGE_SIZE) as usize,
                        page as int,
                    )
                    &&& final(self).context().own() == old(self).context().own()
                    &&& final(self).edits() == old(self).edits()
                },
            },
    {
        let ghost before = self.vmem.own();
        proof {
            self.vmem.lemma_view_wf();
        }
        let res = x86::map(
            &mut self.vmem.page_dir,
            PhysAddr(frame * PAGE_SIZE),
            VirtAddr(page * PAGE_SIZE),
            flags,
        );
        cpu.invalidate(page);
        match res {
            Ok(token) => {
                proof {
                    x86::lemma_undo_map(before, page as int, Entry { frame, flags });
                }
                self.record(token, Ghost(before));
                Ok(())
            },
            Err(e) => Err(e),
        }
    }

    /// Unmaps the page numbered `page`.
    fn unmap_page(&mut self, cpu: &mut Cpu, page: usize)
        requires
            old(self).wf(),
            old(cpu).wf(),
            page < ADDRESSABLE_PAGES,
        ensures
            final(self).wf(),
            final(cpu).wf(),
            *final(final(self).vmem) == *final(old(self).vmem),
            final(self).initial() == old(self).initial(),
            final(self).context().root() == old(self).context().root(),
            final(self).context().capacity() == old(self).context().capacity(),
            final(cpu).same_switches(old(cpu)),
            final(cpu).cached(page as int).is_none(),
            forall|p: int| p != page ==> #[trigger] final(cpu).cached(p) == old(cpu).cached(p),
            final(self).context().own() == old(self).context().own().unmap(page as int),
            final(self).edits() == old(self).edits() + 1,
    {
        let ghost before = self.vmem.own();
        proof {
            self.vmem.lemma_view_wf();
        }
        let res = x86::unmap(&mut self.vmem.page_dir, VirtAddr(page * PAGE_SIZE));
        cpu.invalidate(page);
        match res {
            Ok(token) => {
                proof {
                    x86::lemma_undo_unmap(before, page as int);
                }
                self.record(token, Ghost(before));
            },
            Err(_) => {},
        }
    }

    /// Maps a single page of virtual memory at `virtaddr` to a single page of
    /// physical memory at `physaddr`.
    ///
    /// `flags` is the set of flags to use for the mapping, which are
    /// architecture-dependent.
    ///
    /// The function fails, and changes nothing, if the context may not edit
    /// kernelspace and the page reaches into it, or if the page cannot be
    /// mapped. Otherwise the translation of the page is forgotten by `cpu`.
    pub fn map(&mut self, cpu: &mut Cpu, physaddr: PhysAddr, virtaddr: VirtAddr, flags: u32) -> (r:
        AllocResult<()>)
        requires
            old(self).wf(),
            old(cpu).wf(),
        ensures
            final(self).wf(),
            final(cpu).wf(),
            *final(final(self).vmem) == *final(old(self).vmem),
            final(self).initial() == old(self).initial(),
            final(self).context().root() == old(self).context().root(),
            final(self).context().capacity() == old(self).context().capacity(),
            final(cpu).same_switches(old(cpu)),
            forall|p: int|
                p != page_of(virtaddr.0) ==> #[trigger] final(cpu).cached(p) == old(cpu).cached(p),
            match r {
                Ok(()) => {
                    &&& step_allowed::<KERNEL>(virtaddr.0, 1)
                    &&& old(self).context().own().can_map(
                        old(self).context().capacity(),
                        physaddr.0,
                        page_of(virtaddr.0),
                    )
                    &&& final(self).context().own() == old(self).context().own().map(
                        page_of(virtaddr.0),
                        Entry { frame: page_of(physaddr.0) as usize, flags },
                    )
                    &&& final(self).edits() == old(self).edits() + 1
                    &&& final(cpu).cached(page_of(virtaddr.0)).is_none()
                },
                Err(_) => {
                    &&& !step_allowed::<KERNEL>(virtaddr.0, 1) || !old(self).context().own().can_map(
                        old(self).context().capacity(),
                        physaddr.0,
                        page_of(virtaddr.0),
                    )
                    &&& final(self).context().own() == old(self).context().own()
                    &&& final(self).edits() == old(self).edits()
                },
            },
    {
        // If kernelspace modification is disabled, error if mapping onto kernelspace
        if !KERNEL && is_kernelspace(virtaddr, 1) {
            return Err(AllocError);
        }
        let page = virtaddr.0 / PAGE_SIZE;
        let frame = physaddr.0 / PAGE_SIZE;
        if page >= ADDRESSABLE_PAGES || frame >= ADDRESSABLE_PAGES {
            return Err(AllocError);
        }
        assert(page_of((frame * PAGE_SIZE) as usize) == frame);
        self.map_page(cpu, frame, page, flags)
    }

    /// Like [`Self::map`] but on a range of several pages: page `i` of the
    /// range that begins at `virtaddr` is mapped to frame `i` of the range
    /// that begins at `physaddr`.
    ///
    /// If the context may not edit kernelspace and the range reaches into it,
    /// the function fails and changes nothing. Otherwise the pages are mapped
    /// in order; if one of them cannot be mapped the function fails, and the
    /// pages before it stay mapped until the transaction is rolled back.
    pub fn map_range(
        &mut self,
        cpu: &mut Cpu,
        physaddr: PhysAddr,
        virtaddr: VirtAddr,
        pages: usize,
        flags: u32,
    ) -> (r: AllocResult<()>)
        requires
            old(self).wf(),
            old(cpu).wf(),
        ensures
            final(self).wf(),
            final(cpu).wf(),
            *final(final(self).vmem) == *final(old(self).vmem),
            final(self).initial() == old(self).initial(),
            final(self).context().root() == old(self).context().root(),
            final(self).context().capacity() == old(self).context().capacity(),
            final(cpu).same_switches(old(cpu)),
            forall|p: int|
                !(page_of(virtaddr.0) <= p < page_of(virtaddr.0) + pages) ==> #[trigger] final(cpu).cached(p) == old(cpu).cached(p),
            pages == 0 ==> r.is_ok(),
            pages > 0 && !step_allowed::<KERNEL>(virtaddr.0, pages) ==> r.is_err() && final(self).context().own() == old(self).context().own() && final(self).edits() == old(self).edits(),
            match r {
                Ok(()) => {
                    &&& pages > 0 ==> step_allowed::<KERNEL>(virtaddr.0, pages)
                    &&& range_mapped(
                        old(self).context().own(),
                        final(self).context().own(),
                        old(self).context().capacity(),
                        physaddr,
                        virtaddr,
                        pages as nat,
                        flags,
                    )
                    &&& final(self).edits() == old(self).edits() + pages
                    &&& forall|p: int|
                        page_of(virtaddr.0) <= p < page_of(virtaddr.0) + pages
                            ==> #[trigger] final(cpu).cached(p).is_none()
                },
                Err(_) => {
                    &&& pages > 0
                    &&& !step_allowed::<KERNEL>(virtaddr.0, pages) && final(self).context().own() == old(self).context().own() && final(self).edits() == old(self).edits() || exists|k: nat|
                        k < pages && #[trigger] range_stopped(
                            old(self).context().own(),
                            final(self).context().own(),
                            old(self).context().capacity(),
                            physaddr,
                            virtaddr,
                            k,
                            flags,
                        ) && final(self).edits() == old(self).edits() + k
                },
            },
    {
        if pages == 0 {
            // No op
            return Ok(());
        }
        // If kernelspace modification is disabled, error if mapping onto kernelspace
        if !KERNEL && is_kernelspace(virtaddr, pages) {
            return Err(AllocError);
        }
        let page0 = virtaddr.0 / PAGE_SIZE;
        let frame0 = physaddr.0 / PAGE_SIZE;
        let ghost start = self.vmem.own();
        let ghost cap = self.vmem.capacity();
        // Map each page
        let mut i: usize = 0;
        while i < pages
            invariant
                i <= pages,
                step_allowed::<KERNEL>(virtaddr.0, pages),
                page0 == page_of(virtaddr.0),
                frame0 == page_of(physaddr.0),
                self.wf(),
                cpu.wf(),
                *final(self.vmem) == *final(old(self).vmem),
                self.initial() == old(self).initial(),
                self.vmem.root() == old(self).context().root(),
                self.vmem.capacity() == cap,
                cap == old(self).context().capacity(),
                start == old(self).context().own(),
                cpu.same_switches(old(cpu)),
                forall|p: int|
                    !(page0 <= p < page0 + i) ==> #[trigger] cpu.cached(p) == old(cpu).cached(p),
                forall|p: int| page0 <= p < page0 + i ==> #[trigger] cpu.cached(p).is_none(),
                range_mapped(start, self.vmem.own(), cap, physaddr, virtaddr, i as nat, flags),
                self.edits() == old(self).edits() + i,
            decreases pages - i,
        {
            let ghost here = self.vmem.own();
            if i >= ADDRESSABLE_PAGES || page0 + i >= ADDRESSABLE_PAGES || frame0 + i
                >= ADDRESSABLE_PAGES {
                assert(range_stopped(start, self.vmem.own(), cap, physaddr, virtaddr, i as nat, flags));
                assert(range_stopped(
                    old(self).context().own(),
                    self.context().own(),
                    old(self).context().capacity(),
                    physaddr,
                    virtaddr,
                    i as nat,
                    flags,
                ));
                return Err(AllocError);
            }
            assert(page_of(((frame0 + i) * PAGE_SIZE) as usize) == frame0 + i);
            match self.map_page(cpu, frame0 + i, page0 + i, flags) {
                Ok(()) => {},
                Err(e) => {
                    assert(range_stopped(
                        start,
                        self.vmem.own(),
                        cap,
                        physaddr,
                        virtaddr,
                        i as nat,
                        flags,
                    ));
                    return Err(e);
                },
            }
            i = i + 1;
        }
        Ok(())
    }

    /// Unmaps a single page of virtual memory at `virtaddr`.
    ///
    /// The function fails, and changes nothing, if the context may not edit
    /// kernelspace and the page reaches into it, or if the address is beyond
    /// what paging can address. Otherwise the translation of the page is
    /// forgotten by `cpu`.
    pub fn unmap(&mut self, cpu: &mut Cpu, virtaddr: VirtAddr) -> (r: AllocResult<()>)
        requires
            old(self).wf(),
            old(cpu).wf(),
        ensures
            final(self).wf(),
            final(cpu).wf(),
            *final(final(self).vmem) == *final(old(self).vmem),
            final(self).initial() == old(self).initial(),
            final(self).context().root() == old(self).context().root(),
            final(self).context().capacity() == old(self).context().capacity(),
            final(cpu).same_switches(old(cpu)),
            forall|p: int|
                p != page_of(virtaddr.0) ==> #[trigger] final(cpu).cached(p) == old(cpu).cached(p),
            match r {
                Ok(()) => {
                    &&& step_allowed::<KERNEL>(virtaddr.0, 1)
                    &&& page_of(virtaddr.0) < ADDRESSABLE_PAGES
                    &&& final(self).context().own() == old(self).context().own().unmap(page_of(virtaddr.0))
                    &&& final(self).edits() == old(self).edits() + 1
                    &&& final(cpu).cached(page_of(virtaddr.0)).is_none()
                },
                Err(_) => {
                    &&& !step_allowed::<KERNEL>(virtaddr.0, 1) || page_of(virtaddr.0)
                        >= ADDRESSABLE_PAGES
                    &&& final(self).context().own() == old(self).context().own()
                    &&& final(self).edits() == old(self).edits()
                },
            },
    {
        // If kernelspace modification is disabled, error if unmapping onto kernelspace
        if !KERNEL && is_kernelspace(virtaddr, 1) {
            return Err(AllocError);
        }
        let page = virtaddr.0 / PAGE_SIZE;
        if page >= ADDRESSABLE_PAGES {
            return Err(AllocError);
        }
        self.unmap_page(cpu, page);
        Ok(())
    }

    /// Like [`Self::unmap`] but on a range of several pages.
    ///
    /// If the context may not edit kernelspace and the range reaches into it,
    /// the function fails and changes nothing. Otherwise the pages are
    /// unmapped in order; if one of them is beyond what paging can address the
    /// function fails, and the pages before it stay unmapped until the
    /// transaction is rolled back.
    pub fn unmap_range(&mut self, cpu: &mut Cpu, virtaddr: VirtAddr, pages: usize) -> (r:
        AllocResult<()>)
        requires
            old(self).wf(),
            old(cpu).wf(),
        ensures
            final(self).wf(),
            final(cpu).wf(),
            *final(final(self).vmem) == *final(old(self).vmem),
            final(self).initial() == old(self).initial(),
            final(self).context().root() == old(self).context().root(),
            final(self).context().capacity() == old(self).context().capacity(),
            final(cpu).same_switches(old(cpu)),
            forall|p: int|
                !(page_of(virtaddr.0) <= p < page_of(virtaddr.0) + pages) ==> #[trigger] final(cpu).cached(p) == old(cpu).cached(p),
            pages == 0 ==> r.is_ok(),
            pages > 0 && !step_allowed::<KERNEL>(virtaddr.0, pages) ==> r.is_err() && final(self).context().own() == old(self).context().own() && final(self).edits() == old(self).edits(),
            match r {
                Ok(()) => {
                    &&& pages > 0 ==> step_allowed::<KERNEL>(virtaddr.0, pages)
                    &&& page_of(virtaddr.0) + pages <= ADDRESSABLE_PAGES || pages == 0
                    &&& final(self).context().own() == unmap_range(
                        old(self).context().own(),
                        page_of(virtaddr.0),
                        pages as nat,
                    )
                    &&& final(self).edits() == old(self).edits() + pages
                    &&& forall|p: int|
                        page_of(virtaddr.0) <= p < page_of(virtaddr.0) + pages
                            ==> #[trigger] final(cpu).cached(p).is_none()
                },
                Err(_) => {
                    &&& pages > 0
                    &&& !step_allowed::<KERNEL>(virtaddr.0, pages) && final(self).context().own() == old(self).context().own() && final(self).edits() == old(self).edits() || exists|k: nat|
                        #![trigger unmap_range(old(self).context().own(), page_of(virtaddr.0), k)]
                        k < pages && page_of(virtaddr.0) + k >= ADDRESSABLE_PAGES && final(self).context().own() == unmap_range(old(self).context().own(), page_of(virtaddr.0), k) && final(self).edits() == old(self).edits() + k
                },
            },
    {
        if pages == 0 {
            // No op
            return Ok(());
        }
        // If kernelspace modification is disabled, error if unmapping onto kernelspace
        if !KERNEL && is_kernelspace(virtaddr, pages) {
            return Err(AllocError);
        }
        let page0 = virtaddr.0 / PAGE_SIZE;
        let ghost start = self.vmem.own();
        // Unmap each page
        let mut i: usize = 0;
        while i < pages
            invariant
                i <= pages,
                step_allowed::<KERNEL>(virtaddr.0, pages),
                page0 == page_of(virtaddr.0),
                page0 + i <= ADDRESSABLE_PAGES || i == 0,
                self.wf(),
                cpu.wf(),
                *final(self.vmem) == *final(old(self).vmem),
                self.initial() == old(self).initial(),
                self.vmem.root() == old(self).context().root(),
                self.vmem.capacity() == old(self).context().capacity(),
                start == old(self).context().own(),
                cpu.same_switches(old(cpu)),
                forall|p: int|
                    !(page0 <= p < page0 + i) ==> #[trigger] cpu.cached(p) == old(cpu).cached(p),
                forall|p: int| page0 <= p < page0 + i ==> #[trigger] cpu.cached(p).is_none(),
                self.vmem.own() == unmap_range(start, page0 as int, i as nat),
                self.edits() == old(self).edits() + i,
            decreases pages - i,
        {
            if page0 + i >= ADDRESSABLE_PAGES {
                return Err(AllocError);
            }
            self.unmap_page(cpu, page0 + i);
            i = i + 1;
        }
        Ok(())
    }

    /// Validates the transaction: the context keeps every edit.
    pub fn commit(self)
        requires
            self.wf(),
        ensures
            *final(self.vmem) == self.context(),
    {
    }

    /// Cancels the transaction: every edit is undone, the last one first, and
    /// the context holds what it held when the transaction began.
    pub fn rollback(self)
        requires
            self.wf(),
        ensures
            final(self.vmem).wf(),
            final(self.vmem).own() == self.initial(),
            final(self.vmem).root() == self.context().root(),
            final(self.vmem).capacity() == self.context().capacity(),
    {
        let VMemTransaction { vmem, mut rollback, initial } = self;
        // Rollback in reverse order
        while rollback.len() > 0
            invariant
                vmem.wf(),
                forall|i: int| 0 <= i < rollback@.len() ==> (#[trigger] rollback@[i]).wf(),
                vmem.own().undo_all(rollback@) == initial@,
                vmem.root() == self.vmem.root(),
                vmem.capacity() == self.vmem.capacity(),
                *final(vmem) == *final(self.vmem),
            decreases rollback@.len(),
        {
            let ghost log = rollback@;
            let r = rollback.pop().unwrap();
            assert(rollback@ =~= log.drop_last());
            assert(r == log[log.len() - 1]);
            r.rollback(&mut vmem.page_dir);
        }
    }
}

/// Tells whether `after` is what mapping the first `n` pages of a range
/// makes of `before`, each page having been mappable in its turn.
pub open spec fn range_mapped(
    before: TableView,
    after: TableView,
    capacity: nat,
    physaddr: PhysAddr,
    virtaddr: VirtAddr,
    n: nat,
    flags: u32,
) -> bool {
    let page = page_of(virtaddr.0);
    let frame = page_of(physaddr.0);
    &&& after == map_range(before, page, frame, n, flags)
    &&& forall|k: nat|
        k < n ==> frame + k < ADDRESSABLE_PAGES && (#[trigger] map_range(
            before,
            page,
            frame,
            k,
            flags,
        )).can_map(capacity, ((frame + k) * PAGE_SIZE) as usize, page + k)
}

/// Tells whether `after` is what mapping the first `k` pages of a range
/// makes of `before`, each page having been mappable in its turn, and the
/// next page cannot be mapped.
pub open spec fn range_stopped(
    before: TableView,
    after: TableView,
    capacity: nat,
    physaddr: PhysAddr,
    virtaddr: VirtAddr,
    k: nat,
    flags: u32,
) -> bool {
    let page = page_of(virtaddr.0);
    let frame = page_of(physaddr.0);
    &&& range_mapped(before, after, capacity, physaddr, virtaddr, k, flags)
    &&& frame + k >= ADDRESSABLE_PAGES || !after.can_map(
        capacity,
        ((frame + k) * PAGE_SIZE) as usize,
        page + k,
    )
}

/// Invalidate the page at the given address on the processor `cpu`.
pub fn invalidate_page_current(cpu: &mut Cpu, addr: VirtAddr)
    requires
        old(cpu).wf(),
    ensures
        final(cpu).wf(),
        final(cpu).same_switches(old(cpu)),
        final(cpu).cached(page_of(addr.0)).is_none(),
        forall|p: int|
            p != page_of(addr.0) ==> #[trigger] final(cpu).cached(p) == old(cpu).cached(p),
{
    cpu.invalidate(addr.0 / PAGE_SIZE);
}

/// Flush the Translation Lookaside Buffer (TLB) on the processor `cpu`.
///
/// This function should be called after applying modifications to the context
/// for them to be taken into account.
pub fn flush_current(cpu: &mut Cpu)
    requires
        old(cpu).wf(),
    ensures
        final(cpu).wf(),
        final(cpu).same_switches(old(cpu)),
        forall|p: int| #[trigger] final(cpu).cached(p).is_none(),
{
    cpu.flush();
}

/// Executes the closure while allowing the kernel to write on read-only
/// pages.
///
/// The protection is on again when the function returns.
pub fn write_ro<F: FnOnce() -> T, T>(cpu: &mut Cpu, f: F) -> (r: T)
    requires
        f.requires(()),
    ensures
        f.ensures((), r),
        final(cpu).wf() == old(cpu).wf(),
        final(cpu).write_protected(),
        final(cpu).page_dir() == old(cpu).page_dir(),
        final(cpu).smap_enabled() == old(cpu).smap_enabled(),
        final(cpu).interrupts_enabled() == old(cpu).interrupts_enabled(),
        forall|p: int| #[trigger] final(cpu).cached(p) == old(cpu).cached(p),
{
    cpu.set_write_protected(false);
    let ghost mid = *cpu;
    let res = f();
    cpu.set_write_protected(true);
    proof {
        assert forall|p: int| #[trigger] cpu.cached(p) == old(cpu).cached(p) by {
            assert(mid.cached(p) == old(cpu).cached(p));
        }
    }
    res
}

/// Executes the closure while allowing the kernel to access user data by
/// disabling SMAP.
///
/// The protection is on again when the function returns.
pub fn smap_disable<F: FnOnce() -> T, T>(cpu: &mut Cpu, f: F) -> (r: T)
    requires
        f.requires(()),
    ensures
        f.ensures((), r),
        final(cpu).wf() == old(cpu).wf(),
        final(cpu).smap_enabled(),
        final(cpu).page_dir() == old(cpu).page_dir(),
        final(cpu).write_protected() == old(cpu).write_protected(),
        final(cpu).interrupts_enabled() == old(cpu).interrupts_enabled(),
        forall|p: int| #[trigger] final(cpu).cached(p) == old(cpu).cached(p),
{
    cpu.set_smap_enabled(false);
    let ghost mid = *cpu;
    let res = f();
    cpu.set_smap_enabled(true);
    proof {
        assert forall|p: int| #[trigger] cpu.cached(p) == old(cpu).cached(p) by {
            assert(mid.cached(p) == old(cpu).cached(p));
        }
    }
    res
}

/// Executes the given closure `f` while being bound to the given virtual
/// memory context `vmem`.
///
/// After execution, the function restores the previous context.
///
/// The function disables interruptions while executing the closure. This is
/// due to the fact that if interruptions were enabled, the scheduler would be
/// able to change the running process, and thus when resuming execution, the
/// virtual memory context would be changed to the process's context.
///
/// If the context was not bound, the lookaside buffer is empty when the
/// function returns.
pub fn switch<const KERNEL: bool, F: FnOnce() -> T, T>(cpu: &mut Cpu, vmem: &VMem<KERNEL>, f: F) -> (r:
    T)
    requires
        old(cpu).wf(),
        f.requires(()),
    ensures
        f.ensures((), r),
        final(cpu).wf(),
        final(cpu).same_switches(old(cpu)),
        forall|p: int|
            #[trigger] final(cpu).cached(p) == if vmem.bound_to(old(cpu)) {
                old(cpu).cached(p)
            } else {
                None
            },
{
    let interrupts = cpu.set_interrupts(false);
    let ghost mid = *cpu;
    let res = if vmem.is_bound(cpu) {
        f()
    } else {
        // Get current vmem
        let page_dir = cpu.get_page_dir();
        // Bind temporary vmem
        vmem.bind(cpu);
        let result = f();
        // Restore previous vmem
        match page_dir {
            Some(root) => cpu.set_page_dir(root),
            None => cpu.unbind(),
        }
        result
    };
    let ghost last = *cpu;
    let _ = cpu.set_interrupts(interrupts);
    proof {
        assert forall|p: int| #[trigger]
            cpu.cached(p) == if vmem.bound_to(old(cpu)) {
                old(cpu).cached(p)
            } else {
                None
            } by {
            assert(mid.cached(p) == old(cpu).cached(p));
            assert(cpu.cached(p) == last.cached(p));
        }
    }
    res
}

/// A section of the image of the kernel.
#[derive(Clone, Copy, Debug, PartialEq, Eq, Structural)]
pub struct Section {
    /// The virtual address of the section.
    pub addr: usize,
    /// The size of the section in bytes.
    pub size: usize,
    /// The alignment of the section in bytes.
    pub align: usize,
    /// Whether the section can be written to.
    pub write: bool,
    /// Whether the section is the one that userspace can access.
    pub user: bool,
}

/// The flags of the pages of a section of the kernel's image: they are
/// global, can be written to if the section can, and are accessible from
/// userspace if the section is.
pub open spec fn section_flags(s: Section) -> u32 {
    if s.write {
        if s.user {
            x86::FLAG_GLOBAL | x86::FLAG_WRITE | x86::FLAG_USER
        } else {
            x86::FLAG_GLOBAL | x86::FLAG_WRITE
        }
    } else if s.user {
        x86::FLAG_GLOBAL | x86::FLAG_USER
    } else {
        x86::FLAG_GLOBAL
    }
}

/// The flags of the pages of the buffer of the screen.
pub open spec fn vga_flags() -> u32 {
    x86::FLAG_CACHE_DISABLE | x86::FLAG_WRITE_THROUGH | x86::FLAG_WRITE | x86::FLAG_GLOBAL
}

/// The physical address of the buffer of the screen.
pub const VGA_BUFFER_PHYS: usize = 0xb8000;

/// The virtual address of the buffer of the screen.
pub const VGA_BUFFER_VIRT: usize = 0xc00b8000;

/// Tells whether the section `s` is mapped when the kernel's context is
/// built: it is aligned on pages and lies in the kernel's range.
pub open spec fn section_mapped(s: Section) -> bool {
    s.align == PAGE_SIZE && s.addr >= PROCESS_END
}

/// The number of pages of the section `s`.
pub open spec fn section_pages(s: Section) -> nat {
    ((s.size + PAGE_SIZE - 1) / PAGE_SIZE as int) as nat
}

/// What the kernel's context holds once the first `n` of the sections
/// `sections` have been mapped over `t`: each section that is mapped, in
/// order, with its flags, at the physical address that its virtual address
/// stands for.
pub open spec fn with_sections(t: TableView, sections: Seq<Section>, n: int) -> TableView
    decreases n,
{
    if n <= 0 {
        t
    } else {
        let s = sections[n - 1];
        let before = with_sections(t, sections, n - 1);
        if section_mapped(s) {
            map_range(
                before,
                page_of(s.addr),
                page_of((s.addr - PROCESS_END) as usize),
                section_pages(s),
                section_flags(s),
            )
        } else {
            before
        }
    }
}

/// Tells whether the `n` pages from the one of `virtaddr` on can be mapped
/// over `before`, in turn, to the `n` frames from the one of `physaddr` on,
/// in a context that may hold `capacity` page tables.
pub open spec fn range_fits(
    before: TableView,
    capacity: nat,
    physaddr: PhysAddr,
    virtaddr: VirtAddr,
    n: nat,
    flags: u32,
) -> bool {
    range_mapped(
        before,
        map_range(before, page_of(virtaddr.0), page_of(physaddr.0), n, flags),
        capacity,
        physaddr,
        virtaddr,
        n,
        flags,
    )
}

/// What the kernel's context holds once the kernel's range is mapped.
pub open spec fn kernel_range() -> TableView {
    map_range(
        TableView::empty(),
        page_of(PROCESS_END),
        0,
        (crate::memory::KERNELSPACE_SIZE / PAGE_SIZE) as nat,
        x86::FLAG_WRITE | x86::FLAG_GLOBAL,
    )
}

/// Tells whether the first `n` of the sections `sections` can be mapped over
/// `t`, in order, in a context that may hold `capacity` page tables.
pub open spec fn sections_fit(t: TableView, sections: Seq<Section>, n: int, capacity: nat) -> bool
    decreases n,
{
    if n <= 0 {
        true
    } else {
        let s = sections[n - 1];
        &&& sections_fit(t, sections, n - 1, capacity)
        &&& section_mapped(s) ==> range_fits(
            with_sections(t, sections, n - 1),
            capacity,
            PhysAddr((s.addr - PROCESS_END) as usize),
            VirtAddr(s.addr),
            section_pages(s),
            section_flags(s),
        )
    }
}

/// Tells whether the kernel's context can be built in a context that may
/// hold `capacity` page tables: the kernel's range, the sections `sections`
/// and the buffer of the screen can be mapped, in that order.
pub open spec fn kernel_fits(sections: Seq<Section>, capacity: nat) -> bool {
    &&& range_fits(
        TableView::empty(),
        capacity,
        PhysAddr(0),
        VirtAddr(PROCESS_END),
        (crate::memory::KERNELSPACE_SIZE / PAGE_SIZE) as nat,
        x86::FLAG_WRITE | x86::FLAG_GLOBAL,
    )
    &&& sections_fit(kernel_range(), sections, sections.len() as int, capacity)
    &&& range_fits(
        with_sections(kernel_range(), sections, sections.len() as int),
        capacity,
        PhysAddr(VGA_BUFFER_PHYS),
        VirtAddr(VGA_BUFFER_VIRT),
        1,
        vga_flags(),
    )
}

/// Sections that can be mapped in order can be mapped up to any of them.
pub proof fn lemma_sections_fit(t: TableView, sections: Seq<Section>, m: int, n: int, capacity: nat)
    requires
        m <= n,
        sections_fit(t, sections, n, capacity),
    ensures
        sections_fit(t, sections, m, capacity),
    decreases n - m,
{
    if m < n && n > 0 {
        lemma_sections_fit(t, sections, m, n - 1, capacity);
    }
}

/// A range of which a page cannot be mapped in its turn cannot be mapped.
pub proof fn lemma_range_stopped(
    before: TableView,
    after: TableView,
    capacity: nat,
    physaddr: PhysAddr,
    virtaddr: VirtAddr,
    k: nat,
    n: nat,
    flags: u32,
)
    requires
        k < n,
        range_stopped(before, after, capacity, physaddr, virtaddr, k, flags),
    ensures
        !range_fits(before, capacity, physaddr, virtaddr, n, flags),
{
    let page = page_of(virtaddr.0);
    let frame = page_of(physaddr.0);
    assert(after == map_range(before, page, frame, k, flags));
}

/// What the kernel's context holds: the kernel's range, which shows the
/// beginning of physical memory and can be written to; over it the sections
/// of the kernel's image, each with its flags; and over them the buffer of
/// the screen.
pub open spec fn kernel_table(sections: Seq<Section>) -> TableView {
    with_sections(
        map_range(
            TableView::empty(),
            page_of(PROCESS_END),
            0,
            (crate::memory::KERNELSPACE_SIZE / PAGE_SIZE) as nat,
            x86::FLAG_WRITE | x86::FLAG_GLOBAL,
        ),
        sections,
        sections.len() as int,
    ).map(
        page_of(VGA_BUFFER_VIRT),
        Entry { frame: page_of(VGA_BUFFER_PHYS) as usize, flags: vga_flags() },
    )
}

/// Initializes virtual memory management: builds the kernel's virtual memory
/// context, as [`kernel_table`] tells, and binds it to `cpu`.
///
/// `sections` are the sections of the image of the kernel; `tables` is the
/// number of page tables that the context may hold. The function fails iff
/// the kernel's zone has no free frame for the page directory, or the
/// context cannot be built with that many page tables, as [`kernel_fits`]
/// tells: `frames` is then left as it was, and no context is bound.
pub fn init(frames: &mut FrameAllocator, cpu: &mut Cpu, sections: &Vec<Section>, tables: usize) -> (r:
    AllocResult<VMem<true>>)
    requires
        old(frames).wf(),
        old(cpu).wf(),
        old(cpu).page_dir().is_none(),
    ensures
        final(frames).wf(),
        final(cpu).wf(),
        final(frames).same_layout(old(frames)),
        match r {
            Ok(vmem) => {
                &&& vmem.wf()
                &&& vmem.own() == kernel_table(sections@)
                &&& vmem@ == kernel_table(sections@)
                &&& vmem.capacity() == tables
                &&& vmem.bound_to(final(cpu))
                &&& exists|f: int|
                    #![trigger old(frames).is_free_in(Zone::Kernel, f)]
                    old(frames).is_free_in(Zone::Kernel, f) && forall|x: int|
                        #![auto]
                        final(frames).is_free(x) == (old(frames).is_free(x) && x != f)
            },
            Err(_) => {
                &&& forall|x: int| #![auto] final(frames).is_free(x) == old(frames).is_free(x)
                &&& final(cpu).page_dir().is_none()
            },
        },
        r.is_ok() <==> (exists|f: int| #[trigger] old(frames).is_free_in(Zone::Kernel, f))
            && kernel_fits(sections@, tables as nat),
{
    // Kernel context init
    let mut kernel_vmem = match VMem::new_kernel(frames, tables) {
        Ok(vmem) => vmem,
        Err(e) => {
            return Err(e);
        },
    };
    let ghost taken = page_of(kernel_vmem.root().0);
    let ghost mid = *frames;
    let mut transaction = kernel_vmem.transaction();
    assert(old(frames).is_free_in(Zone::Kernel, taken));
    // Map kernel
    let mapped = transaction.map_range(
        cpu,
        PhysAddr(0),
        VirtAddr(PROCESS_END),
        crate::memory::KERNELSPACE_SIZE / PAGE_SIZE,
        x86::FLAG_WRITE | x86::FLAG_GLOBAL,
    );
    proof {
        if mapped.is_err() {
            let k = choose|k: nat|
                k < crate::memory::KERNELSPACE_SIZE / PAGE_SIZE && #[trigger] range_stopped(
                    TableView::empty(),
                    transaction.context().own(),
                    tables as nat,
                    PhysAddr(0),
                    VirtAddr(PROCESS_END),
                    k,
                    x86::FLAG_WRITE | x86::FLAG_GLOBAL,
                );
            lemma_range_stopped(
                TableView::empty(),
                transaction.context().own(),
                tables as nat,
                PhysAddr(0),
                VirtAddr(PROCESS_END),
                k,
                (crate::memory::KERNELSPACE_SIZE / PAGE_SIZE) as nat,
                x86::FLAG_WRITE | x86::FLAG_GLOBAL,
            );
        }
    }
    let mut ok = mapped.is_ok();
    // Make the kernel's code read-only
    let mut i: usize = 0;
    while ok && i < sections.len()
        invariant
            i <= sections@.len(),
            transaction.wf(),
            cpu.wf(),
            cpu.page_dir().is_none(),
            after_borrow(kernel_vmem) == *final(transaction.vmem),
            transaction.context().capacity() == tables,
            transaction.context().root().0 == taken * PAGE_SIZE,
            !ok ==> !kernel_fits(sections@, tables as nat),
            ok ==> range_fits(
                TableView::empty(),
                tables as nat,
                PhysAddr(0),
                VirtAddr(PROCESS_END),
                (crate::memory::KERNELSPACE_SIZE / PAGE_SIZE) as nat,
                x86::FLAG_WRITE | x86::FLAG_GLOBAL,
            ),
            ok ==> sections_fit(kernel_range(), sections@, i as int, tables as nat),
            ok ==> transaction.context().own() == with_sections(
                map_range(
                    TableView::empty(),
                    page_of(PROCESS_END),
                    0,
                    (crate::memory::KERNELSPACE_SIZE / PAGE_SIZE) as nat,
                    x86::FLAG_WRITE | x86::FLAG_GLOBAL,
                ),
                sections@,
                i as int,
            ),
        decreases sections@.len() - i,
    {
        let section = sections[i];
        if section.align == PAGE_SIZE {
            let write = section.write;
            let user = section.user;
            let flags = if write {
                if user {
                    x86::FLAG_GLOBAL | x86::FLAG_WRITE | x86::FLAG_USER
                } else {
                    x86::FLAG_GLOBAL | x86::FLAG_WRITE
                }
            } else if user {
                x86::FLAG_GLOBAL | x86::FLAG_USER
            } else {
                x86::FLAG_GLOBAL
            };
            // Map
            let virt_addr = VirtAddr(section.addr);
            match virt_addr.kernel_to_physical() {
                Some(phys_addr) => {
                    let pages = if section.size % PAGE_SIZE == 0 {
                        section.size / PAGE_SIZE
                    } else {
                        section.size / PAGE_SIZE + 1
                    };
                    let ghost before = transaction.context().own();
                    let mapped = transaction.map_range(cpu, phys_addr, virt_addr, pages, flags);
                    proof {
                        if mapped.is_err() {
                            let k = choose|k: nat|
                                k < pages && #[trigger] range_stopped(
                                    before,
                                    transaction.context().own(),
                                    tables as nat,
                                    phys_addr,
                                    virt_addr,
                                    k,
                                    flags,
                                );
                            lemma_range_stopped(
                                before,
                                transaction.context().own(),
                                tables as nat,
                                phys_addr,
                                virt_addr,
                                k,
                                pages as nat,
                                flags,
                            );
                            assert(!sections_fit(kernel_range(), sections@, i + 1, tables as nat));
                            if sections_fit(
                                kernel_range(),
                                sections@,
                                sections@.len() as int,
                                tables as nat,
                            ) {
                                lemma_sections_fit(
                                    kernel_range(),
                                    sections@,
                                    i + 1,
                                    sections@.len() as int,
                                    tables as nat,
                                );
                            }
                        }
                    }
                    ok = mapped.is_ok();
                },
                None => {},
            }
        }
        i = i + 1;
    }
    // Map VGA buffer
    if ok {
        let ghost before = transaction.context().own();
        let mapped = transaction.map_range(
            cpu,
            PhysAddr(VGA_BUFFER_PHYS),
            VirtAddr(VGA_BUFFER_VIRT),
            1,
            x86::FLAG_CACHE_DISABLE | x86::FLAG_WRITE_THROUGH | x86::FLAG_WRITE | x86::FLAG_GLOBAL,
        );
        proof {
            if mapped.is_err() {
                let k = choose|k: nat|
                    k < 1 && #[trigger] range_stopped(
                        before,
                        transaction.context().own(),
                        tables as nat,
                        PhysAddr(VGA_BUFFER_PHYS),
                        VirtAddr(VGA_BUFFER_VIRT),
                        k,
                        vga_flags(),
                    );
                lemma_range_stopped(
                    before,
                    transaction.context().own(),
                    tables as nat,
                    PhysAddr(VGA_BUFFER_PHYS),
                    VirtAddr(VGA_BUFFER_VIRT),
                    k,
                    1,
                    vga_flags(),
                );
            }
        }
        ok = mapped.is_ok();
    }
    if !ok {
        transaction.rollback();
        kernel_vmem.free(frames, cpu);
        proof {
            old(frames).lemma_free_is_managed(taken);
        }
        return Err(AllocError);
    }
    proof {
        let base = with_sections(
            map_range(
                TableView::empty(),
                page_of(PROCESS_END),
                0,
                (crate::memory::KERNELSPACE_SIZE / PAGE_SIZE) as nat,
                x86::FLAG_WRITE | x86::FLAG_GLOBAL,
            ),
            sections@,
            sections@.len() as int,
        );
        assert(map_range(base, page_of(VGA_BUFFER_VIRT), page_of(VGA_BUFFER_PHYS), 1, vga_flags())
            == map_range(
            base,
            page_of(VGA_BUFFER_VIRT),
            page_of(VGA_BUFFER_PHYS),
            0,
            vga_flags(),
        ).map(
            page_of(VGA_BUFFER_VIRT) + 1 - 1,
            Entry { frame: (page_of(VGA_BUFFER_PHYS) + 1 - 1) as usize, flags: vga_flags() },
        ));
    }
    transaction.commit();
    kernel_vmem.bind(cpu);
    Ok(kernel_vmem)
}

} // verus!
