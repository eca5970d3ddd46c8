//! Paging on x86.
//!
//! A page directory of 1024 slots points to page tables of 1024 entries each;
//! an entry maps one page of virtual memory to one frame of physical memory.
//! Page tables are created on demand, out of a pool whose size is fixed when
//! the directory is created.
//!
//! Every edit hands back a [`Rollback`], which undoes it. Undoing the edits of
//! a sequence in reverse order restores the directory as it was.

use vstd::prelude::*;
use crate::errno::{AllocError, AllocResult};
use crate::limits::PAGE_SIZE;
use crate::memory::{page_of, offset_of, PhysAddr, VirtAddr, ADDRESSABLE_PAGES};

verus! {

/// Entry flag: the page is present.
pub const FLAG_PRESENT: u32 = 0b000000001;

/// Entry flag: the page can be written to.
pub const FLAG_WRITE: u32 = 0b000000010;

/// Entry flag: the page can be accessed from userspace.
pub const FLAG_USER: u32 = 0b000000100;

/// Entry flag: writes go through the cache.
pub const FLAG_WRITE_THROUGH: u32 = 0b000001000;

/// Entry flag: the page is not cached.
pub const FLAG_CACHE_DISABLE: u32 = 0b000010000;

/// Entry flag: the page has been accessed.
pub const FLAG_ACCESSED: u32 = 0b000100000;

/// Entry flag: the page has been written to.
pub const FLAG_DIRTY: u32 = 0b001000000;

/// Entry flag: the entry maps a large page.
pub const FLAG_PAGE_SIZE: u32 = 0b010000000;

/// Entry flag: the translation survives a switch of context.
pub const FLAG_GLOBAL: u32 = 0b100000000;

/// Page fault code: the page was present.
pub const PAGE_FAULT_PRESENT: u32 = 0b00001;

/// Page fault code: the access was a write.
pub const PAGE_FAULT_WRITE: u32 = 0b00010;

/// Page fault code: the access came from userspace.
pub const PAGE_FAULT_USER: u32 = 0b00100;

/// Page fault code: a reserved bit was set in a paging structure.
pub const PAGE_FAULT_RESERVED: u32 = 0b01000;

/// Page fault code: the access was an instruction fetch.
pub const PAGE_FAULT_INSTRUCTION: u32 = 0b10000;

/// The number of entries in a page table, and of slots in a page directory.
pub const ENTRIES_PER_TABLE: usize = 1024;

/// An entry of a page table: the frame a page is mapped to, and its flags.
#[derive(Clone, Copy, Debug, PartialEq, Eq, Structural)]
pub struct Entry {
    /// The number of the physical frame.
    pub frame: usize,
    /// The flags of the entry.
    pub flags: u32,
}

/// What a page directory holds: which of its page tables exist, and the entry
/// of every mapped page.
pub struct TableView {
    /// The directory slots that hold a page table.
    pub tables: Set<int>,
    /// The entries, by page number.
    pub entries: Map<int, Entry>,
}

/// The directory slot that page `page` goes through.
pub open spec fn dir_of(page: int) -> int {
    page / ENTRIES_PER_TABLE as int
}

impl TableView {
    /// Every slot is one of the directory's, and every entry lies in a page
    /// table that exists and names an addressable frame.
    pub open spec fn wf(self) -> bool {
        &&& forall|d: int| #[trigger] self.tables.contains(d) ==> 0 <= d < ENTRIES_PER_TABLE
        &&& forall|p: int| #[trigger]
            self.entries.contains_key(p) ==> 0 <= p < ADDRESSABLE_PAGES && self.tables.contains(
                dir_of(p),
            ) && self.entries[p].frame < ADDRESSABLE_PAGES
    }

    /// Tells whether every page table of the directory holds an entry, so
    /// that the page tables are those of the pages that are mapped.
    pub open spec fn tight(self) -> bool {
        forall|d: int| #[trigger]
            self.tables.contains(d) ==> exists|p: int| #[trigger]
                self.entries.contains_key(p) && dir_of(p) == d
    }

    /// A directory in which every page table holds an entry is still one
    /// once a page has been mapped.
    pub proof fn lemma_map_tight(self, page: int, e: Entry)
        requires
            self.tight(),
        ensures
            self.map(page, e).tight(),
    {
        let after = self.map(page, e);
        assert forall|d: int| #[trigger] after.tables.contains(d) implies exists|p: int| #[trigger]
            after.entries.contains_key(p) && dir_of(p) == d by {
            if d == dir_of(page) {
                assert(after.entries.contains_key(page));
            } else {
                assert(self.tables.contains(d));
                let q = choose|q: int| #[trigger] self.entries.contains_key(q) && dir_of(q) == d;
                assert(after.entries.contains_key(q));
            }
        }
    }

    /// The directory with no page table.
    pub open spec fn empty() -> TableView {
        TableView { tables: Set::empty(), entries: Map::empty() }
    }

    /// The entry of page `page`, if it is mapped.
    pub open spec fn entry(self, page: int) -> Option<Entry> {
        if self.entries.contains_key(page) {
            Some(self.entries[page])
        } else {
            None
        }
    }

    /// The physical address that virtual address `addr` translates to.
    pub open spec fn translate(self, addr: usize) -> Option<PhysAddr> {
        match self.entry(page_of(addr)) {
            Some(e) => Some(PhysAddr((e.frame * PAGE_SIZE + offset_of(addr)) as usize)),
            None => None,
        }
    }

    /// The directory after page `page` has been mapped with entry `e`.
    pub open spec fn map(self, page: int, e: Entry) -> TableView {
        TableView { tables: self.tables.insert(dir_of(page)), entries: self.entries.insert(page, e) }
    }

    /// The directory after page `page` has been unmapped.
    pub open spec fn unmap(self, page: int) -> TableView {
        TableView { tables: self.tables, entries: self.entries.remove(page) }
    }

    /// The token that undoes an edit of page `page` made on this directory.
    pub open spec fn token(self, page: int, creates: bool) -> Rollback {
        Rollback {
            page: page as usize,
            prev: self.entry(page),
            table_created: creates && !self.tables.contains(dir_of(page)),
        }
    }

    /// The directory after the edit that `r` stands for has been undone.
    pub open spec fn undo(self, r: Rollback) -> TableView {
        let page = r.page as int;
        if r.table_created {
            TableView {
                tables: self.tables.remove(dir_of(page)),
                entries: self.entries.remove_keys(Set::new(|p: int| dir_of(p) == dir_of(page))),
            }
        } else if self.tables.contains(dir_of(page)) {
            match r.prev {
                Some(e) => TableView { tables: self.tables, entries: self.entries.insert(page, e) },
                None => TableView { tables: self.tables, entries: self.entries.remove(page) },
            }
        } else {
            self
        }
    }

    /// Tells whether page `page` can be mapped to the frame of `phys` in a
    /// directory that may hold `capacity` page tables: both are addressable,
    /// and the page table of `page` exists or can be created.
    pub open spec fn can_map(self, capacity: nat, phys: usize, page: int) -> bool {
        &&& page < ADDRESSABLE_PAGES
        &&& page_of(phys) < ADDRESSABLE_PAGES
        &&& self.tables.contains(dir_of(page)) || self.tables.len() < capacity
    }

    /// The directory after the edits that `log` stands for have been undone,
    /// the last one first.
    pub open spec fn undo_all(self, log: Seq<Rollback>) -> TableView
        decreases log.len(),
    {
        if log.len() == 0 {
            self
        } else {
            self.undo(log.last()).undo_all(log.drop_last())
        }
    }
}

/// A handle that undoes one edit of a page directory.
#[derive(Clone, Copy, Debug, PartialEq, Eq, Structural)]
pub struct Rollback {
    /// The number of the page that the edit was about.
    pub page: usize,
    /// The entry of the page before the edit.
    pub prev: Option<Entry>,
    /// Whether the edit created the page table that holds the entry.
    pub table_created: bool,
}

impl Rollback {
    /// The entry to restore, if any, names an addressable frame.
    pub open spec fn wf(self) -> bool {
        self.prev matches Some(e) ==> e.frame < ADDRESSABLE_PAGES
    }
}

/// A page directory with its page tables.
pub struct Table {
    tables: Vec<Option<Vec<Option<Entry>>>>,
    count: usize,
    capacity: usize,
}

/// Undoing a mapping made on a well-formed directory gives the directory back.
pub proof fn lemma_undo_map(s: TableView, page: int, e: Entry)
    requires
        s.wf(),
        0 <= page < ADDRESSABLE_PAGES,
    ensures
        s.map(page, e).undo(s.token(page, true)) == s,
{
    let after = s.map(page, e).undo(s.token(page, true));
    assert(after.tables =~= s.tables);
    assert(after.entries =~= s.entries);
}

/// Undoing an unmapping made on a well-formed directory gives the directory
/// back.
pub proof fn lemma_undo_unmap(s: TableView, page: int)
    requires
        s.wf(),
        0 <= page < ADDRESSABLE_PAGES,
    ensures
        s.unmap(page).undo(s.token(page, false)) == s,
{
    let after = s.unmap(page).undo(s.token(page, false));
    assert(after.tables =~= s.tables);
    assert(after.entries =~= s.entries);
}

impl View for Table {
    type V = TableView;

    closed spec fn view(&self) -> TableView {
        TableView {
            tables: Set::new(|d: int| 0 <= d < self.tables@.len() && self.tables@[d] is Some),
            entries: Map::new(
                |p: int|
                    0 <= p < ADDRESSABLE_PAGES && dir_of(p) < self.tables@.len()
                        && self.tables@[dir_of(p)] is Some && self.slot(p) is Some,
                |p: int| self.slot(p)->0,
            ),
        }
    }
}

impl Table {
    /// The slot of page `p` in its page table.
    spec fn slot(&self, p: int) -> Option<Entry> {
        self.tables@[dir_of(p)]->0@[p % ENTRIES_PER_TABLE as int]
    }

    /// The directory's invariant.
    pub closed spec fn wf(&self) -> bool {
        &&& self.tables@.len() == ENTRIES_PER_TABLE
        &&& forall|d: int|
            0 <= d < ENTRIES_PER_TABLE && #[trigger] self.tables@[d] is Some ==> self.tables@[d]->0@.len()
                == ENTRIES_PER_TABLE
        &&& forall|p: int| #[trigger] self@.entries.contains_key(p) ==> self@.entries[p].frame < ADDRESSABLE_PAGES
        &&& self@.tables.finite()
        &&& self.count == self@.tables.len()
        &&& self.count <= self.capacity
    }

    /// The number of page tables that the directory may hold at once.
    pub closed spec fn capacity(&self) -> nat {
        self.capacity as nat
    }

    /// A well-formed directory has a well-formed view.
    pub proof fn lemma_view_wf(&self)
        requires
            self.wf(),
        ensures
            self@.wf(),
            self@.tables.finite(),
            self@.tables.len() <= self.capacity(),
    {
    }

    /// Creates a directory with no page table, which may hold up to
    /// `capacity` page tables at once.
    pub fn new(capacity: usize) -> (t: Self)
        ensures
            t.wf(),
            t@ == TableView::empty(),
            t.capacity() == capacity,
    {
        let mut tables: Vec<Option<Vec<Option<Entry>>>> = Vec::new();
        let mut d: usize = 0;
        while d < ENTRIES_PER_TABLE
            invariant
                d <= ENTRIES_PER_TABLE,
                tables@.len() == d,
                forall|i: int| 0 <= i < d ==> #[trigger] tables@[i] is None,
            decreases ENTRIES_PER_TABLE - d,
        {
            tables.push(None);
            d = d + 1;
        }
        let t = Table { tables, count: 0, capacity };
        assert(t@.tables =~= Set::empty());
        assert(t@.entries =~= Map::empty());
        t
    }

    /// Returns the number of page tables that the directory may hold at once.
    pub fn get_capacity(&self) -> (c: usize)
        ensures
            c == self.capacity(),
    {
        self.capacity
    }

    /// Returns the entry of page number `page`, if the page is mapped.
    pub fn get_entry(&self, page: usize) -> (e: Option<Entry>)
        requires
            self.wf(),
        ensures
            e == self@.entry(page as int),
    {
        if page >= ADDRESSABLE_PAGES {
            return None;
        }
        let d = page / ENTRIES_PER_TABLE;
        let t = page % ENTRIES_PER_TABLE;
        match &self.tables[d] {
            Some(table) => table[t],
            None => None,
        }
    }
}

impl Table {
    /// Writes `e` into the slot of page `page`, whose page table exists, and
    /// returns what the slot held.
    fn set_slot(&mut self, page: usize, e: Option<Entry>) -> (prev: Option<Entry>)
        requires
            old(self).wf(),
            page < ADDRESSABLE_PAGES,
            old(self)@.tables.contains(dir_of(page as int)),
            e matches Some(n) ==> n.frame < ADDRESSABLE_PAGES,
        ensures
            final(self).wf(),
            final(self).capacity() == old(self).capacity(),
            prev == old(self)@.entry(page as int),
            final(self)@.tables == old(self)@.tables,
            final(self)@.entries == match e {
                Some(n) => old(self)@.entries.insert(page as int, n),
                None => old(self)@.entries.remove(page as int),
            },
    {
        let d = page / ENTRIES_PER_TABLE;
        let t = page % ENTRIES_PER_TABLE;
        let mut table = self.tables[d].take().unwrap();
        let prev = table[t];
        table.set(t, e);
        self.tables.set(d, Some(table));
        proof {
            assert(final(self)@.tables =~= old(self)@.tables);
            assert(final(self)@.entries =~= match e {
                Some(n) => old(self)@.entries.insert(page as int, n),
                None => old(self)@.entries.remove(page as int),
            });
        }
        prev
    }
}

impl Table {
    /// Creates the page table of directory slot `d`, which has none.
    fn create_table(&mut self, d: usize)
        requires
            old(self).wf(),
            d < ENTRIES_PER_TABLE,
            !old(self)@.tables.contains(d as int),
            old(self)@.tables.len() < old(self).capacity(),
        ensures
            final(self).wf(),
            final(self).capacity() == old(self).capacity(),
            final(self)@.tables == old(self)@.tables.insert(d as int),
            final(self)@.entries == old(self)@.entries,
    {
        let mut table: Vec<Option<Entry>> = Vec::new();
        let mut i: usize = 0;
        while i < ENTRIES_PER_TABLE
            invariant
                i <= ENTRIES_PER_TABLE,
                table@.len() == i,
                forall|j: int| 0 <= j < i ==> #[trigger] table@[j] is None,
            decreases ENTRIES_PER_TABLE - i,
        {
            table.push(None);
            i = i + 1;
        }
        self.tables.set(d, Some(table));
        self.count = self.count + 1;
        proof {
            assert(final(self)@.tables =~= old(self)@.tables.insert(d as int));
            assert(final(self)@.entries =~= old(self)@.entries);
        }
    }

    /// Removes the page table of directory slot `d`, if there is one, with
    /// all its entries.
    fn remove_table(&mut self, d: usize)
        requires
            old(self).wf(),
            d < ENTRIES_PER_TABLE,
        ensures
            final(self).wf(),
            final(self).capacity() == old(self).capacity(),
            final(self)@.tables == old(self)@.tables.remove(d as int),
            final(self)@.entries == old(self)@.entries.remove_keys(
                Set::new(|p: int| dir_of(p) == d as int),
            ),
    {
        if self.tables[d].is_some() {
            assert(self@.tables.contains(d as int));
            assert(self@.tables.remove(d as int).len() + 1 == self@.tables.len());
            self.tables.set(d, None);
            self.count = self.count - 1;
        }
        proof {
            assert(final(self)@.tables =~= old(self)@.tables.remove(d as int));
            assert(final(self)@.entries =~= old(self)@.entries.remove_keys(
                Set::new(|p: int| dir_of(p) == d as int),
            ));
        }
    }
}

/// Maps the page of virtual address `virtaddr` to the frame of physical
/// address `physaddr`, with flags `flags`.
///
/// The page table that holds the entry is created if it does not exist. The
/// function fails, and leaves the directory unchanged, if one of the addresses
/// is beyond what paging can address, or if the page table does not exist and
/// the directory already holds as many page tables as it may.
pub fn map(table: &mut Table, physaddr: PhysAddr, virtaddr: VirtAddr, flags: u32) -> (r:
    AllocResult<Rollback>)
    requires
        old(table).wf(),
    ensures
        final(table).wf(),
        final(table).capacity() == old(table).capacity(),
        match r {
            Ok(token) => {
                let page = page_of(virtaddr.0);
                &&& old(table)@.can_map(old(table).capacity(), physaddr.0, page)
                &&& final(table)@ == old(table)@.map(
                    page,
                    Entry { frame: page_of(physaddr.0) as usize, flags },
                )
                &&& token == old(table)@.token(page, true)
                &&& token.wf()
            },
            Err(_) => {
                &&& !old(table)@.can_map(old(table).capacity(), physaddr.0, page_of(virtaddr.0))
                &&& final(table)@ == old(table)@
            },
        },
{
    let page = virtaddr.0 / PAGE_SIZE;
    let frame = physaddr.0 / PAGE_SIZE;
    if page >= ADDRESSABLE_PAGES || frame >= ADDRESSABLE_PAGES {
        return Err(AllocError);
    }
    let d = page / ENTRIES_PER_TABLE;
    let created = table.tables[d].is_none();
    if created {
        if table.count >= table.capacity {
            return Err(AllocError);
        }
        table.create_table(d);
    }
    proof {
        old(table).lemma_view_wf();
    }
    let prev = table.set_slot(page, Some(Entry { frame, flags }));
    proof {
        let after = old(table)@.map(page as int, Entry { frame, flags });
        assert(final(table)@.tables =~= after.tables);
        assert(final(table)@.entries =~= after.entries);
    }
    Ok(Rollback { page, prev, table_created: created })
}

/// Unmaps the page of virtual address `virtaddr`.
///
/// The function fails, and leaves the directory unchanged, if the address is
/// beyond what paging can address.
pub fn unmap(table: &mut Table, virtaddr: VirtAddr) -> (r: AllocResult<Rollback>)
    requires
        old(table).wf(),
    ensures
        final(table).wf(),
        final(table).capacity() == old(table).capacity(),
        match r {
            Ok(token) => {
                let page = page_of(virtaddr.0);
                &&& page < ADDRESSABLE_PAGES
                &&& final(table)@ == old(table)@.unmap(page)
                &&& token == old(table)@.token(page, false)
                &&& token.wf()
            },
            Err(_) => {
                &&& page_of(virtaddr.0) >= ADDRESSABLE_PAGES
                &&& final(table)@ == old(table)@
            },
        },
{
    let page = virtaddr.0 / PAGE_SIZE;
    if page >= ADDRESSABLE_PAGES {
        return Err(AllocError);
    }
    let d = page / ENTRIES_PER_TABLE;
    let prev = if table.tables[d].is_some() {
        table.set_slot(page, None)
    } else {
        None
    };
    proof {
        assert(final(table)@.entries =~= old(table)@.entries.remove(page as int));
    }
    Ok(Rollback { page, prev, table_created: false })
}

impl Rollback {
    /// Undoes on `table` the edit that the handle stands for.
    pub fn rollback(self, table: &mut Table)
        requires
            old(table).wf(),
            self.wf(),
        ensures
            final(table).wf(),
            final(table).capacity() == old(table).capacity(),
            final(table)@ == old(table)@.undo(self),
    {
        if self.page >= ADDRESSABLE_PAGES {
            proof {
                table.lemma_view_wf();
                let v = table@;
                assert(v.undo(self).tables =~= v.tables);
                assert(v.undo(self).entries =~= v.entries);
            }
            return ;
        }
        let d = self.page / ENTRIES_PER_TABLE;
        if self.table_created {
            table.remove_table(d);
        } else if table.tables[d].is_some() {
            table.set_slot(self.page, self.prev);
        }
    }
}

/// Translates virtual address `addr` through `table`.
///
/// The result is `None` if the page of `addr` is not mapped.
pub fn translate(table: &Table, addr: VirtAddr) -> (r: Option<PhysAddr>)
    requires
        table.wf(),
    ensures
        r == table@.translate(addr.0),
{
    match table.get_entry(addr.0 / PAGE_SIZE) {
        Some(e) => {
            proof {
                table.lemma_view_wf();
            }
            Some(PhysAddr(e.frame * PAGE_SIZE + addr.0 % PAGE_SIZE))
        },
        None => None,
    }
}

} // verus!
