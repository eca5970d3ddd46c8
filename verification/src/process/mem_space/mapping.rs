//! A memory mapping is a region of the virtual memory of a process which is
//! allocated.
//!
//! Each page of a mapping is either materialized, in which case it has a
//! physical frame, or lazy: a lazy page gets its frame when it is first
//! accessed.

use vstd::prelude::*;
use crate::file::FileLocation;
use crate::limits::PAGE_SIZE;
use crate::memory::{PhysAddr, VirtAddr, ADDRESSABLE_PAGES};
use crate::memory::ram::{page_from, zero_page};

verus! {

/// Where the physical pages of a mapping come from.
pub enum MapResidence {
    /// The mapping is anonymous: its pages begin as zeros.
    Normal,
    /// The mapping is backed by a file: its pages begin as the bytes of the
    /// file.
    File {
        /// The file that the mapping is made from.
        location: FileLocation,
        /// The offset in the file of the first byte of the mapping.
        off: u64,
        /// The bytes of the file from `off` on.
        content: Vec<u8>,
    },
    /// The mapping shows physical pages that exist already.
    Static {
        /// The physical pages, in the order of the pages of the mapping.
        pages: Vec<PhysAddr>,
    },
}

/// What a [`MapResidence`] holds.
pub enum ResidenceView {
    /// An anonymous mapping.
    Normal,
    /// A mapping of the bytes `content`, which stand at offset `off` in the
    /// file at `location`.
    File { location: FileLocation, off: int, content: Seq<u8> },
    /// A mapping of the physical pages `pages`.
    Static { pages: Seq<PhysAddr> },
}

impl ResidenceView {
    /// The residence of the part of the mapping that begins `k` pages after
    /// its beginning.
    pub open spec fn skip(self, k: int) -> ResidenceView {
        match self {
            ResidenceView::Normal => ResidenceView::Normal,
            ResidenceView::File { location, off, content } => ResidenceView::File {
                location,
                off: if off + k * PAGE_SIZE <= u64::MAX {
                    off + k * PAGE_SIZE
                } else {
                    u64::MAX as int
                },
                content: if k * PAGE_SIZE <= content.len() {
                    content.subrange(k * PAGE_SIZE, content.len() as int)
                } else {
                    Seq::empty()
                },
            },
            ResidenceView::Static { pages } => ResidenceView::Static {
                pages: if k <= pages.len() {
                    pages.subrange(k, pages.len() as int)
                } else {
                    Seq::empty()
                },
            },
        }
    }

    /// The frame that page `index` of the mapping shows, if the mapping
    /// shows existing physical pages and has one for that page.
    pub open spec fn static_frame(self, index: int) -> Option<int> {
        match self {
            ResidenceView::Static { pages } => if 0 <= index < pages.len() && pages[index].0
                / PAGE_SIZE < ADDRESSABLE_PAGES {
                Some(pages[index].0 as int / PAGE_SIZE as int)
            } else {
                None
            },
            _ => None,
        }
    }

    /// The bytes that page `index` of the mapping holds when it gets a frame
    /// of its own.
    pub open spec fn initial_content(self, index: int) -> Seq<u8> {
        match self {
            ResidenceView::File { content, .. } => if 0 <= index * PAGE_SIZE <= content.len() {
                page_from(content.subrange(index * PAGE_SIZE, content.len() as int))
            } else {
                zero_page()
            },
            _ => zero_page(),
        }
    }
}

impl View for MapResidence {
    type V = ResidenceView;

    open spec fn view(&self) -> ResidenceView {
        match self {
            MapResidence::Normal => ResidenceView::Normal,
            MapResidence::File { location, off, content } => ResidenceView::File {
                location: *location,
                off: *off as int,
                content: content@,
            },
            MapResidence::Static { pages } => ResidenceView::Static { pages: pages@ },
        }
    }
}

/// Copies the elements of `v` from index `from` on.
fn suffix_bytes(v: &Vec<u8>, from: usize) -> (r: Vec<u8>)
    ensures
        r@ == if from <= v@.len() {
            v@.subrange(from as int, v@.len() as int)
        } else {
            Seq::empty()
        },
{
    let mut r: Vec<u8> = Vec::new();
    let mut i: usize = from;
    proof {
        if from <= v@.len() {
            assert(v@.subrange(from as int, from as int) =~= Seq::<u8>::empty());
        }
    }
    while i < v.len()
        invariant
            from <= i,
            i <= v@.len() || from > v@.len(),
            from <= v@.len() ==> r@ == v@.subrange(from as int, i as int),
            from > v@.len() ==> r@ == Seq::<u8>::empty(),
        decreases v@.len() - i,
    {
        r.push(v[i]);
        proof {
            assert(v@.subrange(from as int, i + 1) =~= v@.subrange(from as int, i as int).push(
                v@[i as int],
            ));
        }
        i = i + 1;
    }
    r
}

/// Copies the elements of `v` from index `from` on.
fn suffix_frames(v: &Vec<PhysAddr>, from: usize) -> (r: Vec<PhysAddr>)
    ensures
        r@ == if from <= v@.len() {
            v@.subrange(from as int, v@.len() as int)
        } else {
            Seq::empty()
        },
{
    let mut r: Vec<PhysAddr> = Vec::new();
    let mut i: usize = from;
    proof {
        if from <= v@.len() {
            assert(v@.subrange(from as int, from as int) =~= Seq::<PhysAddr>::empty());
        }
    }
    while i < v.len()
        invariant
            from <= i,
            i <= v@.len() || from > v@.len(),
            from <= v@.len() ==> r@ == v@.subrange(from as int, i as int),
            from > v@.len() ==> r@ == Seq::<PhysAddr>::empty(),
        decreases v@.len() - i,
    {
        r.push(v[i]);
        proof {
            assert(v@.subrange(from as int, i + 1) =~= v@.subrange(from as int, i as int).push(
                v@[i as int],
            ));
        }
        i = i + 1;
    }
    r
}

impl MapResidence {
    /// Creates the residence of the part of the mapping that begins `k`
    /// pages after its beginning.
    pub fn skip(&self, k: usize) -> (r: MapResidence)
        requires
            k < ADDRESSABLE_PAGES,
        ensures
            r@ == self@.skip(k as int),
    {
        match self {
            MapResidence::Normal => MapResidence::Normal,
            MapResidence::File { location, off, content } => {
                let shift = (k * PAGE_SIZE) as u64;
                let off = if *off > u64::MAX - shift {
                    u64::MAX
                } else {
                    *off + shift
                };
                MapResidence::File {
                    location: *location,
                    off,
                    content: suffix_bytes(content, k * PAGE_SIZE),
                }
            },
            MapResidence::Static { pages } => MapResidence::Static { pages: suffix_frames(pages, k) },
        }
    }

    /// Returns the number of the frame that page `index` of the mapping
    /// shows, if the mapping shows existing physical pages and has one for
    /// that page.
    pub fn get_static_frame(&self, index: usize) -> (f: Option<usize>)
        ensures
            match f {
                Some(f) => self@.static_frame(index as int) == Some(f as int),
                None => self@.static_frame(index as int).is_none(),
            },
    {
        match self {
            MapResidence::Static { pages } => {
                if index < pages.len() && pages[index].0 / PAGE_SIZE < ADDRESSABLE_PAGES {
                    Some(pages[index].0 / PAGE_SIZE)
                } else {
                    None
                }
            },
            _ => None,
        }
    }

    /// Writes to frame number `frame` of `ram` the bytes that page `index`
    /// of the mapping holds when it gets a frame of its own.
    pub fn fill(&self, ram: &mut crate::memory::ram::Ram, index: usize, frame: usize)
        requires
            old(ram).wf(),
            index < ADDRESSABLE_PAGES,
        ensures
            final(ram).wf(),
            final(ram).content(frame as int) == self@.initial_content(index as int),
            forall|f: int| f != frame ==> #[trigger] final(ram).content(f) == old(ram).content(f),
    {
        match self {
            MapResidence::File { content, .. } => {
                if index * PAGE_SIZE <= content.len() {
                    let data = suffix_bytes(content, index * PAGE_SIZE);
                    ram.write_frame(frame, &data);
                } else {
                    ram.zero(frame);
                }
            },
            _ => {
                ram.zero(frame);
            },
        }
    }

    /// Returns the byte at offset `off` of page `index` of the mapping, as
    /// the page holds it when it gets a frame of its own.
    pub fn initial_byte(&self, index: usize, off: usize) -> (b: u8)
        requires
            index < ADDRESSABLE_PAGES,
            off < PAGE_SIZE,
        ensures
            b == self@.initial_content(index as int)[off as int],
    {
        match self {
            MapResidence::File { content, .. } => {
                if index * PAGE_SIZE <= content.len() && off < content.len() - index * PAGE_SIZE {
                    content[index * PAGE_SIZE + off]
                } else {
                    0
                }
            },
            _ => 0,
        }
    }

    /// Creates a copy of the residence.
    pub fn duplicate(&self) -> (r: MapResidence)
        ensures
            r@ == self@,
    {
        match self {
            MapResidence::Normal => MapResidence::Normal,
            MapResidence::File { location, off, content } => {
                let c = suffix_bytes(content, 0);
                assert(c@ =~= content@);
                MapResidence::File { location: *location, off: *off, content: c }
            },
            MapResidence::Static { pages } => {
                let p = suffix_frames(pages, 0);
                assert(p@ =~= pages@);
                MapResidence::Static { pages: p }
            },
        }
    }
}

} // verus!

verus! {

/// A contiguous run of allocated pages of virtual memory.
pub struct MemMapping {
    /// The number of the first page of the mapping.
    begin: usize,
    /// The size of the mapping in pages.
    size: usize,
    /// The flags of the mapping.
    flags: u8,
    /// Where the physical pages of the mapping come from.
    residence: MapResidence,
    /// The frame of each page that is materialized.
    pages: Vec<Option<usize>>,
}

/// What identifies a mapping: its range, its flags and its residence.
pub struct MappingView {
    /// The number of the first page.
    pub begin: int,
    /// The size in pages.
    pub size: int,
    /// The flags.
    pub flags: u8,
    /// Where the physical pages come from.
    pub residence: ResidenceView,
}

impl View for MemMapping {
    type V = MappingView;

    closed spec fn view(&self) -> MappingView {
        MappingView {
            begin: self.begin as int,
            size: self.size as int,
            flags: self.flags,
            residence: self.residence@,
        }
    }
}

impl MemMapping {
    /// The number of the first page of the mapping.
    pub open spec fn begin(&self) -> int {
        self@.begin
    }

    /// The size of the mapping in pages.
    pub open spec fn size(&self) -> int {
        self@.size
    }

    /// The number of the page at which the mapping ends.
    pub open spec fn end(&self) -> int {
        self.begin() + self.size()
    }

    /// The flags of the mapping.
    pub open spec fn flags(&self) -> u8 {
        self@.flags
    }

    /// The number of the frame of page `index` of the mapping, if the page
    /// is materialized.
    pub closed spec fn frame(&self, index: int) -> Option<usize> {
        if 0 <= index < self.pages@.len() {
            self.pages@[index]
        } else {
            None
        }
    }

    /// Tells whether the mapping keeps track of as many pages as it has.
    pub closed spec fn tracks_pages(&self) -> bool {
        self.pages@.len() == self.size
    }

    /// Tells whether the frame of page `index`, if any, is addressable.
    pub open spec fn frame_ok(&self, index: int) -> bool {
        self.frame(index) matches Some(f) ==> f < ADDRESSABLE_PAGES
    }

    /// The mapping's invariant: it is not empty, lies in what paging can
    /// address, and the frames of its pages are addressable.
    pub open spec fn wf(&self) -> bool {
        &&& self.size() > 0
        &&& 0 <= self.begin()
        &&& self.end() <= ADDRESSABLE_PAGES
        &&& self.tracks_pages()
        &&& forall|k: int| #[trigger] self.frame_ok(k)
    }

    /// Creates a mapping of `size` pages from page number `begin` on, with no
    /// page materialized.
    pub fn new(begin: usize, size: usize, flags: u8, residence: MapResidence) -> (m: Self)
        requires
            size > 0,
            begin + size <= ADDRESSABLE_PAGES,
        ensures
            m.wf(),
            m@ == (MappingView { begin: begin as int, size: size as int, flags, residence: residence@ }),
            forall|k: int| #[trigger] m.frame(k).is_none(),
    {
        let mut pages: Vec<Option<usize>> = Vec::new();
        let mut i: usize = 0;
        while i < size
            invariant
                i <= size,
                pages@.len() == i,
                forall|k: int| 0 <= k < i ==> #[trigger] pages@[k] is None,
            decreases size - i,
        {
            pages.push(None);
            i = i + 1;
        }
        let m = MemMapping { begin, size, flags, residence, pages };
        assert forall|k: int| #[trigger] m.frame_ok(k) by {}
        m
    }

    /// Returns the address of the beginning of the mapping.
    pub fn get_begin(&self) -> (a: VirtAddr)
        requires
            self.wf(),
        ensures
            a.0 == self.begin() * PAGE_SIZE,
    {
        VirtAddr(self.begin * PAGE_SIZE)
    }

    /// Returns the number of the first page of the mapping.
    pub fn get_begin_page(&self) -> (p: usize)
        ensures
            p == self.begin(),
    {
        self.begin
    }

    /// Returns the size of the mapping in pages.
    pub fn get_size(&self) -> (s: usize)
        ensures
            s == self.size(),
    {
        self.size
    }

    /// Returns the flags of the mapping.
    pub fn get_flags(&self) -> (f: u8)
        ensures
            f == self.flags(),
    {
        self.flags
    }

    /// Returns where the physical pages of the mapping come from.
    pub fn get_residence(&self) -> (r: &MapResidence)
        ensures
            r@ == self@.residence,
    {
        &self.residence
    }

    /// Returns the number of the frame of page `index` of the mapping, if
    /// the page is materialized.
    pub fn get_frame(&self, index: usize) -> (f: Option<usize>)
        ensures
            f == self.frame(index as int),
    {
        if index < self.pages.len() {
            self.pages[index]
        } else {
            None
        }
    }

    /// Records that page `index` of the mapping has frame `frame`, or none.
    pub fn set_frame(&mut self, index: usize, frame: Option<usize>)
        requires
            old(self).wf(),
            index < old(self).size(),
            frame matches Some(f) ==> f < ADDRESSABLE_PAGES,
        ensures
            final(self).wf(),
            final(self)@ == old(self)@,
            final(self).frame(index as int) == frame,
            forall|k: int| k != index ==> #[trigger] final(self).frame(k) == old(self).frame(k),
    {
        self.pages.set(index, frame);
        assert forall|k: int| #[trigger] self.frame_ok(k) by {
            if k != index {
                assert(old(self).frame_ok(k));
            }
        }
    }

    /// Splits the mapping in two: its first `k` pages, and the others.
    pub fn split(self, k: usize) -> (r: (Self, Self))
        requires
            self.wf(),
            0 < k < self.size(),
        ensures
            r.0.wf(),
            r.1.wf(),
            r.0@ == (MappingView { size: k as int, ..self@ }),
            r.1@ == (MappingView {
                begin: self.begin() + k,
                size: self.size() - k,
                flags: self.flags(),
                residence: self@.residence.skip(k as int),
            }),
            forall|j: int| 0 <= j < k ==> #[trigger] r.0.frame(j) == self.frame(j),
            forall|j: int| 0 <= j < self.size() - k ==> #[trigger] r.1.frame(j) == self.frame(j + k),
    {
        let mut first: Vec<Option<usize>> = Vec::new();
        let mut second: Vec<Option<usize>> = Vec::new();
        let mut i: usize = 0;
        while i < self.size
            invariant
                i <= self.size,
                self.pages@.len() == self.size,
                0 < k < self.size,
                first@.len() == (if i < k { i } else { k }),
                second@.len() == (if i < k { 0 } else { i - k }),
                forall|j: int| 0 <= j < first@.len() ==> #[trigger] first@[j] == self.pages@[j],
                forall|j: int| 0 <= j < second@.len() ==> #[trigger] second@[j] == self.pages@[j + k],
            decreases self.size - i,
        {
            if i < k {
                first.push(self.pages[i]);
            } else {
                second.push(self.pages[i]);
            }
            i = i + 1;
        }
        let rest = self.residence.skip(k);
        let a = MemMapping {
            begin: self.begin,
            size: k,
            flags: self.flags,
            residence: self.residence,
            pages: first,
        };
        let b = MemMapping {
            begin: self.begin + k,
            size: self.size - k,
            flags: self.flags,
            residence: rest,
            pages: second,
        };
        assert forall|j: int| #[trigger] a.frame_ok(j) by {
            assert(self.frame_ok(j));
        }
        assert forall|j: int| #[trigger] b.frame_ok(j) by {
            assert(self.frame_ok(j + k));
        }
        (a, b)
    }

    /// Creates a copy of the mapping, with the same frames.
    pub fn duplicate(&self) -> (m: Self)
        requires
            self.wf(),
        ensures
            m.wf(),
            m@ == self@,
            forall|k: int| #[trigger] m.frame(k) == self.frame(k),
    {
        let mut pages: Vec<Option<usize>> = Vec::new();
        let mut i: usize = 0;
        while i < self.size
            invariant
                i <= self.size,
                self.pages@.len() == self.size,
                pages@.len() == i,
                forall|j: int| 0 <= j < i ==> #[trigger] pages@[j] == self.pages@[j],
            decreases self.size - i,
        {
            pages.push(self.pages[i]);
            i = i + 1;
        }
        let m = MemMapping {
            begin: self.begin,
            size: self.size,
            flags: self.flags,
            residence: self.residence.duplicate(),
            pages,
        };
        assert forall|k: int| #[trigger] m.frame_ok(k) by {
            assert(self.frame_ok(k));
        }
        m
    }
}

} // verus!
