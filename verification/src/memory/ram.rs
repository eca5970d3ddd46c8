//! The contents of physical memory.

use vstd::prelude::*;
use std::collections::HashMap;
use vstd::std_specs::hash::*;
use crate::limits::PAGE_SIZE;
use crate::memory::{page_of, offset_of, PhysAddr};

verus! {

broadcast use vstd::std_specs::hash::group_hash_axioms;

/// The bytes of the physical frames. A frame that has never been written to
/// holds zeros.
pub struct Ram {
    frames: HashMap<usize, Vec<u8>>,
}

/// A page full of zeros.
pub open spec fn zero_page() -> Seq<u8> {
    Seq::new(PAGE_SIZE as nat, |i: int| 0u8)
}

/// The page that begins with the bytes `data`, or with the first of them
/// that fit in a page, and goes on with zeros.
pub open spec fn page_from(data: Seq<u8>) -> Seq<u8> {
    Seq::new(
        PAGE_SIZE as nat,
        |i: int|
            if i < data.len() {
                data[i]
            } else {
                0u8
            },
    )
}

impl Ram {
    /// The memory's invariant: every frame is a page long.
    pub closed spec fn wf(&self) -> bool {
        forall|f: usize| #[trigger] self.frames@.contains_key(f) ==> self.frames@[f]@.len() == PAGE_SIZE
    }

    /// The bytes of frame number `frame`.
    pub closed spec fn content(&self, frame: int) -> Seq<u8> {
        if 0 <= frame <= usize::MAX && self.frames@.contains_key(frame as usize) {
            self.frames@[frame as usize]@
        } else {
            zero_page()
        }
    }

    /// The byte at physical address `addr`.
    pub open spec fn byte(&self, addr: usize) -> u8 {
        self.content(page_of(addr))[offset_of(addr)]
    }

    /// Every frame is a page long.
    pub proof fn lemma_content_len(&self, frame: int)
        requires
            self.wf(),
        ensures
            self.content(frame).len() == PAGE_SIZE,
    {
    }

    /// Creates a memory full of zeros.
    pub fn new() -> (ram: Self)
        ensures
            ram.wf(),
            forall|f: int| #[trigger] ram.content(f) == zero_page(),
    {
        Ram { frames: HashMap::new() }
    }

    /// Returns the byte at physical address `addr`.
    pub fn read(&self, addr: PhysAddr) -> (b: u8)
        requires
            self.wf(),
        ensures
            b == self.byte(addr.0),
    {
        let frame = addr.0 / PAGE_SIZE;
        match self.frames.get(&frame) {
            Some(page) => page[addr.0 % PAGE_SIZE],
            None => 0,
        }
    }

    /// Returns a copy of the bytes of frame number `frame`.
    pub fn read_frame(&self, frame: usize) -> (page: Vec<u8>)
        requires
            self.wf(),
        ensures
            page@ == self.content(frame as int),
    {
        let mut page: Vec<u8> = Vec::new();
        let mut i: usize = 0;
        match self.frames.get(&frame) {
            Some(src) => {
                while i < PAGE_SIZE
                    invariant
                        i <= PAGE_SIZE,
                        src@.len() == PAGE_SIZE,
                        page@.len() == i,
                        forall|j: int| 0 <= j < i ==> page@[j] == src@[j],
                    decreases PAGE_SIZE - i,
                {
                    page.push(src[i]);
                    i = i + 1;
                }
                assert(page@ =~= src@);
            },
            None => {
                while i < PAGE_SIZE
                    invariant
                        i <= PAGE_SIZE,
                        page@.len() == i,
                        forall|j: int| 0 <= j < i ==> page@[j] == 0u8,
                    decreases PAGE_SIZE - i,
                {
                    page.push(0u8);
                    i = i + 1;
                }
                assert(page@ =~= zero_page());
            },
        }
        page
    }

    /// Replaces the bytes of frame number `frame` by `data`, cut or padded
    /// with zeros to the length of a page.
    pub fn write_frame(&mut self, frame: usize, data: &Vec<u8>)
        requires
            old(self).wf(),
        ensures
            final(self).wf(),
            final(self).content(frame as int) == page_from(data@),
            forall|f: int| f != frame ==> #[trigger] final(self).content(f) == old(self).content(f),
    {
        let mut page: Vec<u8> = Vec::new();
        let mut i: usize = 0;
        while i < PAGE_SIZE
            invariant
                i <= PAGE_SIZE,
                page@.len() == i,
                forall|j: int| 0 <= j < i ==> page@[j] == page_from(data@)[j],
            decreases PAGE_SIZE - i,
        {
            if i < data.len() {
                page.push(data[i]);
            } else {
                page.push(0u8);
            }
            i = i + 1;
        }
        assert(page@ =~= page_from(data@));
        self.frames.insert(frame, page);
    }

    /// Writes `value` at physical address `addr`.
    pub fn write(&mut self, addr: PhysAddr, value: u8)
        requires
            old(self).wf(),
        ensures
            final(self).wf(),
            final(self).content(page_of(addr.0)) == old(self).content(page_of(addr.0)).update(
                offset_of(addr.0),
                value,
            ),
            forall|f: int|
                f != page_of(addr.0) ==> #[trigger] final(self).content(f) == old(self).content(f),
    {
        let frame = addr.0 / PAGE_SIZE;
        let mut page = self.read_frame(frame);
        page.set(addr.0 % PAGE_SIZE, value);
        self.frames.insert(frame, page);
    }

    /// Fills frame number `frame` with zeros.
    pub fn zero(&mut self, frame: usize)
        requires
            old(self).wf(),
        ensures
            final(self).wf(),
            final(self).content(frame as int) == zero_page(),
            forall|f: int| f != frame ==> #[trigger] final(self).content(f) == old(self).content(f),
    {
        self.frames.remove(&frame);
    }

    /// Copies the bytes of frame number `src` to frame number `dst`.
    pub fn copy(&mut self, src: usize, dst: usize)
        requires
            old(self).wf(),
        ensures
            final(self).wf(),
            final(self).content(dst as int) == old(self).content(src as int),
            forall|f: int| f != dst ==> #[trigger] final(self).content(f) == old(self).content(f),
    {
        let page = self.read_frame(src);
        self.frames.insert(dst, page);
    }
}

} // verus!
