//! Physical and virtual addresses and the layout of the address space.

pub mod buddy;
pub mod ram;
pub mod vmem;

use vstd::prelude::*;
use crate::limits::PAGE_SIZE;

verus! {

/// The first address of the range in which a process's mappings live.
pub const ALLOC_BEGIN: usize = 0x4000_0000;

/// The end of the range a process may use; the kernel's range begins here.
pub const PROCESS_END: usize = 0xc000_0000;

/// The first address of the kernel's range.
pub const KERNEL_BEGIN: usize = PROCESS_END;

/// The size of the kernel's range in bytes.
pub const KERNELSPACE_SIZE: usize = 0x4000_0000;

/// The number of pages that the paging structures can address.
pub const ADDRESSABLE_PAGES: usize = 0x10_0000;

/// The number of the first page of the process range.
pub const ALLOC_BEGIN_PAGE: usize = 0x4_0000;

/// The number of the page at which the process range ends.
pub const PROCESS_END_PAGE: usize = 0xc_0000;

/// An address in physical memory.
#[derive(Clone, Copy, Debug, PartialEq, Eq, Structural)]
pub struct PhysAddr(pub usize);

/// An address in virtual memory.
#[derive(Clone, Copy, Debug, PartialEq, Eq, Structural)]
pub struct VirtAddr(pub usize);

/// The number of the page that holds the byte at address `addr`.
pub open spec fn page_of(addr: usize) -> int {
    addr as int / PAGE_SIZE as int
}

/// The offset of address `addr` inside its page.
pub open spec fn offset_of(addr: usize) -> int {
    addr as int % PAGE_SIZE as int
}

impl VirtAddr {
    /// Returns the number of the page that holds the address.
    pub fn page(&self) -> (p: usize)
        ensures
            p == page_of(self.0),
    {
        self.0 / PAGE_SIZE
    }

    /// Returns the offset of the address inside its page.
    pub fn page_offset(&self) -> (o: usize)
        ensures
            o == offset_of(self.0),
            o < PAGE_SIZE,
    {
        self.0 % PAGE_SIZE
    }

    /// Tells whether the address is a multiple of `align`.
    pub fn is_aligned_to(&self, align: usize) -> (b: bool)
        requires
            align > 0,
        ensures
            b == (self.0 as int % align as int == 0),
    {
        self.0 % align == 0
    }

    /// Translates a kernel virtual address to the physical address it is
    /// identity-mapped from, if it lies in the kernel's range.
    pub fn kernel_to_physical(&self) -> (p: Option<PhysAddr>)
        ensures
            self.0 >= KERNEL_BEGIN ==> p == Some(PhysAddr((self.0 - KERNEL_BEGIN) as usize)),
            self.0 < KERNEL_BEGIN ==> p.is_none(),
    {
        if self.0 >= KERNEL_BEGIN {
            Some(PhysAddr(self.0 - KERNEL_BEGIN))
        } else {
            None
        }
    }
}

impl PhysAddr {
    /// Returns the number of the frame that holds the address.
    pub fn frame(&self) -> (f: usize)
        ensures
            f == page_of(self.0),
    {
        self.0 / PAGE_SIZE
    }

    /// Tells whether the address is a multiple of `align`.
    pub fn is_aligned_to(&self, align: usize) -> (b: bool)
        requires
            align > 0,
        ensures
            b == (self.0 as int % align as int == 0),
    {
        self.0 % align == 0
    }
}

} // verus!

verus! {

/// Physical memory: the allocator of its frames, the counter of references
/// to them, and their contents.
pub struct PhysMemory {
    /// The allocator of frames.
    pub frames: buddy::FrameAllocator,
    /// The number of mappings that hold each frame.
    pub refs: crate::process::mem_space::physical_ref_counter::PhysRefCounter,
    /// The bytes of the frames.
    pub ram: ram::Ram,
}

impl PhysMemory {
    /// The invariant of physical memory: that of each of its parts.
    pub open spec fn wf(&self) -> bool {
        &&& self.frames.wf()
        &&& self.refs.wf()
        &&& self.ram.wf()
    }

    /// The invariant of the frames: a frame that is free has no reference,
    /// so that a frame that has a reference is in use.
    pub open spec fn sound(&self) -> bool {
        forall|f: int| #[trigger] self.frames.is_free(f) ==> self.refs.count(f) == 0
    }

    /// Creates a physical memory of `kernel_frames` frames for the kernel,
    /// from frame number `first_frame` on, followed by `user_frames` frames
    /// for userspace. All frames are free, hold zeros and have no reference.
    pub fn new(first_frame: usize, kernel_frames: usize, user_frames: usize) -> (m: Self)
        requires
            first_frame + kernel_frames + user_frames <= buddy::MAX_FRAMES,
        ensures
            m.wf(),
            m.frames.zone_begin(buddy::Zone::Kernel) == first_frame,
            m.frames.zone_frames(buddy::Zone::Kernel) == kernel_frames,
            m.frames.zone_begin(buddy::Zone::User) == first_frame + kernel_frames,
            m.frames.zone_frames(buddy::Zone::User) == user_frames,
            forall|f: int| m.frames.manages(f) ==> m.frames.is_free(f),
            forall|f: int| #[trigger] m.refs.count(f) == 0,
            forall|f: int| #[trigger] m.ram.content(f) == ram::zero_page(),
            m.sound(),
    {
        PhysMemory {
            frames: buddy::FrameAllocator::new(first_frame, kernel_frames, user_frames),
            refs: crate::process::mem_space::physical_ref_counter::PhysRefCounter::new(),
            ram: ram::Ram::new(),
        }
    }
}

} // verus!
