//! The physical frame allocator.
//!
//! Physical memory is split in two zones, one for the kernel and one for
//! userspace. Frames are handed out in blocks of `2^order` frames, aligned to
//! their own size.

use vstd::prelude::*;
use vstd::arithmetic::power2::{pow2, lemma_pow2_unfold, lemma_pow2_strictly_increases, lemma2_to64};
use crate::errno::{AllocError, AllocResult};
use crate::limits::PAGE_SIZE;
use crate::memory::PhysAddr;

verus! {

/// The largest order of a block.
pub const MAX_ORDER: u8 = 17;

/// The largest frame number that a zone may end at.
pub const MAX_FRAMES: usize = 0x10_0000;

/// A zone of physical memory.
#[derive(Clone, Copy, Debug, PartialEq, Eq, Structural)]
pub enum Zone {
    /// Memory reserved to the kernel.
    Kernel,
    /// Memory available to userspace.
    User,
}

/// The frames of one zone: frame `begin + i` is in use iff `used[i]`.
struct ZoneFrames {
    begin: usize,
    used: Vec<bool>,
}

/// The allocator of physical frames.
pub struct FrameAllocator {
    kernel: ZoneFrames,
    user: ZoneFrames,
}

/// The number of frames in a block of order `order`.
pub open spec fn block_size(order: u8) -> int {
    pow2(order as nat) as int
}

/// Computes the number of frames in a block of order `order`.
pub fn block_frames(order: u8) -> (n: usize)
    requires
        order <= MAX_ORDER,
    ensures
        n == block_size(order),
        1 <= n <= 0x2_0000,
{
    let mut n: usize = 1;
    let mut i: u8 = 0;
    proof {
        lemma2_to64();
    }
    while i < order
        invariant
            i <= order <= MAX_ORDER,
            n == pow2(i as nat),
            1 <= n <= 0x2_0000,
            pow2(17) == 0x2_0000,
        decreases order - i,
    {
        proof {
            lemma_pow2_unfold((i + 1) as nat);
            if i + 1 < 17 {
                lemma_pow2_strictly_increases((i + 1) as nat, 17);
            }
        }
        n = n * 2;
        i = i + 1;
    }
    n
}

impl ZoneFrames {
    spec fn wf(&self) -> bool {
        self.begin + self.used@.len() <= MAX_FRAMES
    }

    spec fn end(&self) -> int {
        self.begin + self.used@.len()
    }

    spec fn contains(&self, f: int) -> bool {
        self.begin <= f < self.end()
    }

    spec fn is_free(&self, f: int) -> bool {
        self.contains(f) && !self.used@[f - self.begin]
    }

    spec fn block_free(&self, f: int, n: int) -> bool {
        forall|x: int| f <= x < f + n ==> #[trigger] self.is_free(x)
    }

    /// Tells whether the `n` frames from `f` on all lie in the zone and are free.
    fn check_free(&self, f: usize, n: usize) -> (b: bool)
        requires
            self.wf(),
            n >= 1,
            f + n <= MAX_FRAMES,
        ensures
            b == self.block_free(f as int, n as int),
    {
        if f < self.begin || f + n > self.begin + self.used.len() {
            assert(!self.is_free(f as int) || !self.is_free(f + n - 1));
            return false;
        }
        let mut j: usize = 0;
        while j < n
            invariant
                self.wf(),
                j <= n,
                self.begin <= f,
                f + n <= self.begin + self.used@.len(),
                forall|x: int| f <= x < f + j ==> #[trigger] self.is_free(x),
            decreases n - j,
        {
            if self.used[f - self.begin + j] {
                assert(!self.is_free(f + j));
                return false;
            }
            j = j + 1;
        }
        true
    }

    /// Marks the `n` frames from `f` on as used or as free.
    fn mark(&mut self, f: usize, n: usize, used: bool)
        requires
            old(self).wf(),
            old(self).begin <= f,
            f + n <= old(self).begin + old(self).used@.len(),
        ensures
            final(self).wf(),
            final(self).begin == old(self).begin,
            final(self).used@.len() == old(self).used@.len(),
            forall|x: int|
                f <= x < f + n ==> #[trigger] final(self).used@[x - old(self).begin] == used,
            forall|x: int|
                old(self).begin <= x < old(self).end() && !(f <= x < f + n)
                    ==> #[trigger] final(self).used@[x - old(self).begin]
                        == old(self).used@[x - old(self).begin],
    {
        let mut j: usize = 0;
        while j < n
            invariant
                j <= n,
                self.wf(),
                self.begin == old(self).begin,
                self.used@.len() == old(self).used@.len(),
                self.begin <= f,
                f + n <= self.begin + self.used@.len(),
                forall|x: int| f <= x < f + j ==> #[trigger] self.used@[x - self.begin] == used,
                forall|x: int|
                    self.begin <= x < self.end() && !(f <= x < f + j)
                        ==> #[trigger] self.used@[x - self.begin] == old(self).used@[x
                        - self.begin],
            decreases n - j,
        {
            self.used.set(f - self.begin + j, used);
            j = j + 1;
        }
    }
}

impl FrameAllocator {
    /// The allocator's invariant: the zones lie apart, the kernel's first.
    pub closed spec fn wf(&self) -> bool {
        &&& self.kernel.wf()
        &&& self.user.wf()
        &&& self.kernel.end() <= self.user.begin
    }

    /// The number of the first frame of `zone`.
    pub closed spec fn zone_begin(&self, zone: Zone) -> int {
        match zone {
            Zone::Kernel => self.kernel.begin as int,
            Zone::User => self.user.begin as int,
        }
    }

    /// The number of frames in `zone`.
    pub closed spec fn zone_frames(&self, zone: Zone) -> int {
        match zone {
            Zone::Kernel => self.kernel.used@.len() as int,
            Zone::User => self.user.used@.len() as int,
        }
    }

    /// Tells whether frame `f` belongs to `zone`.
    pub open spec fn in_zone(&self, zone: Zone, f: int) -> bool {
        self.zone_begin(zone) <= f < self.zone_begin(zone) + self.zone_frames(zone)
    }

    /// Tells whether the allocator manages frame `f`.
    pub open spec fn manages(&self, f: int) -> bool {
        self.in_zone(Zone::Kernel, f) || self.in_zone(Zone::User, f)
    }

    /// Tells whether frame `f` is managed and free.
    pub closed spec fn is_free(&self, f: int) -> bool {
        self.kernel.is_free(f) || self.user.is_free(f)
    }

    /// Tells whether frame `f` is managed and allocated.
    pub open spec fn is_allocated(&self, f: int) -> bool {
        self.manages(f) && !self.is_free(f)
    }

    /// Tells whether frame `f` lies in `zone` and is free.
    pub open spec fn is_free_in(&self, zone: Zone, f: int) -> bool {
        self.in_zone(zone, f) && self.is_free(f)
    }

    /// Tells whether the `n` frames from `f` on all lie in `zone` and are free.
    pub open spec fn block_free(&self, zone: Zone, f: int, n: int) -> bool {
        forall|x: int| f <= x < f + n ==> #[trigger] self.is_free_in(zone, x)
    }

    /// Tells whether `other` manages the same zones.
    pub open spec fn same_layout(&self, other: &Self) -> bool {
        forall|zone: Zone|
            #![auto]
            self.zone_begin(zone) == other.zone_begin(zone) && self.zone_frames(zone)
                == other.zone_frames(zone)
    }

    /// A free frame is a managed one.
    pub proof fn lemma_free_is_managed(&self, f: int)
        requires
            self.is_free(f),
        ensures
            self.manages(f),
    {
    }

    /// Creates an allocator for `kernel_frames` frames from frame number
    /// `first_frame` on, followed by `user_frames` frames for userspace. All
    /// frames are free.
    pub fn new(first_frame: usize, kernel_frames: usize, user_frames: usize) -> (a: Self)
        requires
            first_frame + kernel_frames + user_frames <= MAX_FRAMES,
        ensures
            a.wf(),
            a.zone_begin(Zone::Kernel) == first_frame,
            a.zone_frames(Zone::Kernel) == kernel_frames,
            a.zone_begin(Zone::User) == first_frame + kernel_frames,
            a.zone_frames(Zone::User) == user_frames,
            forall|f: int| a.manages(f) ==> a.is_free(f),
    {
        let mut kernel: Vec<bool> = Vec::new();
        kernel.resize(kernel_frames, false);
        let mut user: Vec<bool> = Vec::new();
        user.resize(user_frames, false);
        FrameAllocator {
            kernel: ZoneFrames { begin: first_frame, used: kernel },
            user: ZoneFrames { begin: first_frame + kernel_frames, used: user },
        }
    }

    /// Allocates a block of `2^order` frames in `zone` and returns the address
    /// of its first frame, which is a multiple of the block's size in bytes.
    ///
    /// The block is the one with the lowest address among the free ones. If
    /// the zone holds no free block of that order, the function fails and the
    /// allocator is left unchanged.
    pub fn allocate(&mut self, order: u8, zone: Zone) -> (r: AllocResult<PhysAddr>)
        requires
            old(self).wf(),
            order <= MAX_ORDER,
        ensures
            final(self).wf(),
            final(self).same_layout(old(self)),
            match r {
                Ok(addr) => {
                    let f = addr.0 as int / PAGE_SIZE as int;
                    let n = block_size(order);
                    &&& addr.0 == f * PAGE_SIZE
                    &&& f % n == 0
                    &&& old(self).block_free(zone, f, n)
                    &&& forall|g: int| 0 <= g < f && g % n == 0 ==> !old(self).block_free(zone, g, n)
                    &&& forall|x: int|
                        #![auto]
                        final(self).is_free(x) == (old(self).is_free(x) && !(f <= x < f + n))
                },
                Err(_) => {
                    let n = block_size(order);
                    &&& forall|x: int| #![auto] final(self).is_free(x) == old(self).is_free(x)
                    &&& forall|g: int| 0 <= g && g % n == 0 ==> !old(self).block_free(zone, g, n)
                },
            },
    {
        let n = block_frames(order);
        let found = match zone {
            Zone::Kernel => Self::find(&self.kernel, n),
            Zone::User => Self::find(&self.user, n),
        };
        proof {
            self.lemma_zone_state(zone);
        }
        match found {
            Some(f) => {
                proof {
                    assert(self.zone_state(zone).is_free(f as int));
                    assert(self.zone_state(zone).is_free(f + n - 1));
                }
                match zone {
                    Zone::Kernel => self.kernel.mark(f, n, true),
                    Zone::User => self.user.mark(f, n, true),
                }
                assert((f * PAGE_SIZE) as int / PAGE_SIZE as int == f);
                Ok(PhysAddr(f * PAGE_SIZE))
            },
            None => Err(AllocError),
        }
    }

    /// The frames of `zone`.
    spec fn zone_state(&self, zone: Zone) -> ZoneFrames {
        match zone {
            Zone::Kernel => self.kernel,
            Zone::User => self.user,
        }
    }

    /// What is free in a zone is what is free in the allocator inside that
    /// zone.
    proof fn lemma_zone_state(&self, zone: Zone)
        requires
            self.wf(),
        ensures
            forall|x: int|
                #![auto]
                self.zone_state(zone).is_free(x) <==> self.in_zone(zone, x) && self.is_free(x),
            forall|g: int, n: int|
                #![auto]
                self.zone_state(zone).block_free(g, n) <==> self.block_free(zone, g, n),
    {
        assert forall|x: int| #![auto] self.zone_state(zone).is_free(x) <==> self.in_zone(zone, x)
            && self.is_free(x) by {}
        assert forall|g: int, n: int| #![auto] self.zone_state(zone).block_free(g, n)
            <==> self.block_free(zone, g, n) by {
            let z = self.zone_state(zone);
            if z.block_free(g, n) {
                assert forall|x: int| g <= x < g + n implies #[trigger] self.is_free_in(zone, x) by {
                    assert(z.is_free(x));
                }
            }
            if self.block_free(zone, g, n) {
                assert forall|x: int| g <= x < g + n implies #[trigger] z.is_free(x) by {
                    assert(self.is_free_in(zone, x));
                }
            }
        }
    }

    /// Looks for the lowest aligned block of `n` free frames in a zone.
    fn find(z: &ZoneFrames, n: usize) -> (r: Option<usize>)
        requires
            z.wf(),
            1 <= n <= 0x2_0000,
        ensures
            match r {
                Some(f) => {
                    &&& f % n == 0
                    &&& f + n <= MAX_FRAMES
                    &&& z.block_free(f as int, n as int)
                    &&& forall|g: int|
                        0 <= g < f && g % (n as int) == 0 ==> !z.block_free(g, n as int)
                },
                None => forall|g: int| 0 <= g && g % (n as int) == 0 ==> !z.block_free(g, n as int),
            },
    {
        let end = z.begin + z.used.len();
        let mut f: usize = 0;
        while f + n <= end
            invariant
                z.wf(),
                1 <= n <= 0x2_0000,
                end == z.end(),
                f <= MAX_FRAMES,
                forall|g: int| 0 <= g < f && g % (n as int) == 0 ==> !z.block_free(g, n as int),
            decreases end - f,
        {
            if f % n == 0 && z.check_free(f, n) {
                return Some(f);
            }
            f = f + 1;
        }
        assert forall|g: int| 0 <= g && g % (n as int) == 0 implies !z.block_free(g, n as int) by {
            if g >= f {
                assert(!z.is_free(g + n - 1));
            }
        }
        None
    }

    /// Allocates one frame in `zone`: the free frame of the zone with the
    /// lowest address. If the zone holds no free frame, the function fails and
    /// the allocator is left unchanged.
    pub fn alloc_frame(&mut self, zone: Zone) -> (r: AllocResult<PhysAddr>)
        requires
            old(self).wf(),
        ensures
            final(self).wf(),
            final(self).same_layout(old(self)),
            match r {
                Ok(addr) => {
                    let f = addr.0 as int / PAGE_SIZE as int;
                    &&& addr.0 == f * PAGE_SIZE
                    &&& f < MAX_FRAMES
                    &&& old(self).is_free_in(zone, f)
                    &&& forall|g: int| g < f ==> !#[trigger] old(self).is_free_in(zone, g)
                    &&& forall|x: int|
                        #![auto]
                        final(self).is_free(x) == (old(self).is_free(x) && x != f)
                },
                Err(_) => {
                    &&& forall|x: int| #![auto] final(self).is_free(x) == old(self).is_free(x)
                    &&& forall|g: int| !#[trigger] old(self).is_free_in(zone, g)
                },
            },
    {
        proof {
            lemma2_to64();
        }
        let r = self.allocate(0, zone);
        proof {
            match r {
                Ok(addr) => {
                    let f = addr.0 as int / PAGE_SIZE as int;
                    assert(old(self).is_free_in(zone, f));
                    assert forall|g: int| g < f implies !#[trigger] old(self).is_free_in(
                        zone,
                        g,
                    ) by {
                        if 0 <= g {
                            assert(g % 1 == 0);
                            assert(!old(self).block_free(zone, g, 1));
                        }
                    }
                },
                Err(_) => {
                    assert(block_size(0) == 1);
                    assert forall|g: int| !#[trigger] old(self).is_free_in(zone, g) by {
                        if 0 <= g {
                            assert(g % 1 == 0);
                            assert(!old(self).block_free(zone, g, block_size(0)));
                        }
                    }
                },
            }
        }
        r
    }

    /// Returns the block of `2^order` frames that begins at `addr` to the
    /// allocator: those of its frames that the allocator manages are free
    /// afterwards.
    pub fn free(&mut self, addr: PhysAddr, order: u8)
        requires
            old(self).wf(),
            order <= MAX_ORDER,
        ensures
            final(self).wf(),
            final(self).same_layout(old(self)),
            forall|x: int|
                #![auto]
                final(self).is_free(x) == (old(self).is_free(x) || old(self).manages(x) && {
                    let f = addr.0 as int / PAGE_SIZE as int;
                    f <= x < f + block_size(order)
                }),
    {
        let n = block_frames(order);
        let f = addr.0 / PAGE_SIZE;
        let mut j: usize = 0;
        while j < n
            invariant
                j <= n,
                n == block_size(order),
                f == addr.0 as int / PAGE_SIZE as int,
                self.wf(),
                self.same_layout(old(self)),
                forall|x: int|
                    #![auto]
                    self.is_free(x) == (old(self).is_free(x) || old(self).manages(x) && f <= x < f
                        + j),
            decreases n - j,
        {
            if f <= usize::MAX - j {
                let x = f + j;
                if x >= self.user.begin {
                    if x - self.user.begin < self.user.used.len() {
                        self.user.mark(x, 1, false);
                    }
                } else if x >= self.kernel.begin {
                    if x - self.kernel.begin < self.kernel.used.len() {
                        self.kernel.mark(x, 1, false);
                    }
                }
            }
            j = j + 1;
        }
    }

    /// Returns the frame that holds `addr` to the allocator. Nothing changes
    /// if the allocator does not manage the frame.
    pub fn free_frame(&mut self, addr: PhysAddr)
        requires
            old(self).wf(),
        ensures
            final(self).wf(),
            final(self).same_layout(old(self)),
            forall|x: int|
                #![auto]
                final(self).is_free(x) == (old(self).is_free(x) || old(self).manages(x) && x
                    == addr.0 as int / PAGE_SIZE as int),
    {
        proof {
            lemma2_to64();
        }
        self.free(addr, 0);
    }

    /// Tells whether the frame that holds `addr` is free.
    pub fn is_frame_free(&self, addr: PhysAddr) -> (b: bool)
        requires
            self.wf(),
        ensures
            b == self.is_free(addr.0 as int / PAGE_SIZE as int),
    {
        let f = addr.0 / PAGE_SIZE;
        if f >= self.user.begin {
            f - self.user.begin < self.user.used.len() && !self.user.used[f - self.user.begin]
        } else if f >= self.kernel.begin {
            f - self.kernel.begin < self.kernel.used.len() && !self.kernel.used[f
                - self.kernel.begin]
        } else {
            false
        }
    }

    /// Returns the number of free frames in `zone`.
    pub fn free_frames(&self, zone: Zone) -> (n: usize)
        requires
            self.wf(),
        ensures
            n == Set::new(|f: int| self.in_zone(zone, f) && self.is_free(f)).len(),
    {
        let z = match zone {
            Zone::Kernel => &self.kernel,
            Zone::User => &self.user,
        };
        let mut n: usize = 0;
        let mut i: usize = 0;
        let ghost all = Set::new(|f: int| self.in_zone(zone, f) && self.is_free(f));
        proof {
            self.lemma_zone_state(zone);
            assert(Set::new(|f: int| z.begin <= f < z.begin + 0 && z.is_free(f)) =~= Set::<int>::empty());
        }
        while i < z.used.len()
            invariant
                self.wf(),
                z.wf(),
                i <= z.used@.len(),
                n <= i,
                z.begin == self.zone_begin(zone),
                z.used@.len() == self.zone_frames(zone),
                forall|f: int| #![auto] z.is_free(f) <==> self.in_zone(zone, f) && self.is_free(f),
                Set::new(|f: int| z.begin <= f < z.begin + i && z.is_free(f)).finite(),
                n == Set::new(|f: int| z.begin <= f < z.begin + i && z.is_free(f)).len(),
            decreases z.used@.len() - i,
        {
            let ghost before = Set::new(|f: int| z.begin <= f < z.begin + i && z.is_free(f));
            let ghost after = Set::new(|f: int| z.begin <= f < z.begin + i + 1 && z.is_free(f));
            if !z.used[i] {
                assert(after =~= before.insert(z.begin + i));
                n = n + 1;
            } else {
                assert(after =~= before);
            }
            i = i + 1;
        }
        assert(all =~= Set::new(|f: int| z.begin <= f < z.begin + i && z.is_free(f)));
        n
    }
}

} // verus!
