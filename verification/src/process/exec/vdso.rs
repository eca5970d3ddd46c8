//! The vDSO (virtual dynamic shared object) is a small shared library that the
//! kernel maps into the memory space of all userspace programs.
//!
//! Its image is loaded once, into frames of the kernel that are never given
//! back; every memory space then shows those same frames.

use vstd::prelude::*;
use vstd::set_lib::{lemma_int_range, lemma_len_subset, set_int_range};
use crate::cpu::Cpu;
use crate::errno::{EResult, Errno};
use crate::limits::{pages_for, PAGE_SIZE};
use crate::memory::buddy::{FrameAllocator, Zone};
use crate::memory::ram::page_from;
use crate::memory::{PhysAddr, PhysMemory, VirtAddr};
use crate::process::mem_space::mapping::{MapResidence, ResidenceView};
use crate::process::mem_space::{MapConstraint, MemSpace, MAPPING_FLAG_USER};

verus! {

/// Information on the vDSO ELF image.
pub struct Vdso {
    /// The list of pages on which the image is loaded.
    pub pages: Vec<PhysAddr>,
    /// The length of the ELF image in bytes.
    pub len: usize,
    /// The offset of the vDSO's entry.
    pub entry_off: usize,
}

/// Information about mapped vDSO.
#[derive(Clone, Copy, Debug, PartialEq, Eq, Structural)]
pub struct MappedVDSO {
    /// The virtual address to the beginning of the vDSO.
    pub ptr: VirtAddr,
    /// The virtual pointer to the entry point of the vDSO.
    pub entry: VirtAddr,
}

/// The number of the frame of page `i` of `pages`.
pub open spec fn frame_of(pages: Seq<PhysAddr>, i: int) -> int {
    pages[i].0 as int / PAGE_SIZE as int
}

/// Tells whether `f` is the frame of one of `pages`.
pub open spec fn among(pages: Seq<PhysAddr>, f: int) -> bool {
    exists|i: int| 0 <= i < pages.len() && #[trigger] frame_of(pages, i) == f
}

/// The bytes of page `i` of the image `image`: those of the image from byte
/// `i * PAGE_SIZE` on, and zeros where the image has ended.
pub open spec fn image_page(image: Seq<u8>, i: int) -> Seq<u8> {
    if 0 <= i * PAGE_SIZE <= image.len() {
        page_from(image.subrange(i * PAGE_SIZE, image.len() as int))
    } else {
        page_from(Seq::empty())
    }
}

/// Tells whether page `i` of `pages` holds page `i` of the image `image`
/// in memory `mem`: its frame is in use, has a reference, and has the bytes
/// of the page.
pub open spec fn loaded(mem: &PhysMemory, pages: Seq<PhysAddr>, image: Seq<u8>, i: int) -> bool {
    let f = frame_of(pages, i);
    &&& pages[i].0 == f * PAGE_SIZE
    &&& mem.frames.is_allocated(f)
    &&& mem.refs.count(f) > 0
    &&& mem.ram.content(f) == image_page(image, i)
}

/// The frames of the kernel that are free in `frames`.
pub open spec fn free_kernel_frames(frames: &FrameAllocator) -> Set<int> {
    Set::new(|f: int| frames.is_free_in(Zone::Kernel, f))
}

/// Returns the bytes of the image `image` that stand in its page `i`.
fn chunk(image: &Vec<u8>, i: usize) -> (data: Vec<u8>)
    requires
        i * PAGE_SIZE < image@.len(),
    ensures
        page_from(data@) == image_page(image@, i as int),
{
    let len = image.len();
    let begin = i * PAGE_SIZE;
    let n = if len - begin < PAGE_SIZE {
        len - begin
    } else {
        PAGE_SIZE
    };
    let mut data: Vec<u8> = Vec::new();
    let mut k: usize = 0;
    while k < n
        invariant
            k <= n,
            begin + n <= len,
            len == image@.len(),
            data@.len() == k,
            forall|j: int| 0 <= j < k ==> data@[j] == image@[begin + j],
        decreases n - k,
    {
        data.push(image[begin + k]);
        k = k + 1;
    }
    assert(page_from(data@) =~= image_page(image@, i as int));
    data
}

/// Gives back the frames of `pages` from page `k` on, each of which has one
/// reference more than in `before` and was free there.
fn release(mem: &mut PhysMemory, pages: &Vec<PhysAddr>, Ghost(before): Ghost<PhysMemory>)
    requires
        old(mem).wf(),
        before.wf(),
        old(mem).frames.same_layout(&before.frames),
        forall|i: int, j: int|
            0 <= i < j < pages@.len() ==> frame_of(pages@, i) != frame_of(pages@, j),
        forall|i: int| 0 <= i < pages@.len() ==> before.frames.is_free(#[trigger] frame_of(pages@, i)),
        forall|f: int|
            #[trigger] old(mem).frames.is_free(f) == (before.frames.is_free(f) && !among(pages@, f)),
        forall|f: int|
            #[trigger] old(mem).refs.count(f) == before.refs.count(f) + if among(pages@, f) {
                1int
            } else {
                0int
            },
    ensures
        final(mem).wf(),
        before.sound() ==> final(mem).sound(),
        final(mem).frames.same_layout(&before.frames),
        final(mem).ram == old(mem).ram,
        forall|f: int| #[trigger] final(mem).frames.is_free(f) == before.frames.is_free(f),
        forall|f: int| #[trigger] final(mem).refs.count(f) == before.refs.count(f),
{
    let n = pages.len();
    let mut k: usize = 0;
    assert(pages@.subrange(0, n as int) =~= pages@);
    while k < n
        invariant
            k <= n,
            n == pages@.len(),
            mem.wf(),
            before.wf(),
            mem.frames.same_layout(&before.frames),
            mem.ram == old(mem).ram,
            forall|i: int, j: int|
                0 <= i < j < pages@.len() ==> frame_of(pages@, i) != frame_of(pages@, j),
            forall|i: int|
                0 <= i < pages@.len() ==> before.frames.is_free(#[trigger] frame_of(pages@, i)),
            forall|f: int|
                #[trigger] mem.frames.is_free(f) == (before.frames.is_free(f) && !among(
                    pages@.subrange(k as int, n as int),
                    f,
                )),
            forall|f: int|
                #[trigger] mem.refs.count(f) == before.refs.count(f) + if among(
                    pages@.subrange(k as int, n as int),
                    f,
                ) {
                    1int
                } else {
                    0int
                },
        decreases n - k,
    {
        let ghost rest = pages@.subrange(k as int, n as int);
        let ghost next = pages@.subrange(k as int + 1, n as int);
        let ghost mid = *mem;
        let addr = pages[k];
        let frame = addr.0 / PAGE_SIZE;
        proof {
            assert(frame_of(rest, 0) == frame);
            assert(among(rest, frame as int));
            assert(before.frames.is_free(frame_of(pages@, k as int)));
            before.frames.lemma_free_is_managed(frame as int);
            assert(mem.frames.manages(frame as int));
            assert forall|f: int| among(rest, f) == (among(next, f) || f == frame) by {
                if among(rest, f) {
                    let i = choose|i: int| 0 <= i < rest.len() && #[trigger] frame_of(rest, i) == f;
                    if i > 0 {
                        assert(frame_of(next, i - 1) == f);
                    }
                }
                if among(next, f) {
                    let i = choose|i: int| 0 <= i < next.len() && #[trigger] frame_of(next, i) == f;
                    assert(frame_of(rest, i + 1) == f);
                }
            }
            assert(!among(next, frame as int)) by {
                if among(next, frame as int) {
                    let i = choose|i: int|
                        0 <= i < next.len() && #[trigger] frame_of(next, i) == frame as int;
                    assert(frame_of(pages@, k as int) != frame_of(pages@, k + 1 + i));
                }
            }
        }
        mem.refs.decr(frame);
        mem.frames.free_frame(addr);
        k = k + 1;
        proof {
            assert(pages@.subrange(k as int, n as int) == next);
            assert forall|f: int|
                #[trigger] mem.frames.is_free(f) == (before.frames.is_free(f) && !among(next, f)) by {
                assert(mid.frames.is_free(f) == (before.frames.is_free(f) && !among(rest, f)));
            }
            assert forall|f: int|
                #[trigger] mem.refs.count(f) == before.refs.count(f) + if among(next, f) {
                    1int
                } else {
                    0int
                } by {
                assert(mid.refs.count(f) == before.refs.count(f) + if among(rest, f) {
                    1int
                } else {
                    0int
                });
            }
        }
    }
    proof {
        assert forall|f: int| !among(pages@.subrange(n as int, n as int), f) by {}
    }
}

/// Loads the image `image` of the vDSO, whose entry stands at offset
/// `entry_off`, in memory: each page of the image gets the lowest free frame
/// of the kernel, which then has one reference, for it never to be given
/// back.
///
/// The function fails with `ENOMEM` iff the kernel has fewer free frames than
/// the image has pages. No frame is in use then that was not, and none has a
/// reference more.
///
/// The frames that were in use hold what they held.
pub fn load_image(mem: &mut PhysMemory, image: &Vec<u8>, entry_off: usize) -> (r: EResult<Vdso>)
    requires
        old(mem).wf(),
        old(mem).refs.has_room(),
    ensures
        final(mem).wf(),
        old(mem).sound() ==> final(mem).sound(),
        final(mem).frames.same_layout(&old(mem).frames),
        forall|f: int|
            !old(mem).frames.is_free(f) ==> #[trigger] final(mem).ram.content(f) == old(mem).ram.content(f),
        match r {
            Ok(vdso) => {
                &&& vdso.len == image@.len()
                &&& vdso.entry_off == entry_off
                &&& vdso.pages@.len() == (image@.len() + PAGE_SIZE - 1) / (PAGE_SIZE as int)
                &&& vdso.pages@.len() <= free_kernel_frames(&old(mem).frames).len()
                &&& forall|i: int|
                    0 <= i < vdso.pages@.len() ==> #[trigger] loaded(final(mem), vdso.pages@, image@, i)
                &&& forall|i: int|
                    0 <= i < vdso.pages@.len() ==> old(mem).frames.is_free_in(
                        Zone::Kernel,
                        #[trigger] frame_of(vdso.pages@, i),
                    )
                &&& forall|i: int, j: int|
                    0 <= i < j < vdso.pages@.len() ==> frame_of(vdso.pages@, i) != frame_of(
                        vdso.pages@,
                        j,
                    )
                &&& forall|f: int|
                    #[trigger] final(mem).frames.is_free(f) == (old(mem).frames.is_free(f) && !among(
                        vdso.pages@,
                        f,
                    ))
                &&& forall|f: int|
                    #[trigger] final(mem).refs.count(f) == old(mem).refs.count(f) + if among(
                        vdso.pages@,
                        f,
                    ) {
                        1int
                    } else {
                        0int
                    }
            },
            Err(e) => {
                &&& e == Errno::ENOMEM
                &&& free_kernel_frames(&old(mem).frames).len() < (image@.len() + PAGE_SIZE - 1) / (
                PAGE_SIZE as int)
                &&& forall|f: int| #[trigger] final(mem).frames.is_free(f) == old(mem).frames.is_free(f)
                &&& forall|f: int| #[trigger] final(mem).refs.count(f) == old(mem).refs.count(f)
            },
        },
{
    let pages_count = pages_for(image.len());
    let mut pages: Vec<PhysAddr> = Vec::new();
    let ghost free = free_kernel_frames(&old(mem).frames);
    let ghost mut taken: Set<int> = Set::empty();
    proof {
        let lo = old(mem).frames.zone_begin(Zone::Kernel) as int;
        let hi = lo + old(mem).frames.zone_frames(Zone::Kernel);
        if lo <= hi {
            lemma_int_range(lo, hi);
            assert(free.subset_of(set_int_range(lo, hi)));
            lemma_len_subset(free, set_int_range(lo, hi));
        } else {
            assert(free =~= Set::empty());
        }
    }
    let mut i: usize = 0;
    while i < pages_count
        invariant
            i <= pages_count,
            pages_count == (image@.len() + PAGE_SIZE - 1) / (PAGE_SIZE as int),
            (pages_count - 1) * PAGE_SIZE < image@.len(),
            pages@.len() == i,
            mem.wf(),
            old(mem).wf(),
            old(mem).refs.has_room(),
            mem.frames.same_layout(&old(mem).frames),
            free == free_kernel_frames(&old(mem).frames),
            free.finite(),
            taken.finite(),
            taken.len() == i,
            taken.subset_of(free),
            forall|f: int| taken.contains(f) == among(pages@, f),
            forall|f: int|
                !old(mem).frames.is_free(f) ==> #[trigger] mem.ram.content(f) == old(mem).ram.content(f),
            forall|k: int| 0 <= k < i ==> #[trigger] loaded(mem, pages@, image@, k),
            forall|k: int|
                0 <= k < i ==> old(mem).frames.is_free_in(Zone::Kernel, #[trigger] frame_of(pages@, k)),
            forall|k: int, j: int| 0 <= k < j < i ==> frame_of(pages@, k) != frame_of(pages@, j),
            forall|f: int|
                #[trigger] mem.frames.is_free(f) == (old(mem).frames.is_free(f) && !among(pages@, f)),
            forall|f: int|
                #[trigger] mem.refs.count(f) == old(mem).refs.count(f) + if among(pages@, f) {
                    1int
                } else {
                    0int
                },
        decreases pages_count - i,
    {
        let ghost mid = *mem;
        let ghost held = pages@;
        let addr = match mem.frames.alloc_frame(Zone::Kernel) {
            Ok(addr) => addr,
            Err(_) => {
                proof {
                    assert forall|f: int| free.contains(f) implies taken.contains(f) by {
                        assert(!mid.frames.is_free_in(Zone::Kernel, f));
                        assert(mid.frames.is_free(f) == (old(mem).frames.is_free(f) && !among(held, f)));
                    }
                    assert(free =~= taken);
                    assert forall|k: int| 0 <= k < held.len() implies old(mem).frames.is_free(
                        #[trigger] frame_of(held, k),
                    ) by {
                        assert(old(mem).frames.is_free_in(Zone::Kernel, frame_of(held, k)));
                    }
                }
                release(mem, &pages, Ghost(*old(mem)));
                return Err(Errno::ENOMEM);
            },
        };
        let frame = addr.0 / PAGE_SIZE;
        proof {
            assert(mid.frames.is_free(frame as int));
            assert(!among(held, frame as int));
            assert(old(mem).frames.is_free_in(Zone::Kernel, frame as int));
            assert(i * PAGE_SIZE < image@.len()) by (nonlinear_arith)
                requires
                    i <= pages_count - 1,
                    (pages_count - 1) * PAGE_SIZE < image@.len(),
            ;
        }
        let data = chunk(image, i);
        mem.ram.write_frame(frame, &data);
        mem.refs.incr(frame);
        pages.push(addr);
        proof {
            assert(frame_of(pages@, i as int) == frame);
            assert forall|f: int| among(pages@, f) == (among(held, f) || f == frame) by {
                if among(pages@, f) {
                    let k = choose|k: int| 0 <= k < pages@.len() && #[trigger] frame_of(pages@, k) == f;
                    if k < i {
                        assert(frame_of(held, k) == f);
                    }
                }
                if among(held, f) {
                    let k = choose|k: int| 0 <= k < held.len() && #[trigger] frame_of(held, k) == f;
                    assert(frame_of(pages@, k) == f);
                }
            }
            taken = taken.insert(frame as int);
            assert forall|k: int| 0 <= k < i + 1 implies #[trigger] loaded(mem, pages@, image@, k) by {
                if k < i {
                    assert(loaded(&mid, held, image@, k));
                    assert(frame_of(pages@, k) == frame_of(held, k));
                    assert(among(held, frame_of(held, k)));
                }
            }
            assert forall|k: int| 0 <= k < i + 1 implies old(mem).frames.is_free_in(
                Zone::Kernel,
                #[trigger] frame_of(pages@, k),
            ) by {
                if k < i {
                    assert(frame_of(pages@, k) == frame_of(held, k));
                }
            }
            assert forall|k: int, j: int| 0 <= k < j < i + 1 implies frame_of(pages@, k) != frame_of(
                pages@,
                j,
            ) by {
                assert(frame_of(pages@, k) == frame_of(held, k));
                assert(among(held, frame_of(held, k)));
                if j < i {
                    assert(frame_of(pages@, j) == frame_of(held, j));
                }
            }
        }
        i = i + 1;
    }
    proof {
        lemma_len_subset(taken, free);
    }
    Ok(Vdso { pages, len: image.len(), entry_off })
}

/// Maps the vDSO `vdso` into the memory space `mem_space`, as a mapping that
/// userspace can read and that shows the frames of the image, and returns the
/// address of its beginning and that of its entry.
///
/// The mapping is made as [`MemSpace::map_lazy`] makes one that may begin
/// anywhere; the function fails as it does.
///
/// The address of the entry is that of the beginning, further by the offset
/// of the entry, counted in the size of an address.
///
/// The image must not be empty.
pub fn map(mem_space: &mut MemSpace, mem: &mut PhysMemory, cpu: &mut Cpu, vdso: &Vdso) -> (r: EResult<
    MappedVDSO,
>)
    requires
        old(mem_space).inv(),
        old(mem).wf(),
        old(cpu).wf(),
        old(mem_space).counted_by(&old(mem).refs),
        vdso.len > 0,
    ensures
        final(mem_space).inv(),
        final(mem).wf(),
        final(cpu).wf(),
        final(mem_space).counted_by(&final(mem).refs),
        final(mem_space).root() == old(mem_space).root(),
        MemSpace::map_result(
            old(mem_space),
            final(mem_space),
            old(mem),
            final(mem),
            old(cpu),
            final(cpu),
            MapConstraint::Any,
            ((vdso.len + PAGE_SIZE - 1) / (PAGE_SIZE as int)) as usize,
            MAPPING_FLAG_USER,
            (ResidenceView::Static { pages: vdso.pages@ }),
            match r {
                Ok(m) => Ok(m.ptr),
                Err(e) => Err(e),
            },
        ),
        r matches Ok(m) ==> m.entry.0 == if m.ptr.0 + vdso.entry_off <= usize::MAX {
            m.ptr.0 + vdso.entry_off
        } else {
            m.ptr.0 + vdso.entry_off - usize::MAX - 1
        },
{
    let vdso_pages = pages_for(vdso.len);
    let mut pages: Vec<PhysAddr> = Vec::new();
    let mut i: usize = 0;
    while i < vdso.pages.len()
        invariant
            i <= vdso.pages@.len(),
            pages@ == vdso.pages@.subrange(0, i as int),
        decreases vdso.pages@.len() - i,
    {
        pages.push(vdso.pages[i]);
        i = i + 1;
        assert(pages@ =~= vdso.pages@.subrange(0, i as int));
    }
    assert(pages@ =~= vdso.pages@);
    let ptr = mem_space.map_lazy(
        mem,
        cpu,
        MapConstraint::Any,
        vdso_pages,
        MAPPING_FLAG_USER,
        MapResidence::Static { pages },
    )?;
    let entry = match ptr.0.checked_add(vdso.entry_off) {
        Some(entry) => VirtAddr(entry),
        None => VirtAddr(vdso.entry_off - (usize::MAX - ptr.0) - 1),
    };
    Ok(MappedVDSO { ptr, entry })
}

} // verus!
