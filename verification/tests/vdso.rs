use maestro::cpu::Cpu;
use maestro::errno::Errno;
use maestro::limits::PAGE_SIZE;
use maestro::memory::buddy::Zone;
use maestro::memory::{PhysAddr, PhysMemory};
use maestro::memory::vmem::x86::{FLAG_USER, FLAG_WRITE, PAGE_FAULT_USER};
use maestro::process::exec::vdso::{self, load_image, MappedVDSO};
use maestro::process::mem_space::{MemSpace, Resolution};
use maestro::memory::VirtAddr;

fn image(len: usize) -> Vec<u8> {
    (0..len).map(|i| (i % 251) as u8 + 1).collect()
}

#[test]
fn image_is_loaded_page_by_page() {
    let mut mem = PhysMemory::new(0x100, 8, 8);
    let image = image(PAGE_SIZE + 904);
    let vdso = load_image(&mut mem, &image, 0x40).unwrap();
    assert_eq!(vdso.len, PAGE_SIZE + 904);
    assert_eq!(vdso.entry_off, 0x40);
    assert_eq!(vdso.pages, vec![PhysAddr(0x100 * PAGE_SIZE), PhysAddr(0x101 * PAGE_SIZE)]);
    assert_eq!(mem.frames.free_frames(Zone::Kernel), 6);
    assert_eq!(mem.refs.get(0x100), 1);
    assert_eq!(mem.refs.get(0x101), 1);
    assert_eq!(mem.refs.get(0x102), 0);
    assert_eq!(mem.ram.read_frame(0x100), image[..PAGE_SIZE].to_vec());
    let second = mem.ram.read_frame(0x101);
    assert_eq!(&second[..904], &image[PAGE_SIZE..]);
    assert!(second[904..].iter().all(|b| *b == 0));
}

#[test]
fn image_needs_its_frames() {
    let mut mem = PhysMemory::new(0x100, 2, 8);
    let image = image(2 * PAGE_SIZE + 1);
    assert_eq!(load_image(&mut mem, &image, 0).err(), Some(Errno::ENOMEM));
    assert_eq!(mem.frames.free_frames(Zone::Kernel), 2);
    assert_eq!(mem.frames.free_frames(Zone::User), 8);
    assert_eq!(mem.refs.get(0x100), 0);
    assert_eq!(mem.refs.get(0x101), 0);
    let vdso = load_image(&mut mem, &image[..2 * PAGE_SIZE].to_vec(), 0).unwrap();
    assert_eq!(vdso.pages.len(), 2);
    assert_eq!(mem.frames.free_frames(Zone::Kernel), 0);
    let empty = load_image(&mut mem, &Vec::new(), 0).unwrap();
    assert!(empty.pages.is_empty());
}

#[test]
fn every_space_shows_the_same_frames() {
    let mut mem = PhysMemory::new(0x100, 16, 16);
    let mut cpu = Cpu::new();
    let image = image(PAGE_SIZE + 1);
    let vdso = load_image(&mut mem, &image, 0x123).unwrap();
    let mut first = MemSpace::new(&mut mem, 8).unwrap();
    let mut second = MemSpace::new(&mut mem, 8).unwrap();
    let a = vdso::map(&mut first, &mut mem, &mut cpu, &vdso).unwrap();
    let b = vdso::map(&mut second, &mut mem, &mut cpu, &vdso).unwrap();
    assert_eq!(a, MappedVDSO { ptr: a.ptr, entry: VirtAddr(a.ptr.0 + 0x123) });
    assert_eq!(a, b);
    assert!(first.can_access(a.ptr, 2 * PAGE_SIZE, true, false));
    assert!(!first.can_access(a.ptr, 1, true, true));
    assert_eq!(first.translate(a.ptr), None);
    for space in [&mut first, &mut second] {
        for page in 0..2 {
            let addr = VirtAddr(a.ptr.0 + page * PAGE_SIZE);
            assert_eq!(
                space.handle_page_fault(&mut mem, &mut cpu, addr, PAGE_FAULT_USER),
                Ok(Resolution::Resolved)
            );
            assert_eq!(space.translate(addr), Some(vdso.pages[page]));
        }
        let entry = space.get_vmem().get_entry(a.ptr.0 / PAGE_SIZE).unwrap();
        assert_eq!(entry.flags & (FLAG_USER | FLAG_WRITE), FLAG_USER);
        assert_eq!(space.read_user(&mem.ram, a.ptr, 4), Ok(image[..4].to_vec()));
        assert_eq!(space.read_byte(&mem.ram, VirtAddr(a.ptr.0 + PAGE_SIZE)), image[PAGE_SIZE]);
    }
    let frame = vdso.pages[0].0 / PAGE_SIZE;
    assert_eq!(mem.refs.get(frame), 3);
    first.destroy(&mut mem, &mut cpu);
    second.destroy(&mut mem, &mut cpu);
    assert_eq!(mem.refs.get(frame), 1);
    assert!(!mem.frames.is_frame_free(vdso.pages[0]));
    assert_eq!(mem.ram.read(vdso.pages[0]), image[0]);
}

#[test]
fn entry_may_lie_beyond_the_image() {
    let mut mem = PhysMemory::new(0x100, 16, 16);
    let mut cpu = Cpu::new();
    let image = image(16);
    let vdso = load_image(&mut mem, &image, 0x2000).unwrap();
    let mut space = MemSpace::new(&mut mem, 8).unwrap();
    let m = vdso::map(&mut space, &mut mem, &mut cpu, &vdso).unwrap();
    assert_eq!(m.entry, VirtAddr(m.ptr.0 + 0x2000));
    let far = load_image(&mut mem, &image, usize::MAX).unwrap();
    let n = vdso::map(&mut space, &mut mem, &mut cpu, &far).unwrap();
    assert_eq!(n.entry, VirtAddr(n.ptr.0 - 1));
}
