use maestro::cpu::Cpu;
use maestro::errno::Errno;
use maestro::limits::PAGE_SIZE;
use maestro::memory::vmem::x86::{
    FLAG_USER, FLAG_WRITE, PAGE_FAULT_PRESENT, PAGE_FAULT_USER, PAGE_FAULT_WRITE,
};
use maestro::memory::{PhysAddr, PhysMemory, VirtAddr, ALLOC_BEGIN, KERNEL_BEGIN, PROCESS_END};
use maestro::process::mem_space::mapping::MapResidence;
use maestro::process::mem_space::{
    get_pte_flags, MapConstraint, MemSpace, Resolution, MAPPING_FLAG_EXEC, MAPPING_FLAG_NOLAZY,
    MAPPING_FLAG_USER, MAPPING_FLAG_WRITE,
};

const RW: u8 = MAPPING_FLAG_WRITE | MAPPING_FLAG_USER;
const WRITE_FAULT: u32 = PAGE_FAULT_WRITE | PAGE_FAULT_USER;
const COW_FAULT: u32 = PAGE_FAULT_PRESENT | PAGE_FAULT_WRITE | PAGE_FAULT_USER;

fn machine() -> (PhysMemory, Cpu) {
    (PhysMemory::new(0x100, 64, 256), Cpu::new())
}

fn at(base: VirtAddr, page: usize) -> VirtAddr {
    VirtAddr(base.0 + page * PAGE_SIZE)
}

fn frame_of(space: &MemSpace, addr: VirtAddr) -> usize {
    space.translate(addr).unwrap().0 / PAGE_SIZE
}

#[test]
fn lazy_anonymous_map() {
    let (mut mem, mut cpu) = machine();
    let mut space = MemSpace::new(&mut mem, 8).unwrap();
    let v = space
        .map_lazy(&mut mem, &mut cpu, MapConstraint::Any, 4, RW, MapResidence::Normal)
        .unwrap();
    assert_eq!(v.0 % PAGE_SIZE, 0);
    assert!(v.0 >= ALLOC_BEGIN && v.0 + 4 * PAGE_SIZE <= PROCESS_END);
    for page in 0..4 {
        assert_eq!(space.translate(at(v, page)), None);
    }
    assert_eq!(
        space.handle_page_fault(&mut mem, &mut cpu, at(v, 0), WRITE_FAULT),
        Ok(Resolution::Resolved)
    );
    assert_eq!(
        space.handle_page_fault(&mut mem, &mut cpu, at(v, 3), WRITE_FAULT),
        Ok(Resolution::Resolved)
    );
    let first = space.translate(at(v, 0)).unwrap();
    let last = space.translate(at(v, 3)).unwrap();
    assert_ne!(first, last);
    assert_eq!(space.translate(at(v, 1)), None);
    assert_eq!(space.translate(at(v, 2)), None);
    assert_eq!(mem.refs.get(first.0 / PAGE_SIZE), 1);
    assert_eq!(mem.refs.get(last.0 / PAGE_SIZE), 1);
}

#[test]
fn lazy_map_keeps_offset_in_page() {
    let (mut mem, mut cpu) = machine();
    let mut space = MemSpace::new(&mut mem, 8).unwrap();
    let v = space
        .map_lazy(&mut mem, &mut cpu, MapConstraint::Any, 1, RW, MapResidence::Normal)
        .unwrap();
    space
        .handle_page_fault(&mut mem, &mut cpu, VirtAddr(v.0 + 0x123), WRITE_FAULT)
        .unwrap();
    let base = space.translate(v).unwrap();
    assert_eq!(base.0 % PAGE_SIZE, 0);
    assert_eq!(space.translate(VirtAddr(v.0 + 0x123)), Some(PhysAddr(base.0 + 0x123)));
}

#[test]
fn copy_on_write_fork() {
    let (mut mem, mut cpu) = machine();
    let mut parent = MemSpace::new(&mut mem, 8).unwrap();
    let v = parent
        .map_lazy(&mut mem, &mut cpu, MapConstraint::Any, 1, RW, MapResidence::Normal)
        .unwrap();
    parent.write_user(&mut mem, &mut cpu, v, &vec![0xAB]).unwrap();
    let old = frame_of(&parent, v);
    assert_eq!(mem.refs.get(old), 1);
    assert_ne!(parent.get_vmem().get_entry(v.0 / PAGE_SIZE).unwrap().flags & FLAG_WRITE, 0);

    let mut child = parent.fork(&mut mem, &mut cpu).unwrap();
    assert_eq!(child.translate(v), parent.translate(v));
    let parent_entry = parent.get_vmem().get_entry(v.0 / PAGE_SIZE).unwrap();
    let child_entry = child.get_vmem().get_entry(v.0 / PAGE_SIZE).unwrap();
    assert_eq!(parent_entry.flags & FLAG_WRITE, 0);
    assert_eq!(child_entry.flags & FLAG_WRITE, 0);
    assert_ne!(child_entry.flags & FLAG_USER, 0);
    assert_eq!(mem.refs.get(old), 2);
    assert_eq!(child.read_byte(&mem.ram, v), 0xAB);

    assert_eq!(
        child.handle_page_fault(&mut mem, &mut cpu, v, COW_FAULT),
        Ok(Resolution::Resolved)
    );
    let new = frame_of(&child, v);
    assert_ne!(new, old);
    child.write_user(&mut mem, &mut cpu, v, &vec![0xCD]).unwrap();
    assert_eq!(frame_of(&child, v), new);
    assert_eq!(frame_of(&parent, v), old);
    assert_eq!(mem.refs.get(old), 1);
    assert_eq!(mem.refs.get(new), 1);
    assert_eq!(parent.read_byte(&mem.ram, v), 0xAB);
    assert_eq!(child.read_byte(&mem.ram, v), 0xCD);
}

#[test]
fn copy_on_write_by_write_alone() {
    let (mut mem, mut cpu) = machine();
    let mut parent = MemSpace::new(&mut mem, 8).unwrap();
    let v = parent
        .map_lazy(&mut mem, &mut cpu, MapConstraint::Any, 1, RW, MapResidence::Normal)
        .unwrap();
    parent.write_user(&mut mem, &mut cpu, v, &vec![1, 2, 3]).unwrap();
    let mut child = parent.fork(&mut mem, &mut cpu).unwrap();
    child.write_user(&mut mem, &mut cpu, VirtAddr(v.0 + 1), &vec![9]).unwrap();
    assert_eq!(parent.read_user(&mem.ram, v, 3), Ok(vec![1, 2, 3]));
    assert_eq!(child.read_user(&mem.ram, v, 3), Ok(vec![1, 9, 3]));
    assert_ne!(parent.translate(v), child.translate(v));
}

#[test]
fn last_holder_writes_in_place() {
    let (mut mem, mut cpu) = machine();
    let mut parent = MemSpace::new(&mut mem, 8).unwrap();
    let v = parent
        .map_lazy(&mut mem, &mut cpu, MapConstraint::Any, 1, RW, MapResidence::Normal)
        .unwrap();
    parent.write_user(&mut mem, &mut cpu, v, &vec![7]).unwrap();
    let frame = frame_of(&parent, v);
    let child = parent.fork(&mut mem, &mut cpu).unwrap();
    assert_eq!(mem.refs.get(frame), 2);
    child.destroy(&mut mem, &mut cpu);
    assert_eq!(mem.refs.get(frame), 1);
    assert_eq!(
        parent.handle_page_fault(&mut mem, &mut cpu, v, COW_FAULT),
        Ok(Resolution::Resolved)
    );
    assert_eq!(frame_of(&parent, v), frame);
    assert_ne!(parent.get_vmem().get_entry(v.0 / PAGE_SIZE).unwrap().flags & FLAG_WRITE, 0);
    assert_eq!(parent.read_byte(&mem.ram, v), 7);
}

#[test]
fn fault_outside_of_mappings_is_unresolved() {
    let (mut mem, mut cpu) = machine();
    let mut space = MemSpace::new(&mut mem, 8).unwrap();
    assert_eq!(
        space.handle_page_fault(&mut mem, &mut cpu, VirtAddr(ALLOC_BEGIN), WRITE_FAULT),
        Ok(Resolution::Unresolved)
    );
    assert_eq!(
        space.handle_page_fault(&mut mem, &mut cpu, VirtAddr(0x1000), WRITE_FAULT),
        Ok(Resolution::Unresolved)
    );
    assert_eq!(
        space.handle_page_fault(&mut mem, &mut cpu, VirtAddr(KERNEL_BEGIN), WRITE_FAULT),
        Ok(Resolution::Unresolved)
    );
}

#[test]
fn write_fault_on_read_only_mapping_is_unresolved() {
    let (mut mem, mut cpu) = machine();
    let mut space = MemSpace::new(&mut mem, 8).unwrap();
    let v = space
        .map_lazy(
            &mut mem,
            &mut cpu,
            MapConstraint::Any,
            1,
            MAPPING_FLAG_USER,
            MapResidence::Normal,
        )
        .unwrap();
    assert_eq!(
        space.handle_page_fault(&mut mem, &mut cpu, v, WRITE_FAULT),
        Ok(Resolution::Unresolved)
    );
    assert_eq!(space.translate(v), None);
    assert_eq!(
        space.handle_page_fault(&mut mem, &mut cpu, v, PAGE_FAULT_USER),
        Ok(Resolution::Resolved)
    );
    let entry = space.get_vmem().get_entry(v.0 / PAGE_SIZE).unwrap();
    assert_eq!(entry.flags & FLAG_WRITE, 0);
    assert_ne!(entry.flags & FLAG_USER, 0);
    assert_eq!(space.write_user(&mut mem, &mut cpu, v, &vec![1]), Err(Errno::EFAULT));
}

#[test]
fn mapping_zero_pages_changes_nothing() {
    let (mut mem, mut cpu) = machine();
    let mut space = MemSpace::new(&mut mem, 8).unwrap();
    let free = mem.frames.free_frames(maestro::memory::buddy::Zone::User);
    let r = space.map(&mut mem, &mut cpu, MapConstraint::Any, 0, RW, MapResidence::Normal);
    assert!(r.is_ok());
    let r = space.map(
        &mut mem,
        &mut cpu,
        MapConstraint::Fixed(VirtAddr(ALLOC_BEGIN)),
        0,
        RW | MAPPING_FLAG_NOLAZY,
        MapResidence::Normal,
    );
    assert!(r.is_ok());
    assert_eq!(mem.frames.free_frames(maestro::memory::buddy::Zone::User), free);
    assert!(!space.can_access(VirtAddr(ALLOC_BEGIN), 1, true, false));
    let v = space
        .map_lazy(&mut mem, &mut cpu, MapConstraint::Any, 1, RW, MapResidence::Normal)
        .unwrap();
    assert_eq!(v, VirtAddr(ALLOC_BEGIN));
}

#[test]
fn mapping_into_the_kernel_half_fails() {
    let (mut mem, mut cpu) = machine();
    let mut space = MemSpace::new(&mut mem, 8).unwrap();
    let r = space.map(
        &mut mem,
        &mut cpu,
        MapConstraint::Fixed(VirtAddr(KERNEL_BEGIN - PAGE_SIZE)),
        2,
        RW,
        MapResidence::Normal,
    );
    assert_eq!(r, Err(Errno::ENOMEM));
    let r = space.map(
        &mut mem,
        &mut cpu,
        MapConstraint::Fixed(VirtAddr(KERNEL_BEGIN)),
        1,
        RW,
        MapResidence::Normal,
    );
    assert_eq!(r, Err(Errno::ENOMEM));
    let r = space.map(
        &mut mem,
        &mut cpu,
        MapConstraint::Fixed(VirtAddr(KERNEL_BEGIN - PAGE_SIZE)),
        1,
        RW,
        MapResidence::Normal,
    );
    assert_eq!(r, Ok(VirtAddr(KERNEL_BEGIN - PAGE_SIZE)));
}

#[test]
fn unmap_twice_is_a_no_op() {
    let (mut mem, mut cpu) = machine();
    let mut space = MemSpace::new(&mut mem, 8).unwrap();
    let v = space
        .map(
            &mut mem,
            &mut cpu,
            MapConstraint::Any,
            3,
            RW | MAPPING_FLAG_NOLAZY,
            MapResidence::Normal,
        )
        .unwrap();
    let frame = frame_of(&space, at(v, 1));
    assert_eq!(mem.refs.get(frame), 1);
    assert!(!mem.frames.is_frame_free(PhysAddr(frame * PAGE_SIZE)));
    assert_eq!(space.unmap(&mut mem, &mut cpu, v, 3), Ok(()));
    for page in 0..3 {
        assert_eq!(space.translate(at(v, page)), None);
    }
    assert_eq!(mem.refs.get(frame), 0);
    assert!(mem.frames.is_frame_free(PhysAddr(frame * PAGE_SIZE)));
    let free = mem.frames.free_frames(maestro::memory::buddy::Zone::User);
    assert_eq!(space.unmap(&mut mem, &mut cpu, v, 3), Ok(()));
    assert_eq!(mem.frames.free_frames(maestro::memory::buddy::Zone::User), free);
    let again = space
        .map_lazy(&mut mem, &mut cpu, MapConstraint::Any, 3, RW, MapResidence::Normal)
        .unwrap();
    assert_eq!(again, v);
}

#[test]
fn mappings_do_not_overlap() {
    let (mut mem, mut cpu) = machine();
    let mut space = MemSpace::new(&mut mem, 8).unwrap();
    let a = space
        .map_lazy(&mut mem, &mut cpu, MapConstraint::Any, 2, RW, MapResidence::Normal)
        .unwrap();
    let b = space
        .map_lazy(&mut mem, &mut cpu, MapConstraint::Any, 5, MAPPING_FLAG_USER, MapResidence::Normal)
        .unwrap();
    let none = space.map_lazy(
        &mut mem,
        &mut cpu,
        MapConstraint::Min(VirtAddr(0x8000_0000)),
        1,
        RW,
        MapResidence::Normal,
    );
    assert_eq!(none, Err(Errno::ENOMEM));
    let wall = space
        .map_lazy(
            &mut mem,
            &mut cpu,
            MapConstraint::Fixed(VirtAddr(0x8000_0000 - PAGE_SIZE)),
            1,
            MAPPING_FLAG_USER,
            MapResidence::Normal,
        )
        .unwrap();
    assert_eq!(wall, VirtAddr(0x8000_0000 - PAGE_SIZE));
    let c = space
        .map_lazy(
            &mut mem,
            &mut cpu,
            MapConstraint::Min(VirtAddr(0x7000_0000)),
            1,
            RW,
            MapResidence::Normal,
        )
        .unwrap();
    assert!(a.0 + 2 * PAGE_SIZE <= b.0 || b.0 + 5 * PAGE_SIZE <= a.0);
    assert_eq!(c, VirtAddr(0x8000_0000));
    assert!(space.can_access(a, 2 * PAGE_SIZE, true, true));
    assert!(space.can_access(b, 5 * PAGE_SIZE, true, false));
    assert!(!space.can_access(b, 5 * PAGE_SIZE, true, true));
    assert!(space.can_access(c, PAGE_SIZE, true, true));
    assert!(!space.can_access(VirtAddr(c.0 + PAGE_SIZE), 1, true, false));
    assert!(!space.can_access(VirtAddr(PROCESS_END - 1), 2, true, false));
}

#[test]
fn fixed_mapping_replaces_what_was_there() {
    let (mut mem, mut cpu) = machine();
    let mut space = MemSpace::new(&mut mem, 8).unwrap();
    let v = space
        .map(
            &mut mem,
            &mut cpu,
            MapConstraint::Any,
            4,
            RW | MAPPING_FLAG_NOLAZY,
            MapResidence::Normal,
        )
        .unwrap();
    let frame = frame_of(&space, at(v, 1));
    let r = space.map_lazy(
        &mut mem,
        &mut cpu,
        MapConstraint::Fixed(at(v, 1)),
        2,
        MAPPING_FLAG_USER,
        MapResidence::Normal,
    );
    assert_eq!(r, Ok(at(v, 1)));
    assert!(space.translate(v).is_some());
    assert_eq!(space.translate(at(v, 1)), None);
    assert_eq!(space.translate(at(v, 2)), None);
    assert!(space.translate(at(v, 3)).is_some());
    assert_eq!(mem.refs.get(frame), 0);
    assert!(space.can_access(v, PAGE_SIZE, true, true));
    assert!(!space.can_access(at(v, 1), PAGE_SIZE, true, true));
    assert!(space.can_access(v, 4 * PAGE_SIZE, true, false));
}

#[test]
fn unaligned_fixed_address_is_refused() {
    let (mut mem, mut cpu) = machine();
    let mut space = MemSpace::new(&mut mem, 8).unwrap();
    let r = space.map_lazy(
        &mut mem,
        &mut cpu,
        MapConstraint::Fixed(VirtAddr(ALLOC_BEGIN + 1)),
        1,
        RW,
        MapResidence::Normal,
    );
    assert_eq!(r, Err(Errno::EINVAL));
}

#[test]
fn page_entries_stay_within_mapping_flags() {
    let (mut mem, mut cpu) = machine();
    let mut space = MemSpace::new(&mut mem, 8).unwrap();
    let v = space
        .map(
            &mut mem,
            &mut cpu,
            MapConstraint::Any,
            2,
            MAPPING_FLAG_USER | MAPPING_FLAG_EXEC | MAPPING_FLAG_NOLAZY,
            MapResidence::Normal,
        )
        .unwrap();
    for page in 0..2 {
        let entry = space.get_vmem().get_entry(v.0 / PAGE_SIZE + page).unwrap();
        assert_eq!(entry.flags & FLAG_WRITE, 0);
        assert_ne!(entry.flags & FLAG_USER, 0);
    }
    assert_eq!(get_pte_flags(RW, true), FLAG_WRITE | FLAG_USER);
    assert_eq!(get_pte_flags(RW, false), FLAG_USER);
    assert_eq!(get_pte_flags(MAPPING_FLAG_WRITE, true), FLAG_WRITE);
    assert_eq!(get_pte_flags(0, true), 0);
}

#[test]
fn static_mapping_shows_the_given_frames() {
    let (mut mem, mut cpu) = machine();
    let mut space = MemSpace::new(&mut mem, 8).unwrap();
    let frame = mem.frames.alloc_frame(maestro::memory::buddy::Zone::User).unwrap();
    mem.refs.incr(frame.0 / PAGE_SIZE);
    mem.ram.write(PhysAddr(frame.0 + 5), 0x42);
    let v = space
        .map_lazy(
            &mut mem,
            &mut cpu,
            MapConstraint::Any,
            1,
            MAPPING_FLAG_USER,
            MapResidence::Static { pages: vec![frame] },
        )
        .unwrap();
    assert_eq!(
        space.handle_page_fault(&mut mem, &mut cpu, v, PAGE_FAULT_USER),
        Ok(Resolution::Resolved)
    );
    assert_eq!(space.translate(v), Some(frame));
    assert_eq!(space.read_byte(&mem.ram, VirtAddr(v.0 + 5)), 0x42);
    assert_eq!(mem.refs.get(frame.0 / PAGE_SIZE), 2);
    space.unmap(&mut mem, &mut cpu, v, 1).unwrap();
    assert_eq!(mem.refs.get(frame.0 / PAGE_SIZE), 1);
    assert!(!mem.frames.is_frame_free(frame));
}

#[test]
fn file_mapping_begins_as_the_file() {
    let (mut mem, mut cpu) = machine();
    let mut space = MemSpace::new(&mut mem, 8).unwrap();
    let location = maestro::file::FileLocation { mountpoint_id: 0, inode: 3 };
    let v = space
        .map_lazy(
            &mut mem,
            &mut cpu,
            MapConstraint::Any,
            1,
            RW,
            MapResidence::File { location, off: 2, content: vec![10, 11, 12] },
        )
        .unwrap();
    assert_eq!(
        space.handle_page_fault(&mut mem, &mut cpu, v, PAGE_FAULT_USER),
        Ok(Resolution::Resolved)
    );
    assert_eq!(space.read_user(&mem.ram, v, 4), Ok(vec![10, 11, 12, 0]));
}

#[test]
fn out_of_frames_fails_the_fault() {
    let mut mem = PhysMemory::new(0x100, 4, 1);
    let mut cpu = Cpu::new();
    let mut space = MemSpace::new(&mut mem, 8).unwrap();
    let v = space
        .map_lazy(&mut mem, &mut cpu, MapConstraint::Any, 2, RW, MapResidence::Normal)
        .unwrap();
    assert_eq!(
        space.handle_page_fault(&mut mem, &mut cpu, v, WRITE_FAULT),
        Ok(Resolution::Resolved)
    );
    assert!(space.handle_page_fault(&mut mem, &mut cpu, at(v, 1), WRITE_FAULT).is_err());
    assert_eq!(space.translate(at(v, 1)), None);
    assert!(space.translate(v).is_some());
}

#[test]
fn bind_makes_the_space_current() {
    let (mut mem, mut cpu) = machine();
    let space = MemSpace::new(&mut mem, 8).unwrap();
    let other = MemSpace::new(&mut mem, 8).unwrap();
    assert!(!space.is_bound(&cpu));
    space.bind(&mut cpu);
    assert!(space.is_bound(&cpu));
    assert!(!other.is_bound(&cpu));
    assert_eq!(cpu.get_page_dir(), Some(space.get_vmem().get_root()));
    other.bind(&mut cpu);
    assert!(!space.is_bound(&cpu));
}

#[test]
fn strings_end_at_their_zero() {
    let (mut mem, mut cpu) = machine();
    let mut space = MemSpace::new(&mut mem, 8).unwrap();
    let v = space
        .map_lazy(&mut mem, &mut cpu, MapConstraint::Any, 1, RW, MapResidence::Normal)
        .unwrap();
    space.write_user(&mut mem, &mut cpu, v, &b"hello\0world".to_vec()).unwrap();
    assert_eq!(space.can_access_string(&mem.ram, v, true, false), Some(5));
    assert_eq!(space.can_access_string(&mem.ram, VirtAddr(v.0 + 5), true, true), Some(0));
    assert_eq!(space.can_access_string(&mem.ram, VirtAddr(v.0 + 6), true, false), Some(5));
    assert_eq!(space.can_access_string(&mem.ram, VirtAddr(v.0 + PAGE_SIZE), true, false), None);
    assert_eq!(space.can_access_string(&mem.ram, VirtAddr(0x1000), false, false), None);
    let full = vec![b'x'; PAGE_SIZE];
    space.write_user(&mut mem, &mut cpu, v, &full).unwrap();
    assert_eq!(space.can_access_string(&mem.ram, v, true, false), None);
    let ro = space
        .map_lazy(&mut mem, &mut cpu, MapConstraint::Any, 1, MAPPING_FLAG_USER, MapResidence::Normal)
        .unwrap();
    assert_eq!(space.can_access_string(&mem.ram, ro, true, false), Some(0));
    assert_eq!(space.can_access_string(&mem.ram, ro, true, true), None);
}

#[test]
fn eager_stack_is_in_place() {
    let (mut mem, mut cpu) = machine();
    let mut space = MemSpace::new(&mut mem, 8).unwrap();
    let top = space
        .map_stack(&mut mem, &mut cpu, MapConstraint::Any, 3, MAPPING_FLAG_WRITE | MAPPING_FLAG_NOLAZY)
        .unwrap();
    assert_eq!(top, VirtAddr(ALLOC_BEGIN + 3 * PAGE_SIZE));
    for page in 0..3 {
        assert!(space.translate(VirtAddr(ALLOC_BEGIN + page * PAGE_SIZE)).is_some());
    }
    assert_eq!(space.translate(top), None);
}

#[test]
fn eager_mapping_that_starves_is_undone() {
    let mut mem = PhysMemory::new(0x100, 4, 2);
    let mut cpu = Cpu::new();
    let mut space = MemSpace::new(&mut mem, 8).unwrap();
    let free = mem.frames.free_frames(maestro::memory::buddy::Zone::User);
    let r = space.map(
        &mut mem,
        &mut cpu,
        MapConstraint::Any,
        3,
        RW | MAPPING_FLAG_NOLAZY,
        MapResidence::Normal,
    );
    assert_eq!(r, Err(Errno::ENOMEM));
    assert_eq!(mem.frames.free_frames(maestro::memory::buddy::Zone::User), free);
    for page in 0..3 {
        assert_eq!(space.translate(VirtAddr(ALLOC_BEGIN + page * PAGE_SIZE)), None);
        assert!(!space.can_access(VirtAddr(ALLOC_BEGIN + page * PAGE_SIZE), 1, true, false));
    }
    for frame in 0x100..0x106 {
        assert_eq!(mem.refs.get(frame), 0);
    }
    let again = space
        .map(&mut mem, &mut cpu, MapConstraint::Any, 2, RW | MAPPING_FLAG_NOLAZY, MapResidence::Normal)
        .unwrap();
    assert_eq!(again, VirtAddr(ALLOC_BEGIN));
}

#[test]
fn the_kernel_range_is_seen_through_a_memory_space() {
    let (mut mem, _) = machine();
    let space = MemSpace::new(&mut mem, 8).unwrap();
    assert_eq!(space.translate(VirtAddr(KERNEL_BEGIN)), Some(PhysAddr(0)));
    assert_eq!(space.translate(VirtAddr(KERNEL_BEGIN + 0x5432)), Some(PhysAddr(0x5432)));
    assert_eq!(space.translate(VirtAddr(KERNEL_BEGIN - 1)), None);
    assert!(!space.can_access(VirtAddr(KERNEL_BEGIN), 1, false, false));
}

#[test]
fn pages_of_a_space_are_counted() {
    let (mut mem, mut cpu) = machine();
    assert!(mem.refs.can_count_more());
    let mut space = MemSpace::new(&mut mem, 8).unwrap();
    let v = space
        .map_lazy(&mut mem, &mut cpu, MapConstraint::Any, 3, RW, MapResidence::Normal)
        .unwrap();
    assert_eq!(
        space.handle_page_fault(&mut mem, &mut cpu, at(v, 1), WRITE_FAULT),
        Ok(Resolution::Resolved)
    );
    let frame = frame_of(&space, at(v, 1));
    assert_eq!(space.count_pages(frame), 1);
    assert_eq!(space.count_pages(frame + 1), 0);
    assert!(space.is_counted_by(&mem.refs));
    assert!(mem.refs.can_count_more());
    let child = space.fork(&mut mem, &mut cpu).unwrap();
    assert_eq!(child.count_pages(frame), 1);
    assert_eq!(mem.refs.get(frame), 2);
    assert!(child.is_counted_by(&mem.refs));
    mem.refs.decr(frame);
    mem.refs.decr(frame);
    assert!(!space.is_counted_by(&mem.refs));
    assert!(!child.is_counted_by(&mem.refs));
}

#[test]
fn writes_across_pages_are_read_back() {
    let (mut mem, mut cpu) = machine();
    let mut space = MemSpace::new(&mut mem, 8).unwrap();
    let v = space
        .map_lazy(&mut mem, &mut cpu, MapConstraint::Any, 3, RW, MapResidence::Normal)
        .unwrap();
    let data: Vec<u8> = (0..PAGE_SIZE + 10).map(|i| (i % 251) as u8).collect();
    let start = VirtAddr(v.0 + PAGE_SIZE - 5);
    assert_eq!(space.write_user(&mut mem, &mut cpu, start, &data), Ok(()));
    assert_eq!(space.read_user(&mem.ram, start, data.len()), Ok(data.clone()));
    let frames: Vec<usize> = (0..3).map(|page| frame_of(&space, at(v, page))).collect();
    assert_ne!(frames[0], frames[1]);
    assert_ne!(frames[1], frames[2]);
    assert_ne!(frames[0], frames[2]);
    assert_eq!(space.read_byte(&mem.ram, VirtAddr(start.0 - 1)), 0);
    assert_eq!(space.read_byte(&mem.ram, VirtAddr(start.0 + data.len())), 0);
}

#[test]
fn later_page_on_the_same_frame_overwrites() {
    let (mut mem, mut cpu) = machine();
    let mut space = MemSpace::new(&mut mem, 8).unwrap();
    let shown = MapResidence::Static { pages: vec![PhysAddr(0x150 * PAGE_SIZE), PhysAddr(0x150 * PAGE_SIZE)] };
    let v = space.map_lazy(&mut mem, &mut cpu, MapConstraint::Any, 2, RW, shown).unwrap();
    let data: Vec<u8> = (0..PAGE_SIZE + 1).map(|i| (1 + i % 200) as u8).collect();
    assert_eq!(space.write_user(&mut mem, &mut cpu, v, &data), Ok(()));
    assert_eq!(frame_of(&space, v), frame_of(&space, at(v, 1)));
    assert_eq!(space.read_byte(&mem.ram, at(v, 1)), data[PAGE_SIZE]);
    assert_eq!(space.read_byte(&mem.ram, v), data[PAGE_SIZE]);
    assert_eq!(space.read_byte(&mem.ram, VirtAddr(v.0 + 1)), data[1]);
}

#[test]
fn write_that_starves_on_a_later_page() {
    let mut mem = PhysMemory::new(0x100, 4, 1);
    let mut cpu = Cpu::new();
    let mut space = MemSpace::new(&mut mem, 8).unwrap();
    let v = space
        .map_lazy(&mut mem, &mut cpu, MapConstraint::Any, 2, RW, MapResidence::Normal)
        .unwrap();
    let start = VirtAddr(v.0 + PAGE_SIZE - 1);
    assert_eq!(space.write_user(&mut mem, &mut cpu, start, &vec![5, 6]), Err(Errno::ENOMEM));
    assert_eq!(space.read_byte(&mem.ram, start), 5);
    assert_eq!(space.translate(at(v, 1)), None);
    assert_eq!(space.write_user(&mut mem, &mut cpu, at(v, 1), &vec![7]), Err(Errno::ENOMEM));
    assert_eq!(space.write_user(&mut mem, &mut cpu, start, &vec![8]), Ok(()));
    assert_eq!(space.read_byte(&mem.ram, start), 8);
}

#[test]
fn counter_keeps_its_peak() {
    let (mut mem, _) = machine();
    assert_eq!(mem.refs.room(), usize::MAX);
    mem.refs.incr(0x150);
    mem.refs.incr(0x150);
    mem.refs.incr(0x151);
    assert_eq!(mem.refs.get(0x150), 2);
    assert_eq!(mem.refs.room(), usize::MAX - 2);
    assert!(!mem.refs.decr(0x150));
    assert!(mem.refs.decr(0x150));
    assert!(mem.refs.decr(0x150));
    assert_eq!(mem.refs.get(0x150), 0);
    assert_eq!(mem.refs.room(), usize::MAX - 2);
    assert!(mem.refs.can_count_more());
    assert!(mem.refs.is_shared(0x151) == false);
}
