use maestro::cpu::Cpu;
use maestro::limits::PAGE_SIZE;
use maestro::memory::buddy::{FrameAllocator, Zone};
use maestro::memory::vmem::x86::{Entry, FLAG_GLOBAL, FLAG_USER, FLAG_WRITE};
use maestro::memory::vmem::{
    flush_current, init, invalidate_page_current, is_kernelspace, smap_disable, switch, write_ro,
    Section, VMem, VGA_BUFFER_PHYS, VGA_BUFFER_VIRT,
};
use maestro::memory::{PhysAddr, VirtAddr, KERNEL_BEGIN, PROCESS_END};

fn frames() -> FrameAllocator {
    FrameAllocator::new(16, 16, 16)
}

#[test]
fn vmem_basic0() {
    let mut frames = frames();
    let vmem = VMem::new(&mut frames, 4).unwrap();
    for i in (0usize..0xc0000000).step_by(PAGE_SIZE) {
        assert_eq!(vmem.translate(VirtAddr(i)), None);
    }
}

#[test]
fn vmem_basic1() {
    let mut frames = frames();
    let vmem = VMem::new(&mut frames, 4).unwrap();
    for i in (0..0x40000000).step_by(PAGE_SIZE) {
        assert_eq!(vmem.translate(VirtAddr(PROCESS_END + i)), Some(PhysAddr(i)));
    }
}

#[test]
fn kernel_context_shows_the_kernel_range() {
    let mut frames = frames();
    let mut cpu = Cpu::new();
    let vmem = init(&mut frames, &mut cpu, &Vec::new(), 256).unwrap();
    for i in (0..0x40000000).step_by(PAGE_SIZE) {
        assert_eq!(vmem.translate(VirtAddr(PROCESS_END + i)), Some(PhysAddr(i)));
    }
    assert!(vmem.is_bound(&cpu));
}

#[test]
fn kernel_range_of_a_user_context() {
    let mut frames = frames();
    let mut cpu = Cpu::new();
    let mut vmem = VMem::new(&mut frames, 4).unwrap();
    let mut transaction = vmem.transaction();
    assert!(transaction.map(&mut cpu, PhysAddr(0x100000), VirtAddr(0xc0000000), 0).is_err());
    assert!(transaction.unmap(&mut cpu, VirtAddr(0xc0000000)).is_err());
    assert!(transaction.map(&mut cpu, PhysAddr(0x100000), VirtAddr(0xbffff000), 0).is_ok());
    transaction.commit();
    assert_eq!(vmem.translate(VirtAddr(0xc0000000)), Some(PhysAddr(0)));
    assert_eq!(vmem.translate(VirtAddr(0xc0001234)), Some(PhysAddr(0x1234)));
    assert_eq!(vmem.translate(VirtAddr(0xffff_ffff)), Some(PhysAddr(0x3fff_ffff)));
    assert_eq!(vmem.translate(VirtAddr(0xbffff000)), Some(PhysAddr(0x100000)));
    let entry = vmem.get_entry(0xc0000).unwrap();
    assert_eq!((entry.frame, entry.flags & (FLAG_WRITE | FLAG_USER | FLAG_GLOBAL)), (0, FLAG_WRITE | FLAG_GLOBAL));
    assert_eq!(vmem.get_entry(0xbfffe), None);
}

#[test]
fn vmem_map0() {
    let mut frames = frames();
    let mut cpu = Cpu::new();
    let mut vmem = VMem::new(&mut frames, 4).unwrap();
    let mut transaction = vmem.transaction();
    transaction
        .map(&mut cpu, PhysAddr(0x100000), VirtAddr(0x100000), 0)
        .unwrap();
    transaction.commit();
    for i in (0usize..0xc0000000).step_by(PAGE_SIZE) {
        let res = vmem.translate(VirtAddr(i));
        if (0x100000..0x101000).contains(&i) {
            assert_eq!(res, Some(PhysAddr(i)));
        } else {
            assert_eq!(res, None);
        }
    }
}

#[test]
fn vmem_map1() {
    let mut frames = frames();
    let mut cpu = Cpu::new();
    let mut vmem = VMem::new(&mut frames, 4).unwrap();
    let mut transaction = vmem.transaction();
    transaction
        .map(&mut cpu, PhysAddr(0x100000), VirtAddr(0x100000), 0)
        .unwrap();
    transaction
        .map(&mut cpu, PhysAddr(0x200000), VirtAddr(0x100000), 0)
        .unwrap();
    transaction.commit();
    for i in (0usize..0xc0000000).step_by(PAGE_SIZE) {
        let res = vmem.translate(VirtAddr(i));
        if (0x100000..0x101000).contains(&i) {
            assert_eq!(res, Some(PhysAddr(0x100000 + i)));
        } else {
            assert_eq!(res, None);
        }
    }
}

#[test]
fn vmem_unmap0() {
    let mut frames = frames();
    let mut cpu = Cpu::new();
    let mut vmem = VMem::new(&mut frames, 4).unwrap();
    let mut transaction = vmem.transaction();
    transaction
        .map(&mut cpu, PhysAddr(0x100000), VirtAddr(0x100000), 0)
        .unwrap();
    transaction.unmap(&mut cpu, VirtAddr(0x100000)).unwrap();
    transaction.commit();
    for i in (0usize..0xc0000000).step_by(PAGE_SIZE) {
        assert_eq!(vmem.translate(VirtAddr(i)), None);
    }
}

#[test]
fn translate_keeps_the_offset_in_the_page() {
    let mut frames = frames();
    let mut cpu = Cpu::new();
    let mut vmem = VMem::new(&mut frames, 4).unwrap();
    let mut transaction = vmem.transaction();
    transaction
        .map(&mut cpu, PhysAddr(0x5000), VirtAddr(0x4000_2000), FLAG_WRITE | FLAG_USER)
        .unwrap();
    transaction.commit();
    assert_eq!(vmem.translate(VirtAddr(0x4000_2000)), Some(PhysAddr(0x5000)));
    assert_eq!(vmem.translate(VirtAddr(0x4000_2abc)), Some(PhysAddr(0x5abc)));
    assert_eq!(vmem.translate(VirtAddr(0x4000_2fff)), Some(PhysAddr(0x5fff)));
    assert_eq!(vmem.translate(VirtAddr(0x4000_3000)), None);
    assert_eq!(vmem.translate(VirtAddr(0x4000_1fff)), None);
    let entry = vmem.get_entry(0x4000_2000 / PAGE_SIZE).unwrap();
    assert_eq!(entry.frame, 5);
    assert_ne!(entry.flags & FLAG_WRITE, 0);
    assert_ne!(entry.flags & FLAG_USER, 0);
    assert_eq!(vmem.get_entry(0x4000_3000 / PAGE_SIZE), None);
}

#[test]
fn committed_edits_apply_in_order() {
    let mut frames = frames();
    let mut cpu = Cpu::new();
    let mut vmem = VMem::new(&mut frames, 4).unwrap();
    let a = VirtAddr(0x4000_0000);
    let b = VirtAddr(0x4000_1000);
    let c = VirtAddr(0x4000_2000);
    let mut transaction = vmem.transaction();
    transaction.map(&mut cpu, PhysAddr(0x1000), a, 0).unwrap();
    transaction.map(&mut cpu, PhysAddr(0x2000), b, 0).unwrap();
    transaction.unmap(&mut cpu, a).unwrap();
    transaction.map(&mut cpu, PhysAddr(0x3000), c, 0).unwrap();
    transaction.unmap(&mut cpu, c).unwrap();
    transaction.map(&mut cpu, PhysAddr(0x4000), c, 0).unwrap();
    transaction.commit();
    assert_eq!(vmem.translate(a), None);
    assert_eq!(vmem.translate(b), Some(PhysAddr(0x2000)));
    assert_eq!(vmem.translate(c), Some(PhysAddr(0x4000)));
}

#[test]
fn transaction_rollback() {
    let mut frames = frames();
    let mut cpu = Cpu::new();
    let mut vmem = VMem::new(&mut frames, 1).unwrap();
    let free_kernel = frames.free_frames(Zone::Kernel);
    let free_user = frames.free_frames(Zone::User);
    let v1 = VirtAddr(0x4000_0000);
    let v2 = VirtAddr(0x403f_e000);
    let mut transaction = vmem.transaction();
    transaction.map(&mut cpu, PhysAddr(0x7000), v1, FLAG_WRITE).unwrap();
    let r = transaction.map_range(&mut cpu, PhysAddr(0x8000), v2, 3, FLAG_WRITE);
    assert!(r.is_err());
    transaction.rollback();
    assert_eq!(vmem.translate(v1), None);
    assert_eq!(vmem.translate(v2), None);
    assert_eq!(vmem.translate(VirtAddr(v2.0 + PAGE_SIZE)), None);
    assert_eq!(vmem.translate(VirtAddr(v2.0 + 2 * PAGE_SIZE)), None);
    assert_eq!(frames.free_frames(Zone::Kernel), free_kernel);
    assert_eq!(frames.free_frames(Zone::User), free_user);
    let mut transaction = vmem.transaction();
    let r = transaction.map_range(&mut cpu, PhysAddr(0x8000), VirtAddr(0x8000_0000), 2, 0);
    assert!(r.is_ok());
    transaction.commit();
    assert_eq!(vmem.translate(VirtAddr(0x8000_1004)), Some(PhysAddr(0x9004)));
}

#[test]
fn rollback_restores_what_was_committed_before() {
    let mut frames = frames();
    let mut cpu = Cpu::new();
    let mut vmem = VMem::new(&mut frames, 4).unwrap();
    let a = VirtAddr(0x4000_0000);
    let b = VirtAddr(0x5000_0000);
    let mut transaction = vmem.transaction();
    transaction.map(&mut cpu, PhysAddr(0x1000), a, FLAG_USER).unwrap();
    transaction.commit();
    let mut transaction = vmem.transaction();
    transaction.map(&mut cpu, PhysAddr(0x2000), a, FLAG_WRITE).unwrap();
    transaction.map(&mut cpu, PhysAddr(0x3000), b, 0).unwrap();
    transaction.unmap(&mut cpu, a).unwrap();
    transaction.rollback();
    assert_eq!(vmem.translate(a), Some(PhysAddr(0x1000)));
    assert_eq!(vmem.translate(b), None);
    assert_eq!(
        vmem.get_entry(a.0 / PAGE_SIZE).map(|e: Entry| e.flags & (FLAG_USER | FLAG_WRITE)),
        Some(FLAG_USER)
    );
}

#[test]
fn map_then_unmap_leaves_no_translation() {
    let mut frames = frames();
    let mut cpu = Cpu::new();
    let mut vmem = VMem::new(&mut frames, 4).unwrap();
    let v = VirtAddr(0xbfff_f000);
    let mut transaction = vmem.transaction();
    transaction.map(&mut cpu, PhysAddr(0xa000), v, 0).unwrap();
    transaction.commit();
    assert_eq!(vmem.translate(v), Some(PhysAddr(0xa000)));
    let mut transaction = vmem.transaction();
    transaction.unmap(&mut cpu, v).unwrap();
    transaction.unmap(&mut cpu, v).unwrap();
    transaction.commit();
    assert_eq!(vmem.translate(v), None);
}

#[test]
fn user_context_refuses_the_kernel_half() {
    let mut frames = frames();
    let mut cpu = Cpu::new();
    let mut vmem = VMem::new(&mut frames, 4).unwrap();
    let mut transaction = vmem.transaction();
    assert!(transaction
        .map(&mut cpu, PhysAddr(0x1000), VirtAddr(KERNEL_BEGIN), 0)
        .is_err());
    assert!(transaction
        .map_range(&mut cpu, PhysAddr(0x1000), VirtAddr(KERNEL_BEGIN - PAGE_SIZE), 2, 0)
        .is_err());
    assert!(transaction
        .map_range(&mut cpu, PhysAddr(0x1000), VirtAddr(KERNEL_BEGIN - PAGE_SIZE), 1, 0)
        .is_ok());
    transaction.commit();
    assert_eq!(vmem.translate(VirtAddr(KERNEL_BEGIN - PAGE_SIZE)), Some(PhysAddr(0x1000)));
    assert_eq!(vmem.translate(VirtAddr(KERNEL_BEGIN)), Some(PhysAddr(0)));
}

#[test]
fn kernelspace_ranges() {
    assert!(!is_kernelspace(VirtAddr(0), 1));
    assert!(!is_kernelspace(VirtAddr(KERNEL_BEGIN - PAGE_SIZE), 1));
    assert!(is_kernelspace(VirtAddr(KERNEL_BEGIN - PAGE_SIZE), 2));
    assert!(is_kernelspace(VirtAddr(KERNEL_BEGIN), 1));
    assert!(!is_kernelspace(VirtAddr(KERNEL_BEGIN - PAGE_SIZE), 0));
}

#[test]
fn kernel_context_maps_sections_and_screen() {
    let mut frames = frames();
    let mut cpu = Cpu::new();
    let free = frames.free_frames(Zone::Kernel);
    let sections = vec![
        Section { addr: 0xc010_0000, size: 0x2000, align: 0x1000, write: false, user: false },
        Section { addr: 0xc020_0000, size: 0x1001, align: 0x1000, write: true, user: true },
    ];
    let vmem = init(&mut frames, &mut cpu, &sections, 256).unwrap();
    assert_eq!(frames.free_frames(Zone::Kernel), free - 1);
    assert_eq!(cpu.get_page_dir(), Some(vmem.get_root()));
    let text = vmem.get_entry(0xc010_1000 / PAGE_SIZE).unwrap();
    assert_eq!(text.frame, 0x101);
    assert_eq!(text.flags & (FLAG_WRITE | FLAG_USER | FLAG_GLOBAL), FLAG_GLOBAL);
    let user = vmem.get_entry(0xc020_1000 / PAGE_SIZE).unwrap();
    assert_eq!(user.frame, 0x201);
    assert_eq!(
        user.flags & (FLAG_WRITE | FLAG_USER | FLAG_GLOBAL),
        FLAG_WRITE | FLAG_USER | FLAG_GLOBAL
    );
    let plain = vmem.get_entry(0xc030_0000 / PAGE_SIZE).unwrap();
    assert_eq!(plain.flags & (FLAG_WRITE | FLAG_USER | FLAG_GLOBAL), FLAG_WRITE | FLAG_GLOBAL);
    assert_eq!(vmem.translate(VirtAddr(VGA_BUFFER_VIRT)), Some(PhysAddr(VGA_BUFFER_PHYS)));
}

#[test]
fn kernel_context_needs_its_tables() {
    let mut frames = frames();
    let mut cpu = Cpu::new();
    let free = frames.free_frames(Zone::Kernel);
    assert!(init(&mut frames, &mut cpu, &Vec::new(), 255).is_err());
    assert_eq!(frames.free_frames(Zone::Kernel), free);
    assert_eq!(cpu.get_page_dir(), None);
}

#[test]
fn context_without_a_frame() {
    let mut frames = FrameAllocator::new(16, 0, 4);
    assert!(VMem::new(&mut frames, 4).is_err());
}

#[test]
fn bind_and_free() {
    let mut frames = frames();
    let mut cpu = Cpu::new();
    let free = frames.free_frames(Zone::Kernel);
    let a = VMem::new(&mut frames, 4).unwrap();
    let b = VMem::new(&mut frames, 4).unwrap();
    assert_ne!(a.get_root(), b.get_root());
    assert_eq!(frames.free_frames(Zone::Kernel), free - 2);
    a.bind(&mut cpu);
    assert!(a.is_bound(&cpu));
    assert!(!b.is_bound(&cpu));
    b.free(&mut frames, &cpu);
    assert_eq!(frames.free_frames(Zone::Kernel), free - 1);
    cpu.unbind();
    a.free(&mut frames, &cpu);
    assert_eq!(frames.free_frames(Zone::Kernel), free);
}

#[test]
fn edits_invalidate_the_bound_cache() {
    let mut frames = frames();
    let mut cpu = Cpu::new();
    let mut vmem = VMem::new(&mut frames, 4).unwrap();
    vmem.bind(&mut cpu);
    let page = 0x4000_0000 / PAGE_SIZE;
    cpu.fill(page, Entry { frame: 9, flags: 0 });
    assert!(cpu.lookup(page).is_some());
    let mut transaction = vmem.transaction();
    transaction
        .map(&mut cpu, PhysAddr(0x3000), VirtAddr(0x4000_0000), 0)
        .unwrap();
    transaction.commit();
    assert_eq!(cpu.lookup(page), None);
    cpu.fill(page, Entry { frame: 3, flags: 0 });
    invalidate_page_current(&mut cpu, VirtAddr(0x4000_0123));
    assert_eq!(cpu.lookup(page), None);
    cpu.fill(page, Entry { frame: 3, flags: 0 });
    cpu.fill(page + 1, Entry { frame: 4, flags: 0 });
    flush_current(&mut cpu);
    assert_eq!(cpu.lookup(page), None);
    assert_eq!(cpu.lookup(page + 1), None);
}

#[test]
fn scoped_switches_restore_the_processor() {
    let mut frames = frames();
    let mut cpu = Cpu::new();
    let a = VMem::new(&mut frames, 4).unwrap();
    let b = VMem::new(&mut frames, 4).unwrap();
    a.bind(&mut cpu);
    assert_eq!(switch(&mut cpu, &b, || 7), 7);
    assert!(a.is_bound(&cpu));
    assert_eq!(switch(&mut cpu, &a, || 8), 8);
    assert!(a.is_bound(&cpu));
    assert_eq!(write_ro(&mut cpu, || 1 + 1), 2);
    assert_eq!(smap_disable(&mut cpu, || 3), 3);
    assert!(a.is_bound(&cpu));
}
