use maestro::errno::{alloc_errno, AllocError, Errno};
use maestro::file::buffer::pipe::{PipeBuffer, PIPE_CAPACITY};
use maestro::cpu::Cpu;
use maestro::device::storage::RamDisk;
use maestro::device::DeviceIO;
use maestro::file::fs::procfs::{Exe, KernelDir, OsRelease, OSRELEASE_INODE, VERSION};
use maestro::file::fs::NodeOps;
use maestro::memory::vmem::{init, Section};
use maestro::file::fs::{detect, register, register_defaults, FilesystemType, Filesystems};
use maestro::file::fs::{Filesystem, tmpfs::TmpFs, tmpfs::TmpFsType};
use maestro::file::perm::AccessProfile;
use maestro::file::vfs::{get_file_from_path, Vfs};
use maestro::file::{FileContent, FileType, Stat};
use maestro::limits::{pages_for, OPEN_MAX, PAGE_SIZE};
use maestro::memory::buddy::{block_frames, FrameAllocator, Zone};
use maestro::memory::ram::Ram;
use maestro::memory::{PhysAddr, VirtAddr};
use maestro::net::{SocketDomain, SocketType};
use maestro::process::mem_space::physical_ref_counter::PhysRefCounter;

#[test]
fn errno_numbers() {
    assert_eq!(Errno::EPERM.as_int(), 1);
    assert_eq!(Errno::ENOENT.as_int(), 2);
    assert_eq!(Errno::EBADF.as_int(), 9);
    assert_eq!(Errno::EAGAIN.as_int(), 11);
    assert_eq!(Errno::ENOMEM.as_int(), 12);
    assert_eq!(Errno::EACCES.as_int(), 13);
    assert_eq!(Errno::EFAULT.as_int(), 14);
    assert_eq!(Errno::EEXIST.as_int(), 17);
    assert_eq!(Errno::ENODEV.as_int(), 19);
    assert_eq!(Errno::ENOTDIR.as_int(), 20);
    assert_eq!(Errno::EINVAL.as_int(), 22);
    assert_eq!(Errno::ENFILE.as_int(), 23);
    assert_eq!(Errno::EMFILE.as_int(), 24);
    assert_eq!(Errno::ESPIPE.as_int(), 29);
    assert_eq!(Errno::EPIPE.as_int(), 32);
    assert_eq!(alloc_errno(AllocError), Errno::ENOMEM);
}

#[test]
fn page_counts() {
    assert_eq!(PAGE_SIZE, 4096);
    assert_eq!(OPEN_MAX, 1024);
    assert_eq!(pages_for(0), 0);
    assert_eq!(pages_for(1), 1);
    assert_eq!(pages_for(4096), 1);
    assert_eq!(pages_for(4097), 2);
    assert_eq!(pages_for(usize::MAX), usize::MAX / 4096 + 1);
}

#[test]
fn addresses() {
    assert_eq!(VirtAddr(0x4000_2abc).page(), 0x40002);
    assert_eq!(VirtAddr(0x4000_2abc).page_offset(), 0xabc);
    assert!(VirtAddr(0x4000_2000).is_aligned_to(0x1000));
    assert!(!VirtAddr(0x4000_2abc).is_aligned_to(0x1000));
    assert_eq!(VirtAddr(0xc010_0000).kernel_to_physical(), Some(PhysAddr(0x10_0000)));
    assert_eq!(VirtAddr(0xbfff_ffff).kernel_to_physical(), None);
    assert_eq!(PhysAddr(0x5abc).frame(), 5);
    assert!(PhysAddr(0x5000).is_aligned_to(0x1000));
}

#[test]
fn frames_come_lowest_first() {
    let mut frames = FrameAllocator::new(0x100, 4, 8);
    assert_eq!(frames.free_frames(Zone::Kernel), 4);
    assert_eq!(frames.free_frames(Zone::User), 8);
    assert_eq!(frames.alloc_frame(Zone::Kernel), Ok(PhysAddr(0x100 * PAGE_SIZE)));
    assert_eq!(frames.alloc_frame(Zone::User), Ok(PhysAddr(0x104 * PAGE_SIZE)));
    assert_eq!(frames.alloc_frame(Zone::User), Ok(PhysAddr(0x105 * PAGE_SIZE)));
    assert!(!frames.is_frame_free(PhysAddr(0x104 * PAGE_SIZE)));
    assert!(frames.is_frame_free(PhysAddr(0x106 * PAGE_SIZE)));
    frames.free_frame(PhysAddr(0x104 * PAGE_SIZE));
    assert!(frames.is_frame_free(PhysAddr(0x104 * PAGE_SIZE)));
    assert_eq!(frames.alloc_frame(Zone::User), Ok(PhysAddr(0x104 * PAGE_SIZE)));
    assert_eq!(block_frames(0), 1);
    assert_eq!(block_frames(3), 8);
    let block = frames.allocate(2, Zone::User).unwrap();
    assert_eq!(block.0 % (4 * PAGE_SIZE), 0);
    assert_eq!(frames.free_frames(Zone::User), 2);
    assert!(frames.allocate(2, Zone::User).is_err());
    frames.free(block, 2);
    assert_eq!(frames.free_frames(Zone::User), 6);
    for _ in 0..3 {
        frames.alloc_frame(Zone::Kernel).unwrap();
    }
    assert!(frames.alloc_frame(Zone::Kernel).is_err());
    assert_eq!(frames.free_frames(Zone::User), 6);
}

#[test]
fn ram_bytes() {
    let mut ram = Ram::new();
    assert_eq!(ram.read(PhysAddr(0x5123)), 0);
    ram.write(PhysAddr(0x5123), 0x7f);
    assert_eq!(ram.read(PhysAddr(0x5123)), 0x7f);
    assert_eq!(ram.read(PhysAddr(0x5124)), 0);
    ram.copy(5, 9);
    assert_eq!(ram.read(PhysAddr(0x9123)), 0x7f);
    ram.write(PhysAddr(0x9123), 1);
    assert_eq!(ram.read(PhysAddr(0x5123)), 0x7f);
    ram.zero(5);
    assert_eq!(ram.read(PhysAddr(0x5123)), 0);
    let page = ram.read_frame(9);
    assert_eq!(page.len(), PAGE_SIZE);
    assert_eq!(page[0x123], 1);
    ram.write_frame(3, &page);
    assert_eq!(ram.read(PhysAddr(0x3123)), 1);
}

#[test]
fn reference_counts() {
    let mut refs = PhysRefCounter::new();
    assert_eq!(refs.get(5), 0);
    assert!(!refs.is_shared(5));
    refs.incr(5);
    assert_eq!(refs.get(5), 1);
    assert!(!refs.is_shared(5));
    refs.incr(5);
    assert_eq!(refs.get(5), 2);
    assert!(refs.is_shared(5));
    assert!(!refs.decr(5));
    assert!(refs.decr(5));
    assert_eq!(refs.get(5), 0);
    assert!(refs.decr(5));
    assert_eq!(refs.get(5), 0);
    assert_eq!(refs.get(6), 0);
}

#[test]
fn pipe_buffer_is_a_queue() {
    let mut pipe = PipeBuffer::new();
    pipe.increment_open(true, true);
    assert_eq!(pipe.get_capacity(), PIPE_CAPACITY);
    assert_eq!(pipe.get_readers(), 1);
    assert_eq!(pipe.write(&vec![1, 2, 3, 4, 5]), Ok(5));
    assert_eq!(pipe.get_data_len(), 5);
    assert_eq!(pipe.get_available_len(), PIPE_CAPACITY - 5);
    assert_eq!(pipe.read(2), vec![1, 2]);
    assert_eq!(pipe.write(&vec![6]), Ok(1));
    assert_eq!(pipe.read(10), vec![3, 4, 5, 6]);
    assert_eq!(pipe.read(10), Vec::<u8>::new());
    assert_eq!(pipe.write(&vec![0; PIPE_CAPACITY + 10]), Ok(PIPE_CAPACITY));
    assert_eq!(pipe.write(&vec![1]), Ok(0));
    pipe.decrement_open(true, false);
    assert_eq!(pipe.write(&vec![1]), Err(Errno::EPIPE));
}

#[test]
fn files_by_path() {
    let mut vfs = Vfs::new();
    let stat = Stat { mode: 0o640, uid: 3, gid: 4, ..Stat::default() };
    let a = vfs
        .create_file("/a".to_owned(), stat, FileContent::Regular(vec![1, 2, 3]))
        .unwrap();
    let b = vfs.create_file("/b".to_owned(), stat, FileContent::Directory).unwrap();
    assert_eq!(a.inode, 0);
    assert_eq!(b.inode, 1);
    assert_eq!(
        vfs.create_file("/a".to_owned(), stat, FileContent::Directory),
        Err(Errno::EEXIST)
    );
    let file = get_file_from_path(&vfs, "/a").unwrap();
    assert_eq!(file.get_name(), "/a");
    assert_eq!(file.get_size(), 3);
    assert_eq!(file.get_uid(), 3);
    assert_eq!(file.get_gid(), 4);
    assert_eq!(file.get_mode(), 0o640);
    assert_eq!(file.get_type(), FileType::Regular);
    assert_eq!(file.get_location(), a);
    assert_eq!(get_file_from_path(&vfs, "/b").unwrap().get_type(), FileType::Directory);
    assert!(get_file_from_path(&vfs, "/c").is_none());
    assert!(get_file_from_path(&vfs, "").is_none());
    assert_eq!(vfs.read(a, 1, 10), Ok(vec![2, 3]));
    assert_eq!(vfs.write(a, 2, &vec![7, 8]), Ok(2));
    assert_eq!(vfs.read(a, 0, 10), Ok(vec![1, 2, 7, 8]));
    assert_eq!(vfs.remove_file_from_path(&"/a".to_owned()), Ok(()));
    assert_eq!(vfs.remove_file_from_path(&"/a".to_owned()), Err(Errno::ENOENT));
    assert!(vfs.get_file_from_location(a).is_none());
    let c = vfs.create_file("/c".to_owned(), stat, FileContent::Directory).unwrap();
    assert_eq!(c.inode, 0);
}

#[test]
fn access_rights() {
    let root = AccessProfile::kernel();
    let user = AccessProfile { uid: 10, gid: 20, euid: 10, egid: 20 };
    let mine = Stat { mode: 0o600, uid: 10, gid: 99, ..Stat::default() };
    let group = Stat { mode: 0o040, uid: 11, gid: 20, ..Stat::default() };
    let other = Stat { mode: 0o004, uid: 11, gid: 21, ..Stat::default() };
    let closed = Stat { mode: 0o000, uid: 11, gid: 21, ..Stat::default() };
    assert!(root.is_privileged());
    assert!(!user.is_privileged());
    assert!(root.can_read_file(&closed) && root.can_write_file(&closed));
    assert!(user.can_read_file(&mine) && user.can_write_file(&mine));
    assert!(user.can_read_file(&group) && !user.can_write_file(&group));
    assert!(user.can_read_file(&other) && !user.can_write_file(&other));
    assert!(!user.can_read_file(&closed));
    assert!(user.can_list_directory(&mine));
    assert!(!user.can_list_directory(&closed));
    assert!(user.can_use_sock_domain(&SocketDomain::AfInet));
    assert!(!user.can_use_sock_domain(&SocketDomain::AfPacket));
    assert!(root.can_use_sock_domain(&SocketDomain::AfPacket));
    assert!(user.can_use_sock_type(&SocketType::SockStream));
    assert!(!user.can_use_sock_type(&SocketType::SockRaw));
}

#[test]
fn socket_numbers() {
    assert_eq!(SocketDomain::try_from(1), Ok(SocketDomain::AfUnix));
    assert_eq!(SocketDomain::try_from(2), Ok(SocketDomain::AfInet));
    assert_eq!(SocketDomain::try_from(10), Ok(SocketDomain::AfInet6));
    assert_eq!(SocketDomain::try_from(0), Err(Errno::EINVAL));
    assert_eq!(SocketType::try_from(1), Ok(SocketType::SockStream));
    assert_eq!(SocketType::try_from(3), Ok(SocketType::SockRaw));
    assert_eq!(SocketType::try_from(4), Err(Errno::EINVAL));
    assert!(SocketType::SockStream.is_stream());
    assert!(!SocketType::SockDgram.is_stream());
}

#[test]
fn filesystem_types_in_order() {
    let mut filesystems = Filesystems::new();
    assert_eq!(detect(&filesystems, &vec![1, 2, 3]), Err(Errno::ENODEV));
    assert_eq!(register_defaults(&mut filesystems), Ok(()));
    assert_eq!(detect(&filesystems, &vec![1, 2, 3]), Err(Errno::ENODEV));
    assert_eq!(register(&mut filesystems, Box::new(TmpFsType {})), Ok(()));
    assert_eq!(detect(&filesystems, &Vec::new()), Err(Errno::ENODEV));
    assert_eq!(TmpFsType {}.get_name(), "tmpfs");
    let fs = TmpFs::new(true);
    assert!(fs.is_readonly());
    assert_eq!(fs.get_name(), "tmpfs");
}

#[test]
fn proc_exe_node() {
    let exe = Exe { pid: 3 };
    assert_eq!(exe.get_mode(), 0o777);
    assert_eq!(exe.get_uid(None), 0);
    assert_eq!(exe.get_gid(None), 0);
    assert_eq!(exe.get_size(), 0);
    assert_eq!(&VERSION, b"0.1.0");
}

#[test]
fn kernel_directory_entries() {
    let mut dir = KernelDir;
    let (entry, off) = dir.entry_by_name("osrelease").unwrap().unwrap();
    assert_eq!((entry.inode, entry.entry_type, entry.name.as_str(), off), (OSRELEASE_INODE, FileType::Regular, "osrelease", 0));
    assert!(dir.entry_by_name("version").unwrap().is_none());
    assert!(dir.entry_by_name("").unwrap().is_none());
    let (entry, next) = dir.next_entry(0).unwrap().unwrap();
    assert_eq!((entry.inode, entry.name.as_str(), next), (OSRELEASE_INODE, "osrelease", 1));
    assert!(dir.next_entry(1).unwrap().is_none());
    assert!(dir.next_entry(u64::MAX).unwrap().is_none());
    assert_eq!(dir.read_content(0, 4), Err(Errno::EINVAL));
    assert_eq!(dir.write_content(0, &vec![1]), Err(Errno::EINVAL));
    assert_eq!(dir.get_file_type(), FileType::Directory);
}

#[test]
fn osrelease_file() {
    let mut file = OsRelease;
    assert_eq!(file.read_content(0, 100), Ok(b"0.1.0\n".to_vec()));
    assert_eq!(file.read_content(2, 2), Ok(b"1.".to_vec()));
    assert_eq!(file.read_content(6, 2), Ok(Vec::new()));
    assert_eq!(file.write_content(0, &vec![1]), Err(Errno::EACCES));
    assert_eq!(file.entry_by_name("osrelease").err(), Some(Errno::ENOTDIR));
    assert_eq!(file.next_entry(0).err(), Some(Errno::ENOTDIR));
}

#[test]
fn filesystems_in_memory_begin_empty() {
    let mut io: Box<dyn DeviceIO> = Box::new(RamDisk::new(512, 2).unwrap());
    for mut fs in [
        TmpFsType {}.create_filesystem(&mut io).unwrap(),
        TmpFsType {}.load_filesystem(&mut io).unwrap(),
    ] {
        assert!(!fs.is_readonly());
        assert_eq!(fs.load_file(&mut io, &"/a".to_owned()).err(), Some(Errno::ENOENT));
        assert_eq!(fs.add_file(&mut io, "/a".to_owned(), vec![1, 2]), Ok(()));
        assert_eq!(fs.load_file(&mut io, &"/a".to_owned()).map(|f| f.get_size()), Ok(2));
    }
}

#[test]
fn ram_disk_transfers() {
    let mut disk = RamDisk::new(2, 3).unwrap();
    assert_eq!(disk.write(0, &vec![1, 2, 3, 4, 5, 6, 7, 8]), Ok(6));
    assert_eq!(disk.write(3, &vec![9, 9]), Ok(0));
    assert_eq!(disk.write(4, &vec![9, 9]), Err(Errno::EINVAL));
    assert_eq!(disk.write(u64::MAX, &vec![9, 9]), Err(Errno::EINVAL));
    let mut buf = vec![0xaa; 4];
    assert_eq!(disk.read(2, &mut buf), Ok(2));
    assert_eq!(buf, vec![5, 6, 0xaa, 0xaa]);
    assert_eq!(disk.read(3, &mut buf), Ok(0));
    assert_eq!(buf, vec![5, 6, 0xaa, 0xaa]);
    assert_eq!(disk.read(4, &mut buf), Err(Errno::EINVAL));
    assert_eq!(buf, vec![5, 6, 0xaa, 0xaa]);
    assert_eq!(disk.write(1, &vec![7, 7]), Ok(2));
    let mut all = vec![0; 6];
    assert_eq!(disk.read(0, &mut all), Ok(6));
    assert_eq!(all, vec![1, 2, 7, 7, 5, 6]);
    assert_eq!(disk.ioctl(0x1234, 0), Err(Errno::EINVAL));
}

#[test]
fn kernel_context_success() {
    let mut cpu = Cpu::new();
    let mut frames = FrameAllocator::new(16, 1, 4);
    let sections = vec![Section { addr: 0xc010_0000, size: 0x1000, align: 0x1000, write: false, user: false }];
    assert!(init(&mut frames, &mut cpu, &sections, 255).is_err());
    assert_eq!(frames.free_frames(Zone::Kernel), 1);
    assert_eq!(cpu.get_page_dir(), None);
    assert!(init(&mut frames, &mut cpu, &sections, 256).is_ok());
    assert_eq!(frames.free_frames(Zone::Kernel), 0);
    let mut other = Cpu::new();
    assert!(init(&mut frames, &mut other, &sections, 256).is_err());
    assert_eq!(other.get_page_dir(), None);
}
