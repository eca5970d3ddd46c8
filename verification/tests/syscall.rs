use maestro::cpu::Cpu;
use maestro::errno::Errno;
use maestro::file::open_file::{
    OpenFiles, O_APPEND, O_CLOEXEC, O_CREAT, O_DIRECTORY, O_NONBLOCK, O_RDONLY, O_RDWR, O_WRONLY,
};
use maestro::file::vfs::{get_file_from_path, Vfs};
use maestro::file::{FileContent, FileType, Stat};
use maestro::file::fd::FD_CLOEXEC;
use maestro::limits::PAGE_SIZE;
use maestro::memory::{PhysMemory, VirtAddr};
use maestro::process::mem_space::mapping::MapResidence;
use maestro::process::mem_space::{MapConstraint, MemSpace, MAPPING_FLAG_USER, MAPPING_FLAG_WRITE};
use maestro::process::{Process, Regs};
use maestro::syscall::close::close;
use maestro::syscall::fchdir::fchdir;
use maestro::syscall::getgid32::getgid32;
use maestro::syscall::openat::openat;
use maestro::syscall::pipe2::pipe2;
use maestro::syscall::socket::socket;
use maestro::syscall::splice::splice;
use maestro::syscall::writev::writev;
use maestro::syscall::{Progress, AT_FDCWD};

struct Machine {
    mem: PhysMemory,
    cpu: Cpu,
    files: OpenFiles,
    vfs: Vfs,
    proc: Process,
    user: VirtAddr,
}

fn machine() -> Machine {
    let mut mem = PhysMemory::new(0x100, 64, 256);
    let mut cpu = Cpu::new();
    let mut space = MemSpace::new(&mut mem, 8).unwrap();
    let user = space
        .map_lazy(
            &mut mem,
            &mut cpu,
            MapConstraint::Any,
            4,
            MAPPING_FLAG_WRITE | MAPPING_FLAG_USER,
            MapResidence::Normal,
        )
        .unwrap();
    let mut proc = Process::new(1);
    proc.set_mem_space(Some(space));
    Machine { mem, cpu, files: OpenFiles::new(4096), vfs: Vfs::new(), proc, user }
}

impl Machine {
    fn poke(&mut self, addr: VirtAddr, data: &[u8]) {
        let space = self.proc.mem_space.as_mut().unwrap();
        space
            .write_user(&mut self.mem, &mut self.cpu, addr, &data.to_vec())
            .unwrap();
    }

    fn peek(&self, addr: VirtAddr, len: usize) -> Vec<u8> {
        let space = self.proc.mem_space.as_ref().unwrap();
        space.read_user(&self.mem.ram, addr, len).unwrap()
    }

    fn pipe(&mut self, flags: i32) -> (i32, i32) {
        let at = self.user;
        let r = pipe2(
            &mut self.proc,
            &mut self.files,
            &mut self.vfs,
            &mut self.mem,
            &mut self.cpu,
            at,
            flags,
        );
        assert_eq!(r, Ok(0));
        let bytes = self.peek(at, 8);
        let read_end = u32::from_le_bytes([bytes[0], bytes[1], bytes[2], bytes[3]]);
        let write_end = u32::from_le_bytes([bytes[4], bytes[5], bytes[6], bytes[7]]);
        (read_end as i32, write_end as i32)
    }

    fn write(&mut self, fd: i32, data: &[u8]) -> Result<Progress, Errno> {
        let buf = VirtAddr(self.user.0 + PAGE_SIZE);
        if !data.is_empty() {
            self.poke(buf, data);
        }
        let regs = Regs {
            eax: 4,
            ebx: fd as u32,
            ecx: buf.0 as u32,
            edx: data.len() as u32,
            esp: 0,
            eip: 0,
        };
        maestro::syscall::write::write(&mut self.proc, &mut self.files, &mut self.vfs, &self.mem.ram, &regs)
    }

    fn pipe_len(&self, fd: i32) -> Option<usize> {
        let handle = self.proc.file_descriptors.get_fd(fd).unwrap().get_open_file();
        let location = self.files.get(handle).unwrap().get_location();
        self.vfs.get_file_from_location(location).unwrap().get_pipe_len()
    }
}

#[test]
fn pipe_splice() {
    let mut m = machine();
    let (read_end, write_end) = m.pipe(0);
    let (other_read_end, other_write_end) = m.pipe(0);
    assert_eq!((read_end, write_end), (0, 1));
    assert_eq!((other_read_end, other_write_end), (2, 3));
    let data: Vec<u8> = (1..=17).collect();
    assert_eq!(m.write(write_end, &data), Ok(Progress::Done(17)));
    assert_eq!(m.pipe_len(read_end), Some(17));
    let r = splice(
        &m.proc,
        &mut m.files,
        &mut m.vfs,
        read_end,
        None,
        other_write_end,
        None,
        100,
    );
    assert_eq!(r, Ok(17));
    assert_eq!(m.pipe_len(read_end), Some(0));
    assert_eq!(m.pipe_len(other_read_end), Some(17));
    let handle = m.proc.file_descriptors.get_fd(other_read_end).unwrap().get_open_file();
    let location = m.files.get(handle).unwrap().get_location();
    assert_eq!(m.vfs.read(location, 0, 100), Ok(data));
    assert_eq!(m.pipe_len(other_read_end), Some(0));
}

#[test]
fn splice_needs_a_pipe_and_both_descriptors() {
    let mut m = machine();
    let (read_end, write_end) = m.pipe(0);
    let r = splice(&m.proc, &mut m.files, &mut m.vfs, read_end, None, 9, None, 10);
    assert_eq!(r, Err(Errno::EBADF));
    let r = splice(&m.proc, &mut m.files, &mut m.vfs, -1, None, write_end, None, 10);
    assert_eq!(r, Err(Errno::EBADF));
    let r = splice(&m.proc, &mut m.files, &mut m.vfs, read_end, None, write_end, None, 10);
    assert_eq!(r, Err(Errno::EINVAL));
    let (_, other_write_end) = m.pipe(0);
    let r = splice(&m.proc, &mut m.files, &mut m.vfs, read_end, Some(3), other_write_end, None, 10);
    assert_eq!(r, Err(Errno::ESPIPE));
    let r = splice(&m.proc, &mut m.files, &mut m.vfs, write_end, None, other_write_end, None, 10);
    assert_eq!(r, Err(Errno::EBADF));
    let a = openat(&mut m.proc, &mut m.files, &mut m.vfs, AT_FDCWD, "/a", O_CREAT | O_RDWR, 0o644, 1)
        .unwrap() as i32;
    let b = openat(&mut m.proc, &mut m.files, &mut m.vfs, AT_FDCWD, "/b", O_CREAT | O_RDWR, 0o644, 1)
        .unwrap() as i32;
    let r = splice(&m.proc, &mut m.files, &mut m.vfs, a, None, b, None, 10);
    assert_eq!(r, Err(Errno::EINVAL));
}

#[test]
fn splice_from_a_file_into_a_pipe() {
    let mut m = machine();
    let (read_end, write_end) = m.pipe(0);
    let fd = openat(&mut m.proc, &mut m.files, &mut m.vfs, AT_FDCWD, "/f", O_CREAT | O_RDWR, 0o644, 1)
        .unwrap() as i32;
    assert_eq!(m.write(fd, b"hello world"), Ok(Progress::Done(11)));
    let r = splice(&m.proc, &mut m.files, &mut m.vfs, fd, Some(6), write_end, None, 100);
    assert_eq!(r, Ok(5));
    assert_eq!(m.pipe_len(read_end), Some(5));
    let handle = m.proc.file_descriptors.get_fd(read_end).unwrap().get_open_file();
    let location = m.files.get(handle).unwrap().get_location();
    assert_eq!(m.vfs.read(location, 0, 100), Ok(b"world".to_vec()));
}

#[test]
fn pipe2_flags_and_failures() {
    let mut m = machine();
    let (read_end, write_end) = m.pipe(O_CLOEXEC | O_NONBLOCK);
    assert_ne!(m.proc.file_descriptors.get_fd(read_end).unwrap().flags & FD_CLOEXEC, 0);
    assert_ne!(m.proc.file_descriptors.get_fd(write_end).unwrap().flags & FD_CLOEXEC, 0);
    let at = m.user;
    let r = pipe2(&mut m.proc, &mut m.files, &mut m.vfs, &mut m.mem, &mut m.cpu, at, O_APPEND);
    assert_eq!(r, Err(Errno::EINVAL));
    let r = pipe2(
        &mut m.proc,
        &mut m.files,
        &mut m.vfs,
        &mut m.mem,
        &mut m.cpu,
        VirtAddr(0x1000),
        0,
    );
    assert_eq!(r, Err(Errno::EFAULT));
    assert_eq!(m.files.get_total(), 2);
}

#[test]
fn pipe_without_readers_breaks() {
    let mut m = machine();
    let (read_end, write_end) = m.pipe(0);
    assert_eq!(close(&mut m.proc, &mut m.files, &mut m.vfs, read_end), Ok(0));
    assert_eq!(m.write(write_end, b"x"), Err(Errno::EPIPE));
    assert_eq!(close(&mut m.proc, &mut m.files, &mut m.vfs, read_end), Err(Errno::EBADF));
}

#[test]
fn write_moves_the_cursor() {
    let mut m = machine();
    let fd = openat(&mut m.proc, &mut m.files, &mut m.vfs, AT_FDCWD, "/log", O_CREAT | O_WRONLY, 0o600, 7)
        .unwrap() as i32;
    assert_eq!(fd, 0);
    assert_eq!(m.write(fd, b"abc"), Ok(Progress::Done(3)));
    assert_eq!(m.write(fd, b"de"), Ok(Progress::Done(2)));
    assert_eq!(m.write(fd, b""), Ok(Progress::Done(0)));
    let file = get_file_from_path(&m.vfs, "/log").unwrap();
    assert_eq!(file.get_size(), 5);
    assert_eq!(file.get_mode(), 0o600);
    assert_eq!(file.get_type(), FileType::Regular);
    let location = file.get_location();
    assert_eq!(m.vfs.read(location, 0, 10), Ok(b"abcde".to_vec()));
    let handle = m.proc.file_descriptors.get_fd(fd).unwrap().get_open_file();
    assert_eq!(m.files.get(handle).unwrap().get_offset(), 5);
}

#[test]
fn write_failures() {
    let mut m = machine();
    assert_eq!(m.write(5, b"abc"), Err(Errno::EBADF));
    let fd = openat(&mut m.proc, &mut m.files, &mut m.vfs, AT_FDCWD, "/r", O_CREAT | O_RDONLY, 0o600, 7)
        .unwrap() as i32;
    assert_eq!(m.write(fd, b"abc"), Err(Errno::EBADF));
    let regs = Regs { eax: 4, ebx: fd as u32, ecx: 0x2000, edx: 4, esp: 0, eip: 0 };
    assert_eq!(
        maestro::syscall::write::write(&mut m.proc, &mut m.files, &mut m.vfs, &m.mem.ram, &regs),
        Err(Errno::EFAULT)
    );
}

#[test]
fn writev_gathers_the_buffers() {
    let mut m = machine();
    let fd = openat(&mut m.proc, &mut m.files, &mut m.vfs, AT_FDCWD, "/v", O_CREAT | O_RDWR, 0o600, 7)
        .unwrap() as i32;
    let first = VirtAddr(m.user.0 + 2 * PAGE_SIZE);
    let second = VirtAddr(m.user.0 + 2 * PAGE_SIZE + 0x100);
    let iov = VirtAddr(m.user.0 + 3 * PAGE_SIZE);
    m.poke(first, b"hello ");
    m.poke(second, b"world");
    let mut table = Vec::new();
    table.extend_from_slice(&(first.0 as u32).to_le_bytes());
    table.extend_from_slice(&6u32.to_le_bytes());
    table.extend_from_slice(&(second.0 as u32).to_le_bytes());
    table.extend_from_slice(&5u32.to_le_bytes());
    m.poke(iov, &table[..8]);
    m.poke(VirtAddr(iov.0 + 8), &table[8..]);
    let r = writev(&mut m.proc, &mut m.files, &mut m.vfs, &m.mem.ram, fd, iov, 2);
    assert_eq!(r, Ok(Progress::Done(11)));
    let location = get_file_from_path(&m.vfs, "/v").unwrap().get_location();
    assert_eq!(m.vfs.read(location, 0, 100), Ok(b"hello world".to_vec()));
    let r = writev(&mut m.proc, &mut m.files, &mut m.vfs, &m.mem.ram, fd, iov, -1);
    assert_eq!(r, Err(Errno::EINVAL));
    let r = writev(&mut m.proc, &mut m.files, &mut m.vfs, &m.mem.ram, 9, iov, 2);
    assert_eq!(r, Err(Errno::EBADF));
}

#[test]
fn openat_failures() {
    let mut m = machine();
    let r = openat(&mut m.proc, &mut m.files, &mut m.vfs, AT_FDCWD, "/none", O_RDONLY, 0, 0);
    assert_eq!(r, Err(Errno::ENOENT));
    let r = openat(&mut m.proc, &mut m.files, &mut m.vfs, AT_FDCWD, "", O_RDONLY, 0, 0);
    assert_eq!(r, Err(Errno::ENOENT));
    let r = openat(&mut m.proc, &mut m.files, &mut m.vfs, 12, "relative", O_RDONLY, 0, 0);
    assert_eq!(r, Err(Errno::EBADF));
    let fd = openat(&mut m.proc, &mut m.files, &mut m.vfs, AT_FDCWD, "/plain", O_CREAT | O_RDWR, 0o644, 3)
        .unwrap();
    assert_eq!(fd, 0);
    let r = openat(&mut m.proc, &mut m.files, &mut m.vfs, AT_FDCWD, "/plain", O_DIRECTORY, 0, 0);
    assert_eq!(r, Err(Errno::ENOTDIR));
    let again = openat(&mut m.proc, &mut m.files, &mut m.vfs, AT_FDCWD, "/plain", O_RDONLY | O_CLOEXEC, 0, 0)
        .unwrap();
    assert_eq!(again, 1);
    assert_ne!(m.proc.file_descriptors.get_fd(1).unwrap().flags & FD_CLOEXEC, 0);
    assert_ne!(
        m.proc.file_descriptors.get_fd(0).unwrap().get_open_file(),
        m.proc.file_descriptors.get_fd(1).unwrap().get_open_file()
    );
}

#[test]
fn fchdir_follows_a_directory() {
    let mut m = machine();
    let stat = Stat { mode: 0o755, ..Stat::default() };
    m.vfs.create_file("/home".to_owned(), stat, FileContent::Directory).unwrap();
    let dir = openat(&mut m.proc, &mut m.files, &mut m.vfs, AT_FDCWD, "/home", O_RDONLY | O_DIRECTORY, 0, 0)
        .unwrap() as i32;
    let file = openat(&mut m.proc, &mut m.files, &mut m.vfs, AT_FDCWD, "/plain", O_CREAT | O_RDWR, 0o644, 3)
        .unwrap() as i32;
    assert_eq!(fchdir(&mut m.proc, &m.files, &m.vfs, dir), Ok(0));
    assert_eq!(m.proc.get_cwd(), "/home");
    assert_eq!(fchdir(&mut m.proc, &m.files, &m.vfs, file), Err(Errno::ENOTDIR));
    assert_eq!(fchdir(&mut m.proc, &m.files, &m.vfs, 40), Err(Errno::EBADF));
    assert_eq!(m.proc.get_cwd(), "/home");
}

#[test]
fn socket_descriptors() {
    let mut m = machine();
    let fd = socket(&mut m.proc, &mut m.files, &mut m.vfs, 1, 1, 0).unwrap();
    assert_eq!(fd, 0);
    let handle = m.proc.file_descriptors.get_fd(0).unwrap().get_open_file();
    let location = m.files.get(handle).unwrap().get_location();
    assert_eq!(
        m.vfs.get_file_from_location(location).unwrap().get_type(),
        FileType::Socket
    );
    assert_eq!(
        socket(&mut m.proc, &mut m.files, &mut m.vfs, 9999, 1, 0),
        Err(Errno::EINVAL)
    );
    assert_eq!(
        socket(&mut m.proc, &mut m.files, &mut m.vfs, 1, 9999, 0),
        Err(Errno::EINVAL)
    );
    m.proc.access_profile =
        maestro::file::perm::AccessProfile { uid: 1000, gid: 1000, euid: 1000, egid: 1000 };
    assert_eq!(
        socket(&mut m.proc, &mut m.files, &mut m.vfs, 17, 3, 0),
        Err(Errno::EACCES)
    );
}

#[test]
fn close_releases_the_descriptor() {
    let mut m = machine();
    let fd = openat(&mut m.proc, &mut m.files, &mut m.vfs, AT_FDCWD, "/c", O_CREAT | O_RDWR, 0o644, 3)
        .unwrap() as i32;
    assert_eq!(m.files.get_total(), 1);
    assert_eq!(close(&mut m.proc, &mut m.files, &mut m.vfs, fd), Ok(0));
    assert_eq!(m.files.get_total(), 0);
    assert_eq!(close(&mut m.proc, &mut m.files, &mut m.vfs, fd), Err(Errno::EBADF));
    assert_eq!(close(&mut m.proc, &mut m.files, &mut m.vfs, -1), Err(Errno::EBADF));
    assert!(get_file_from_path(&m.vfs, "/c").is_some());
}

#[test]
fn group_of_the_process() {
    let mut m = machine();
    assert_eq!(getgid32(&m.proc), Ok(0));
    m.proc.set_gid(42);
    assert_eq!(getgid32(&m.proc), Ok(42));
}

#[test]
fn pipe2_needs_two_descriptors() {
    let mut m = machine();
    for _ in 0..(maestro::limits::OPEN_MAX - 1) {
        openat(&mut m.proc, &mut m.files, &mut m.vfs, AT_FDCWD, "/x", O_CREAT | O_RDWR, 0o644, 1).unwrap();
    }
    let at = m.user;
    let total = m.files.get_total();
    let r = pipe2(&mut m.proc, &mut m.files, &mut m.vfs, &mut m.mem, &mut m.cpu, at, 0);
    assert_eq!(r, Err(Errno::EMFILE));
    assert_eq!(m.files.get_total(), total);
    assert!(m.proc.file_descriptors.get_fd(maestro::limits::OPEN_MAX as i32 - 1).is_err());
    close(&mut m.proc, &mut m.files, &mut m.vfs, 7).unwrap();
    assert_eq!(m.pipe(0), (7, maestro::limits::OPEN_MAX as i32 - 1));
    let r = pipe2(&mut m.proc, &mut m.files, &mut m.vfs, &mut m.mem, &mut m.cpu, at, 0);
    assert_eq!(r, Err(Errno::EMFILE));

    let mut small = machine();
    small.files = OpenFiles::new(1);
    let at = small.user;
    let r = pipe2(&mut small.proc, &mut small.files, &mut small.vfs, &mut small.mem, &mut small.cpu, at, 0);
    assert_eq!(r, Err(Errno::ENFILE));
    assert_eq!(small.files.get_total(), 0);
    assert!(small.proc.file_descriptors.get_fd(0).is_err());
    small.files = OpenFiles::new(0);
    let r = pipe2(&mut small.proc, &mut small.files, &mut small.vfs, &mut small.mem, &mut small.cpu, at, 0);
    assert_eq!(r, Err(Errno::ENFILE));
}
