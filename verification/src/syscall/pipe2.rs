//! The pipe2 system call allows to create a pipe with given flags.

use vstd::prelude::*;
use crate::cpu::Cpu;
use crate::errno::{EResult, Errno};
use crate::file::buffer::pipe::PipeBuffer;
use crate::file::fd::{fd_at, lowest_free, self_full, FileDescriptor, FD_CLOEXEC};
use crate::limits::OPEN_MAX;
use crate::file::open_file::{OpenFile, OpenFiles, O_CLOEXEC, O_DIRECT, O_NONBLOCK, O_RDONLY, O_WRONLY};
use crate::file::vfs::Vfs;
use crate::file::{FileContent, FileType, Stat};
use crate::memory::{PhysMemory, VirtAddr};
use crate::process::Process;

verus! {

/// Tells whether the flags `flags` are flags that a pipe can be created
/// with.
pub open spec fn accepted(flags: i32) -> bool {
    flags & !(O_CLOEXEC | O_DIRECT | O_NONBLOCK) == 0
}

/// The flags of the file descriptors of a pipe that is created with flags
/// `flags`.
pub open spec fn fd_flags(flags: i32) -> i32 {
    if flags & O_CLOEXEC != 0 {
        FD_CLOEXEC
    } else {
        0
    }
}

/// The four bytes that stand for the number `n`, the lowest first.
pub open spec fn le_bytes(n: u32) -> Seq<u8> {
    seq![
        (n & 0xff) as u8,
        ((n >> 8) & 0xff) as u8,
        ((n >> 16) & 0xff) as u8,
        ((n >> 24) & 0xff) as u8,
    ]
}

/// Computes the four bytes that stand for the number `n`, the lowest first.
pub fn to_le_bytes(n: u32, out: &mut Vec<u8>)
    ensures
        final(out)@ == old(out)@ + le_bytes(n),
{
    out.push((n & 0xff) as u8);
    out.push(((n >> 8) & 0xff) as u8);
    out.push(((n >> 16) & 0xff) as u8);
    out.push(((n >> 24) & 0xff) as u8);
    assert(out@ =~= old(out)@ + le_bytes(n));
}

/// The status of the file of a pipe.
pub open spec fn pipe_stat() -> Stat {
    Stat { file_type: FileType::Fifo, mode: 0o600, ..Stat::spec_default() }
}

/// What the creation of a pipe with flags `flags` makes of the file
/// descriptors of a process, of the open file descriptions and of the files:
/// a pipe with nothing in it, which has one description open on each end;
/// the file descriptor `fd0`, the lowest one that was free, which is open on
/// it for reading, and `fd1`, the lowest one that is free then, which is
/// open on it for writing.
pub open spec fn piped(
    before: &Process,
    after: &Process,
    files_before: &OpenFiles,
    files_after: &OpenFiles,
    vfs_before: &Vfs,
    vfs_after: &Vfs,
    flags: i32,
    fd0: u32,
    fd1: u32,
) -> bool {
    &&& crate::file::fd::lowest_free(before.file_descriptors@, fd0 as int, 0)
    &&& fd0 != fd1
    &&& after.file_descriptors.fd(fd0 as int) matches Some(d0)
    &&& after.file_descriptors.fd(fd1 as int) matches Some(d1)
    &&& forall|k: int| 0 <= k < fd1 && k != fd0 ==> #[trigger] before.file_descriptors.fd(k).is_some()
    &&& before.file_descriptors.fd(fd1 as int).is_none()
    &&& forall|k: int|
        k != fd0 && k != fd1 ==> #[trigger] after.file_descriptors.fd(k)
            == before.file_descriptors.fd(k)
    &&& d0.flags == fd_flags(flags)
    &&& d1.flags == fd_flags(flags)
    &&& d0.open_file != d1.open_file
    &&& files_after.total() == files_before.total() + 2
    &&& files_before.slot(d0.open_file as int).is_none()
    &&& files_before.slot(d1.open_file as int).is_none()
    &&& files_after.slot(d0.open_file as int) matches Some(s0)
    &&& files_after.slot(d1.open_file as int) matches Some(s1)
    &&& s0.refs == 1
    &&& s1.refs == 1
    &&& s0.open_file == (OpenFile { location: s0.open_file.location, flags: O_RDONLY | flags, off: 0 })
    &&& s1.open_file == (OpenFile { location: s0.open_file.location, flags: O_WRONLY | flags, off: 0 })
    &&& forall|k: int|
        k != d0.open_file && k != d1.open_file ==> #[trigger] files_after.slot(k)
            == files_before.slot(k)
    &&& vfs_before.target(s0.open_file.location).is_none()
    &&& vfs_after.target(s0.open_file.location) matches Some(f)
    &&& f.stat() == pipe_stat()
    &&& f.name().len() == 0
    &&& f.pipe() == Some(Seq::<u8>::empty())
    &&& f.pipe_readers() == 1
    &&& f.pipe_writers() == 1
    &&& forall|k: int|
        k != s0.open_file.location.inode ==> #[trigger] vfs_after.file(k) == vfs_before.file(k)
}

/// Tells whether the table `t` has one ID at most that a process may use
/// and that no file descriptor has.
pub open spec fn one_free(t: Seq<Option<FileDescriptor>>) -> bool {
    forall|k: int|
        0 <= k < OPEN_MAX ==> (#[trigger] fd_at(t, k)).is_some() || lowest_free(t, k, 0)
}

/// The error that keeps two file descriptors from being created, one after
/// the other, if there is one: `EMFILE` if the process has as many file
/// descriptors as it may, or else `ENFILE` if as many are open system-wide
/// as can be, for the first one; and the same for the second one, once the
/// first one is counted.
pub open spec fn pair_error(proc: &Process, files: &OpenFiles) -> Option<Errno> {
    if self_full(proc.file_descriptors@) {
        Some(Errno::EMFILE)
    } else if files.total() >= files.total_max() {
        Some(Errno::ENFILE)
    } else if one_free(proc.file_descriptors@) {
        Some(Errno::EMFILE)
    } else if files.total() + 1 >= files.total_max() {
        Some(Errno::ENFILE)
    } else {
        None
    }
}

/// A table that has got a file descriptor for its lowest free ID is full iff
/// it had no other free ID.
pub proof fn lemma_second(
    before: Seq<Option<FileDescriptor>>,
    after: Seq<Option<FileDescriptor>>,
    id: int,
)
    requires
        lowest_free(before, id, 0),
        id < OPEN_MAX,
        fd_at(after, id).is_some(),
        forall|k: int| k != id ==> #[trigger] fd_at(after, k) == fd_at(before, k),
    ensures
        !self_full(before),
        self_full(after) == one_free(before),
{
    crate::file::fd::lemma_not_full(before, id, 0);
    if one_free(before) {
        assert forall|k: int| 0 <= k < OPEN_MAX implies #[trigger] fd_at(after, k).is_some() by {
            assert(fd_at(before, k).is_some() || lowest_free(before, k, 0));
        }
    }
    if self_full(after) {
        assert forall|k: int| 0 <= k < OPEN_MAX implies (#[trigger] fd_at(before, k)).is_some()
            || lowest_free(before, k, 0) by {
            assert(fd_at(after, k).is_some());
        }
    }
}

/// Creates a pipe, and file descriptors that are open on its ends. The
/// function fails, and changes nothing, as [`pair_error`] tells.
fn create_pipe(proc: &mut Process, files: &mut OpenFiles, vfs: &mut Vfs, flags: i32) -> (r: EResult<
    (u32, u32),
>)
    requires
        old(proc).wf(),
        old(files).wf(),
        old(vfs).wf(),
    ensures
        final(proc).wf(),
        final(files).wf(),
        final(vfs).wf(),
        final(files).total_max() == old(files).total_max(),
        *final(proc) == (Process { file_descriptors: final(proc).file_descriptors, ..*old(proc) }),
        forall|path: Seq<char>| #[trigger] final(vfs).lookup(path) == old(vfs).lookup(path),
        match r {
            Ok((fd0, fd1)) => pair_error(old(proc), old(files)).is_none() && piped(
                old(proc),
                final(proc),
                old(files),
                final(files),
                old(vfs),
                final(vfs),
                flags,
                fd0,
                fd1,
            ),
            Err(e) => {
                &&& pair_error(old(proc), old(files)) == Some(e)
                &&& forall|k: int|
                    #[trigger] final(proc).file_descriptors.fd(k) == old(proc).file_descriptors.fd(
                        k,
                    )
                &&& crate::syscall::untouched(old(files), final(files), old(vfs), final(vfs))
            },
        },
{
    let name = String::new();
    assert(old(vfs).lookup(name@).is_none()) by {
        assert(forall|k: int| !old(vfs).named(k, name@));
    }
    let mut stat = Stat::default();
    stat.mode = 0o600;
    // Create pipe
    let location = match vfs.create_file(name, stat, FileContent::Fifo(PipeBuffer::new())) {
        Ok(location) => location,
        Err(_) => {
            return Err(Errno::ENFILE);
        },
    };
    let ghost vfs1 = *vfs;
    let fd_flags = if flags & O_CLOEXEC != 0 {
        FD_CLOEXEC
    } else {
        0
    };
    let (fd0, d0) = match proc.create_fd(files, fd_flags, OpenFile::new(location, O_RDONLY | flags)) {
        Ok(fd) => fd,
        Err(e) => {
            vfs.remove_file(location);
            proof {
                lemma_removed(old(vfs), &vfs1, vfs, location);
            }
            return Err(e);
        },
    };
    let ghost proc1 = *proc;
    let ghost files1 = *files;
    proof {
        files1.lemma_total();
        assert forall|k: int| k != fd0 implies #[trigger] fd_at(proc1.file_descriptors@, k) == fd_at(
            old(proc).file_descriptors@,
            k,
        ) by {
            assert(proc1.file_descriptors.fd(k) == old(proc).file_descriptors.fd(k));
        }
        lemma_second(old(proc).file_descriptors@, proc1.file_descriptors@, fd0 as int);
    }
    let (fd1, d1) = match proc.create_fd(files, fd_flags, OpenFile::new(location, O_WRONLY | flags)) {
        Ok(fd) => fd,
        Err(e) => {
            let _ = proc.close_fd(files, fd0 as i32);
            vfs.remove_file(location);
            proof {
                lemma_removed(old(vfs), &vfs1, vfs, location);
                assert forall|k: int| #[trigger]
                    proc.file_descriptors.fd(k) == old(proc).file_descriptors.fd(k) by {
                    assert(proc1.file_descriptors.fd(k) == old(proc).file_descriptors.fd(k) || k
                        == fd0);
                }
                assert forall|k: int| #[trigger] files.slot(k) == old(files).slot(k) by {
                    assert(files1.slot(k) == old(files).slot(k) || k == d0.open_file);
                }
            }
            return Err(e);
        },
    };
    let ghost vfs2 = *vfs;
    proof {
        files.lemma_total();
        assert(lowest_free(proc1.file_descriptors@, fd1 as int, 0));
    }
    vfs.count_open(location, true, false, true);
    let ghost vfs3 = *vfs;
    vfs.count_open(location, false, true, true);
    proof {
        let f1 = vfs1.target(location)->0;
        let f3 = vfs3.target(location)->0;
        let f = vfs.target(location)->0;
        assert(f1.pipe()->0 =~= Seq::<u8>::empty());
        assert(vfs2 == vfs1);
        assert(f3.pipe_readers() == 1 && f3.pipe_writers() == 0);
        assert(f.pipe_readers() == 1 && f.pipe_writers() == 1);
        assert(f.stat() == pipe_stat());
        assert forall|k: int| k != location.inode implies #[trigger] vfs.file(k) == old(vfs).file(
            k,
        ) by {
            assert(vfs3.file(k) == vfs1.file(k));
            assert(vfs1.file(k) == old(vfs).file(k));
        }
        let s0 = files.slot(d0.open_file as int)->0;
        let s1 = files.slot(d1.open_file as int)->0;
        assert(s0.open_file == OpenFile::new_spec(location, O_RDONLY | flags));
        assert(s1.open_file == OpenFile::new_spec(location, O_WRONLY | flags));
        assert(files.total() == old(files).total() + 2);
        assert(old(files).slot(d0.open_file as int).is_none());
        assert(proc.file_descriptors.fd(fd0 as int) == Some(d0));
        assert(proc.file_descriptors.fd(fd1 as int) == Some(d1));
        assert(crate::file::fd::lowest_free(old(proc).file_descriptors@, fd0 as int, 0));
        assert forall|k: int| k != fd0 && k != fd1 implies #[trigger] proc.file_descriptors.fd(k)
            == old(proc).file_descriptors.fd(k) by {
            assert(proc1.file_descriptors.fd(k) == old(proc).file_descriptors.fd(k));
        }
        assert forall|k: int| k != d0.open_file && k != d1.open_file implies #[trigger] files.slot(
            k,
        ) == old(files).slot(k) by {
            assert(files1.slot(k) == old(files).slot(k));
        }
        assert(proc1.file_descriptors.fd(fd0 as int) == Some(d0));
        assert(fd0 != fd1);
        assert forall|k: int| 0 <= k < fd1 && k != fd0 implies #[trigger] old(proc).file_descriptors.fd(k).is_some() by {
            assert(proc1.file_descriptors.fd(k).is_some());
        }
        assert(old(proc).file_descriptors.fd(fd1 as int).is_none()) by {
            assert(proc1.file_descriptors.fd(fd1 as int).is_none());
        }
        assert(files1.slot(d1.open_file as int).is_none());
        assert(d0.open_file != d1.open_file);
        assert(old(files).slot(d1.open_file as int).is_none());
        assert forall|path: Seq<char>| #[trigger] vfs.lookup(path) == old(vfs).lookup(path) by {
            if path.len() > 0 {
                assert(vfs1.lookup(path) == old(vfs).lookup(path));
            } else {
                assert(forall|k: int| !vfs.named(k, path));
                assert(forall|k: int| !old(vfs).named(k, path));
            }
        }
    }
    Ok((fd0, fd1))
}

/// A file table from which a file without name that had been added to it is
/// removed again is as it was.
proof fn lemma_removed(before: &Vfs, mid: &Vfs, after: &Vfs, location: crate::file::FileLocation)
    requires
        location.mountpoint_id == crate::file::vfs::ROOT_MOUNTPOINT,
        before.file(location.inode as int).is_none(),
        mid.file(location.inode as int) matches Some(f) && f.name().len() == 0,
        forall|k: int| k != location.inode ==> #[trigger] mid.file(k) == before.file(k),
        forall|path: Seq<char>|
            path.len() > 0 ==> #[trigger] mid.lookup(path) == before.lookup(path),
        after.target(location).is_none(),
        forall|k: int| k != location.inode ==> #[trigger] after.file(k) == mid.file(k),
        forall|path: Seq<char>|
            path.len() > 0 ==> #[trigger] after.lookup(path) == mid.lookup(path),
    ensures
        forall|k: int| #[trigger] after.file(k) == before.file(k),
        forall|path: Seq<char>| #[trigger] after.lookup(path) == before.lookup(path),
{
    assert forall|k: int| #[trigger] after.file(k) == before.file(k) by {
        if k != location.inode {
            assert(mid.file(k) == before.file(k));
        }
    }
    assert forall|path: Seq<char>| #[trigger] after.lookup(path) == before.lookup(path) by {
        if path.len() > 0 {
            assert(mid.lookup(path) == before.lookup(path));
        } else {
            assert(forall|k: int| !after.named(k, path));
            assert(forall|k: int| !before.named(k, path));
        }
    }
}

/// The implementation of the `pipe2` syscall: creates a pipe with flags
/// `flags`, and writes the IDs of the file descriptors of its reading end and
/// of its writing end, four bytes each, at address `pipefd` of the memory of
/// the process.
///
/// The function fails, and changes nothing:
/// - with `EINVAL` if the flags are not flags that a pipe can be created
///   with;
/// - or else with `EFAULT` if userspace cannot write the eight bytes at
///   `pipefd`;
/// - or else with `EMFILE` or `ENFILE`, as [`pair_error`] tells, iff the
///   process, or the system, cannot have two file descriptors more.
///
/// Otherwise the pipe and the file descriptors are created. The function
/// then fails with `ENOMEM` if the memory of the process cannot be written
/// to for want of memory: one of the pages of the eight bytes can then not
/// be put in place for writing; where the bytes lie in one page, iff that
/// page cannot. After a success the process reads the two descriptors at
/// the address, unless the bytes lie in two pages that have the same frame.
///
/// The process must have a memory space.
pub fn pipe2(
    proc: &mut Process,
    files: &mut OpenFiles,
    vfs: &mut Vfs,
    mem: &mut PhysMemory,
    cpu: &mut Cpu,
    pipefd: VirtAddr,
    flags: i32,
) -> (r: EResult<i32>)
    requires
        old(proc).wf(),
        old(files).wf(),
        old(vfs).wf(),
        old(mem).wf(),
        old(cpu).wf(),
        old(proc).mem_space matches Some(m) && m.counted_by(&old(mem).refs),
        forall|f: int| #[trigger] old(mem).refs.count(f) + 8 < usize::MAX,
    ensures
        final(proc).wf(),
        final(files).wf(),
        final(vfs).wf(),
        final(mem).wf(),
        final(cpu).wf(),
        final(files).total_max() == old(files).total_max(),
        final(proc).mem_space matches Some(m) && m.counted_by(&final(mem).refs),
        forall|path: Seq<char>| #[trigger] final(vfs).lookup(path) == old(vfs).lookup(path),
        !accepted(flags) ==> r == Err::<i32, Errno>(Errno::EINVAL),
        accepted(flags) && !old(proc).mem_space->0.user_range(pipefd, 8, true) ==> r == Err::<
            i32,
            Errno,
        >(Errno::EFAULT),
        r.is_err() && r != Err::<i32, Errno>(Errno::ENOMEM) ==> *final(mem) == *old(mem) && *final(cpu) == *old(cpu) && crate::syscall::untouched(old(files), final(files), old(vfs), final(vfs)) && (forall|
            k: int,
        | #[trigger] final(proc).file_descriptors.fd(k) == old(proc).file_descriptors.fd(k)),
        accepted(flags) && old(proc).mem_space->0.user_range(pipefd, 8, true) ==> match pair_error(
            old(proc),
            old(files),
        ) {
            Some(e) => r == Err::<i32, Errno>(e),
            None => match r {
                Ok(n) => n == 0 && !old(proc).mem_space->0.write_starved(old(mem), pipefd),
                Err(e) => {
                    &&& e == Errno::ENOMEM
                    &&& page_of_pair(pipefd) ==> old(proc).mem_space->0.write_starved(
                        old(mem),
                        pipefd,
                    )
                    &&& exists|i: int|
                        0 <= i < 8 && #[trigger] final(proc).mem_space->0.write_starved(
                            final(mem),
                            VirtAddr((pipefd.0 + i) as usize),
                        )
                },
            },
        },
        old(mem).sound() && (forall|p: int|
            #[trigger] old(proc).mem_space->0.static_held(&old(mem).frames, p)) ==> final(mem).sound(),
        r.is_ok() || r == Err::<i32, Errno>(Errno::ENOMEM) ==> exists|fd0: u32, fd1: u32|
            {
                &&& #[trigger] piped(
                    old(proc),
                    final(proc),
                    old(files),
                    final(files),
                    old(vfs),
                    final(vfs),
                    flags,
                    fd0,
                    fd1,
                )
                &&& r.is_ok() ==> (forall|i: int|
                    0 <= i < 8 && (crate::memory::page_of((pipefd.0 + i) as usize)
                        == crate::memory::page_of((pipefd.0 + 7) as usize)
                        || final(proc).mem_space->0.frame_alone(
                        crate::memory::page_of(pipefd.0),
                        crate::memory::page_of((pipefd.0 + 7) as usize),
                        crate::memory::page_of((pipefd.0 + i) as usize),
                    )) ==> #[trigger] final(proc).mem_space->0.byte_at(
                        &final(mem).ram,
                        (pipefd.0 + i) as usize,
                    ) == (le_bytes(fd0) + le_bytes(fd1))[i])
            },
{
    let accepted_flags = O_CLOEXEC | O_DIRECT | O_NONBLOCK;
    if flags & !accepted_flags != 0 {
        return Err(Errno::EINVAL);
    }
    let writable = match &proc.mem_space {
        Some(mem_space) => mem_space.can_access(pipefd, 8, true, true),
        None => false,
    };
    if !writable {
        return Err(Errno::EFAULT);
    }
    let (fd0, fd1) = match create_pipe(proc, files, vfs, flags) {
        Ok(fds) => fds,
        Err(e) => {
            return Err(e);
        },
    };
    let mut bytes: Vec<u8> = Vec::new();
    to_le_bytes(fd0, &mut bytes);
    to_le_bytes(fd1, &mut bytes);
    assert(bytes@ =~= le_bytes(fd0) + le_bytes(fd1));
    let ghost proc2 = *proc;
    let res = match &mut proc.mem_space {
        Some(mem_space) => mem_space.write_user(mem, cpu, pipefd, &bytes),
        None => Err(Errno::EFAULT),
    };
    proof {
        assert(proc.file_descriptors == proc2.file_descriptors);
        assert(piped(old(proc), &proc2, old(files), files, old(vfs), vfs, flags, fd0, fd1));
        assert(piped(old(proc), proc, old(files), files, old(vfs), vfs, flags, fd0, fd1));
        if res.is_ok() {
            assert forall|i: int|
                0 <= i < 8 && (crate::memory::page_of((pipefd.0 + i) as usize)
                    == crate::memory::page_of((pipefd.0 + 7) as usize)
                    || proc.mem_space->0.frame_alone(
                    crate::memory::page_of(pipefd.0),
                    crate::memory::page_of((pipefd.0 + 7) as usize),
                    crate::memory::page_of((pipefd.0 + i) as usize),
                )) implies #[trigger] proc.mem_space->0.byte_at(&mem.ram, (pipefd.0 + i) as usize) == (
            le_bytes(fd0) + le_bytes(fd1))[i] by {
                assert(bytes@[i] == (le_bytes(fd0) + le_bytes(fd1))[i]);
            }
        }
    }
    match res {
        Ok(()) => Ok(0),
        Err(_) => Err(Errno::ENOMEM),
    }
}

/// Tells whether the eight bytes at address `addr` lie in one page.
pub open spec fn page_of_pair(addr: VirtAddr) -> bool {
    crate::memory::page_of(addr.0) == crate::memory::page_of((addr.0 + 7) as usize)
}

} // verus!
