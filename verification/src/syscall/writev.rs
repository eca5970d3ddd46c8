//! The `writev` system call allows to write sparse data on a file descriptor.

use vstd::prelude::*;
use crate::errno::{EResult, Errno};
use crate::file::open_file::{OpenFile, OpenFiles, Shared};
use crate::file::vfs::Vfs;
use crate::file::FileType;
use crate::limits::IOV_MAX;
use crate::memory::ram::Ram;
use crate::memory::VirtAddr;
use crate::process::mem_space::MemSpace;
use crate::process::pid::INIT_PID;
use crate::process::signal::SIGPIPE;
use crate::process::Process;
use crate::syscall::{
    description, description_file, description_handle, get_description, untouched,
    write_through, written_through, Progress, TRANSFER_MAX,
};

verus! {

/// A chunk of the memory of a process.
#[derive(Clone, Copy, Debug, PartialEq, Eq, Structural)]
pub struct IOVec {
    /// The address of the beginning of the chunk.
    pub iov_base: usize,
    /// The size of the chunk in bytes.
    pub iov_len: usize,
}

/// The size in bytes of the description of a chunk in the memory of a
/// process: its address and its size, four bytes each, the lowest first.
pub const IOVEC_SIZE: usize = 8;

/// The number that the four bytes of `b` from index `i` on stand for, the
/// lowest first.
pub open spec fn le_value(b: Seq<u8>, i: int) -> int {
    b[i] as int + b[i + 1] as int * 0x100 + b[i + 2] as int * 0x1_0000 + b[i + 3] as int
        * 0x100_0000
}

/// The bytes that the process sees from virtual address `addr` on, `len` of
/// them.
pub open spec fn user_bytes(space: &MemSpace, ram: &Ram, addr: usize, len: int) -> Seq<u8> {
    Seq::new(len as nat, |k: int| space.byte_at(ram, (addr + k) as usize))
}

/// The chunk that entry `i` of the array at address `iov` describes, if
/// userspace can read the entry.
pub open spec fn entry(space: &MemSpace, ram: &Ram, iov: VirtAddr, i: int) -> Option<IOVec> {
    let addr = iov.0 + i * IOVEC_SIZE;
    if addr + IOVEC_SIZE <= usize::MAX && space.user_range(
        VirtAddr(addr as usize),
        IOVEC_SIZE,
        false,
    ) {
        let b = user_bytes(space, ram, addr as usize, IOVEC_SIZE as int);
        Some(IOVec { iov_base: le_value(b, 0) as usize, iov_len: le_value(b, 4) as usize })
    } else {
        None
    }
}

/// The bytes of the chunks that the first `n` entries of the array at
/// address `iov` describe, one after the other, as far as they are no more
/// than `TRANSFER_MAX`: `None` if userspace cannot read one of the entries,
/// or one of the chunks.
pub open spec fn gathered(space: &MemSpace, ram: &Ram, iov: VirtAddr, n: int) -> Option<Seq<u8>>
    decreases n,
{
    if n <= 0 {
        Some(Seq::empty())
    } else {
        match (gathered(space, ram, iov, n - 1), entry(space, ram, iov, n - 1)) {
            (Some(before), Some(e)) => {
                let l = if e.iov_len < TRANSFER_MAX - before.len() {
                    e.iov_len as int
                } else {
                    TRANSFER_MAX - before.len()
                };
                if l <= 0 {
                    Some(before)
                } else if space.user_range(VirtAddr(e.iov_base), l as usize, false) {
                    Some(before + user_bytes(space, ram, e.iov_base, l))
                } else {
                    None
                }
            },
            _ => None,
        }
    }
}

/// Reads the chunks that the `iovcnt` entries of the array at address `iov`
/// describe. The function fails with `EFAULT` if userspace cannot read one
/// of the entries, or one of the chunks.
pub fn gather(space: &MemSpace, ram: &Ram, iov: VirtAddr, iovcnt: usize) -> (r: EResult<Vec<u8>>)
    requires
        space.inv(),
        ram.wf(),
        iovcnt <= IOV_MAX,
    ensures
        match r {
            Ok(data) => gathered(space, ram, iov, iovcnt as int) == Some(data@) && data@.len()
                <= TRANSFER_MAX,
            Err(e) => e == Errno::EFAULT && gathered(space, ram, iov, iovcnt as int).is_none(),
        },
{
    let mut data: Vec<u8> = Vec::new();
    let mut i: usize = 0;
    while i < iovcnt
        invariant
            i <= iovcnt <= IOV_MAX,
            space.inv(),
            ram.wf(),
            data@.len() <= TRANSFER_MAX,
            gathered(space, ram, iov, i as int) == Some(data@),
        ensures
            i <= iovcnt,
            i == iovcnt ==> gathered(space, ram, iov, iovcnt as int) == Some(data@) && data@.len()
                <= TRANSFER_MAX,
            i < iovcnt ==> gathered(space, ram, iov, iovcnt as int).is_none(),
        decreases iovcnt - i,
    {
        let ghost before = data@;
        let offset = i * IOVEC_SIZE;
        let readable = offset <= usize::MAX - iov.0 && iov.0 + offset <= usize::MAX - IOVEC_SIZE;
        let raw = if readable {
            space.read_user(ram, VirtAddr(iov.0 + offset), IOVEC_SIZE)
        } else {
            Err(Errno::EFAULT)
        };
        let raw = match raw {
            Ok(raw) => raw,
            Err(_) => {
                proof {
                    assert(entry(space, ram, iov, i as int).is_none());
                    lemma_gathered_none(space, ram, iov, i + 1, iovcnt as int);
                }
                break ;
            },
        };
        let base = raw[0] as usize + raw[1] as usize * 0x100 + raw[2] as usize * 0x1_0000
            + raw[3] as usize * 0x100_0000;
        let len = raw[4] as usize + raw[5] as usize * 0x100 + raw[6] as usize * 0x1_0000
            + raw[7] as usize * 0x100_0000;
        proof {
            let b = user_bytes(space, ram, (iov.0 + offset) as usize, IOVEC_SIZE as int);
            assert(raw@ =~= b);
            assert(entry(space, ram, iov, i as int) == Some(
                IOVec { iov_base: base, iov_len: len },
            ));
        }
        // The size to write. This is limited to avoid an overflow on the total length
        let room = TRANSFER_MAX - data.len();
        let l = if len < room {
            len
        } else {
            room
        };
        if l > 0 {
            let chunk = match space.read_user(ram, VirtAddr(base), l) {
                Ok(chunk) => chunk,
                Err(_) => {
                    proof {
                        lemma_gathered_none(space, ram, iov, i + 1, iovcnt as int);
                    }
                    break ;
                },
            };
            let mut k: usize = 0;
            while k < l
                invariant
                    k <= l,
                    chunk@.len() == l,
                    data@ == before + chunk@.subrange(0, k as int),
                    before.len() + l <= TRANSFER_MAX,
                decreases l - k,
            {
                data.push(chunk[k]);
                assert(data@ =~= before + chunk@.subrange(0, k + 1));
                k = k + 1;
            }
            proof {
                assert(chunk@.subrange(0, l as int) =~= chunk@);
                assert(chunk@ =~= user_bytes(space, ram, base, l as int));
            }
        }
        i = i + 1;
    }
    if i < iovcnt {
        Err(Errno::EFAULT)
    } else {
        Ok(data)
    }
}

/// Once the chunks of some entries cannot be read, those of more entries
/// cannot either.
proof fn lemma_gathered_none(space: &MemSpace, ram: &Ram, iov: VirtAddr, n: int, m: int)
    requires
        0 < n <= m,
        gathered(space, ram, iov, n).is_none(),
    ensures
        gathered(space, ram, iov, m).is_none(),
    decreases m - n,
{
    if n < m {
        lemma_gathered_none(space, ram, iov, n, m - 1);
    }
}

/// The offset that a write at offset `offset` takes place at, if there is
/// one: the given one, if it is not negative; the cursor of the open file
/// description `open_file`, if none is given, or if minus one is.
pub open spec fn write_place(open_file: OpenFile, offset: Option<isize>) -> Option<u64> {
    match offset {
        Some(o) => if o >= 0 {
            Some(o as u64)
        } else if o == -1 {
            Some(open_file.off)
        } else {
            None
        },
        None => Some(open_file.off),
    }
}

/// Tells whether a write at offset `offset` moves the cursor on: it does if
/// no offset is given, or if minus one is.
pub open spec fn moves_cursor(offset: Option<isize>) -> bool {
    match offset {
        Some(o) => o == -1,
        None => true,
    }
}

/// The error that the `writev` operation fails with before anything is
/// written, if it does:
/// - `EINVAL` if there are less than no chunks, or more than `IOV_MAX`;
/// - or else `EBADF` if the process has no such file descriptor;
/// - or else `EINVAL` if the offset is below minus one;
/// - or else `ENOENT` if the file is gone;
/// - or else `EINVAL` if the file is a symbolic link;
/// - or else `EFAULT` if userspace cannot read the chunks.
pub open spec fn refusal(
    proc: &Process,
    files: &OpenFiles,
    vfs: &Vfs,
    ram: &Ram,
    fd: i32,
    iov: VirtAddr,
    iovcnt: i32,
    offset: Option<isize>,
) -> Option<Errno> {
    if iovcnt < 0 || iovcnt > IOV_MAX {
        Some(Errno::EINVAL)
    } else if description(&proc.file_descriptors, files, fd as int).is_none() {
        Some(Errno::EBADF)
    } else {
        let open_file = description_file(&proc.file_descriptors, files, fd as int);
        if write_place(open_file, offset).is_none() {
            Some(Errno::EINVAL)
        } else {
            match vfs.target(open_file.location) {
                None => Some(Errno::ENOENT),
                Some(f) => if f.stat().file_type == FileType::Link {
                    Some(Errno::EINVAL)
                } else if gathered(&proc.mem_space->0, ram, iov, iovcnt as int).is_none() {
                    Some(Errno::EFAULT)
                } else {
                    None
                },
            }
        }
    }
}

/// What writing `data` at offset `offset` through the open file description
/// `open_file`, which has handle `handle`, comes to: what
/// [`written_through`] tells of a description whose cursor is at the offset
/// of the write; if the write does not move the cursor on, the cursor is
/// then where it was.
pub open spec fn written_at(
    files_before: &OpenFiles,
    files_after: &OpenFiles,
    vfs_before: &Vfs,
    vfs_after: &Vfs,
    handle: usize,
    open_file: OpenFile,
    offset: Option<isize>,
    data: Seq<u8>,
    r: EResult<Progress>,
) -> bool {
    exists|mid: OpenFiles|
        {
            &&& #[trigger] written_through(
                files_before,
                &mid,
                vfs_before,
                vfs_after,
                handle,
                OpenFile { off: write_place(open_file, offset)->0, ..open_file },
                data,
                r,
            )
            &&& forall|k: int| k != handle ==> #[trigger] files_after.slot(k) == mid.slot(k)
            &&& files_after.slot(handle as int) == if moves_cursor(offset) {
                mid.slot(handle as int)
            } else {
                files_before.slot(handle as int)
            }
        }
}

/// Performs the `writev` operation.
///
/// Arguments:
/// - `fd` is the file descriptor
/// - `iov` the IO vector
/// - `iovcnt` the number of entries in the IO vector
/// - `offset` is the offset in the file
/// - `flags` is the set of flags
///
/// The function fails, and changes nothing, as [`refusal`] tells. Otherwise
/// the bytes of the chunks are written, one chunk after the other, as
/// [`written_through`] tells of an open file description whose cursor is at
/// the offset of the write; if the write does not move the cursor on, the
/// cursor is then put back where it was.
///
/// A process that writes to a pipe that nobody reads from is killed by the
/// signal `SIGPIPE`, unless it is the init process.
///
/// The process must have a memory space.
pub fn do_writev(
    proc: &mut Process,
    files: &mut OpenFiles,
    vfs: &mut Vfs,
    ram: &Ram,
    fd: i32,
    iov: VirtAddr,
    iovcnt: i32,
    offset: Option<isize>,
    _flags: Option<i32>,
) -> (r: EResult<Progress>)
    requires
        old(proc).wf(),
        old(proc).mem_space.is_some(),
        old(files).wf(),
        old(vfs).wf(),
        ram.wf(),
    ensures
        final(proc).wf(),
        final(files).wf(),
        final(vfs).wf(),
        final(files).total_max() == old(files).total_max(),
        final(files).total() == old(files).total(),
        forall|path: Seq<char>| #[trigger] final(vfs).lookup(path) == old(vfs).lookup(path),
        refusal(old(proc), old(files), old(vfs), ram, fd, iov, iovcnt, offset) matches Some(e) ==> r
            == Err::<Progress, Errno>(e) && untouched(old(files), final(files), old(vfs), final(vfs))
            && *final(proc) == *old(proc),
        refusal(old(proc), old(files), old(vfs), ram, fd, iov, iovcnt, offset).is_none()
            ==> written_at(
            old(files),
            final(files),
            old(vfs),
            final(vfs),
            description_handle(&old(proc).file_descriptors, old(files), fd as int),
            description_file(&old(proc).file_descriptors, old(files), fd as int),
            offset,
            gathered(&old(proc).mem_space->0, ram, iov, iovcnt as int)->0,
            r,
        ),
        r == Err::<Progress, Errno>(Errno::EPIPE) && old(proc).pid != INIT_PID && refusal(
            old(proc),
            old(files),
            old(vfs),
            ram,
            fd,
            iov,
            iovcnt,
            offset,
        ).is_none() ==> final(proc).mem_space == old(proc).mem_space && final(proc).file_descriptors == old(proc).file_descriptors && final(proc).state
            == Process::state_after(old(proc).state, SIGPIPE),
        !(r == Err::<Progress, Errno>(Errno::EPIPE) && old(proc).pid != INIT_PID) ==> *final(proc)
            == *old(proc),
{
    // Validation
    if iovcnt < 0 || iovcnt as usize > IOV_MAX {
        return Err(Errno::EINVAL);
    }
    let (handle, open_file) = match get_description(&proc.file_descriptors, files, fd) {
        Ok(d) => d,
        Err(e) => {
            return Err(e);
        },
    };
    // Validation
    let (start_off, update_off) = match offset {
        Some(o) => {
            if o >= 0 {
                (o as u64, false)
            } else if o == -1 {
                (open_file.off, true)
            } else {
                return Err(Errno::EINVAL);
            }
        },
        None => (open_file.off, true),
    };
    let file_type = match vfs.get_file_from_location(open_file.location) {
        Some(file) => file.get_type(),
        None => {
            return Err(Errno::ENOENT);
        },
    };
    if matches!(file_type, FileType::Link) {
        return Err(Errno::EINVAL);
    }
    let data = match &proc.mem_space {
        Some(mem_space) => match gather(mem_space, ram, iov, iovcnt as usize) {
            Ok(data) => data,
            Err(e) => {
                return Err(e);
            },
        },
        None => {
            return Err(Errno::EFAULT);
        },
    };
    // Change the offset temporarily
    let mut placed = open_file;
    placed.off = start_off;
    let r = write_through(files, vfs, handle, placed, &data);
    let ghost mid = *files;
    // Restore previous offset
    if !update_off {
        let _ = files.set(handle, open_file);
    }
    proof {
        assert(written_through(old(files), &mid, old(vfs), vfs, handle, placed, data@, r));
        lemma_written_slots(old(files), &mid, old(vfs), vfs, handle, placed, data@, r);
        assert(description(&old(proc).file_descriptors, old(files), fd as int) == Some(
            (handle, open_file),
        ));
        assert(files.slot(handle as int) == if moves_cursor(offset) {
            mid.slot(handle as int)
        } else {
            old(files).slot(handle as int)
        });
        assert(placed == (OpenFile { off: write_place(open_file, offset)->0, ..open_file }));
        assert(written_at(old(files), files, old(vfs), vfs, handle, open_file, offset, data@, r));
    }
    match r {
        Ok(p) => Ok(p),
        Err(e) => {
            // If writing to a broken pipe, kill with SIGPIPE
            if matches!(e, Errno::EPIPE) && proc.pid != INIT_PID {
                proc.execute_action(SIGPIPE);
            }
            Err(e)
        },
    }
}

/// The implementation of the `writev` system call: writes the chunks at the
/// cursor of the file descriptor, as [`do_writev`] does.
pub fn writev(
    proc: &mut Process,
    files: &mut OpenFiles,
    vfs: &mut Vfs,
    ram: &Ram,
    fd: i32,
    iov: VirtAddr,
    iovcnt: i32,
) -> (r: EResult<Progress>)
    requires
        old(proc).wf(),
        old(proc).mem_space.is_some(),
        old(files).wf(),
        old(vfs).wf(),
        ram.wf(),
    ensures
        final(proc).wf(),
        final(files).wf(),
        final(vfs).wf(),
        final(files).total_max() == old(files).total_max(),
        final(files).total() == old(files).total(),
        forall|path: Seq<char>| #[trigger] final(vfs).lookup(path) == old(vfs).lookup(path),
        refusal(old(proc), old(files), old(vfs), ram, fd, iov, iovcnt, None) matches Some(e) ==> r
            == Err::<Progress, Errno>(e) && untouched(old(files), final(files), old(vfs), final(vfs))
            && *final(proc) == *old(proc),
        refusal(old(proc), old(files), old(vfs), ram, fd, iov, iovcnt, None).is_none()
            ==> written_through(
            old(files),
            final(files),
            old(vfs),
            final(vfs),
            description_handle(&old(proc).file_descriptors, old(files), fd as int),
            description_file(&old(proc).file_descriptors, old(files), fd as int),
            gathered(&old(proc).mem_space->0, ram, iov, iovcnt as int)->0,
            r,
        ),
{
    let ghost open_file = description_file(&old(proc).file_descriptors, old(files), fd as int);
    let r = do_writev(proc, files, vfs, ram, fd, iov, iovcnt, None, None);
    proof {
        if refusal(old(proc), old(files), old(vfs), ram, fd, iov, iovcnt, None).is_none() {
            assert((OpenFile { off: open_file.off, ..open_file }) == open_file);
            let handle = description_handle(&old(proc).file_descriptors, old(files), fd as int);
            let data = gathered(&old(proc).mem_space->0, ram, iov, iovcnt as int)->0;
            assert(written_at(old(files), files, old(vfs), vfs, handle, open_file, None, data, r));
            let mid = choose|mid: OpenFiles|
                {
                    &&& #[trigger] written_through(
                        old(files),
                        &mid,
                        old(vfs),
                        vfs,
                        handle,
                        OpenFile { off: write_place(open_file, None)->0, ..open_file },
                        data,
                        r,
                    )
                    &&& forall|k: int| k != handle ==> #[trigger] files.slot(k) == mid.slot(k)
                    &&& files.slot(handle as int) == if moves_cursor(None) {
                        mid.slot(handle as int)
                    } else {
                        old(files).slot(handle as int)
                    }
                };
            lemma_written_slots(old(files), &mid, old(vfs), vfs, handle, open_file, data, r);
            lemma_same_files(old(files), &mid, files, old(vfs), vfs, handle, open_file, data, r);
        }
    }
    r
}

/// Writing through an open file description changes no other description,
/// and of that one the cursor at most.
proof fn lemma_written_slots(
    before: &OpenFiles,
    mid: &OpenFiles,
    vfs_before: &Vfs,
    vfs_after: &Vfs,
    handle: usize,
    open_file: OpenFile,
    data: Seq<u8>,
    r: EResult<Progress>,
)
    requires
        written_through(before, mid, vfs_before, vfs_after, handle, open_file, data, r),
    ensures
        mid.total() == before.total(),
        forall|k: int| k != handle ==> #[trigger] mid.slot(k) == before.slot(k),
        match before.slot(handle as int) {
            Some(s) => mid.slot(handle as int) matches Some(s2) && s2.refs == s.refs && (
            s2.open_file == s.open_file || s2.open_file == (OpenFile {
                off: s2.open_file.off,
                ..open_file
            })),
            None => mid.slot(handle as int).is_none(),
        },
{
}

/// What is written through an open file description tells of the open file
/// descriptions no more than what they hold.
proof fn lemma_same_files(
    before: &OpenFiles,
    mid: &OpenFiles,
    after: &OpenFiles,
    vfs_before: &Vfs,
    vfs_after: &Vfs,
    handle: usize,
    open_file: OpenFile,
    data: Seq<u8>,
    r: EResult<Progress>,
)
    requires
        written_through(before, mid, vfs_before, vfs_after, handle, open_file, data, r),
        forall|k: int| #[trigger] after.slot(k) == mid.slot(k),
        after.total() == before.total(),
        mid.total() == before.total(),
    ensures
        written_through(before, after, vfs_before, vfs_after, handle, open_file, data, r),
{
    if crate::syscall::writable(open_file.flags) && data.len() > 0 && vfs_before.target(
        open_file.location,
    ).is_some() {
        let n = choose|n: EResult<usize>|
            {
                &&& #[trigger] crate::syscall::wrote(vfs_before, vfs_after, open_file, data, n)
                &&& forall|k: int|
                    k != open_file.location.inode ==> #[trigger] vfs_after.file(k)
                        == vfs_before.file(k)
                &&& match n {
                    Ok(n) => {
                        &&& mid.total() == before.total()
                        &&& forall|k: int| k != handle ==> #[trigger] mid.slot(k) == before.slot(k)
                        &&& mid.slot(handle as int) == match before.slot(handle as int) {
                            Some(s) => Some(
                                Shared {
                                    open_file: OpenFile {
                                        off: crate::syscall::advanced(open_file.off, n),
                                        ..open_file
                                    },
                                    refs: s.refs,
                                },
                            ),
                            None => None,
                        }
                        &&& r == if n > 0 {
                            Ok::<Progress, Errno>(Progress::Done(n))
                        } else if open_file.flags & crate::file::open_file::O_NONBLOCK != 0 {
                            Err::<Progress, Errno>(Errno::EAGAIN)
                        } else {
                            Ok::<Progress, Errno>(Progress::Blocked)
                        }
                    },
                    Err(e) => mid.total() == before.total() && (forall|k: int|
                        #[trigger] mid.slot(k) == before.slot(k)) && r == Err::<Progress, Errno>(e),
                }
            };
        assert(crate::syscall::wrote(vfs_before, vfs_after, open_file, data, n));
    }
}

} // verus!
