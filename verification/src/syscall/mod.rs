//! System calls.
//!
//! A system call that would block does not wait by itself: it tells its
//! caller that the process has to wait and call again.

pub mod close;
pub mod fchdir;
pub mod getgid32;
pub mod openat;
pub mod pipe2;
pub mod socket;
pub mod splice;
pub mod write;
pub mod writev;

use vstd::prelude::*;
use crate::errno::{EResult, Errno};
use crate::file::fd::FileDescriptorTable;
use crate::file::open_file::{OpenFile, OpenFiles, Shared, O_NONBLOCK, O_RDONLY, O_WRONLY};
use crate::file::vfs::Vfs;
use crate::file::File;

verus! {

/// What a system call that may block has come to.
#[derive(Clone, Copy, Debug, PartialEq, Eq, Structural)]
pub enum Progress {
    /// The system call is done, and has transferred the given number of
    /// bytes.
    Done(usize),
    /// Nothing could be transferred yet: the process has to wait, and to call
    /// again.
    Blocked,
}

/// The file descriptor that stands for the current working directory.
pub const AT_FDCWD: i32 = -100;

/// The largest number of bytes that a system call transfers at once.
pub const TRANSFER_MAX: usize = 0x7fff_ffff;

/// Tells whether a file that is open with flags `flags` can be read from.
pub open spec fn readable(flags: i32) -> bool {
    flags & 0b11 != O_WRONLY
}

/// Tells whether a file that is open with flags `flags` can be written to.
pub open spec fn writable(flags: i32) -> bool {
    flags & 0b11 != O_RDONLY
}

/// Tells whether a file that is open with flags `flags` can be read from.
pub fn can_read(flags: i32) -> (b: bool)
    ensures
        b == readable(flags),
{
    flags & 0b11 != O_WRONLY
}

/// Tells whether a file that is open with flags `flags` can be written to.
pub fn can_write(flags: i32) -> (b: bool)
    ensures
        b == writable(flags),
{
    flags & 0b11 != O_RDONLY
}

/// The open file description that the file descriptor with ID `fd` of `fds`
/// holds in `files`, with its handle.
pub open spec fn description(fds: &FileDescriptorTable, files: &OpenFiles, fd: int) -> Option<
    (usize, OpenFile),
> {
    match fds.fd(fd) {
        Some(d) => match files.slot(d.open_file as int) {
            Some(s) => Some((d.open_file, s.open_file)),
            None => None,
        },
        None => None,
    }
}

/// The handle of the open file description that the file descriptor with ID
/// `fd` of `fds` holds in `files`.
pub open spec fn description_handle(fds: &FileDescriptorTable, files: &OpenFiles, fd: int) -> usize {
    match description(fds, files, fd) {
        Some((handle, _)) => handle,
        None => 0,
    }
}

/// The open file description that the file descriptor with ID `fd` of `fds`
/// holds in `files`.
pub open spec fn description_file(fds: &FileDescriptorTable, files: &OpenFiles, fd: int) -> OpenFile {
    match description(fds, files, fd) {
        Some((_, open_file)) => open_file,
        None => arbitrary(),
    }
}

/// Tells whether neither the open file descriptions nor the files have
/// changed.
pub open spec fn untouched(
    files_before: &OpenFiles,
    files_after: &OpenFiles,
    vfs_before: &Vfs,
    vfs_after: &Vfs,
) -> bool {
    &&& files_after.total() == files_before.total()
    &&& forall|k: int| #[trigger] files_after.slot(k) == files_before.slot(k)
    &&& forall|k: int| #[trigger] vfs_after.file(k) == vfs_before.file(k)
    &&& forall|path: Seq<char>| #[trigger] vfs_after.lookup(path) == vfs_before.lookup(path)
}

/// Returns the open file description that the file descriptor with ID `fd`
/// of `fds` holds in `files`, with its handle. The function fails with
/// `EBADF` if there is no such file descriptor, or no such description.
pub fn get_description(fds: &FileDescriptorTable, files: &OpenFiles, fd: i32) -> (r: EResult<
    (usize, OpenFile),
>)
    ensures
        match r {
            Ok(d) => description(fds, files, fd as int) == Some(d),
            Err(e) => e == Errno::EBADF && description(fds, files, fd as int).is_none(),
        },
{
    let handle = match fds.get_fd(fd) {
        Ok(d) => d.open_file,
        Err(e) => {
            return Err(e);
        },
    };
    match files.get(handle) {
        Some(open_file) => Ok((handle, open_file)),
        None => Err(Errno::EBADF),
    }
}

/// The offset of a cursor that was at `off` once `n` bytes have been
/// transferred: the cursor stops at the largest offset that can be counted.
pub open spec fn advanced(off: u64, n: usize) -> u64 {
    if off + n > u64::MAX {
        u64::MAX
    } else {
        (off + n) as u64
    }
}

/// Computes the offset of a cursor that was at `off` once `n` bytes have
/// been transferred.
pub fn advance(off: u64, n: usize) -> (r: u64)
    ensures
        r == advanced(off, n),
{
    if n as u64 > u64::MAX - off {
        u64::MAX
    } else {
        off + n as u64
    }
}

/// Tells whether the file of the open file description `open_file` is, in
/// `after`, what the writing of `data` at the cursor of the description makes
/// of what it is in `before`, as [`File::written`] tells, and `n` is what the
/// writing returns.
pub open spec fn wrote(before: &Vfs, after: &Vfs, open_file: OpenFile, data: Seq<u8>, n: EResult<usize>) -> bool {
    &&& before.target(open_file.location) matches Some(f0)
    &&& after.target(open_file.location) matches Some(f1)
    &&& File::written(&f0, &f1, open_file.off, data, n)
    &&& File::same_but_data(&f0, &f1)
}

/// What writing `data` through the open file description with handle
/// `handle` comes to.
///
/// - A description that is not open for writing gives `EBADF`.
/// - No byte to write is written at once.
/// - Otherwise the bytes are written to the file at the cursor of the
///   description, as [`File::written`] tells, and the cursor moves on by as
///   many bytes as were written. The error of the file is the error of the
///   system call; a file that is gone gives `ENOENT`.
/// - If no byte could be written, the system call fails with `EAGAIN` if the
///   description does not block, and has the process wait if it does.
pub open spec fn written_through(
    files_before: &OpenFiles,
    files_after: &OpenFiles,
    vfs_before: &Vfs,
    vfs_after: &Vfs,
    handle: usize,
    open_file: OpenFile,
    data: Seq<u8>,
    r: EResult<Progress>,
) -> bool {
    let same_files = files_after.total() == files_before.total() && forall|k: int|
        #[trigger] files_after.slot(k) == files_before.slot(k);
    let same = untouched(files_before, files_after, vfs_before, vfs_after);
    if !writable(open_file.flags) {
        same && r == Err::<Progress, Errno>(Errno::EBADF)
    } else if data.len() == 0 {
        same && r == Ok::<Progress, Errno>(Progress::Done(0))
    } else {
        match vfs_before.target(open_file.location) {
            None => same && r == Err::<Progress, Errno>(Errno::ENOENT),
            Some(f0) => exists|n: EResult<usize>|
                {
                    &&& #[trigger] wrote(vfs_before, vfs_after, open_file, data, n)
                    &&& forall|k: int|
                        k != open_file.location.inode ==> #[trigger] vfs_after.file(k)
                            == vfs_before.file(k)
                    &&& match n {
                        Ok(n) => {
                            &&& files_after.total() == files_before.total()
                            &&& forall|k: int|
                                k != handle ==> #[trigger] files_after.slot(k)
                                    == files_before.slot(k)
                            &&& files_after.slot(handle as int) == match files_before.slot(
                                handle as int,
                            ) {
                                Some(s) => Some(
                                    Shared {
                                        open_file: OpenFile {
                                            off: advanced(open_file.off, n),
                                            ..open_file
                                        },
                                        refs: s.refs,
                                    },
                                ),
                                None => None,
                            }
                            &&& r == if n > 0 {
                                Ok::<Progress, Errno>(Progress::Done(n))
                            } else if open_file.flags & O_NONBLOCK != 0 {
                                Err::<Progress, Errno>(Errno::EAGAIN)
                            } else {
                                Ok::<Progress, Errno>(Progress::Blocked)
                            }
                        },
                        Err(e) => same_files && r == Err::<Progress, Errno>(e),
                    }
                },
        }
    }
}

/// Writes `data` through the open file description `open_file`, which has
/// handle `handle` in `files`.
pub fn write_through(
    files: &mut OpenFiles,
    vfs: &mut Vfs,
    handle: usize,
    open_file: OpenFile,
    data: &Vec<u8>,
) -> (r: EResult<Progress>)
    requires
        old(files).wf(),
        old(vfs).wf(),
    ensures
        final(files).wf(),
        final(vfs).wf(),
        final(files).total_max() == old(files).total_max(),
        forall|path: Seq<char>| #[trigger] final(vfs).lookup(path) == old(vfs).lookup(path),
        written_through(old(files), final(files), old(vfs), final(vfs), handle, open_file, data@, r),
{
    if !can_write(open_file.flags) {
        return Err(Errno::EBADF);
    }
    if data.len() == 0 {
        return Ok(Progress::Done(0));
    }
    let ghost f0 = old(vfs).target(open_file.location);
    let res = vfs.write(open_file.location, open_file.off, data);
    let n = match res {
        Ok(n) => n,
        Err(e) => {
            proof {
                if f0.is_some() {
                    assert(wrote(old(vfs), vfs, open_file, data@, res));
                }
            }
            return Err(e);
        },
    };
    let mut moved = open_file;
    moved.off = advance(open_file.off, n);
    let _ = files.set(handle, moved);
    proof {
        assert(wrote(old(vfs), vfs, open_file, data@, res));
    }
    if n > 0 {
        Ok(Progress::Done(n))
    } else if open_file.flags & O_NONBLOCK != 0 {
        // The file descriptor is non blocking
        Err(Errno::EAGAIN)
    } else {
        Ok(Progress::Blocked)
    }
}

} // verus!
