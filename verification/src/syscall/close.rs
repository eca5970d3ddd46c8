//! The `close` system call closes the given file descriptor.

use vstd::prelude::*;
use crate::errno::{EResult, Errno};
use crate::file::open_file::{OpenFile, OpenFiles};
use crate::file::vfs::Vfs;
use crate::process::Process;
use crate::syscall::{can_read, can_write, readable, writable};

verus! {

/// The open file description that is closed when the file descriptor that
/// holds the description with handle `h` is: the description, if no other
/// file descriptor holds it.
pub open spec fn last_held(files: &OpenFiles, h: int) -> Option<OpenFile> {
    match files.slot(h) {
        Some(s) => if s.refs == 1 {
            Some(s.open_file)
        } else {
            None
        },
        None => None,
    }
}

/// Closes the file descriptor `fd` of the process `proc`.
///
/// If the file descriptor was the last one to hold its open file
/// description, the file loses the ends that the description had open.
///
/// The function fails with `EBADF`, and changes nothing, if the process has
/// no such file descriptor.
pub fn close(proc: &mut Process, files: &mut OpenFiles, vfs: &mut Vfs, fd: i32) -> (r: EResult<i32>)
    requires
        old(proc).file_descriptors.wf(),
        old(files).wf(),
        old(vfs).wf(),
    ensures
        final(proc).file_descriptors.wf(),
        final(files).wf(),
        final(vfs).wf(),
        final(files).total_max() == old(files).total_max(),
        *final(proc) == (Process { file_descriptors: final(proc).file_descriptors, ..*old(proc) }),
        match r {
            Ok(n) => {
                &&& n == 0
                &&& old(proc).file_descriptors.fd(fd as int) matches Some(d)
                &&& final(proc).file_descriptors.fd(fd as int).is_none()
                &&& forall|k: int|
                    k != fd ==> #[trigger] final(proc).file_descriptors.fd(k) == old(proc).file_descriptors.fd(k)
                &&& crate::file::fd::released(
                    old(files),
                    final(files),
                    d.open_file as int,
                    last_held(old(files), d.open_file as int),
                )
                &&& match last_held(old(files), d.open_file as int) {
                    Some(open_file) => Vfs::counted_open(
                        old(vfs),
                        final(vfs),
                        open_file.location,
                        readable(open_file.flags),
                        writable(open_file.flags),
                        false,
                    ),
                    None => *final(vfs) == *old(vfs),
                }
            },
            Err(e) => {
                &&& e == Errno::EBADF
                &&& old(proc).file_descriptors.fd(fd as int).is_none()
                &&& final(proc).file_descriptors@ == old(proc).file_descriptors@
                &&& final(files).total() == old(files).total()
                &&& forall|k: int| #[trigger] final(files).slot(k) == old(files).slot(k)
                &&& *final(vfs) == *old(vfs)
            },
        },
{
    if fd < 0 {
        return Err(Errno::EBADF);
    }
    let closed = match proc.close_fd(files, fd) {
        Ok(closed) => closed,
        Err(e) => {
            return Err(e);
        },
    };
    match closed {
        Some(open_file) => {
            vfs.count_open(
                open_file.location,
                can_read(open_file.flags),
                can_write(open_file.flags),
                false,
            );
        },
        None => {},
    }
    Ok(0)
}

} // verus!
