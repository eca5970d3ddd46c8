//! This module implements the `write` system call, which allows to write data
//! to a file.

use vstd::prelude::*;
use crate::errno::{EResult, Errno};
use crate::file::open_file::OpenFiles;
use crate::file::vfs::Vfs;
use crate::memory::ram::Ram;
use crate::memory::VirtAddr;
use crate::process::{Process, Regs};
use crate::syscall::{
    description, description_file, description_handle, get_description, untouched,
    write_through, written_through, Progress, TRANSFER_MAX,
};

verus! {

/// The number of bytes that a system call that is asked for `count` bytes
/// transfers at most.
pub open spec fn clamped(count: usize) -> usize {
    if count < TRANSFER_MAX {
        count
    } else {
        TRANSFER_MAX
    }
}

/// The implementation of the `write` syscall.
///
/// The registers `regs` hold the file descriptor, the address of the bytes
/// in the memory of the process, and their number, of which no more than
/// `TRANSFER_MAX` are written.
///
/// - No byte to write is written at once.
/// - The function fails with `EFAULT` if userspace cannot read the bytes, or
///   else with `EBADF` if the process has no such file descriptor.
/// - Otherwise the bytes are written as [`written_through`] tells.
///
/// The process must have a memory space.
pub fn write(proc: &mut Process, files: &mut OpenFiles, vfs: &mut Vfs, ram: &Ram, regs: &Regs) -> (r:
    EResult<Progress>)
    requires
        old(proc).wf(),
        old(proc).mem_space.is_some(),
        old(files).wf(),
        old(vfs).wf(),
        ram.wf(),
    ensures
        *final(proc) == *old(proc),
        final(files).wf(),
        final(vfs).wf(),
        final(files).total_max() == old(files).total_max(),
        forall|path: Seq<char>| #[trigger] final(vfs).lookup(path) == old(vfs).lookup(path),
        clamped(regs.edx as usize) == 0 ==> untouched(old(files), final(files), old(vfs), final(vfs))
            && r == Ok::<Progress, Errno>(Progress::Done(0)),
        clamped(regs.edx as usize) != 0 && !old(proc).mem_space->0.user_range(
            VirtAddr(regs.ecx as usize),
            clamped(regs.edx as usize),
            false,
        ) ==> untouched(old(files), final(files), old(vfs), final(vfs)) && r == Err::<
            Progress,
            Errno,
        >(Errno::EFAULT),
        clamped(regs.edx as usize) != 0 && old(proc).mem_space->0.user_range(
            VirtAddr(regs.ecx as usize),
            clamped(regs.edx as usize),
            false,
        ) && description(&old(proc).file_descriptors, old(files), regs.ebx as int).is_none()
            ==> untouched(old(files), final(files), old(vfs), final(vfs)) && r == Err::<
            Progress,
            Errno,
        >(Errno::EBADF),
        clamped(regs.edx as usize) != 0 && old(proc).mem_space->0.user_range(
            VirtAddr(regs.ecx as usize),
            clamped(regs.edx as usize),
            false,
        ) && description(&old(proc).file_descriptors, old(files), regs.ebx as int).is_some()
            ==> exists|data: Seq<u8>|
            {
                &&& data.len() == clamped(regs.edx as usize)
                &&& forall|i: int|
                    0 <= i < data.len() ==> #[trigger] data[i] == old(proc).mem_space->0.byte_at(
                        ram,
                        (regs.ecx as usize + i) as usize,
                    )
                &&& #[trigger] written_through(
                    old(files),
                    final(files),
                    old(vfs),
                    final(vfs),
                    description_handle(&old(proc).file_descriptors, old(files), regs.ebx as int),
                    description_file(&old(proc).file_descriptors, old(files), regs.ebx as int),
                    data,
                    r,
                )
            },
{
    let buf = VirtAddr(regs.ecx as usize);
    let count = regs.edx as usize;
    let len = if count < TRANSFER_MAX {
        count
    } else {
        TRANSFER_MAX
    };
    if len == 0 {
        return Ok(Progress::Done(0));
    }
    // Trying to write and getting the length of written data
    let data = match &proc.mem_space {
        Some(mem_space) => match mem_space.read_user(ram, buf, len) {
            Ok(data) => data,
            Err(e) => {
                return Err(e);
            },
        },
        None => {
            return Err(Errno::EFAULT);
        },
    };
    if regs.ebx > i32::MAX as u32 {
        return Err(Errno::EBADF);
    }
    let fd = regs.ebx as i32;
    let (handle, open_file) = match get_description(&proc.file_descriptors, files, fd) {
        Ok(d) => d,
        Err(e) => {
            return Err(e);
        },
    };
    let r = write_through(files, vfs, handle, open_file, &data);
    proof {
        let space = old(proc).mem_space->0;
        assert(description(&old(proc).file_descriptors, old(files), regs.ebx as int) == Some(
            (handle, open_file),
        ));
        assert(data@.len() == len);
        assert forall|i: int| 0 <= i < len implies #[trigger] data@[i] == space.byte_at(
            ram,
            (regs.ecx as usize + i) as usize,
        ) by {}
        assert(written_through(
            old(files),
            files,
            old(vfs),
            vfs,
            description_handle(&old(proc).file_descriptors, old(files), regs.ebx as int),
            description_file(&old(proc).file_descriptors, old(files), regs.ebx as int),
            data@,
            r,
        ));
    }
    r
}

} // verus!
