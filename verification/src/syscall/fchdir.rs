//! The `fchdir` system call allows to change the current working directory
//! of the current process.

use vstd::prelude::*;
use crate::errno::{EResult, Errno};
use crate::file::open_file::OpenFiles;
use crate::file::vfs::Vfs;
use crate::file::{File, FileType};
use crate::process::Process;
use crate::syscall::{description, description_file, get_description};

verus! {

/// The file that the file descriptor with ID `fd` of the process `proc` is
/// open on, if there is one.
pub open spec fn file_of(proc: &Process, files: &OpenFiles, vfs: &Vfs, fd: int) -> Option<File> {
    if description(&proc.file_descriptors, files, fd).is_some() {
        vfs.target(description_file(&proc.file_descriptors, files, fd).location)
    } else {
        None
    }
}

/// Makes the directory that the file descriptor `fd` is open on the current
/// working directory of the process `proc`.
///
/// The function fails, and changes nothing:
/// - with `EBADF` if the process has no such file descriptor;
/// - or else with `ENOENT` if the file is gone;
/// - or else with `ENOTDIR` if the file is not a directory;
/// - or else with `EACCES` if the process may not list the directory.
pub fn fchdir(proc: &mut Process, files: &OpenFiles, vfs: &Vfs, fd: i32) -> (r: EResult<usize>)
    requires
        old(proc).wf(),
        vfs.wf(),
    ensures
        final(proc).wf(),
        *final(proc) == (Process { cwd: final(proc).cwd, ..*old(proc) }),
        r matches Err(_) ==> final(proc).cwd@ == old(proc).cwd@,
        description(&old(proc).file_descriptors, files, fd as int).is_none() ==> r == Err::<
            usize,
            Errno,
        >(Errno::EBADF),
        description(&old(proc).file_descriptors, files, fd as int).is_some() ==> match file_of(
            old(proc),
            files,
            vfs,
            fd as int,
        ) {
            None => r == Err::<usize, Errno>(Errno::ENOENT),
            Some(f) => if f.stat().file_type != FileType::Directory {
                r == Err::<usize, Errno>(Errno::ENOTDIR)
            } else if !old(proc).access_profile.allowed(f.stat(), 4) {
                r == Err::<usize, Errno>(Errno::EACCES)
            } else {
                r == Ok::<usize, Errno>(0) && final(proc).cwd@ == f.name()
            },
        },
{
    let (_, open_file) = match get_description(&proc.file_descriptors, files, fd) {
        Ok(d) => d,
        Err(e) => {
            return Err(e);
        },
    };
    let file = match vfs.get_file_from_location(open_file.location) {
        Some(file) => file,
        None => {
            return Err(Errno::ENOENT);
        },
    };
    let stat = file.get_stat();
    // Check the file is an accessible directory
    if stat.file_type != FileType::Directory {
        return Err(Errno::ENOTDIR);
    }
    if !proc.access_profile.can_list_directory(&stat) {
        return Err(Errno::EACCES);
    }
    proc.cwd = file.get_name().to_owned();
    Ok(0)
}

} // verus!
