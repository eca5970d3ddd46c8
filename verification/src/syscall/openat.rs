//! The `openat` syscall allows to open a file.

use vstd::prelude::*;
use vstd::string::*;
use crate::errno::{EResult, Errno};
use crate::file::fd::FD_CLOEXEC;
use crate::file::open_file::{OpenFile, OpenFiles, Shared, O_CLOEXEC, O_CREAT, O_DIRECTORY};
use crate::file::vfs::{Vfs, ROOT_MOUNTPOINT};
use crate::file::{FileContent, FileLocation, FileType, Mode, Stat};
use crate::process::Process;
use crate::syscall::fchdir::file_of;
use crate::syscall::{
    can_read, can_write, description, get_description, readable, untouched, writable, AT_FDCWD,
};

verus! {

/// Tells whether the path `path` begins at the root.
pub open spec fn absolute(path: Seq<char>) -> bool {
    path.len() > 0 && path[0] == '/'
}

/// The error that keeps the path `pathname`, taken from the directory that
/// the file descriptor `dirfd` is open on, from naming anything, if there is
/// one: `ENOENT` if the path is empty; and, unless the path begins at the
/// root or is taken from the current working directory, `EBADF` if the
/// process has no such file descriptor, `ENOENT` if the file is gone, and
/// `ENOTDIR` if the file is not a directory.
pub open spec fn path_error(proc: &Process, files: &OpenFiles, vfs: &Vfs, dirfd: i32, pathname: Seq<char>) -> Option<
    Errno,
> {
    if pathname.len() == 0 {
        Some(Errno::ENOENT)
    } else if absolute(pathname) || dirfd == AT_FDCWD {
        None
    } else if description(&proc.file_descriptors, files, dirfd as int).is_none() {
        Some(Errno::EBADF)
    } else {
        match file_of(proc, files, vfs, dirfd as int) {
            None => Some(Errno::ENOENT),
            Some(f) => if f.stat().file_type != FileType::Directory {
                Some(Errno::ENOTDIR)
            } else {
                None
            },
        }
    }
}

/// The path that `pathname`, taken from the directory that the file
/// descriptor `dirfd` is open on, stands for: itself if it begins at the
/// root, or else the path of the directory, a slash, and itself.
pub open spec fn full_path(proc: &Process, files: &OpenFiles, vfs: &Vfs, dirfd: i32, pathname: Seq<char>) -> Seq<
    char,
> {
    if absolute(pathname) {
        pathname
    } else if dirfd == AT_FDCWD {
        proc.cwd@ + "/"@ + pathname
    } else {
        file_of(proc, files, vfs, dirfd as int)->0.name() + "/"@ + pathname
    }
}

/// The status of a regular file that the process `proc` creates with mode
/// `mode` at time `ts`.
pub open spec fn created_stat(proc: &Process, mode: Mode, ts: u64) -> Stat {
    Stat {
        file_type: FileType::Regular,
        mode,
        uid: proc.access_profile.euid,
        gid: proc.access_profile.egid,
        ctime: ts,
        mtime: ts,
        atime: ts,
        ..Stat::spec_default()
    }
}

/// The error that keeps a process with the rights of `proc` from opening a
/// file with status `stat` with flags `flags`, if there is one: `ENOTDIR` if
/// a directory is asked for and the file is none, or else `EACCES` if the
/// process may not read the file, or write to it, as the flags ask.
pub open spec fn open_error(proc: &Process, stat: Stat, flags: i32) -> Option<Errno> {
    if flags & O_DIRECTORY != 0 && stat.file_type != FileType::Directory {
        Some(Errno::ENOTDIR)
    } else if (readable(flags) && !proc.access_profile.allowed(stat, 4)) || (writable(flags)
        && !proc.access_profile.allowed(stat, 2)) {
        Some(Errno::EACCES)
    } else {
        None
    }
}

/// The flags of the file descriptor of a file that is open with flags
/// `flags`.
pub open spec fn fd_flags(flags: i32) -> i32 {
    if flags & O_CLOEXEC != 0 {
        FD_CLOEXEC
    } else {
        0
    }
}

/// Returns the path that `pathname`, taken from the directory that the file
/// descriptor `dirfd` is open on, stands for.
fn get_path(proc: &Process, files: &OpenFiles, vfs: &Vfs, dirfd: i32, pathname: &str) -> (r: EResult<
    String,
>)
    requires
        proc.wf(),
        vfs.wf(),
    ensures
        match r {
            Ok(path) => path_error(proc, files, vfs, dirfd, pathname@).is_none() && path@
                == full_path(proc, files, vfs, dirfd, pathname@) && path@.len() > 0,
            Err(e) => path_error(proc, files, vfs, dirfd, pathname@) == Some(e),
        },
{
    if pathname.is_empty() {
        return Err(Errno::ENOENT);
    }
    if pathname.get_char(0) == '/' {
        return Ok(pathname.to_owned());
    }
    let base = if dirfd == AT_FDCWD {
        proc.cwd.clone()
    } else {
        let (_, open_file) = match get_description(&proc.file_descriptors, files, dirfd) {
            Ok(d) => d,
            Err(e) => {
                return Err(e);
            },
        };
        let file = match vfs.get_file_from_location(open_file.location) {
            Some(file) => file,
            None => {
                return Err(Errno::ENOENT);
            },
        };
        if !matches!(file.get_type(), FileType::Directory) {
            return Err(Errno::ENOTDIR);
        }
        file.get_name().to_owned()
    };
    Ok(base.concat("/").concat(pathname))
}

/// What the opening of the file at location `location` with flags `flags`
/// makes of the file descriptors of a process, of the open file descriptions
/// and of the files: the file descriptor `id`, the lowest one that was free,
/// holds a new open file description of the file, with the cursor at its
/// beginning, and the file has one more description open on the ends that
/// the flags ask for.
pub open spec fn opened(
    before: &Process,
    after: &Process,
    files_before: &OpenFiles,
    files_after: &OpenFiles,
    vfs_before: &Vfs,
    vfs_after: &Vfs,
    location: FileLocation,
    flags: i32,
    id: usize,
) -> bool {
    &&& id < crate::limits::OPEN_MAX
    &&& crate::file::fd::lowest_free(before.file_descriptors@, id as int, 0)
    &&& after.file_descriptors.fd(id as int) matches Some(fd)
    &&& fd.flags == fd_flags(flags)
    &&& forall|k: int|
        k != id ==> #[trigger] after.file_descriptors.fd(k) == before.file_descriptors.fd(k)
    &&& files_before.lowest_unused(fd.open_file as int)
    &&& files_after.total() == files_before.total() + 1
    &&& files_after.slot(fd.open_file as int) == Some(
        Shared { open_file: OpenFile::new_spec(location, flags), refs: 1 },
    )
    &&& forall|k: int| k != fd.open_file ==> #[trigger] files_after.slot(k) == files_before.slot(k)
    &&& Vfs::counted_open(vfs_before, vfs_after, location, readable(flags), writable(flags), true)
}

/// The implementation of the `openat` system call: opens the file that the
/// path `pathname`, taken from the directory that the file descriptor `dirfd`
/// is open on, stands for, and returns the ID of a file descriptor that is
/// open on it.
///
/// If the file does not exist and the flags hold `O_CREAT`, a regular file
/// with no byte is created there, with mode `mode`, which the process owns;
/// `ts` is the current time.
///
/// The function fails:
/// - as [`path_error`] tells;
/// - or else with `ENOENT` if the file does not exist and is not to be
///   created;
/// - or else as [`open_error`] tells of the file;
/// - or else with `EMFILE` iff the process has as many file descriptors as
///   it may, or else with `ENFILE` iff as many file descriptors are open
///   system-wide as can be.
///
/// A function that fails changes nothing, but that the file may have been
/// created.
pub fn openat(
    proc: &mut Process,
    files: &mut OpenFiles,
    vfs: &mut Vfs,
    dirfd: i32,
    pathname: &str,
    flags: i32,
    mode: Mode,
    ts: u64,
) -> (r: EResult<usize>)
    requires
        old(proc).wf(),
        old(files).wf(),
        old(vfs).wf(),
    ensures
        final(proc).wf(),
        final(files).wf(),
        final(vfs).wf(),
        final(files).total_max() == old(files).total_max(),
        *final(proc) == (Process { file_descriptors: final(proc).file_descriptors, ..*old(proc) }),
        r.is_err() ==> final(proc).file_descriptors@ == old(proc).file_descriptors@ && final(files).total() == old(files).total() && (forall|k: int|
            #[trigger] final(files).slot(k) == old(files).slot(k)),
        path_error(old(proc), old(files), old(vfs), dirfd, pathname@) matches Some(e) ==> r == Err::<
            usize,
            Errno,
        >(e) && untouched(old(files), final(files), old(vfs), final(vfs)),
        path_error(old(proc), old(files), old(vfs), dirfd, pathname@).is_none() ==> ({
            let path = full_path(old(proc), old(files), old(vfs), dirfd, pathname@);
            match old(vfs).lookup(path) {
                Some(i) => {
                    let location = FileLocation { mountpoint_id: ROOT_MOUNTPOINT, inode: i as u64 };
                    let stat = old(vfs).file(i)->0.stat();
                    match open_error(old(proc), stat, flags) {
                        Some(e) => r == Err::<usize, Errno>(e) && untouched(
                            old(files),
                            final(files),
                            old(vfs),
                            final(vfs),
                        ),
                        None => match r {
                            Ok(id) => opened(
                                old(proc),
                                final(proc),
                                old(files),
                                final(files),
                                old(vfs),
                                final(vfs),
                                location,
                                flags,
                                id,
                            ),
                            Err(e) => e == (if crate::file::fd::self_full(
                                old(proc).file_descriptors@,
                            ) {
                                Errno::EMFILE
                            } else {
                                Errno::ENFILE
                            }) && (crate::file::fd::self_full(old(proc).file_descriptors@) || old(files).total() == old(files).total_max()) && untouched(
                                old(files),
                                final(files),
                                old(vfs),
                                final(vfs),
                            ),
                        },
                    }
                },
                None => if flags & O_CREAT == 0 {
                    r == Err::<usize, Errno>(Errno::ENOENT) && untouched(
                        old(files),
                        final(files),
                        old(vfs),
                        final(vfs),
                    )
                } else {
                    &&& final(vfs).lookup(path) matches Some(i)
                    &&& old(vfs).lowest_unused(i)
                    &&& final(vfs).file(i) matches Some(f)
                    &&& f.name() == path
                    &&& f.stat() == created_stat(old(proc), mode, ts)
                    &&& f.bytes() == Some(Seq::<u8>::empty())
                    &&& forall|k: int| k != i ==> #[trigger] final(vfs).file(k) == old(vfs).file(k)
                    &&& forall|other: Seq<char>|
                        other != path ==> #[trigger] final(vfs).lookup(other) == old(vfs).lookup(
                            other,
                        )
                    &&& match open_error(old(proc), created_stat(old(proc), mode, ts), flags) {
                        Some(e) => r == Err::<usize, Errno>(e),
                        None => match r {
                            Ok(id) => {
                                let fd = final(proc).file_descriptors.fd(id as int)->0;
                                &&& id < crate::limits::OPEN_MAX
                                &&& crate::file::fd::lowest_free(
                                    old(proc).file_descriptors@,
                                    id as int,
                                    0,
                                )
                                &&& final(proc).file_descriptors.fd(id as int).is_some()
                                &&& fd.flags == fd_flags(flags)
                                &&& final(files).slot(fd.open_file as int) == Some(
                                    Shared {
                                        open_file: OpenFile::new_spec(
                                            FileLocation {
                                                mountpoint_id: ROOT_MOUNTPOINT,
                                                inode: i as u64,
                                            },
                                            flags,
                                        ),
                                        refs: 1,
                                    },
                                )
                            },
                            Err(e) => e == (if crate::file::fd::self_full(
                                old(proc).file_descriptors@,
                            ) {
                                Errno::EMFILE
                            } else {
                                Errno::ENFILE
                            }) && (crate::file::fd::self_full(old(proc).file_descriptors@) || old(files).total() == old(files).total_max()),
                        },
                    }
                },
            }
        }),
{
    let path = match get_path(proc, files, vfs, dirfd, pathname) {
        Ok(path) => path,
        Err(e) => {
            return Err(e);
        },
    };
    let ghost name = path@;
    // Get file
    let create = flags & O_CREAT != 0;
    let location = match vfs.find(&path) {
        Some(i) => FileLocation { mountpoint_id: ROOT_MOUNTPOINT, inode: i as u64 },
        None => {
            if !create {
                return Err(Errno::ENOENT);
            }
            let mut stat = Stat::default();
            stat.mode = mode;
            stat.uid = proc.access_profile.get_euid();
            stat.gid = proc.access_profile.get_egid();
            stat.ctime = ts;
            stat.mtime = ts;
            stat.atime = ts;
            let content: Vec<u8> = Vec::new();
            match vfs.create_file(path, stat, FileContent::Regular(content)) {
                Ok(location) => location,
                Err(e) => {
                    return Err(e);
                },
            }
        },
    };
    let ghost vfs1 = *vfs;
    let stat = match vfs.get_file_from_location(location) {
        Some(file) => file.get_stat(),
        None => {
            return Err(Errno::ENOENT);
        },
    };
    if flags & O_DIRECTORY != 0 && !matches!(stat.file_type, FileType::Directory) {
        return Err(Errno::ENOTDIR);
    }
    if (can_read(flags) && !proc.access_profile.can_read_file(&stat)) || (can_write(flags)
        && !proc.access_profile.can_write_file(&stat)) {
        return Err(Errno::EACCES);
    }
    let open_file = OpenFile::new(location, flags);
    // Create FD
    let fd_flags = if flags & O_CLOEXEC != 0 {
        FD_CLOEXEC
    } else {
        0
    };
    let id = match proc.create_fd(files, fd_flags, open_file) {
        Ok((id, _)) => id,
        Err(e) => {
            return Err(e);
        },
    };
    vfs.count_open(location, can_read(flags), can_write(flags), true);
    proof {
        if old(vfs).lookup(name).is_none() {
            let i = location.inode as int;
            assert(vfs1.lookup(name) == Some(i));
            assert(vfs.lookup(name) == Some(i));
            assert(vfs1.file(i)->0.bytes()->0 =~= Seq::<u8>::empty());
            assert forall|k: int| k != i implies #[trigger] vfs.file(k) == old(vfs).file(k) by {
                assert(vfs1.file(k) == old(vfs).file(k));
            }
            assert forall|other: Seq<char>| other != name implies #[trigger] vfs.lookup(other)
                == old(vfs).lookup(other) by {
                assert(vfs1.lookup(other) == old(vfs).lookup(other));
            }
        }
    }
    Ok(id as usize)
}

} // verus!
