//! The `socket` system call allows to create a socket.

use vstd::prelude::*;
use crate::errno::{EResult, Errno};
use crate::file::buffer::socket::Socket;
use crate::file::open_file::{OpenFile, OpenFiles, O_RDWR};
use crate::file::vfs::Vfs;
use crate::file::{FileContent, FileType, Stat};
use crate::net::{domain_of, type_of, SocketDesc, SocketDomain, SocketType};
use crate::process::Process;

verus! {

/// The error that the creation of a socket of domain `domain` and of type
/// `type_` by a process with profile `proc` fails with, if it fails before
/// anything is created: `EINVAL` if the domain or the type stands for none,
/// or else `EACCES` if the process may not use them.
pub open spec fn refusal(proc: &Process, domain: i32, type_: i32) -> Option<Errno> {
    if domain < 0 || type_ < 0 || domain_of(domain as u32).is_none() || type_of(
        type_ as u32,
    ).is_none() {
        Some(Errno::EINVAL)
    } else if !proc.access_profile.privileged() && (domain_of(domain as u32) == Some(
        SocketDomain::AfPacket,
    ) || type_of(type_ as u32) == Some(SocketType::SockRaw)) {
        Some(Errno::EACCES)
    } else {
        None
    }
}

/// The status of the file of a socket.
pub open spec fn socket_stat() -> Stat {
    Stat { file_type: FileType::Socket, mode: 0o666, ..Stat::spec_default() }
}

/// Creates a socket of the given domain, type and protocol, and returns the
/// ID of a file descriptor that is open on it for reading and writing: the
/// lowest one that is free.
///
/// The function fails, and changes nothing, as [`refusal`] tells, or else
/// with `EMFILE` if the process has as many file descriptors as it may, or
/// else with `ENFILE` if as many file descriptors are open system-wide as
/// can be.
pub fn socket(
    proc: &mut Process,
    files: &mut OpenFiles,
    vfs: &mut Vfs,
    domain: i32,
    type_: i32,
    protocol: i32,
) -> (r: EResult<usize>)
    requires
        old(proc).wf(),
        old(files).wf(),
        old(vfs).wf(),
    ensures
        final(proc).wf(),
        final(files).wf(),
        final(vfs).wf(),
        final(files).total_max() == old(files).total_max(),
        *final(proc) == (Process { file_descriptors: final(proc).file_descriptors, ..*old(proc) }),
        forall|path: Seq<char>| #[trigger] final(vfs).lookup(path) == old(vfs).lookup(path),
        r matches Err(_) ==> final(proc).file_descriptors@ == old(proc).file_descriptors@
            && crate::syscall::untouched(old(files), final(files), old(vfs), final(vfs)),
        refusal(old(proc), domain, type_) matches Some(e) ==> r == Err::<usize, Errno>(e),
        refusal(old(proc), domain, type_).is_none() ==> match r {
            Ok(id) => {
                &&& id < crate::limits::OPEN_MAX
                &&& crate::file::fd::lowest_free(old(proc).file_descriptors@, id as int, 0)
                &&& final(proc).file_descriptors.fd(id as int) matches Some(fd)
                &&& fd.flags == 0
                &&& forall|k: int|
                    k != id ==> #[trigger] final(proc).file_descriptors.fd(k) == old(
                        proc,
                    ).file_descriptors.fd(k)
                &&& old(files).lowest_unused(fd.open_file as int)
                &&& final(files).total() == old(files).total() + 1
                &&& final(files).slot(fd.open_file as int) matches Some(s)
                &&& s.refs == 1
                &&& s.open_file.flags == O_RDWR
                &&& s.open_file.off == 0
                &&& s.open_file.location.mountpoint_id == crate::file::vfs::ROOT_MOUNTPOINT
                &&& old(vfs).lowest_unused(s.open_file.location.inode as int)
                &&& final(vfs).target(s.open_file.location) matches Some(f)
                &&& f.stat() == socket_stat()
                &&& f.name().len() == 0
                &&& !f.has_stack()
                &&& forall|k: int|
                    k != fd.open_file ==> #[trigger] final(files).slot(k) == old(files).slot(k)
                &&& forall|k: int|
                    k != s.open_file.location.inode ==> #[trigger] final(vfs).file(k) == old(
                        vfs,
                    ).file(k)
            },
            Err(e) => e == if crate::file::fd::self_full(old(proc).file_descriptors@) {
                Errno::EMFILE
            } else {
                Errno::ENFILE
            } && (crate::file::fd::self_full(old(proc).file_descriptors@) || old(files).total()
                == old(files).total_max()),
        },
{
    if domain < 0 || type_ < 0 {
        return Err(Errno::EINVAL);
    }
    let sock_domain = match SocketDomain::try_from(domain as u32) {
        Ok(d) => d,
        Err(e) => {
            return Err(e);
        },
    };
    let sock_type = match SocketType::try_from(type_ as u32) {
        Ok(t) => t,
        Err(e) => {
            return Err(e);
        },
    };
    if !proc.access_profile.can_use_sock_domain(&sock_domain)
        || !proc.access_profile.can_use_sock_type(&sock_type) {
        return Err(Errno::EACCES);
    }
    let desc = SocketDesc { domain: sock_domain, type_: sock_type, protocol };
    let sock = Socket::new(desc);
    // Get file
    let stat = sock.get_stat();
    let name = String::new();
    assert(name@.len() == 0);
    assert(old(vfs).lookup(name@).is_none()) by {
        assert(forall|k: int| !old(vfs).named(k, name@));
    }
    let location = match vfs.create_file(name, stat, FileContent::Socket(sock)) {
        Ok(location) => location,
        Err(_) => {
            return Err(Errno::ENFILE);
        },
    };
    let ghost mid = *vfs;
    let open_file = OpenFile::new(location, O_RDWR);
    match proc.create_fd(files, 0, open_file) {
        Ok((id, _)) => Ok(id as usize),
        Err(e) => {
            vfs.remove_file(location);
            proof {
                assert forall|k: int| #[trigger] vfs.file(k) == old(vfs).file(k) by {
                    assert(mid.file(k) == old(vfs).file(k) || k == location.inode);
                }
                assert forall|path: Seq<char>| #[trigger] vfs.lookup(path) == old(vfs).lookup(
                    path,
                ) by {
                    if path.len() > 0 {
                        assert(mid.lookup(path) == old(vfs).lookup(path));
                    } else {
                        assert(forall|k: int| !vfs.named(k, path));
                        assert(forall|k: int| !old(vfs).named(k, path));
                    }
                }
            }
            Err(e)
        },
    }
}

} // verus!
