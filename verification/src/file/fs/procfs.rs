//! The filesystem that shows the processes and the kernel as files.

use vstd::prelude::*;
use crate::errno::{EResult, Errno};
use crate::file::fs::{DirEntry, NodeOps};
use crate::file::{window, FileContent, FileType, Gid, Mode, Uid};
use crate::process::pid::Pid;
use crate::process::scheduler::{index_of, Scheduler};
use crate::process::Process;

verus! {

/// The version of the kernel.
pub const VERSION: [u8; 5] = [48, 46, 49, 46, 48];

/// What the `osrelease` file holds: the version of the kernel, and a line
/// feed.
pub open spec fn osrelease_content() -> Seq<u8> {
    VERSION@.push(10u8)
}

/// The `osrelease` file.
#[derive(Debug)]
pub struct OsRelease;

impl NodeOps for OsRelease {
    open spec fn file_type(&self) -> FileType {
        FileType::Regular
    }

    open spec fn content(&self) -> Option<Seq<u8>> {
        Some(osrelease_content())
    }

    fn get_file_type(&self) -> (t: FileType) {
        FileType::Regular
    }

    fn read_content(&self, off: u64, len: usize) -> (r: EResult<Vec<u8>>) {
        let mut bytes: Vec<u8> = Vec::new();
        let mut i: usize = 0;
        while i < 5
            invariant
                i <= 5,
                bytes@ == VERSION@.subrange(0, i as int),
            decreases 5 - i,
        {
            bytes.push(VERSION[i]);
            assert(bytes@ =~= VERSION@.subrange(0, i + 1));
            i = i + 1;
        }
        bytes.push(10u8);
        assert(bytes@ =~= osrelease_content());
        let mut out: Vec<u8> = Vec::new();
        if off < 6 {
            let start = off as usize;
            let n = if len < 6 - start {
                len
            } else {
                6 - start
            };
            let mut k: usize = 0;
            while k < n
                invariant
                    k <= n,
                    start + n <= 6,
                    bytes@.len() == 6,
                    out@ == bytes@.subrange(start as int, start + k),
                decreases n - k,
            {
                out.push(bytes[start + k]);
                assert(out@ =~= bytes@.subrange(start as int, start + k + 1));
                k = k + 1;
            }
        }
        assert(out@ =~= window(osrelease_content(), off as int, len as int));
        Ok(out)
    }

    /// The file cannot be written to: the function fails with `EACCES`.
    fn write_content(&mut self, _off: u64, _buf: &Vec<u8>) -> (r: EResult<u64>)
        ensures
            r == Err::<u64, Errno>(Errno::EACCES),
    {
        Err(Errno::EACCES)
    }

    fn entry_by_name(&self, _name: &str) -> (r: EResult<Option<(DirEntry, u64)>>) {
        Err(Errno::ENOTDIR)
    }

    fn next_entry(&self, _off: u64) -> (r: EResult<Option<(DirEntry, u64)>>) {
        Err(Errno::ENOTDIR)
    }
}

/// The `kernel` directory, which holds the `osrelease` file.
#[derive(Debug)]
pub struct KernelDir;

/// The inode of the `osrelease` file.
pub const OSRELEASE_INODE: u64 = 1;

/// Tells whether `entry` is the entry of the `osrelease` file: a regular
/// file with that name and with its inode.
pub open spec fn is_osrelease(entry: DirEntry) -> bool {
    &&& entry.inode == OSRELEASE_INODE
    &&& entry.entry_type == FileType::Regular
    &&& entry.name@ == "osrelease"@
}

impl KernelDir {
    /// Creates the entry of the `osrelease` file.
    fn osrelease_entry() -> (e: DirEntry)
        ensures
            is_osrelease(e),
    {
        DirEntry {
            inode: OSRELEASE_INODE,
            entry_type: FileType::Regular,
            name: "osrelease".to_owned(),
        }
    }
}

impl NodeOps for KernelDir {
    open spec fn file_type(&self) -> FileType {
        FileType::Directory
    }

    open spec fn content(&self) -> Option<Seq<u8>> {
        None
    }

    fn get_file_type(&self) -> (t: FileType) {
        FileType::Directory
    }

    /// A directory has no bytes to read: the function fails with `EINVAL`.
    fn read_content(&self, _off: u64, _len: usize) -> (r: EResult<Vec<u8>>)
        ensures
            r matches Err(e) && e == Errno::EINVAL,
    {
        Err(Errno::EINVAL)
    }

    /// A directory cannot be written to: the function fails with `EINVAL`.
    fn write_content(&mut self, _off: u64, _buf: &Vec<u8>) -> (r: EResult<u64>)
        ensures
            r == Err::<u64, Errno>(Errno::EINVAL),
    {
        Err(Errno::EINVAL)
    }

    /// The directory has one entry, that of the `osrelease` file, at offset
    /// zero: the function returns it iff `name` is its name.
    fn entry_by_name(&self, name: &str) -> (r: EResult<Option<(DirEntry, u64)>>)
        ensures
            r matches Ok(found) && match found {
                Some((entry, off)) => name@ == "osrelease"@ && is_osrelease(entry) && off == 0,
                None => name@ != "osrelease"@,
            },
    {
        let wanted = name.to_owned();
        let known = "osrelease".to_owned();
        if wanted == known {
            Ok(Some((Self::osrelease_entry(), 0)))
        } else {
            Ok(None)
        }
    }

    /// The directory has one entry, that of the `osrelease` file, at offset
    /// zero: the function returns it, with the offset one, iff `off` is
    /// zero, and no entry otherwise.
    fn next_entry(&self, off: u64) -> (r: EResult<Option<(DirEntry, u64)>>)
        ensures
            r matches Ok(found) && match found {
                Some((entry, next)) => off == 0 && is_osrelease(entry) && next == 1,
                None => off != 0,
            },
    {
        if off == 0 {
            Ok(Some((Self::osrelease_entry(), 1)))
        } else {
            Ok(None)
        }
    }
}

/// Structure representing the `exe` node, which is a link to the executable
/// file of the process.
#[derive(Debug)]
pub struct Exe {
    /// The PID of the process.
    pub pid: Pid,
}

impl Exe {
    /// The path that the node links to: that of the program that the process
    /// of the node executes, and an empty one if the process does not exist.
    pub open spec fn target(&self, scheduler: &Scheduler) -> Seq<char> {
        match index_of(scheduler.processes@, self.pid) {
            Some(i) => scheduler.processes@[i].exec_path@,
            None => Seq::empty(),
        }
    }

    /// Returns the content of the node: a link to the executable file of the
    /// process.
    pub fn get_content(&self, scheduler: &Scheduler) -> (r: EResult<FileContent>)
        requires
            scheduler.wf(),
        ensures
            r matches Ok(FileContent::Link(path)) && path@ == self.target(scheduler),
    {
        let content = match Process::get_by_pid(scheduler, self.pid) {
            Some(process) => process.exec_path.clone(),
            None => String::new(),
        };
        Ok(FileContent::Link(content))
    }

    /// Returns the mode of the node.
    pub fn get_mode(&self) -> (m: Mode)
        ensures
            m == 0o777,
    {
        0o777
    }

    /// Returns the ID of the user that owns the node: the effective user of
    /// the process `proc`, which is the process of the node if it exists.
    pub fn get_uid(&self, proc: Option<&Process>) -> (u: Uid)
        ensures
            u == match proc {
                Some(p) => p.access_profile.euid,
                None => 0,
            },
    {
        match proc {
            Some(p) => p.access_profile.get_euid(),
            None => 0,
        }
    }

    /// Returns the ID of the group that owns the node: the effective group
    /// of the process `proc`, which is the process of the node if it exists.
    pub fn get_gid(&self, proc: Option<&Process>) -> (g: Gid)
        ensures
            g == match proc {
                Some(p) => p.access_profile.egid,
                None => 0,
            },
    {
        match proc {
            Some(p) => p.access_profile.get_egid(),
            None => 0,
        }
    }

    /// Returns the size of the node, which has no byte.
    pub fn get_size(&self) -> (s: u64)
        ensures
            s == 0,
    {
        0
    }

    /// Reads from the node, which cannot be read from.
    pub fn read(&mut self, _offset: u64, _len: usize) -> (r: EResult<(u64, bool)>)
        ensures
            r == Err::<(u64, bool), Errno>(Errno::EINVAL),
            *final(self) == *old(self),
    {
        Err(Errno::EINVAL)
    }

    /// Writes to the node, which cannot be written to.
    pub fn write(&mut self, _offset: u64, _buf: &Vec<u8>) -> (r: EResult<u64>)
        ensures
            r == Err::<u64, Errno>(Errno::EINVAL),
            *final(self) == *old(self),
    {
        Err(Errno::EINVAL)
    }

    /// Polls the node, which cannot be polled.
    pub fn poll(&mut self, _mask: u32) -> (r: EResult<u32>)
        ensures
            r == Err::<u32, Errno>(Errno::EINVAL),
            *final(self) == *old(self),
    {
        Err(Errno::EINVAL)
    }
}

} // verus!
