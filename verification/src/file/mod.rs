//! Files.
//!
//! A file is identified by its location: the filesystem that holds it and
//! its inode. It carries its status and what stands behind it: bytes, the
//! buffer of a pipe or of a socket, or the numbers of a device.

pub mod buffer;
pub mod fd;
pub mod fs;
pub mod open_file;
pub mod perm;
pub mod vfs;

use vstd::prelude::*;
use crate::errno::{EResult, Errno};
use buffer::pipe::{least, PipeBuffer};
use buffer::socket::Socket;

verus! {

/// The ID of a user.
pub type Uid = u16;

/// The ID of a group.
pub type Gid = u16;

/// The mode of a file.
pub type Mode = u32;

/// The number of a node on a filesystem.
pub type INode = u64;

/// The maximum length of a filename.
pub const MAX_NAME_LENGTH: usize = 255;

/// Mode: the owner may read, write and execute.
pub const S_IRWXU: Mode = 0o0700;

/// Mode: the owner may read.
pub const S_IRUSR: Mode = 0o0400;

/// Mode: the owner may write.
pub const S_IWUSR: Mode = 0o0200;

/// Mode: the owner may execute.
pub const S_IXUSR: Mode = 0o0100;

/// Mode: the group may read, write and execute.
pub const S_IRWXG: Mode = 0o0070;

/// Mode: the group may read.
pub const S_IRGRP: Mode = 0o0040;

/// Mode: the group may write.
pub const S_IWGRP: Mode = 0o0020;

/// Mode: the group may execute.
pub const S_IXGRP: Mode = 0o0010;

/// Mode: the others may read, write and execute.
pub const S_IRWXO: Mode = 0o0007;

/// Mode: the others may read.
pub const S_IROTH: Mode = 0o0004;

/// Mode: the others may write.
pub const S_IWOTH: Mode = 0o0002;

/// Mode: the others may execute.
pub const S_IXOTH: Mode = 0o0001;

/// Mode: the file runs as its owner.
pub const S_ISUID: Mode = 0o4000;

/// Mode: the file runs as its group.
pub const S_ISGID: Mode = 0o2000;

/// Mode: the sticky bit.
pub const S_ISVTX: Mode = 0o1000;

/// The location of a file: the filesystem that holds it and its inode.
#[derive(Clone, Copy, Debug, PartialEq, Eq, Structural)]
pub struct FileLocation {
    /// The ID of the mountpoint of the filesystem.
    pub mountpoint_id: u32,
    /// The inode of the file on the filesystem.
    pub inode: INode,
}

/// The type of a file.
#[derive(Clone, Copy, Debug, PartialEq, Eq, Structural)]
pub enum FileType {
    /// A regular file storing data.
    Regular,
    /// A directory, containing other files.
    Directory,
    /// A symbolic link, pointing to another file.
    Link,
    /// A named pipe.
    Fifo,
    /// A Unix domain socket.
    Socket,
    /// A Block device file.
    BlockDevice,
    /// A Character device file.
    CharDevice,
}

/// The status of a file.
#[derive(Clone, Copy, Debug, PartialEq, Eq, Structural)]
pub struct Stat {
    /// The type of the file.
    pub file_type: FileType,
    /// The mode of the file.
    pub mode: Mode,
    /// The number of links to the file.
    pub nlink: u16,
    /// The ID of the owner user.
    pub uid: Uid,
    /// The ID of the owner group.
    pub gid: Gid,
    /// The size of the file in bytes.
    pub size: u64,
    /// The major number of the device, if the file is a device file.
    pub dev_major: u32,
    /// The minor number of the device, if the file is a device file.
    pub dev_minor: u32,
    /// Timestamp of the last modification of the status.
    pub ctime: u64,
    /// Timestamp of the last modification of the file.
    pub mtime: u64,
    /// Timestamp of the last access to the file.
    pub atime: u64,
}

impl Stat {
    /// The status of an empty regular file that allows everything to
    /// anybody.
    pub open spec fn spec_default() -> Stat {
        Stat {
            file_type: FileType::Regular,
            mode: 0o777,
            nlink: 1,
            uid: 0,
            gid: 0,
            size: 0,
            dev_major: 0,
            dev_minor: 0,
            ctime: 0,
            mtime: 0,
            atime: 0,
        }
    }
}

impl Default for Stat {
    fn default() -> (s: Self)
        ensures
            s == Stat::spec_default(),
    {
        Stat {
            file_type: FileType::Regular,
            mode: 0o777,
            nlink: 1,
            uid: 0,
            gid: 0,
            size: 0,
            dev_major: 0,
            dev_minor: 0,
            ctime: 0,
            mtime: 0,
            atime: 0,
        }
    }
}

/// What stands behind a file.
pub enum FileContent {
    /// The bytes of a regular file.
    Regular(Vec<u8>),
    /// A directory.
    Directory,
    /// The target of a symbolic link.
    Link(String),
    /// The buffer of a pipe.
    Fifo(PipeBuffer),
    /// A socket.
    Socket(Socket),
    /// A block device.
    BlockDevice,
    /// A character device.
    CharDevice,
}

impl FileContent {
    /// The type of the files that have such a content.
    pub open spec fn file_type(&self) -> FileType {
        match self {
            FileContent::Regular(_) => FileType::Regular,
            FileContent::Directory => FileType::Directory,
            FileContent::Link(_) => FileType::Link,
            FileContent::Fifo(_) => FileType::Fifo,
            FileContent::Socket(_) => FileType::Socket,
            FileContent::BlockDevice => FileType::BlockDevice,
            FileContent::CharDevice => FileType::CharDevice,
        }
    }

    /// The content's invariant.
    pub open spec fn wf(&self) -> bool {
        match self {
            FileContent::Fifo(p) => p.wf(),
            _ => true,
        }
    }
}

/// Structure representing a file.
pub struct File {
    /// The location of the file.
    location: FileLocation,
    /// The name of the file.
    pub(crate) name: String,
    /// The status of the file.
    stat: Stat,
    /// What stands behind the file.
    content: FileContent,
}

/// The bytes of `data` from offset `off` on, `len` of them at most.
pub open spec fn window(data: Seq<u8>, off: int, len: int) -> Seq<u8> {
    if 0 <= off < data.len() {
        data.subrange(off, off + least(len, data.len() - off))
    } else {
        Seq::empty()
    }
}

/// The bytes `data` once `buf` has been written to them at offset `off`:
/// the bytes between the end of `data` and `off`, if any, are zeros.
pub open spec fn overwritten(data: Seq<u8>, off: int, buf: Seq<u8>) -> Seq<u8> {
    Seq::new(
        (if off + buf.len() > data.len() {
            off + buf.len()
        } else {
            data.len() as int
        }) as nat,
        |i: int|
            if off <= i < off + buf.len() {
                buf[i - off]
            } else if i < data.len() {
                data[i]
            } else {
                0u8
            },
    )
}

impl File {
    /// The location of the file.
    pub closed spec fn location(&self) -> FileLocation {
        self.location
    }

    /// The name of the file.
    pub closed spec fn name(&self) -> Seq<char> {
        self.name@
    }

    /// The status of the file.
    pub closed spec fn stat(&self) -> Stat {
        self.stat
    }

    /// The bytes of the file, if it is a regular file.
    pub closed spec fn bytes(&self) -> Option<Seq<u8>> {
        match self.content {
            FileContent::Regular(data) => Some(data@),
            _ => None,
        }
    }

    /// The bytes that wait in the pipe, if the file is a pipe.
    pub closed spec fn pipe(&self) -> Option<Seq<u8>> {
        match self.content {
            FileContent::Fifo(p) => Some(p@),
            _ => None,
        }
    }

    /// The number of descriptions that are open on the reading end of the
    /// pipe, if the file is a pipe.
    pub closed spec fn pipe_readers(&self) -> nat {
        match self.content {
            FileContent::Fifo(p) => p.readers(),
            _ => 0,
        }
    }

    /// The number of descriptions that are open on the writing end of the
    /// pipe, if the file is a pipe.
    pub closed spec fn pipe_writers(&self) -> nat {
        match self.content {
            FileContent::Fifo(p) => p.writers(),
            _ => 0,
        }
    }

    /// Whether the file is a socket that has a network stack.
    pub closed spec fn has_stack(&self) -> bool {
        match self.content {
            FileContent::Socket(s) => s.spec_stack().is_some(),
            _ => false,
        }
    }

    /// The file's invariant: its type is the one of its content, and its
    /// size is the number of its bytes.
    pub closed spec fn wf(&self) -> bool {
        &&& self.content.wf()
        &&& self.stat.file_type == self.content.file_type()
        &&& self.content matches FileContent::Regular(data) ==> self.stat.size == data@.len()
    }

    /// The type of a well-formed file tells what it stands for.
    pub proof fn lemma_type(&self)
        requires
            self.wf(),
        ensures
            self.bytes().is_some() <==> self.stat().file_type == FileType::Regular,
            self.pipe().is_some() <==> self.stat().file_type == FileType::Fifo,
            self.bytes() matches Some(data) ==> self.stat().size == data.len(),
            self.pipe() matches Some(data) ==> data.len() <= buffer::pipe::PIPE_CAPACITY,
            self.has_stack() ==> self.stat().file_type == FileType::Socket,
    {
        match self.content {
            FileContent::Fifo(p) => {
                p.lemma_len();
            },
            _ => {},
        }
    }

    /// Creates the file at `location` named `name`, which stands for
    /// `content`. The status is `stat`, but for the type and the size, which
    /// are those of `content`.
    pub fn new(location: FileLocation, name: String, stat: Stat, content: FileContent) -> (f: Self)
        requires
            content.wf(),
        ensures
            f.wf(),
            f.location() == location,
            f.name() == name@,
            f.stat() == (Stat {
                file_type: content.file_type(),
                size: match content {
                    FileContent::Regular(data) => data@.len() as u64,
                    _ => stat.size,
                },
                ..stat
            }),
            f.bytes() == match content {
                FileContent::Regular(data) => Some(data@),
                _ => None,
            },
            f.pipe() == match content {
                FileContent::Fifo(p) => Some(p@),
                _ => None,
            },
            content matches FileContent::Fifo(p) ==> f.pipe_readers() == p.readers()
                && f.pipe_writers() == p.writers(),
            f.has_stack() == (content matches FileContent::Socket(s) && s.spec_stack().is_some()),
    {
        let mut stat = stat;
        match &content {
            FileContent::Regular(data) => {
                stat.file_type = FileType::Regular;
                stat.size = data.len() as u64;
            },
            FileContent::Directory => {
                stat.file_type = FileType::Directory;
            },
            FileContent::Link(_) => {
                stat.file_type = FileType::Link;
            },
            FileContent::Fifo(_) => {
                stat.file_type = FileType::Fifo;
            },
            FileContent::Socket(_) => {
                stat.file_type = FileType::Socket;
            },
            FileContent::BlockDevice => {
                stat.file_type = FileType::BlockDevice;
            },
            FileContent::CharDevice => {
                stat.file_type = FileType::CharDevice;
            },
        }
        File { location, name, stat, content }
    }

    /// Returns the file's location.
    pub fn get_location(&self) -> (l: FileLocation)
        ensures
            l == self.location(),
    {
        self.location
    }

    /// Returns the file's name.
    pub fn get_name(&self) -> (n: &str)
        ensures
            n@ == self.name(),
    {
        self.name.as_str()
    }

    /// Returns the file's status.
    pub fn get_stat(&self) -> (s: Stat)
        ensures
            s == self.stat(),
    {
        self.stat
    }

    /// Returns the type of the file.
    pub fn get_type(&self) -> (t: FileType)
        ensures
            t == self.stat().file_type,
    {
        self.stat.file_type
    }

    /// Returns the size of the file in bytes.
    pub fn get_size(&self) -> (s: u64)
        ensures
            s == self.stat().size,
    {
        self.stat.size
    }

    /// Returns the owner user ID.
    pub fn get_uid(&self) -> (u: Uid)
        ensures
            u == self.stat().uid,
    {
        self.stat.uid
    }

    /// Returns the owner group ID.
    pub fn get_gid(&self) -> (g: Gid)
        ensures
            g == self.stat().gid,
    {
        self.stat.gid
    }

    /// Returns the file's mode.
    pub fn get_mode(&self) -> (m: Mode)
        ensures
            m == self.stat().mode,
    {
        self.stat.mode
    }

    /// Returns the number of bytes that wait in the pipe, if the file is a
    /// pipe.
    pub fn get_pipe_len(&self) -> (n: Option<usize>)
        ensures
            n == match self.pipe() {
                Some(queue) => Some(queue.len() as usize),
                None => None,
            },
    {
        match &self.content {
            FileContent::Fifo(p) => Some(p.get_data_len()),
            _ => None,
        }
    }

    /// Returns the number of descriptions that are open on the reading end
    /// of the pipe, if the file is a pipe, and zero if it is not.
    pub fn get_pipe_readers(&self) -> (n: u32)
        ensures
            n == self.pipe_readers(),
    {
        match &self.content {
            FileContent::Fifo(p) => p.get_readers(),
            _ => 0,
        }
    }

    /// Records that one more open file description reads from the file,
    /// writes to it or both. This matters to pipes only.
    pub fn increment_open(&mut self, read: bool, write: bool)
        requires
            old(self).wf(),
        ensures
            final(self).wf(),
            Self::same_but_ends(old(self), final(self)),
            old(self).pipe().is_some() ==> final(self).pipe_readers() == (if read && old(self).pipe_readers() < u32::MAX {
                old(self).pipe_readers() + 1
            } else {
                old(self).pipe_readers()
            }) && final(self).pipe_writers() == (if write && old(self).pipe_writers() < u32::MAX {
                old(self).pipe_writers() + 1
            } else {
                old(self).pipe_writers()
            }),
    {
        match &mut self.content {
            FileContent::Fifo(p) => {
                p.increment_open(read, write);
            },
            _ => {},
        }
    }

    /// Records that one open file description less reads from the file,
    /// writes to it or both. This matters to pipes only.
    pub fn decrement_open(&mut self, read: bool, write: bool)
        requires
            old(self).wf(),
        ensures
            final(self).wf(),
            Self::same_but_ends(old(self), final(self)),
            old(self).pipe().is_some() ==> final(self).pipe_readers() == (if read && old(self).pipe_readers() > 0 {
                old(self).pipe_readers() - 1
            } else {
                old(self).pipe_readers() as int
            }) && final(self).pipe_writers() == (if write && old(self).pipe_writers() > 0 {
                old(self).pipe_writers() - 1
            } else {
                old(self).pipe_writers() as int
            }),
    {
        match &mut self.content {
            FileContent::Fifo(p) => {
                p.decrement_open(read, write);
            },
            _ => {},
        }
    }

    /// Tells whether `after` is `before`, but for the ends of the pipe that
    /// are open.
    pub open spec fn same_but_ends(before: &File, after: &File) -> bool {
        &&& after.location() == before.location()
        &&& after.name() == before.name()
        &&& after.stat() == before.stat()
        &&& after.bytes() == before.bytes()
        &&& after.pipe() == before.pipe()
        &&& after.has_stack() == before.has_stack()
    }

    /// Tells whether `after` is `before`, but for its bytes and its size.
    pub open spec fn same_but_data(before: &File, after: &File) -> bool {
        &&& after.location() == before.location()
        &&& after.name() == before.name()
        &&& after.stat() == (Stat { size: after.stat().size, ..before.stat() })
        &&& after.pipe_readers() == before.pipe_readers()
        &&& after.pipe_writers() == before.pipe_writers()
        &&& after.has_stack() == before.has_stack()
    }

    /// Reads up to `len` bytes of the file from offset `off` on.
    ///
    /// From a regular file, the function returns the bytes that the file has
    /// there; from a pipe, the bytes that have waited longest, which leave
    /// the pipe, whatever the offset. The function fails with `EINVAL` on a
    /// file of another type.
    pub fn read_content(&mut self, off: u64, len: usize) -> (r: EResult<Vec<u8>>)
        requires
            old(self).wf(),
        ensures
            final(self).wf(),
            Self::same_but_data(old(self), final(self)),
            final(self).bytes() == old(self).bytes(),
            final(self).stat() == old(self).stat(),
            match r {
                Ok(data) => match old(self).pipe() {
                    Some(queue) => {
                        &&& data@ == queue.subrange(0, least(len as int, queue.len() as int))
                        &&& final(self).pipe() == Some(
                            queue.subrange(
                                least(len as int, queue.len() as int),
                                queue.len() as int,
                            ),
                        )
                    },
                    None => {
                        &&& old(self).bytes() matches Some(bytes)
                        &&& data@ == window(bytes, off as int, len as int)
                        &&& final(self).pipe().is_none()
                    },
                },
                Err(e) => {
                    &&& e == Errno::EINVAL
                    &&& old(self).pipe().is_none()
                    &&& old(self).bytes().is_none()
                    &&& final(self).pipe().is_none()
                },
            },
    {
        match &mut self.content {
            FileContent::Regular(bytes) => {
                let mut out: Vec<u8> = Vec::new();
                if off < bytes.len() as u64 {
                    let start = off as usize;
                    let n = if len < bytes.len() - start {
                        len
                    } else {
                        bytes.len() - start
                    };
                    let mut i: usize = 0;
                    let total = bytes.len();
                    while i < n
                        invariant
                            i <= n,
                            total == bytes@.len(),
                            start + n <= bytes@.len(),
                            out@ == bytes@.subrange(start as int, start + i),
                        decreases n - i,
                    {
                        out.push(bytes[start + i]);
                        assert(out@ =~= bytes@.subrange(start as int, start + i + 1));
                        i = i + 1;
                    }
                }
                assert(out@ =~= window(bytes@, off as int, len as int));
                Ok(out)
            },
            FileContent::Fifo(p) => Ok(p.read(len)),
            _ => Err(Errno::EINVAL),
        }
    }

    /// Writes the bytes `buf` to the file at offset `off`, and returns the
    /// number of bytes written.
    ///
    /// - To a regular file, all the bytes are written; the file grows if it
    ///   has to, and what lies between its end and `off` is zeros. The
    ///   function fails with `EINVAL` if the file would be longer than a file
    ///   can be.
    /// - To a pipe, the bytes are added to those that wait, as far as there
    ///   is room, whatever the offset. The function fails with `EPIPE` if no
    ///   description is open on the reading end.
    /// - To a socket, the function fails with `EDESTADDRREQ` if the socket
    ///   has no network stack, and writes nothing if it has one.
    /// - The function fails with `EINVAL` on a file of another type.
    ///
    /// A function that fails changes nothing.
    pub fn write_content(&mut self, off: u64, buf: &Vec<u8>) -> (r: EResult<usize>)
        requires
            old(self).wf(),
        ensures
            final(self).wf(),
            Self::same_but_data(old(self), final(self)),
            Self::written(old(self), final(self), off, buf@, r),
    {
        match &mut self.content {
            FileContent::Regular(bytes) => {
                if off > (usize::MAX - buf.len()) as u64 {
                    return Err(Errno::EINVAL);
                }
                let start = off as usize;
                let ghost before = bytes@;
                // Fill the hole before the offset
                while bytes.len() < start
                    invariant
                        bytes@.len() <= start || bytes@.len() == before.len(),
                        bytes@.len() >= before.len(),
                        forall|i: int| 0 <= i < before.len() ==> bytes@[i] == before[i],
                        forall|i: int| before.len() <= i < bytes@.len() ==> bytes@[i] == 0u8,
                    decreases start - bytes@.len(),
                {
                    bytes.push(0u8);
                }
                let mut i: usize = 0;
                while i < buf.len()
                    invariant
                        i <= buf@.len(),
                        start + buf@.len() <= usize::MAX,
                        bytes@.len() >= start,
                        bytes@.len() >= before.len(),
                        bytes@.len() == (if start + i > before.len() && start + i > start {
                            if before.len() > start {
                                if start + i > before.len() {
                                    start + i
                                } else {
                                    before.len() as int
                                }
                            } else {
                                start + i
                            }
                        } else if before.len() > start {
                            before.len() as int
                        } else {
                            start as int
                        }),
                        forall|k: int|
                            0 <= k < bytes@.len() ==> bytes@[k] == (if start <= k < start + i {
                                buf@[k - start]
                            } else if k < before.len() {
                                before[k]
                            } else {
                                0u8
                            }),
                    decreases buf@.len() - i,
                {
                    if start + i < bytes.len() {
                        bytes.set(start + i, buf[i]);
                    } else {
                        bytes.push(buf[i]);
                    }
                    i = i + 1;
                }
                assert(bytes@ =~= overwritten(before, off as int, buf@));
                self.stat.size = bytes.len() as u64;
                Ok(buf.len())
            },
            FileContent::Fifo(p) => p.write(buf),
            FileContent::Socket(s) => {
                // A destination address is required
                if s.stack().is_none() {
                    return Err(Errno::EDESTADDRREQ);
                }
                Ok(0)
            },
            _ => Err(Errno::EINVAL),
        }
    }

    /// What [`Self::write_content`] returns and does.
    pub open spec fn written(before: &File, after: &File, off: u64, buf: Seq<u8>, r: EResult<usize>) -> bool {
        let unchanged = after.bytes() == before.bytes() && after.pipe() == before.pipe()
            && after.stat() == before.stat();
        match before.stat().file_type {
            FileType::Regular => if off + buf.len() > usize::MAX {
                unchanged && r == Err::<usize, Errno>(Errno::EINVAL)
            } else {
                &&& r == Ok::<usize, Errno>(buf.len() as usize)
                &&& after.bytes() == Some(overwritten(before.bytes()->0, off as int, buf))
                &&& after.pipe().is_none()
            },
            FileType::Fifo => if before.pipe_readers() == 0 {
                unchanged && r == Err::<usize, Errno>(Errno::EPIPE)
            } else {
                let n = least(
                    buf.len() as int,
                    buffer::pipe::PIPE_CAPACITY - before.pipe()->0.len(),
                );
                &&& r == Ok::<usize, Errno>(n as usize)
                &&& after.pipe() == Some(before.pipe()->0 + buf.subrange(0, n))
                &&& after.bytes().is_none()
                &&& after.stat() == before.stat()
            },
            FileType::Socket => unchanged && r == if before.has_stack() {
                Ok::<usize, Errno>(0)
            } else {
                Err::<usize, Errno>(Errno::EDESTADDRREQ)
            },
            _ => unchanged && r == Err::<usize, Errno>(Errno::EINVAL),
        }
    }
}

} // verus!
