//! A filesystem is the representation of the file hierarchy on a storage
//! device.

pub mod procfs;
pub mod tmpfs;

use vstd::prelude::*;
use crate::device::DeviceIO;
use crate::errno::{EResult, Errno};
use crate::file::{File, FileType, INode};

verus! {

/// An entry of a directory.
pub struct DirEntry {
    /// The inode of the file.
    pub inode: INode,
    /// The type of the file.
    pub entry_type: FileType,
    /// The name of the file.
    pub name: String,
}

/// The operations of a node of a filesystem.
pub trait NodeOps {
    /// The type of the file of the node.
    spec fn file_type(&self) -> FileType;

    /// The bytes of the file of the node, if it has bytes.
    spec fn content(&self) -> Option<Seq<u8>>;

    /// Returns the type of the file of the node.
    fn get_file_type(&self) -> (t: FileType)
        ensures
            t == self.file_type(),
    ;

    /// Reads up to `len` bytes of the file of the node from offset `off` on.
    fn read_content(&self, off: u64, len: usize) -> (r: EResult<Vec<u8>>)
        ensures
            match self.content() {
                Some(bytes) => r matches Ok(data) && data@ == crate::file::window(
                    bytes,
                    off as int,
                    len as int,
                ),
                None => r.is_err(),
            },
    ;

    /// Writes the bytes `buf` to the file of the node at offset `off`.
    fn write_content(&mut self, off: u64, buf: &Vec<u8>) -> (r: EResult<u64>)
        ensures
            r matches Ok(n) ==> n <= buf@.len(),
    ;

    /// Returns the entry with name `name` of the directory of the node, if
    /// there is one, with its offset; the function fails with `ENOTDIR` if
    /// the node is no directory.
    fn entry_by_name(&self, name: &str) -> (r: EResult<Option<(DirEntry, u64)>>)
        ensures
            self.file_type() != FileType::Directory ==> r == Err::<Option<(DirEntry, u64)>, Errno>(
                Errno::ENOTDIR,
            ),
    ;

    /// Returns the entry at offset `off` of the directory of the node, or
    /// the first one after it, if there is one, with the offset of the next
    /// one; the function fails with `ENOTDIR` if the node is no directory.
    fn next_entry(&self, off: u64) -> (r: EResult<Option<(DirEntry, u64)>>)
        ensures
            self.file_type() != FileType::Directory ==> r == Err::<Option<(DirEntry, u64)>, Errno>(
                Errno::ENOTDIR,
            ),
    ;
}

/// Trait representing a filesystem.
pub trait Filesystem {
    /// Tells whether the filesystem is mounted in read-only.
    spec fn readonly(&self) -> bool;

    /// Tells whether the filesystem has a file with path `path`.
    spec fn has_file(&self, path: Seq<char>) -> bool;

    /// Returns the name of the filesystem.
    fn get_name(&self) -> String;

    /// Tells whether the filesystem is mounted in read-only.
    fn is_readonly(&self) -> (b: bool)
        ensures
            b == self.readonly(),
    ;

    /// Loads the file at path `path`.
    /// `io` is the I/O interface.
    /// `path` is the file's path.
    ///
    /// The function fails with `ENOENT` if there is no such file.
    fn load_file(&mut self, io: &mut Box<dyn DeviceIO>, path: &String) -> (r: EResult<File>)
        ensures
            final(self).readonly() == old(self).readonly(),
            forall|p: Seq<char>| #[trigger] final(self).has_file(p) == old(self).has_file(p),
            r matches Ok(f) ==> old(self).has_file(path@) && f.name() == path@,
            r matches Err(e) ==> !old(self).has_file(path@) && e == Errno::ENOENT,
    ;

    /// Adds a file to the filesystem.
    /// `io` is the I/O interface.
    /// `path` is the file's path.
    /// `content` is what the file holds.
    ///
    /// The function fails with `EACCES` if the filesystem is mounted in
    /// read-only, or else with `EEXIST` if there is such a file already.
    fn add_file(&mut self, io: &mut Box<dyn DeviceIO>, path: String, content: Vec<u8>) -> (r: EResult<
        (),
    >)
        ensures
            final(self).readonly() == old(self).readonly(),
            r == if old(self).readonly() {
                Err::<(), Errno>(Errno::EACCES)
            } else if old(self).has_file(path@) || path@.len() == 0 {
                Err::<(), Errno>(Errno::EEXIST)
            } else {
                Ok::<(), Errno>(())
            },
            forall|p: Seq<char>|
                #[trigger] final(self).has_file(p) == (old(self).has_file(p) || (r.is_ok() && p
                    == path@)),
    ;

    /// Removes a file from the filesystem.
    /// `io` is the I/O interface.
    /// `path` is the file's path.
    ///
    /// The function fails with `EACCES` if the filesystem is mounted in
    /// read-only, or else with `ENOENT` if there is no such file.
    fn remove_file(&mut self, io: &mut Box<dyn DeviceIO>, path: &String) -> (r: EResult<()>)
        ensures
            final(self).readonly() == old(self).readonly(),
            r == if old(self).readonly() {
                Err::<(), Errno>(Errno::EACCES)
            } else if !old(self).has_file(path@) {
                Err::<(), Errno>(Errno::ENOENT)
            } else {
                Ok::<(), Errno>(())
            },
            forall|p: Seq<char>|
                #[trigger] final(self).has_file(p) == (old(self).has_file(p) && !(r.is_ok() && p
                    == path@)),
    ;
}

/// Trait representing a filesystem type.
pub trait FilesystemType {
    /// Tells whether a device that holds the bytes `head` at its beginning
    /// has the current filesystem.
    spec fn recognizes(&self, head: Seq<u8>) -> bool;

    /// Returns the name of the filesystem.
    fn get_name(&self) -> String;

    /// Tells whether the device whose first block is `head` has the current
    /// filesystem.
    fn detect(&self, head: &Vec<u8>) -> (b: bool)
        ensures
            b == self.recognizes(head@),
    ;

    /// Creates a new filesystem on the device and returns its instance.
    fn create_filesystem(&self, io: &mut Box<dyn DeviceIO>) -> EResult<Box<dyn Filesystem>>;

    /// Creates a new instance of the filesystem.
    fn load_filesystem(&self, io: &mut Box<dyn DeviceIO>) -> EResult<Box<dyn Filesystem>>;
}

/// An entry of the list of filesystem types.
pub struct Registered<T> {
    /// The filesystem type.
    pub fs_type: T,
}

/// The list of filesystem types.
pub struct Filesystems {
    types: Vec<Registered<Box<dyn FilesystemType>>>,
}

impl Filesystems {
    /// The number of filesystem types that are registered.
    pub closed spec fn count(&self) -> nat {
        self.types@.len()
    }

    /// Tells whether the filesystem type of index `i` has a device that
    /// holds the bytes `head` at its beginning for one of its own.
    pub closed spec fn recognizes(&self, i: int, head: Seq<u8>) -> bool {
        0 <= i < self.types@.len() && self.types@[i].fs_type.recognizes(head)
    }

    /// Creates a list with no filesystem type.
    pub fn new() -> (f: Self)
        ensures
            f.count() == 0,
    {
        Filesystems { types: Vec::new() }
    }
}

/// Adds `entry` to the list, behind the entries that it has already.
fn enlist(filesystems: &mut Filesystems, entry: Registered<Box<dyn FilesystemType>>)
    ensures
        final(filesystems).count() == old(filesystems).count() + 1,
        forall|i: int, head: Seq<u8>|
            0 <= i < old(filesystems).count() ==> #[trigger] final(filesystems).recognizes(i, head)
                == old(filesystems).recognizes(i, head),
        forall|head: Seq<u8>|
            #[trigger] final(filesystems).recognizes(old(filesystems).count() as int, head)
                == entry.fs_type.recognizes(head),
{
    let ghost before = filesystems.types@;
    let ghost added = entry;
    filesystems.types.push(entry);
    proof {
        assert(filesystems.types@ == before.push(added));
        assert(before.push(added)[before.len() as int] == added);
        assert forall|i: int, head: Seq<u8>| 0 <= i < before.len() implies #[trigger]
            filesystems.recognizes(i, head) == old(filesystems).recognizes(i, head) by {
            assert(before.push(added)[i] == before[i]);
        }
    }
}

/// Registers a new filesystem type `fs_type`, behind those that are
/// registered already.
pub fn register(filesystems: &mut Filesystems, fs_type: Box<dyn FilesystemType>) -> (r: EResult<
    (),
>)
    ensures
        r.is_ok(),
        final(filesystems).count() == old(filesystems).count() + 1,
        forall|i: int, head: Seq<u8>|
            0 <= i < old(filesystems).count() ==> #[trigger] final(filesystems).recognizes(i, head)
                == old(filesystems).recognizes(i, head),
        forall|head: Seq<u8>|
            #[trigger] final(filesystems).recognizes(old(filesystems).count() as int, head)
                == fs_type.recognizes(head),
{
    let entry = Registered { fs_type };
    enlist(filesystems, entry);
    Ok(())
}

/// Detects the filesystem type on the device whose first block is `head`:
/// the function returns the index of the first filesystem type, in the order
/// of their registration, that has the device for one of its own. It fails
/// with `ENODEV` if there is none.
pub fn detect(filesystems: &Filesystems, head: &Vec<u8>) -> (r: EResult<usize>)
    ensures
        match r {
            Ok(i) => filesystems.recognizes(i as int, head@) && forall|k: int|
                0 <= k < i ==> !#[trigger] filesystems.recognizes(k, head@),
            Err(e) => e == Errno::ENODEV && forall|k: int|
                !#[trigger] filesystems.recognizes(k, head@),
        },
{
    let mut i: usize = 0;
    while i < filesystems.types.len()
        invariant
            i <= filesystems.types@.len(),
            forall|k: int| 0 <= k < i ==> !#[trigger] filesystems.recognizes(k, head@),
        decreases filesystems.types@.len() - i,
    {
        if filesystems.types[i].fs_type.detect(head) {
            return Ok(i);
        }
        i = i + 1;
    }
    Err(Errno::ENODEV)
}

/// Registers the filesystems that are implemented inside of the kernel
/// itself: the filesystem that keeps its files in memory.
/// This function must be called only once, at initialization.
pub fn register_defaults(filesystems: &mut Filesystems) -> (r: EResult<()>)
    ensures
        r.is_ok(),
        final(filesystems).count() == old(filesystems).count() + 1,
        forall|i: int, head: Seq<u8>|
            0 <= i < old(filesystems).count() ==> #[trigger] final(filesystems).recognizes(i, head)
                == old(filesystems).recognizes(i, head),
        forall|head: Seq<u8>|
            !#[trigger] final(filesystems).recognizes(old(filesystems).count() as int, head),
{
    enlist(filesystems, in_memory());
    Ok(())
}

/// Returns an entry for the filesystem that keeps its files in memory.
fn in_memory() -> (entry: Registered<Box<dyn FilesystemType>>)
    ensures
        forall|head: Seq<u8>| !#[trigger] entry.fs_type.recognizes(head),
{
    Registered { fs_type: Box::new(tmpfs::TmpFsType {  }) }
}

} // verus!
