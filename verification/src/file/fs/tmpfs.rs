//! The filesystem that keeps its files in memory.

use vstd::prelude::*;
use crate::device::DeviceIO;
use crate::errno::{EResult, Errno};
use crate::file::fs::{Filesystem, FilesystemType};
use crate::file::{File, FileContent, Stat};

verus! {

/// A filesystem that keeps its files in memory.
pub struct TmpFs {
    /// Whether the filesystem is mounted in read-only.
    readonly: bool,
    /// The paths of the files of the filesystem.
    names: Vec<String>,
    /// The bytes of the files of the filesystem, in the order of their
    /// paths.
    contents: Vec<Vec<u8>>,
}

impl TmpFs {
    /// Creates a filesystem with no file.
    pub fn new(readonly: bool) -> (fs: Self)
        ensures
            fs.readonly() == readonly,
            forall|p: Seq<char>| !#[trigger] fs.has_file(p),
    {
        TmpFs { readonly, names: Vec::new(), contents: Vec::new() }
    }

    /// Tells whether file `i` of the filesystem has path `path`.
    spec fn named(&self, i: int, path: Seq<char>) -> bool {
        0 <= i < self.names@.len() && self.names@[i]@ == path
    }

    /// Returns the index of the first file with path `path`, if there is
    /// one.
    fn find(&self, path: &String) -> (r: Option<usize>)
        ensures
            match r {
                Some(i) => self.named(i as int, path@),
                None => forall|k: int| !#[trigger] self.named(k, path@),
            },
    {
        let mut i: usize = 0;
        while i < self.names.len()
            invariant
                i <= self.names@.len(),
                forall|k: int| 0 <= k < i ==> !#[trigger] self.named(k, path@),
            decreases self.names@.len() - i,
        {
            if self.names[i] == *path {
                return Some(i);
            }
            i = i + 1;
        }
        None
    }

    /// Returns a copy of the bytes `v`.
    fn copy_bytes(v: &Vec<u8>) -> (r: Vec<u8>)
        ensures
            r@ == v@,
    {
        let mut r: Vec<u8> = Vec::new();
        let mut i: usize = 0;
        while i < v.len()
            invariant
                i <= v@.len(),
                r@ == v@.subrange(0, i as int),
            decreases v@.len() - i,
        {
            r.push(v[i]);
            assert(r@ =~= v@.subrange(0, i + 1));
            i = i + 1;
        }
        assert(v@.subrange(0, v@.len() as int) =~= v@);
        r
    }
}

impl Filesystem for TmpFs {
    closed spec fn readonly(&self) -> bool {
        self.readonly
    }

    closed spec fn has_file(&self, path: Seq<char>) -> bool {
        exists|i: int| self.named(i, path)
    }

    fn get_name(&self) -> String {
        "tmpfs".to_owned()
    }

    fn is_readonly(&self) -> (b: bool) {
        self.readonly
    }

    fn load_file(&mut self, _io: &mut Box<dyn DeviceIO>, path: &String) -> (r: EResult<File>) {
        let i = match self.find(path) {
            Some(i) => i,
            None => {
                return Err(Errno::ENOENT);
            },
        };
        let location = crate::file::FileLocation {
            mountpoint_id: crate::file::vfs::ROOT_MOUNTPOINT,
            inode: i as u64,
        };
        let bytes = if i < self.contents.len() {
            Self::copy_bytes(&self.contents[i])
        } else {
            Vec::new()
        };
        Ok(File::new(location, path.clone(), Stat::default(), FileContent::Regular(bytes)))
    }

    fn add_file(&mut self, _io: &mut Box<dyn DeviceIO>, path: String, content: Vec<u8>) -> (r: EResult<
        (),
    >) {
        if self.readonly {
            return Err(Errno::EACCES);
        }
        if path.as_str().is_empty() || self.find(&path).is_some() {
            return Err(Errno::EEXIST);
        }
        let ghost name = path@;
        let ghost before = *self;
        self.names.push(path);
        self.contents.push(content);
        proof {
            assert(self.named(before.names@.len() as int, name));
            assert forall|p: Seq<char>| #[trigger]
                self.has_file(p) == (before.has_file(p) || p == name) by {
                if before.has_file(p) {
                    let k = choose|k: int| before.named(k, p);
                    assert(self.named(k, p));
                }
                if self.has_file(p) && p != name {
                    let k = choose|k: int| self.named(k, p);
                    assert(before.named(k, p));
                }
            }
        }
        Ok(())
    }

    fn remove_file(&mut self, _io: &mut Box<dyn DeviceIO>, path: &String) -> (r: EResult<()>) {
        if self.readonly {
            return Err(Errno::EACCES);
        }
        if self.find(path).is_none() {
            return Err(Errno::ENOENT);
        }
        let ghost before = *self;
        let mut i: usize = 0;
        while i < self.names.len()
            invariant
                i <= self.names@.len(),
                self.readonly == before.readonly,
                forall|k: int| 0 <= k < i ==> !#[trigger] self.named(k, path@),
                forall|p: Seq<char>|
                    p != path@ ==> #[trigger] self.has_file(p) == before.has_file(p),
            decreases self.names@.len() - i,
        {
            if self.names[i] == *path {
                let ghost old_self = *self;
                let _ = self.names.remove(i);
                if i < self.contents.len() {
                    let _ = self.contents.remove(i);
                }
                proof {
                    old_self.names@.remove_ensures(i as int);
                    assert forall|k: int| 0 <= k < i implies !#[trigger] self.named(k, path@) by {
                        assert(!old_self.named(k, path@));
                    }
                    assert forall|p: Seq<char>| p != path@ implies #[trigger] self.has_file(p)
                        == before.has_file(p) by {
                        if old_self.has_file(p) {
                            let k = choose|k: int| old_self.named(k, p);
                            if k < i {
                                assert(self.named(k, p));
                            } else {
                                assert(self.named(k - 1, p));
                            }
                        }
                        if self.has_file(p) {
                            let k = choose|k: int| self.named(k, p);
                            if k < i {
                                assert(old_self.named(k, p));
                            } else {
                                assert(old_self.named(k + 1, p));
                            }
                        }
                    }
                }
            } else {
                i = i + 1;
            }
        }
        Ok(())
    }
}

/// Returns the filesystem `fs` as what the creation of a filesystem gives
/// when it succeeds.
fn made<T: ?Sized + Filesystem>(fs: Box<T>) -> (r: EResult<Box<T>>)
    ensures
        r matches Ok(m) && m.readonly() == fs.readonly() && forall|p: Seq<char>|
            #[trigger] m.has_file(p) == fs.has_file(p),
{
    Ok(fs)
}

/// The type of the filesystems that keep their files in memory. No device
/// has such a filesystem.
pub struct TmpFsType {}

impl FilesystemType for TmpFsType {
    open spec fn recognizes(&self, head: Seq<u8>) -> bool {
        false
    }

    fn get_name(&self) -> String {
        "tmpfs".to_owned()
    }

    fn detect(&self, _head: &Vec<u8>) -> (b: bool) {
        false
    }

    /// Creates a filesystem in memory, which has no file and can be written
    /// to. The device is not used.
    fn create_filesystem(&self, _io: &mut Box<dyn DeviceIO>) -> (r: EResult<Box<dyn Filesystem>>)
        ensures
            r matches Ok(fs) && !fs.readonly() && forall|p: Seq<char>| !#[trigger] fs.has_file(p),
    {
        let inner = TmpFs::new(false);
        let fs: Box<dyn Filesystem> = Box::new(inner);
        assert(!fs.readonly());
        assert(forall|p: Seq<char>| !#[trigger] fs.has_file(p));
        let r = made(fs);
        r
    }

    /// Creates a filesystem in memory, which has no file and can be written
    /// to: nothing of it is kept on a device. The device is not used.
    fn load_filesystem(&self, _io: &mut Box<dyn DeviceIO>) -> (r: EResult<Box<dyn Filesystem>>)
        ensures
            r matches Ok(fs) && !fs.readonly() && forall|p: Seq<char>| !#[trigger] fs.has_file(p),
    {
        let inner = TmpFs::new(false);
        let fs: Box<dyn Filesystem> = Box::new(inner);
        assert(!fs.readonly());
        assert(forall|p: Seq<char>| !#[trigger] fs.has_file(p));
        let r = made(fs);
        r
    }
}

} // verus!
