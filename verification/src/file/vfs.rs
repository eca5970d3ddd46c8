//! The files of the system, by their paths.
//!
//! The files are kept in one table: the inode of a file is its index in the
//! table, and no two files have the same path.

use vstd::prelude::*;
use crate::errno::{EResult, Errno};
use crate::file::{File, FileContent, FileLocation, Stat};

verus! {

/// The ID of the mountpoint of the files of the table.
pub const ROOT_MOUNTPOINT: u32 = 0;

/// The files of the system.
pub struct Vfs {
    files: Vec<Option<File>>,
}

/// The result of the resolution of a path.
#[derive(Clone, Copy, Debug, PartialEq, Eq, Structural)]
pub enum Resolved {
    /// The path names the file at the given location.
    Found(FileLocation),
    /// The path names no file, and one can be created there.
    Creatable,
}

/// The number of descriptions that are open on an end of a pipe on which `n`
/// were: one more, or one less if `open` is not set, if the end is
/// `touched`.
pub open spec fn ends_after(n: nat, touched: bool, open: bool) -> int {
    if !touched {
        n as int
    } else if open {
        if n < u32::MAX {
            (n + 1) as int
        } else {
            n as int
        }
    } else if n > 0 {
        (n - 1) as int
    } else {
        0
    }
}

impl Vfs {
    /// The file with inode `inode`, if there is one.
    pub closed spec fn file(&self, inode: int) -> Option<File> {
        if 0 <= inode < self.files@.len() {
            self.files@[inode]
        } else {
            None
        }
    }

    /// Tells whether the file with inode `inode` exists and has path `path`.
    /// A file whose path is empty has no name: no path names it.
    pub open spec fn named(&self, inode: int, path: Seq<char>) -> bool {
        self.file(inode) matches Some(f) && f.name() == path && path.len() > 0
    }

    /// The inode of the file with path `path`, if there is one.
    pub open spec fn lookup(&self, path: Seq<char>) -> Option<int> {
        if exists|i: int| self.named(i, path) {
            Some(choose|i: int| self.named(i, path))
        } else {
            None
        }
    }

    /// The status of the file with path `path`, if there is one.
    pub open spec fn stat_at(&self, path: Seq<char>) -> Option<Stat> {
        match self.lookup(path) {
            Some(i) => Some(self.file(i)->0.stat()),
            None => None,
        }
    }

    /// Tells whether the file with inode `i`, if there is one, is in order:
    /// it is well-formed and it knows its place.
    pub open spec fn file_ok(&self, i: int) -> bool {
        self.file(i) matches Some(f) ==> f.wf() && f.location() == (FileLocation {
            mountpoint_id: ROOT_MOUNTPOINT,
            inode: i as u64,
        })
    }

    /// The table's invariant: every file is in order, and no two files have
    /// the same path.
    pub closed spec fn wf(&self) -> bool {
        &&& forall|i: int| #[trigger] self.file_ok(i)
        &&& forall|i: int, j: int, path: Seq<char>|
            #[trigger] self.named(i, path) && #[trigger] self.named(j, path) ==> i == j
    }

    /// In a well-formed table, a path names one file at most, which is in
    /// order.
    pub proof fn lemma_lookup(&self, i: int, path: Seq<char>)
        requires
            self.wf(),
            self.named(i, path),
        ensures
            self.lookup(path) == Some(i),
            self.file_ok(i),
    {
        let j = choose|j: int| self.named(j, path);
        assert(self.named(j, path));
    }

    /// In a well-formed table, every file is in order.
    pub proof fn lemma_file_ok(&self, i: int)
        requires
            self.wf(),
        ensures
            self.file_ok(i),
    {
    }

    /// Creates a table with no file.
    pub fn new() -> (v: Self)
        ensures
            v.wf(),
            forall|i: int| #[trigger] v.file(i).is_none(),
            forall|path: Seq<char>| #[trigger] v.lookup(path).is_none(),
    {
        Vfs { files: Vec::new() }
    }

    /// Returns the inode of the file with path `path`, if there is one.
    pub fn find(&self, path: &String) -> (r: Option<usize>)
        requires
            self.wf(),
        ensures
            match r {
                Some(i) => self.lookup(path@) == Some(i as int) && self.file(i as int).is_some(),
                None => self.lookup(path@).is_none(),
            },
    {
        if path.as_str().is_empty() {
            return None;
        }
        let mut i: usize = 0;
        while i < self.files.len()
            invariant
                self.wf(),
                path@.len() > 0,
                i <= self.files@.len(),
                forall|k: int| 0 <= k < i ==> !#[trigger] self.named(k, path@),
            decreases self.files@.len() - i,
        {
            let hit = match &self.files[i] {
                Some(f) => f.name == *path,
                None => false,
            };
            if hit {
                proof {
                    self.lemma_lookup(i as int, path@);
                }
                return Some(i);
            }
            i = i + 1;
        }
        assert forall|k: int| !self.named(k, path@) by {
            if 0 <= k < i {
                assert(!self.named(k, path@));
            }
        }
        None
    }

    /// Resolves the path `path`: tells which file it names, or that it names
    /// none and that one can be created there, if `create` is set. The
    /// function fails with `ENOENT` if the path names no file and `create`
    /// is not set.
    pub fn resolve_path(&self, path: &String, create: bool) -> (r: EResult<Resolved>)
        requires
            self.wf(),
        ensures
            r == match self.lookup(path@) {
                Some(i) => Ok::<Resolved, Errno>(
                    Resolved::Found(
                        FileLocation { mountpoint_id: ROOT_MOUNTPOINT, inode: i as u64 },
                    ),
                ),
                None => if create {
                    Ok::<Resolved, Errno>(Resolved::Creatable)
                } else {
                    Err::<Resolved, Errno>(Errno::ENOENT)
                },
            },
    {
        match self.find(path) {
            Some(i) => Ok(
                Resolved::Found(FileLocation { mountpoint_id: ROOT_MOUNTPOINT, inode: i as u64 }),
            ),
            None => if create {
                Ok(Resolved::Creatable)
            } else {
                Err(Errno::ENOENT)
            },
        }
    }

    /// Returns the file at location `location`, if there is one.
    pub fn get_file_from_location(&self, location: FileLocation) -> (r: Option<&File>)
        ensures
            match r {
                Some(f) => location.mountpoint_id == ROOT_MOUNTPOINT && self.file(
                    location.inode as int,
                ) == Some(*f),
                None => location.mountpoint_id != ROOT_MOUNTPOINT || self.file(location.inode as int).is_none(),
            },
    {
        if location.mountpoint_id != ROOT_MOUNTPOINT || location.inode >= self.files.len() as u64 {
            return None;
        }
        match &self.files[location.inode as usize] {
            Some(f) => Some(f),
            None => None,
        }
    }

    /// Tells whether `i` is the lowest inode that no file has.
    pub open spec fn lowest_unused(&self, i: int) -> bool {
        &&& 0 <= i
        &&& self.file(i).is_none()
        &&& forall|k: int| 0 <= k < i ==> #[trigger] self.file(k).is_some()
    }

    /// Creates the file with path `path`, status `stat` and content
    /// `content`, and returns its location: its inode is the lowest one that
    /// no file has. The function fails with `EEXIST`, and changes nothing, if
    /// the path names a file already. A file whose path is empty has no
    /// name: any number of such files can be created.
    pub fn create_file(&mut self, path: String, stat: Stat, content: FileContent) -> (r: EResult<
        FileLocation,
    >)
        requires
            old(self).wf(),
            content.wf(),
        ensures
            final(self).wf(),
            match r {
                Ok(location) => {
                    let i = location.inode as int;
                    &&& old(self).lookup(path@).is_none()
                    &&& location.mountpoint_id == ROOT_MOUNTPOINT
                    &&& old(self).lowest_unused(i)
                    &&& final(self).file(i) matches Some(f) && f.name() == path@
                    &&& path@.len() > 0 ==> final(self).lookup(path@) == Some(i)
                    &&& final(self).file(i)->0.stat() == (Stat {
                        file_type: content.file_type(),
                        size: match content {
                            FileContent::Regular(data) => data@.len() as u64,
                            _ => stat.size,
                        },
                        ..stat
                    })
                    &&& final(self).file(i)->0.bytes() == match content {
                        FileContent::Regular(data) => Some(data@),
                        _ => None,
                    }
                    &&& final(self).file(i)->0.pipe() == match content {
                        FileContent::Fifo(p) => Some(p@),
                        _ => None,
                    }
                    &&& content matches FileContent::Fifo(p) ==> final(self).file(
                        i,
                    )->0.pipe_readers() == p.readers() && final(self).file(i)->0.pipe_writers()
                        == p.writers()
                    &&& final(self).file(i)->0.has_stack() == (content matches FileContent::Socket(
                        s,
                    ) && s.spec_stack().is_some())
                    &&& forall|k: int| k != i ==> #[trigger] final(self).file(k) == old(self).file(k)
                    &&& forall|other: Seq<char>|
                        other != path@ ==> #[trigger] final(self).lookup(other) == old(self).lookup(
                            other,
                        )
                },
                Err(e) => {
                    &&& e == Errno::EEXIST
                    &&& old(self).lookup(path@).is_some()
                    &&& *final(self) == *old(self)
                },
            },
    {
        if self.find(&path).is_some() {
            return Err(Errno::EEXIST);
        }
        let mut i: usize = 0;
        while i < self.files.len() && self.files[i].is_some()
            invariant
                i <= self.files@.len(),
                forall|k: int| 0 <= k < i ==> #[trigger] self.file(k).is_some(),
            decreases self.files@.len() - i,
        {
            i = i + 1;
        }
        let location = FileLocation { mountpoint_id: ROOT_MOUNTPOINT, inode: i as u64 };
        let ghost name = path@;
        let file = File::new(location, path, stat, content);
        if i < self.files.len() {
            self.files.set(i, Some(file));
        } else {
            self.files.push(Some(file));
        }
        proof {
            assert forall|k: int| #[trigger] self.file_ok(k) by {
                if k != i {
                    assert(old(self).file_ok(k));
                }
            }
            assert forall|a: int, b: int, p: Seq<char>|
                #[trigger] self.named(a, p) && #[trigger] self.named(b, p) implies a == b by {
                if a != i && b != i {
                    assert(old(self).named(a, p) && old(self).named(b, p));
                } else if a != b {
                    let other = if a == i {
                        b
                    } else {
                        a
                    };
                    assert(old(self).named(other, name));
                }
            }
            if name.len() > 0 {
                self.lemma_lookup(i as int, name);
            }
            assert forall|other: Seq<char>| other != name implies #[trigger] self.lookup(other)
                == old(self).lookup(other) by {
                if exists|k: int| self.named(k, other) {
                    let k = choose|k: int| self.named(k, other);
                    assert(old(self).named(k, other));
                    old(self).lemma_lookup(k, other);
                    self.lemma_lookup(k, other);
                } else {
                    if exists|k: int| old(self).named(k, other) {
                        let k = choose|k: int| old(self).named(k, other);
                        assert(self.named(k, other));
                    }
                }
            }
        }
        Ok(location)
    }

    /// Removes the file with path `path`. The function fails with `ENOENT`,
    /// and changes nothing, if the path names no file.
    pub fn remove_file_from_path(&mut self, path: &String) -> (r: EResult<()>)
        requires
            old(self).wf(),
        ensures
            final(self).wf(),
            match r {
                Ok(()) => {
                    &&& old(self).lookup(path@) matches Some(i)
                    &&& final(self).file(i).is_none()
                    &&& final(self).lookup(path@).is_none()
                    &&& forall|k: int| k != i ==> #[trigger] final(self).file(k) == old(self).file(k)
                    &&& forall|other: Seq<char>|
                        other != path@ ==> #[trigger] final(self).lookup(other) == old(self).lookup(
                            other,
                        )
                },
                Err(e) => {
                    &&& e == Errno::ENOENT
                    &&& old(self).lookup(path@).is_none()
                    &&& *final(self) == *old(self)
                },
            },
    {
        let i = match self.find(path) {
            Some(i) => i,
            None => {
                return Err(Errno::ENOENT);
            },
        };
        self.files.set(i, None);
        proof {
            assert forall|k: int| #[trigger] self.file_ok(k) by {
                assert(old(self).file_ok(k));
            }
            assert forall|a: int, b: int, p: Seq<char>|
                #[trigger] self.named(a, p) && #[trigger] self.named(b, p) implies a == b by {
                assert(old(self).named(a, p) && old(self).named(b, p));
            }
            assert forall|other: Seq<char>| #[trigger]
                self.lookup(other) == if other == path@ {
                    None
                } else {
                    old(self).lookup(other)
                } by {
                if exists|k: int| self.named(k, other) {
                    let k = choose|k: int| self.named(k, other);
                    assert(old(self).named(k, other));
                    old(self).lemma_lookup(k, other);
                    self.lemma_lookup(k, other);
                } else {
                    if exists|k: int| old(self).named(k, other) {
                        let k = choose|k: int| old(self).named(k, other);
                        old(self).lemma_lookup(k, other);
                        if other != path@ {
                            assert(self.named(k, other));
                        }
                    }
                }
            }
        }
        Ok(())
    }

    /// Removes the file at location `location`, if there is one.
    pub fn remove_file(&mut self, location: FileLocation)
        requires
            old(self).wf(),
        ensures
            final(self).wf(),
            final(self).target(location).is_none(),
            forall|k: int|
                !(k == location.inode && location.mountpoint_id == ROOT_MOUNTPOINT)
                    ==> #[trigger] final(self).file(k) == old(self).file(k),
            forall|path: Seq<char>|
                #[trigger] final(self).lookup(path) == if old(self).target(location) matches Some(
                    f,
                ) && f.name() == path {
                    None
                } else {
                    old(self).lookup(path)
                },
    {
        if location.mountpoint_id != ROOT_MOUNTPOINT || location.inode >= self.files.len() as u64 {
            return ;
        }
        let i = location.inode as usize;
        self.files.set(i, None);
        proof {
            assert forall|k: int| #[trigger] self.file_ok(k) by {
                assert(old(self).file_ok(k));
            }
            assert forall|a: int, b: int, p: Seq<char>|
                #[trigger] self.named(a, p) && #[trigger] self.named(b, p) implies a == b by {
                assert(old(self).named(a, p) && old(self).named(b, p));
            }
            assert forall|path: Seq<char>| #[trigger]
                self.lookup(path) == if old(self).target(location) matches Some(f) && f.name()
                    == path {
                    None
                } else {
                    old(self).lookup(path)
                } by {
                if exists|k: int| self.named(k, path) {
                    let k = choose|k: int| self.named(k, path);
                    assert(old(self).named(k, path));
                    old(self).lemma_lookup(k, path);
                    self.lemma_lookup(k, path);
                    if old(self).named(i as int, path) {
                        old(self).lemma_lookup(i as int, path);
                    }
                } else {
                    if exists|k: int| old(self).named(k, path) {
                        let k = choose|k: int| old(self).named(k, path);
                        old(self).lemma_lookup(k, path);
                        if k != i {
                            assert(self.named(k, path));
                        }
                    }
                }
            }
        }
    }

    /// Reads up to `len` bytes of the file at location `location`, from
    /// offset `off` on. The function fails with `ENOENT` if there is no file
    /// there, and as [`File::read_content`] does.
    pub fn read(&mut self, location: FileLocation, off: u64, len: usize) -> (r: EResult<Vec<u8>>)
        requires
            old(self).wf(),
        ensures
            final(self).wf(),
            forall|k: int| k != location.inode ==> #[trigger] final(self).file(k) == old(self).file(k),
            forall|path: Seq<char>| #[trigger] final(self).lookup(path) == old(self).lookup(path),
            match old(self).target(location) {
                Some(before) => {
                    &&& final(self).target(location) matches Some(after)
                    &&& File::same_but_data(&before, &after)
                    &&& after.bytes() == before.bytes()
                    &&& after.stat() == before.stat()
                    &&& match r {
                        Ok(data) => match before.pipe() {
                            Some(queue) => {
                                &&& data@ == queue.subrange(
                                    0,
                                    crate::file::buffer::pipe::least(len as int, queue.len() as int),
                                )
                                &&& after.pipe() == Some(
                                    queue.subrange(
                                        crate::file::buffer::pipe::least(
                                            len as int,
                                            queue.len() as int,
                                        ),
                                        queue.len() as int,
                                    ),
                                )
                            },
                            None => {
                                &&& before.bytes() matches Some(bytes)
                                &&& data@ == crate::file::window(bytes, off as int, len as int)
                                &&& after.pipe().is_none()
                            },
                        },
                        Err(e) => {
                            &&& e == Errno::EINVAL
                            &&& before.pipe().is_none()
                            &&& before.bytes().is_none()
                            &&& after.pipe().is_none()
                        },
                    }
                },
                None => r matches Err(e) && e == Errno::ENOENT && final(self).target(location).is_none() && (
                forall|k: int| #[trigger] final(self).file(k) == old(self).file(k)),
            },
    {
        if location.mountpoint_id != ROOT_MOUNTPOINT || location.inode >= self.files.len() as u64 {
            return Err(Errno::ENOENT);
        }
        let i = location.inode as usize;
        let r = match &mut self.files[i] {
            Some(f) => {
                proof {
                    assert(old(self).file_ok(i as int));
                }
                f.read_content(off, len)
            },
            None => Err(Errno::ENOENT),
        };
        proof {
            self.lemma_kept(old(self), i as int);
        }
        r
    }

    /// Writes the bytes `buf` to the file at location `location`, at offset
    /// `off`. The function fails with `ENOENT` if there is no file there, and
    /// as [`File::write_content`] does.
    pub fn write(&mut self, location: FileLocation, off: u64, buf: &Vec<u8>) -> (r: EResult<usize>)
        requires
            old(self).wf(),
        ensures
            final(self).wf(),
            forall|k: int| k != location.inode ==> #[trigger] final(self).file(k) == old(self).file(k),
            forall|path: Seq<char>| #[trigger] final(self).lookup(path) == old(self).lookup(path),
            match old(self).target(location) {
                Some(before) => {
                    &&& final(self).target(location) matches Some(after)
                    &&& File::same_but_data(&before, &after)
                    &&& File::written(&before, &after, off, buf@, r)
                },
                None => r matches Err(e) && e == Errno::ENOENT && final(self).target(location).is_none() && (
                forall|k: int| #[trigger] final(self).file(k) == old(self).file(k)),
            },
    {
        if location.mountpoint_id != ROOT_MOUNTPOINT || location.inode >= self.files.len() as u64 {
            return Err(Errno::ENOENT);
        }
        let i = location.inode as usize;
        let r = match &mut self.files[i] {
            Some(f) => {
                proof {
                    assert(old(self).file_ok(i as int));
                }
                f.write_content(off, buf)
            },
            None => Err(Errno::ENOENT),
        };
        proof {
            self.lemma_kept(old(self), i as int);
        }
        r
    }

    /// What [`Self::count_open`] does.
    pub open spec fn counted_open(
        before: &Vfs,
        after: &Vfs,
        location: FileLocation,
        read: bool,
        write: bool,
        open: bool,
    ) -> bool {
        &&& forall|k: int| k != location.inode ==> #[trigger] after.file(k) == before.file(k)
        &&& forall|path: Seq<char>| #[trigger] after.lookup(path) == before.lookup(path)
        &&& match before.target(location) {
            Some(f0) => {
                &&& after.target(location) matches Some(f1)
                &&& File::same_but_ends(&f0, &f1)
                &&& f0.pipe().is_some() ==> f1.pipe_readers() == ends_after(
                    f0.pipe_readers(),
                    read,
                    open,
                ) && f1.pipe_writers() == ends_after(f0.pipe_writers(), write, open)
            },
            None => after.target(location).is_none() && (forall|k: int|
                #[trigger] after.file(k) == before.file(k)),
        }
    }

    /// Records that one more open file description reads from the file at
    /// location `location`, writes to it or both, or one less if `open` is
    /// not set. Nothing changes if there is no file there.
    pub fn count_open(&mut self, location: FileLocation, read: bool, write: bool, open: bool)
        requires
            old(self).wf(),
        ensures
            final(self).wf(),
            Self::counted_open(old(self), final(self), location, read, write, open),
    {
        if location.mountpoint_id != ROOT_MOUNTPOINT || location.inode >= self.files.len() as u64 {
            return ;
        }
        let i = location.inode as usize;
        match &mut self.files[i] {
            Some(f) => {
                proof {
                    assert(old(self).file_ok(i as int));
                }
                if open {
                    f.increment_open(read, write);
                } else {
                    f.decrement_open(read, write);
                }
            },
            None => {},
        }
        proof {
            self.lemma_kept(old(self), i as int);
        }
    }

    /// The file at location `location`, if there is one.
    pub open spec fn target(&self, location: FileLocation) -> Option<File> {
        if location.mountpoint_id == ROOT_MOUNTPOINT {
            self.file(location.inode as int)
        } else {
            None
        }
    }

    /// A table that differs from a well-formed one in one file at most,
    /// which has kept its place, its name and its order, is well-formed and
    /// names the same files.
    proof fn lemma_kept(&self, before: &Vfs, i: int)
        requires
            before.wf(),
            self.files@.len() == before.files@.len(),
            forall|k: int| k != i ==> #[trigger] self.file(k) == before.file(k),
            match before.file(i) {
                Some(f0) => self.file(i) matches Some(f1) && f1.wf() && f1.location()
                    == f0.location() && f1.name() == f0.name(),
                None => self.file(i).is_none(),
            },
        ensures
            self.wf(),
            forall|path: Seq<char>| #[trigger] self.lookup(path) == before.lookup(path),
    {
        assert forall|k: int| #[trigger] self.file_ok(k) by {
            assert(before.file_ok(k));
        }
        assert forall|k: int, path: Seq<char>| #[trigger] self.named(k, path) == before.named(
            k,
            path,
        ) by {}
        assert forall|a: int, b: int, p: Seq<char>|
            #[trigger] self.named(a, p) && #[trigger] self.named(b, p) implies a == b by {
            assert(before.named(a, p) && before.named(b, p));
        }
        assert forall|path: Seq<char>| #[trigger] self.lookup(path) == before.lookup(path) by {
            if exists|k: int| self.named(k, path) {
                let k = choose|k: int| self.named(k, path);
                assert(before.named(k, path));
                before.lemma_lookup(k, path);
                self.lemma_lookup(k, path);
            } else {
                if exists|k: int| before.named(k, path) {
                    let k = choose|k: int| before.named(k, path);
                    assert(self.named(k, path));
                }
            }
        }
    }
}

/// Returns a reference to the file at path `path`. If the file doesn't exist,
/// the function returns None.
pub fn get_file_from_path<'a>(vfs: &'a Vfs, path: &str) -> (r: Option<&'a File>)
    requires
        vfs.wf(),
    ensures
        match r {
            Some(f) => vfs.lookup(path@) matches Some(i) && vfs.file(i) == Some(*f),
            None => vfs.lookup(path@).is_none(),
        },
{
    let path = path.to_owned();
    match vfs.find(&path) {
        Some(i) => match &vfs.files[i] {
            Some(f) => Some(f),
            None => None,
        },
        None => None,
    }
}

} // verus!
