//! This module implements file descriptors-related features.
//!
//! A file descriptor is an ID held by a process pointing to an entry in the
//! open file description table.

use vstd::prelude::*;
use crate::errno::{EResult, Errno};
use crate::file::open_file::{OpenFile, OpenFiles, Shared};
use crate::limits::OPEN_MAX;

verus! {

/// File descriptor flag: If set, the file descriptor is closed on successful
/// call to `execve`.
pub const FD_CLOEXEC: i32 = 1;

/// Constraint on a new file descriptor ID.
#[derive(Clone, Copy, Debug)]
pub enum NewFDConstraint {
    /// No constraint
    Any,
    /// The new file descriptor must have given fixed value
    Fixed(u32),
    /// The new file descriptor must have at least the given value
    Min(u32),
}

/// A file descriptor, pointing to an [`OpenFile`].
#[derive(Clone, Copy, Debug, PartialEq, Eq, Structural)]
pub struct FileDescriptor {
    /// The file descriptor's flags.
    pub flags: i32,
    /// The handle of the open file description associated with the file
    /// descriptor.
    pub open_file: usize,
}

impl FileDescriptor {
    /// Creates a new file descriptor, which holds the open file description
    /// `open_file`, added to `files`.
    ///
    /// Arguments:
    /// - `flags` is the set of flags associated with the file descriptor
    /// - `open_file` is the open file the file descriptor points to
    ///
    /// The function fails with `ENFILE`, and changes nothing, iff as many
    /// file descriptors are open system-wide as can be.
    pub fn new(files: &mut OpenFiles, flags: i32, open_file: OpenFile) -> (r: EResult<Self>)
        requires
            old(files).wf(),
        ensures
            final(files).wf(),
            final(files).total_max() == old(files).total_max(),
            match r {
                Ok(fd) => {
                    &&& fd.flags == flags
                    &&& old(files).total() < old(files).total_max()
                    &&& old(files).lowest_unused(fd.open_file as int)
                    &&& final(files).total() == old(files).total() + 1
                    &&& final(files).slot(fd.open_file as int) == Some(Shared { open_file, refs: 1 })
                    &&& forall|k: int|
                        k != fd.open_file ==> #[trigger] final(files).slot(k) == old(files).slot(k)
                },
                Err(e) => {
                    &&& e == Errno::ENFILE
                    &&& old(files).total() == old(files).total_max()
                    &&& final(files).total() == old(files).total()
                    &&& forall|k: int| #[trigger] final(files).slot(k) == old(files).slot(k)
                },
            },
    {
        match files.insert(open_file) {
            Ok(h) => Ok(FileDescriptor { flags, open_file: h }),
            Err(e) => Err(e),
        }
    }

    /// Returns the handle of the open file associated with the descriptor.
    pub fn get_open_file(&self) -> (h: usize)
        ensures
            h == self.open_file,
    {
        self.open_file
    }

    /// Closes the file descriptor.
    ///
    /// If the file descriptor is the last reference to the underlying open
    /// file description, the description is removed from `files` and handed
    /// back, for the file to be closed.
    pub fn close(self, files: &mut OpenFiles) -> (closed: Option<OpenFile>)
        requires
            old(files).wf(),
        ensures
            final(files).wf(),
            final(files).total_max() == old(files).total_max(),
            released(old(files), final(files), self.open_file as int, closed),
    {
        files.release(self.open_file)
    }
}

/// Tells whether `after` is `before` in which one file descriptor less holds
/// the open file description with handle `h`, and `closed` is the
/// description if no file descriptor holds it any more.
pub open spec fn released(before: &OpenFiles, after: &OpenFiles, h: int, closed: Option<OpenFile>) -> bool {
    &&& forall|k: int| k != h ==> #[trigger] after.slot(k) == before.slot(k)
    &&& match before.slot(h) {
        Some(s) => {
            &&& after.total() == if before.total() > 0 {
                before.total() - 1
            } else {
                0
            }
            &&& if s.refs == 1 {
                closed == Some(s.open_file) && after.slot(h).is_none()
            } else {
                closed.is_none() && after.slot(h) == Some(
                    Shared { open_file: s.open_file, refs: (s.refs - 1) as usize },
                )
            }
        },
        None => {
            &&& closed.is_none()
            &&& after.total() == before.total()
            &&& after.slot(h).is_none()
        },
    }
}

/// A table of file descriptors.
pub struct FileDescriptorTable(Vec<Option<FileDescriptor>>);

impl View for FileDescriptorTable {
    type V = Seq<Option<FileDescriptor>>;

    closed spec fn view(&self) -> Seq<Option<FileDescriptor>> {
        self.0@
    }
}

/// The file descriptor with ID `id` in `t`, if there is one.
pub open spec fn fd_at(t: Seq<Option<FileDescriptor>>, id: int) -> Option<FileDescriptor> {
    if 0 <= id < t.len() {
        t[id]
    } else {
        None
    }
}

/// Tells whether `id` is the lowest ID from `min` on that `t` has no file
/// descriptor for.
pub open spec fn lowest_free(t: Seq<Option<FileDescriptor>>, id: int, min: int) -> bool {
    &&& min <= id
    &&& fd_at(t, id).is_none()
    &&& forall|k: int| min <= k < id ==> #[trigger] fd_at(t, k).is_some()
}

/// The lowest ID that a new file descriptor may get.
pub open spec fn min_id(min: Option<u32>) -> int {
    match min {
        Some(m) => m as int,
        None => 0,
    }
}

/// Tells whether `t` is as short as can be: it holds a file descriptor in
/// its last slot.
pub open spec fn shrunk(t: Seq<Option<FileDescriptor>>) -> bool {
    t.len() > 0 ==> t[t.len() - 1].is_some()
}

/// The flags of a file descriptor that is, or is not, closed on `execve`.
pub open spec fn cloexec_flags(cloexec: bool) -> i32 {
    if cloexec {
        FD_CLOEXEC
    } else {
        0
    }
}

impl Default for FileDescriptorTable {
    fn default() -> (t: Self)
        ensures
            t.wf(),
            t@.len() == 0,
    {
        FileDescriptorTable(Vec::new())
    }
}

impl FileDescriptorTable {
    /// The table's invariant: it holds no more file descriptors than a
    /// process may have, and it is as short as can be.
    pub open spec fn wf(&self) -> bool {
        &&& self@.len() <= OPEN_MAX
        &&& shrunk(self@)
    }

    /// The file descriptor with ID `id`, if there is one.
    pub open spec fn fd(&self, id: int) -> Option<FileDescriptor> {
        fd_at(self@, id)
    }

    /// Creates a table with no file descriptor.
    pub fn new() -> (t: Self)
        ensures
            t.wf(),
            t@.len() == 0,
    {
        FileDescriptorTable(Vec::new())
    }

    /// Returns the available file descriptor with the lowest ID.
    ///
    /// If no ID is available, the function returns an error.
    ///
    /// `min` is the minimum value for the file descriptor to be returned.
    fn get_available_fd(&self, min: Option<u32>) -> (r: EResult<u32>)
        requires
            self.wf(),
        ensures
            match r {
                Ok(id) => id < OPEN_MAX && lowest_free(self@, id as int, min_id(min)),
                Err(e) => e == Errno::EMFILE && exists|id: int|
                    id >= OPEN_MAX && #[trigger] lowest_free(self@, id, min_id(min)),
            },
    {
        let first: u32 = match min {
            Some(m) => m,
            None => 0,
        };
        // Find a hole in the table
        let mut id: u32 = first;
        while (id as usize) < self.0.len()
            invariant
                self.wf(),
                first == min_id(min),
                first <= id,
                forall|k: int| first <= k < id ==> #[trigger] fd_at(self@, k).is_some(),
            decreases self@.len() - id,
        {
            if self.0[id as usize].is_none() {
                assert(fd_at(self@, id as int).is_none());
                return Ok(id);
            }
            assert(fd_at(self@, id as int).is_some());
            id = id + 1;
        }
        // No hole found, place the new FD at the end
        assert(fd_at(self@, id as int).is_none());
        assert(lowest_free(self@, id as int, first as int));
        if id < OPEN_MAX {
            Ok(id)
        } else {
            Err(Errno::EMFILE)
        }
    }

    /// Extends the file descriptor table if necessary so that it can fit the
    /// given ID.
    ///
    /// If the table is already large enough, this function is a no-op.
    fn extend(&mut self, id: u32)
        requires
            id < OPEN_MAX,
        ensures
            final(self)@.len() == if id < old(self)@.len() {
                old(self)@.len()
            } else {
                (id + 1) as nat
            },
            forall|k: int| #[trigger] fd_at(final(self)@, k) == fd_at(old(self)@, k),
    {
        while self.0.len() <= id as usize
            invariant
                id < OPEN_MAX,
                self@.len() <= id + 1 || self@.len() == old(self)@.len(),
                self@.len() >= old(self)@.len(),
                forall|k: int| #[trigger] fd_at(self@, k) == fd_at(old(self)@, k),
            decreases id + 1 - self@.len(),
        {
            let ghost before = self@;
            self.0.push(None);
            proof {
                assert forall|k: int| #[trigger] fd_at(self@, k) == fd_at(old(self)@, k) by {
                    assert(fd_at(before, k) == fd_at(old(self)@, k));
                }
            }
        }
    }

    /// Removes the slots without file descriptor that end the table.
    fn shrink(&mut self)
        ensures
            shrunk(final(self)@),
            final(self)@.len() <= old(self)@.len(),
            forall|k: int| #[trigger] fd_at(final(self)@, k) == fd_at(old(self)@, k),
    {
        while self.0.len() > 0 && self.0[self.0.len() - 1].is_none()
            invariant
                self@.len() <= old(self)@.len(),
                forall|k: int| #[trigger] fd_at(self@, k) == fd_at(old(self)@, k),
            decreases self@.len(),
        {
            let ghost before = self@;
            let _ = self.0.pop();
            proof {
                assert forall|k: int| #[trigger] fd_at(self@, k) == fd_at(old(self)@, k) by {
                    assert(fd_at(before, k) == fd_at(old(self)@, k));
                }
            }
        }
    }

    /// Puts the file descriptor `fd` in the slot of ID `id`.
    fn put(&mut self, id: u32, fd: FileDescriptor)
        requires
            old(self).wf(),
            id < OPEN_MAX,
        ensures
            final(self).wf(),
            final(self).fd(id as int) == Some(fd),
            forall|k: int| k != id ==> #[trigger] final(self).fd(k) == old(self).fd(k),
    {
        self.extend(id);
        let ghost mid = self@;
        self.0.set(id as usize, Some(fd));
        proof {
            assert forall|k: int| k != id implies #[trigger] self.fd(k) == old(self).fd(k) by {
                assert(fd_at(mid, k) == fd_at(old(self)@, k));
            }
            let last = self@.len() - 1;
            if last != id {
                assert(fd_at(mid, last) == fd_at(old(self)@, last));
            }
        }
    }

    /// Creates a file descriptor.
    ///
    /// Arguments:
    /// - `flags` are the file descriptor's flags
    /// - `open_file` is the file associated with the file descriptor
    ///
    /// The function returns the ID of the new file descriptor, which is the
    /// lowest one that is free, alongside the file descriptor.
    ///
    /// The function fails, and changes nothing, with `EMFILE` if the process
    /// has as many file descriptors as it may, or else with `ENFILE` if as
    /// many file descriptors are open system-wide as can be.
    pub fn create_fd(&mut self, files: &mut OpenFiles, flags: i32, open_file: OpenFile) -> (r:
        EResult<(u32, FileDescriptor)>)
        requires
            old(self).wf(),
            old(files).wf(),
        ensures
            final(self).wf(),
            final(files).wf(),
            final(files).total_max() == old(files).total_max(),
            match r {
                Ok((id, fd)) => {
                    &&& id < OPEN_MAX
                    &&& lowest_free(old(self)@, id as int, 0)
                    &&& fd.flags == flags
                    &&& final(self).fd(id as int) == Some(fd)
                    &&& forall|k: int| k != id ==> #[trigger] final(self).fd(k) == old(self).fd(k)
                    &&& old(files).lowest_unused(fd.open_file as int)
                    &&& final(files).total() == old(files).total() + 1
                    &&& final(files).slot(fd.open_file as int) == Some(Shared { open_file, refs: 1 })
                    &&& forall|k: int|
                        k != fd.open_file ==> #[trigger] final(files).slot(k) == old(files).slot(k)
                },
                Err(e) => {
                    &&& final(self)@ == old(self)@
                    &&& final(files).total() == old(files).total()
                    &&& forall|k: int| #[trigger] final(files).slot(k) == old(files).slot(k)
                    &&& e == if self_full(old(self)@) {
                        Errno::EMFILE
                    } else {
                        Errno::ENFILE
                    }
                    &&& self_full(old(self)@) || old(files).total() == old(files).total_max()
                },
            },
    {
        // Create the FD
        let id = match self.get_available_fd(None) {
            Ok(id) => id,
            Err(e) => {
                proof {
                    lemma_full(self@, 0);
                }
                return Err(e);
            },
        };
        proof {
            lemma_not_full(self@, id as int, 0);
        }
        let fd = match FileDescriptor::new(files, flags, open_file) {
            Ok(fd) => fd,
            Err(e) => {
                return Err(e);
            },
        };
        // Insert the FD
        self.put(id, fd);
        Ok((id, fd))
    }

    /// Returns an immutable reference to the file descriptor with ID `id`.
    ///
    /// If the file descriptor does not exist, the function returns [`EBADF`].
    pub fn get_fd(&self, id: i32) -> (r: EResult<&FileDescriptor>)
        ensures
            match r {
                Ok(fd) => self.fd(id as int) == Some(*fd),
                Err(e) => e == Errno::EBADF && self.fd(id as int).is_none(),
            },
    {
        if id < 0 || id as usize >= self.0.len() {
            return Err(Errno::EBADF);
        }
        match &self.0[id as usize] {
            Some(fd) => Ok(fd),
            None => Err(Errno::EBADF),
        }
    }

    /// Returns a mutable reference to the file descriptor with ID `id`: the
    /// table then holds what the file descriptor has become.
    ///
    /// If the file descriptor does not exist, the function returns [`EBADF`]
    /// and changes nothing.
    pub fn get_fd_mut(&mut self, id: i32) -> (r: EResult<&mut FileDescriptor>)
        ensures
            forall|k: int| k != id ==> #[trigger] final(self).fd(k) == old(self).fd(k),
            final(self)@.len() == old(self)@.len(),
            match r {
                Ok(fd) => old(self).fd(id as int) == Some(*fd) && final(self).fd(id as int) == Some(
                    *final(fd),
                ),
                Err(e) => e == Errno::EBADF && old(self).fd(id as int).is_none() && final(self)@
                    == old(self)@,
            },
    {
        if id < 0 || id as usize >= self.0.len() {
            return Err(Errno::EBADF);
        }
        match &mut self.0[id as usize] {
            Some(fd) => Ok(fd),
            None => Err(Errno::EBADF),
        }
    }

    /// Sets the flags of the file descriptor with ID `id`.
    ///
    /// If the file descriptor does not exist, the function returns [`EBADF`]
    /// and changes nothing.
    pub fn set_fd_flags(&mut self, id: i32, flags: i32) -> (r: EResult<()>)
        requires
            old(self).wf(),
        ensures
            final(self).wf(),
            forall|k: int| k != id ==> #[trigger] final(self).fd(k) == old(self).fd(k),
            match r {
                Ok(()) => old(self).fd(id as int) matches Some(fd) && final(self).fd(id as int)
                    == Some(FileDescriptor { flags, ..fd }),
                Err(e) => e == Errno::EBADF && old(self).fd(id as int).is_none() && final(self)@
                    == old(self)@,
            },
    {
        let fd = match self.get_fd(id) {
            Ok(fd) => *fd,
            Err(e) => {
                return Err(e);
            },
        };
        self.0.set(id as usize, Some(FileDescriptor { flags, open_file: fd.open_file }));
        Ok(())
    }

    /// The ID that a file descriptor made under constraint `constraint` gets,
    /// if the process may have one more: the lowest free one, the given one,
    /// or the lowest free one from the given one on.
    pub open spec fn target(&self, constraint: NewFDConstraint, id: int) -> bool {
        match constraint {
            NewFDConstraint::Any => lowest_free(self@, id, 0),
            NewFDConstraint::Fixed(n) => id == n,
            NewFDConstraint::Min(min) => lowest_free(self@, id, min as int),
        }
    }

    /// Duplicates the file descriptor with id `id`.
    ///
    /// Arguments:
    /// - `constraint` is the constraint the new file descriptor ID will
    ///   follow.
    /// - `cloexec` tells whether the new file descriptor has the
    ///   `FD_CLOEXEC` flag enabled.
    ///
    /// The function returns the ID of the new file descriptor alongside the
    /// file descriptor, which holds the open file description of the
    /// duplicated one. If the ID is fixed and names a file descriptor
    /// already, that one is closed first: if it was the last one to hold its
    /// open file description, the description is handed back, for the file
    /// to be closed.
    ///
    /// The function fails, and changes nothing:
    /// - with `EMFILE` if the ID that the constraint gives is not below
    ///   `OPEN_MAX`;
    /// - or else with `EBADF` if the file descriptor to duplicate does not
    ///   exist;
    /// - or else with `ENFILE` if the new file descriptor cannot be counted:
    ///   as many file descriptors are open system-wide as can be, or the open
    ///   file description is held by as many as can be counted.
    pub fn duplicate_fd(
        &mut self,
        files: &mut OpenFiles,
        id: i32,
        constraint: NewFDConstraint,
        cloexec: bool,
    ) -> (r: EResult<(u32, FileDescriptor, Option<OpenFile>)>)
        requires
            old(self).wf(),
            old(files).wf(),
        ensures
            final(self).wf(),
            final(files).wf(),
            final(files).total_max() == old(files).total_max(),
            Self::duplicated(old(self), final(self), old(files), final(files), id, constraint, cloexec, r),
    {
        // The ID of the new FD
        let new_id = match constraint {
            NewFDConstraint::Any => self.get_available_fd(None),
            NewFDConstraint::Fixed(n) => {
                if n >= OPEN_MAX {
                    Err(Errno::EMFILE)
                } else {
                    Ok(n)
                }
            },
            NewFDConstraint::Min(min) => self.get_available_fd(Some(min)),
        };
        let new_id = match new_id {
            Ok(new_id) => new_id,
            Err(e) => {
                proof {
                    match constraint {
                        NewFDConstraint::Fixed(n) => {
                            assert(self.target(constraint, n as int));
                        },
                        NewFDConstraint::Any => {
                            let w = choose|w: int|
                                w >= OPEN_MAX && #[trigger] lowest_free(self@, w, min_id(None));
                            assert(self.target(constraint, w));
                        },
                        NewFDConstraint::Min(min) => {
                            let w = choose|w: int|
                                w >= OPEN_MAX && #[trigger] lowest_free(
                                    self@,
                                    w,
                                    min_id(Some(min)),
                                );
                            assert(self.target(constraint, w));
                        },
                    }
                }
                return Err(e);
            },
        };
        proof {
            assert(self.target(constraint, new_id as int));
            match constraint {
                NewFDConstraint::Any => {
                    lemma_not_full(self@, new_id as int, 0);
                },
                NewFDConstraint::Min(min) => {
                    lemma_not_full(self@, new_id as int, min as int);
                },
                _ => {},
            }
            assert(!exists|n: int| n >= OPEN_MAX && #[trigger] self.target(constraint, n));
        }
        // The old FD
        let old_fd = match self.get_fd(id) {
            Ok(fd) => *fd,
            Err(e) => {
                return Err(e);
            },
        };
        // Create the new FD
        let new_fd = FileDescriptor {
            flags: if cloexec {
                FD_CLOEXEC
            } else {
                0
            },
            open_file: old_fd.open_file,
        };
        if new_id as i32 == id {
            // The file descriptor takes its own place
            self.put(new_id, new_fd);
            return Ok((new_id, new_fd, None));
        }
        match files.share(old_fd.open_file) {
            Ok(()) => {},
            Err(_) => {
                return Err(Errno::ENFILE);
            },
        }
        let ghost mid = *files;
        proof {
            assert(shared(old(files), &mid, old_fd.open_file as int));
        }
        // Close the FD that has the ID, if any
        let occupant = if (new_id as usize) < self.0.len() {
            self.0[new_id as usize]
        } else {
            None
        };
        let closed = match occupant {
            Some(fd) => fd.close(files),
            None => None,
        };
        // Insert the FD
        self.put(new_id, new_fd);
        Ok((new_id, new_fd, closed))
    }

    /// What [`Self::duplicate_fd`] returns and does.
    pub open spec fn duplicated(
        before: &FileDescriptorTable,
        after: &FileDescriptorTable,
        files_before: &OpenFiles,
        files_after: &OpenFiles,
        id: i32,
        constraint: NewFDConstraint,
        cloexec: bool,
        r: EResult<(u32, FileDescriptor, Option<OpenFile>)>,
    ) -> bool {
        let unchanged = after@ == before@ && files_after.total() == files_before.total() && forall|
            k: int,
        | #[trigger] files_after.slot(k) == files_before.slot(k);
        match r {
            Ok((new_id, new_fd, closed)) => {
                &&& new_id < OPEN_MAX
                &&& before.target(constraint, new_id as int)
                &&& before.fd(id as int) matches Some(old_fd)
                &&& new_fd == (FileDescriptor {
                    flags: cloexec_flags(cloexec),
                    open_file: old_fd.open_file,
                })
                &&& after.fd(new_id as int) == Some(new_fd)
                &&& forall|k: int| k != new_id ==> #[trigger] after.fd(k) == before.fd(k)
                &&& if new_id == id {
                    &&& closed.is_none()
                    &&& files_after.total() == files_before.total()
                    &&& forall|k: int| #[trigger] files_after.slot(k) == files_before.slot(k)
                } else {
                    exists|mid: OpenFiles|
                        {
                            &&& #[trigger] shared(files_before, &mid, old_fd.open_file as int)
                            &&& match before.fd(new_id as int) {
                                Some(occupant) => released(
                                    &mid,
                                    files_after,
                                    occupant.open_file as int,
                                    closed,
                                ),
                                None => {
                                    &&& closed.is_none()
                                    &&& files_after.total() == mid.total()
                                    &&& forall|k: int| #[trigger] files_after.slot(k) == mid.slot(k)
                                },
                            }
                        }
                }
            },
            Err(e) => {
                &&& unchanged
                &&& e == if exists|n: int| n >= OPEN_MAX && #[trigger] before.target(constraint, n) {
                    Errno::EMFILE
                } else if before.fd(id as int).is_none() {
                    Errno::EBADF
                } else {
                    Errno::ENFILE
                }
                &&& e == Errno::ENFILE ==> (files_before.slot(
                    before.fd(id as int)->0.open_file as int,
                ) matches Some(s) ==> s.refs == usize::MAX || files_before.total()
                    == files_before.total_max())
            },
        }
    }

    /// Closes the file descriptor with the ID `id`.
    ///
    /// If the file descriptor was the last one to hold its open file
    /// description, the description is handed back, for the file to be
    /// closed.
    ///
    /// If the file descriptor does not exist, the function returns [`EBADF`]
    /// and changes nothing.
    pub fn close_fd(&mut self, files: &mut OpenFiles, id: i32) -> (r: EResult<Option<OpenFile>>)
        requires
            old(self).wf(),
            old(files).wf(),
        ensures
            final(self).wf(),
            final(files).wf(),
            final(files).total_max() == old(files).total_max(),
            match r {
                Ok(closed) => {
                    &&& old(self).fd(id as int) matches Some(fd)
                    &&& final(self).fd(id as int).is_none()
                    &&& forall|k: int| k != id ==> #[trigger] final(self).fd(k) == old(self).fd(k)
                    &&& released(old(files), final(files), fd.open_file as int, closed)
                },
                Err(e) => {
                    &&& e == Errno::EBADF
                    &&& old(self).fd(id as int).is_none()
                    &&& final(self)@ == old(self)@
                    &&& final(files).total() == old(files).total()
                    &&& forall|k: int| #[trigger] final(files).slot(k) == old(files).slot(k)
                },
            },
    {
        let fd = match self.get_fd(id) {
            Ok(fd) => *fd,
            Err(e) => {
                return Err(e);
            },
        };
        // Remove FD from table
        self.0.set(id as usize, None);
        let ghost mid = self@;
        // Shrink the table if necessary
        self.shrink();
        proof {
            assert forall|k: int| k != id implies #[trigger] self.fd(k) == old(self).fd(k) by {
                assert(fd_at(self@, k) == fd_at(mid, k));
            }
            assert(fd_at(self@, id as int) == fd_at(mid, id as int));
        }
        // Close FD
        Ok(fd.close(files))
    }
}

/// Tells whether `after` is `before` in which one more file descriptor holds
/// the open file description with handle `h`.
pub open spec fn shared(before: &OpenFiles, after: &OpenFiles, h: int) -> bool {
    &&& after.wf()
    &&& after.total_max() == before.total_max()
    &&& after.total() == before.total() + 1
    &&& forall|k: int| k != h ==> #[trigger] after.slot(k) == before.slot(k)
    &&& before.slot(h) matches Some(s)
    &&& after.slot(h) == Some(Shared { open_file: s.open_file, refs: (s.refs + 1) as usize })
}

/// Tells whether each file descriptor of `chain` but the first holds the
/// open file description of the one before it, as a duplicate of it does.
pub open spec fn duplicates(chain: Seq<FileDescriptor>) -> bool {
    forall|k: int| 0 < k < chain.len() ==> (#[trigger] chain[k]).open_file == chain[k - 1].open_file
}

/// A duplicate holds the open file description of the file descriptor that
/// it duplicates, which holds it still.
pub proof fn lemma_duplicate_shares(
    before: &FileDescriptorTable,
    after: &FileDescriptorTable,
    files_before: &OpenFiles,
    files_after: &OpenFiles,
    id: i32,
    constraint: NewFDConstraint,
    cloexec: bool,
    r: EResult<(u32, FileDescriptor, Option<OpenFile>)>,
)
    requires
        FileDescriptorTable::duplicated(
            before,
            after,
            files_before,
            files_after,
            id,
            constraint,
            cloexec,
            r,
        ),
        r.is_ok(),
    ensures
        before.fd(id as int) matches Some(source) && r matches Ok((new_id, new_fd, _))
            && new_fd.open_file == source.open_file && after.fd(new_id as int) == Some(new_fd) && (
        after.fd(id as int) matches Some(kept) && kept.open_file == source.open_file),
{
}

/// In a chain of duplications, every file descriptor holds the open file
/// description of the first one.
pub proof fn lemma_duplication_chain(chain: Seq<FileDescriptor>, k: int)
    requires
        duplicates(chain),
        0 <= k < chain.len(),
    ensures
        chain[k].open_file == chain[0].open_file,
    decreases k,
{
    if k > 0 {
        lemma_duplication_chain(chain, k - 1);
    }
}

/// The first ID is the one that a new file descriptor gets where no file
/// descriptor has it.
pub proof fn lemma_first_id(t: Seq<Option<FileDescriptor>>)
    requires
        fd_at(t, 0).is_none(),
    ensures
        lowest_free(t, 0, 0),
        forall|id: int| #[trigger] lowest_free(t, id, 0) ==> id == 0,
{
    lemma_not_full(t, 0, 0);
}

/// A duplication to a fixed ID that is not below `OPEN_MAX` fails with
/// `EMFILE`, and a duplication to the ID zero that succeeds gives that ID.
pub proof fn lemma_fixed_id(
    before: &FileDescriptorTable,
    after: &FileDescriptorTable,
    files_before: &OpenFiles,
    files_after: &OpenFiles,
    id: i32,
    n: u32,
    cloexec: bool,
    r: EResult<(u32, FileDescriptor, Option<OpenFile>)>,
)
    requires
        FileDescriptorTable::duplicated(
            before,
            after,
            files_before,
            files_after,
            id,
            NewFDConstraint::Fixed(n),
            cloexec,
            r,
        ),
    ensures
        n >= OPEN_MAX ==> (r matches Err(e) && e == Errno::EMFILE),
        r matches Ok((new_id, _, _)) ==> new_id == n && n < OPEN_MAX,
{
    if n >= OPEN_MAX {
        assert(before.target(NewFDConstraint::Fixed(n), n as int));
    }
}

/// Tells whether `t` has a file descriptor for every ID that a process may
/// use.
pub open spec fn self_full(t: Seq<Option<FileDescriptor>>) -> bool {
    forall|k: int| 0 <= k < OPEN_MAX ==> #[trigger] fd_at(t, k).is_some()
}

/// A table whose lowest free ID from `min` on is not below `OPEN_MAX` has a
/// file descriptor for every ID from `min` on that a process may use.
pub proof fn lemma_full(t: Seq<Option<FileDescriptor>>, min: int)
    requires
        exists|id: int| id >= OPEN_MAX && #[trigger] lowest_free(t, id, min),
    ensures
        forall|k: int| min <= k < OPEN_MAX ==> #[trigger] fd_at(t, k).is_some(),
        min == 0 ==> self_full(t),
{
    let id = choose|id: int| id >= OPEN_MAX && #[trigger] lowest_free(t, id, min);
    assert forall|k: int| min <= k < OPEN_MAX implies #[trigger] fd_at(t, k).is_some() by {}
}

/// The lowest free ID from `min` on is unique.
pub proof fn lemma_not_full(t: Seq<Option<FileDescriptor>>, id: int, min: int)
    requires
        lowest_free(t, id, min),
    ensures
        forall|n: int| #[trigger] lowest_free(t, n, min) ==> n == id,
        min == 0 && id < OPEN_MAX ==> !self_full(t),
{
    assert forall|n: int| #[trigger] lowest_free(t, n, min) implies n == id by {
        if n < id {
            assert(fd_at(t, n).is_some());
        }
        if id < n {
            assert(fd_at(t, id).is_some());
        }
    }
    if min == 0 && id < OPEN_MAX && self_full(t) {
        assert(fd_at(t, id).is_some());
    }
}

/// Tells whether a file descriptor with flags `flags` is closed on `execve`.
pub open spec fn has_cloexec(flags: i32) -> bool {
    flags & FD_CLOEXEC != 0
}

/// Tells whether the copy of a table keeps the file descriptor `fd`: it does
/// unless the copy is made for `execve` and the file descriptor is closed on
/// `execve`.
pub open spec fn kept(fd: Option<FileDescriptor>, cloexec: bool) -> bool {
    fd matches Some(d) && !(cloexec && has_cloexec(d.flags))
}

/// The number of file descriptors among the first `n` of `t` that a copy
/// keeps.
pub open spec fn kept_count(t: Seq<Option<FileDescriptor>>, cloexec: bool, n: int) -> nat
    decreases n,
{
    if n <= 0 {
        0
    } else {
        kept_count(t, cloexec, n - 1) + if kept(fd_at(t, n - 1), cloexec) {
            1nat
        } else {
            0nat
        }
    }
}

/// The number of file descriptors among the first `n` of `t` that a copy
/// keeps and that hold the open file description with handle `h`.
pub open spec fn kept_refs(t: Seq<Option<FileDescriptor>>, cloexec: bool, h: int, n: int) -> nat
    decreases n,
{
    if n <= 0 {
        0
    } else {
        kept_refs(t, cloexec, h, n - 1) + if kept(fd_at(t, n - 1), cloexec) && fd_at(
            t,
            n - 1,
        )->0.open_file == h {
            1nat
        } else {
            0nat
        }
    }
}

/// Tells whether the file descriptor with ID `k` in `t`, if there is one,
/// holds an open file description of `files`, which can be held by one more
/// file descriptor for each one of `t`.
pub open spec fn held(t: Seq<Option<FileDescriptor>>, files: &OpenFiles, k: int) -> bool {
    fd_at(t, k) matches Some(fd) ==> (files.slot(fd.open_file as int) matches Some(s) && s.refs
        + t.len() <= usize::MAX)
}

/// Tells whether `after` is `before` in which the open file descriptions are
/// held by the file descriptors among the first `n` of `t` that a copy keeps
/// as well.
pub open spec fn shared_prefix(
    before: &OpenFiles,
    after: &OpenFiles,
    t: Seq<Option<FileDescriptor>>,
    cloexec: bool,
    n: int,
) -> bool {
    &&& after.wf()
    &&& after.total_max() == before.total_max()
    &&& after.total() == before.total() + kept_count(t, cloexec, n)
    &&& forall|h: int|
        #[trigger] after.slot(h) == match before.slot(h) {
            Some(s) => Some(
                Shared { open_file: s.open_file, refs: (s.refs + kept_refs(t, cloexec, h, n)) as usize },
            ),
            None => None,
        }
}

/// A copy keeps no more file descriptors than there are.
pub proof fn lemma_kept_bounds(t: Seq<Option<FileDescriptor>>, cloexec: bool, h: int, n: int)
    requires
        0 <= n,
    ensures
        kept_refs(t, cloexec, h, n) <= kept_count(t, cloexec, n) <= n,
    decreases n,
{
    if n > 0 {
        lemma_kept_bounds(t, cloexec, h, n - 1);
    }
}

impl FileDescriptorTable {
    /// Tells whether every file descriptor of the table holds an open file
    /// description of `files`, which can be held by one more file descriptor
    /// for each one of the table.
    pub open spec fn open_in(&self, files: &OpenFiles) -> bool {
        forall|k: int| #[trigger] held(self@, files, k)
    }

    /// Returns the number of file descriptors that a copy of the table
    /// keeps.
    pub fn count_kept(&self, cloexec: bool) -> (n: usize)
        ensures
            n == kept_count(self@, cloexec, self@.len() as int),
    {
        let mut n: usize = 0;
        let mut i: usize = 0;
        while i < self.0.len()
            invariant
                i <= self@.len(),
                n <= i,
                n == kept_count(self@, cloexec, i as int),
            decreases self@.len() - i,
        {
            let keep = match self.0[i] {
                Some(fd) => !cloexec || fd.flags & FD_CLOEXEC == 0,
                None => false,
            };
            assert(keep == kept(self.fd(i as int), cloexec));
            if keep {
                n = n + 1;
            }
            i = i + 1;
        }
        n
    }

    /// Duplicates the whole file descriptors table.
    ///
    /// `cloexec` specifies whether the cloexec flag must be taken into
    /// account. This is the case when executing a program: the copy then
    /// lacks the file descriptors that have the flag.
    ///
    /// The file descriptors of the copy hold the open file descriptions of
    /// those of the table. The function fails with `ENFILE`, and changes
    /// nothing, iff the file descriptors of the copy would make more file
    /// descriptors open system-wide than can be.
    pub fn duplicate(&self, files: &mut OpenFiles, cloexec: bool) -> (r: EResult<Self>)
        requires
            self.wf(),
            old(files).wf(),
            self.open_in(old(files)),
        ensures
            final(files).wf(),
            final(files).total_max() == old(files).total_max(),
            match r {
                Ok(t) => {
                    &&& t.wf()
                    &&& forall|k: int|
                        #[trigger] t.fd(k) == if kept(self.fd(k), cloexec) {
                            self.fd(k)
                        } else {
                            None
                        }
                    &&& shared_prefix(old(files), final(files), self@, cloexec, self@.len() as int)
                    &&& old(files).total() + kept_count(self@, cloexec, self@.len() as int) <= old(files).total_max()
                },
                Err(e) => {
                    &&& e == Errno::ENFILE
                    &&& old(files).total() + kept_count(self@, cloexec, self@.len() as int) > old(files).total_max()
                    &&& final(files).total() == old(files).total()
                    &&& forall|h: int| #[trigger] final(files).slot(h) == old(files).slot(h)
                },
            },
    {
        let mut fds: Vec<Option<FileDescriptor>> = Vec::new();
        let mut i: usize = 0;
        let mut failed = false;
        while i < self.0.len()
            invariant_except_break
                !failed,
                fds@.len() == i,
                forall|k: int|
                    0 <= k < i ==> #[trigger] fds@[k] == if kept(self.fd(k), cloexec) {
                        self.fd(k)
                    } else {
                        None
                    },
            invariant
                i <= self@.len(),
                self.wf(),
                old(files).wf(),
                self.open_in(old(files)),
                shared_prefix(old(files), files, self@, cloexec, i as int),
            ensures
                i <= self@.len(),
                failed ==> i < self@.len() && old(files).total() + kept_count(
                    self@,
                    cloexec,
                    i + 1,
                ) > old(files).total_max(),
                !failed ==> i == self@.len() && fds@.len() == i && forall|k: int|
                    0 <= k < i ==> #[trigger] fds@[k] == if kept(self.fd(k), cloexec) {
                        self.fd(k)
                    } else {
                        None
                    },
                shared_prefix(old(files), files, self@, cloexec, i as int),
            decreases self@.len() - i,
        {
            let keep = match self.0[i] {
                // cloexec implies the FD's cloexec flag must be clear
                Some(fd) => !cloexec || fd.flags & FD_CLOEXEC == 0,
                None => false,
            };
            assert(keep == kept(self.fd(i as int), cloexec));
            let ghost before = *files;
            if keep {
                let fd = self.0[i].unwrap();
                proof {
                    assert(held(self@, old(files), i as int));
                    lemma_kept_bounds(self@, cloexec, fd.open_file as int, i as int);
                    assert(files.slot(fd.open_file as int) == match old(files).slot(
                        fd.open_file as int,
                    ) {
                        Some(s) => Some(
                            Shared {
                                open_file: s.open_file,
                                refs: (s.refs + kept_refs(
                                    self@,
                                    cloexec,
                                    fd.open_file as int,
                                    i as int,
                                )) as usize,
                            },
                        ),
                        None => None,
                    });
                }
                match files.share(fd.open_file) {
                    Ok(()) => {},
                    Err(_) => {
                        failed = true;
                        break ;
                    },
                }
            }
            proof {
                assert forall|h: int| #[trigger]
                    files.slot(h) == match old(files).slot(h) {
                        Some(s) => Some(
                            Shared {
                                open_file: s.open_file,
                                refs: (s.refs + kept_refs(self@, cloexec, h, i + 1)) as usize,
                            },
                        ),
                        None => None,
                    } by {
                    assert(before.slot(h) == match old(files).slot(h) {
                        Some(s) => Some(
                            Shared {
                                open_file: s.open_file,
                                refs: (s.refs + kept_refs(self@, cloexec, h, i as int)) as usize,
                            },
                        ),
                        None => None,
                    });
                }
            }
            fds.push(if keep {
                self.0[i]
            } else {
                None
            });
            i = i + 1;
        }
        if failed {
            proof {
                lemma_kept_grows(self@, cloexec, i + 1, self@.len() as int);
            }
            // Give back what has been taken
            while i > 0
                invariant
                    i <= self@.len(),
                    self.wf(),
                    old(files).wf(),
                    self.open_in(old(files)),
                    shared_prefix(old(files), files, self@, cloexec, i as int),
                decreases i,
            {
                i = i - 1;
                let keep = match self.0[i] {
                    Some(fd) => !cloexec || fd.flags & FD_CLOEXEC == 0,
                    None => false,
                };
                assert(keep == kept(self.fd(i as int), cloexec));
                let ghost before = *files;
                if keep {
                    let fd = self.0[i].unwrap();
                    proof {
                        assert(held(self@, old(files), i as int));
                        lemma_kept_bounds(self@, cloexec, fd.open_file as int, i as int);
                        old(files).lemma_refs(fd.open_file as int);
                        assert(before.slot(fd.open_file as int) == match old(files).slot(
                            fd.open_file as int,
                        ) {
                            Some(s) => Some(
                                Shared {
                                    open_file: s.open_file,
                                    refs: (s.refs + kept_refs(
                                        self@,
                                        cloexec,
                                        fd.open_file as int,
                                        i + 1,
                                    )) as usize,
                                },
                            ),
                            None => None,
                        });
                    }
                    let _ = files.release(fd.open_file);
                }
                proof {
                    assert forall|h: int| #[trigger]
                        files.slot(h) == match old(files).slot(h) {
                            Some(s) => Some(
                                Shared {
                                    open_file: s.open_file,
                                    refs: (s.refs + kept_refs(self@, cloexec, h, i as int)) as usize,
                                },
                            ),
                            None => None,
                        } by {
                        assert(before.slot(h) == match old(files).slot(h) {
                            Some(s) => Some(
                                Shared {
                                    open_file: s.open_file,
                                    refs: (s.refs + kept_refs(self@, cloexec, h, i + 1)) as usize,
                                },
                            ),
                            None => None,
                        });
                    }
                }
            }
            proof {
                assert forall|h: int| #[trigger] files.slot(h) == old(files).slot(h) by {
                    assert(files.slot(h) == match old(files).slot(h) {
                        Some(s) => Some(
                            Shared {
                                open_file: s.open_file,
                                refs: (s.refs + kept_refs(self@, cloexec, h, 0)) as usize,
                            },
                        ),
                        None => None,
                    });
                }
            }
            return Err(Errno::ENFILE);
        }
        let mut t = FileDescriptorTable(fds);
        let ghost full = t@;
        t.shrink();
        proof {
            files.lemma_total();
            assert forall|k: int| #[trigger]
                t.fd(k) == if kept(self.fd(k), cloexec) {
                    self.fd(k)
                } else {
                    None
                } by {
                assert(fd_at(t@, k) == fd_at(full, k));
                if 0 <= k < full.len() {
                    assert(full[k] == if kept(self.fd(k), cloexec) {
                        self.fd(k)
                    } else {
                        None
                    });
                }
            }
        }
        Ok(t)
    }
}

/// A copy keeps at least as many of the first file descriptors of a table as
/// of fewer of them.
pub proof fn lemma_kept_grows(t: Seq<Option<FileDescriptor>>, cloexec: bool, n: int, m: int)
    requires
        n <= m,
    ensures
        kept_count(t, cloexec, n) <= kept_count(t, cloexec, m),
    decreases m - n,
{
    if n < m {
        lemma_kept_grows(t, cloexec, n, m - 1);
    }
}

} // verus!
