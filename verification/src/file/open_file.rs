//! An open file description is what a process gets when it opens a file: a
//! cursor in the file and the flags that the file was open with.
//!
//! Several file descriptors, of one process or of several, may share one open
//! file description. The descriptions are kept in a table that is common to
//! all processes; a file descriptor names its description by its handle in
//! that table.

use vstd::prelude::*;
use crate::errno::{EResult, Errno};
use crate::file::FileLocation;

verus! {

/// Open file flag: the file is open for reading only.
pub const O_RDONLY: i32 = 0b00000000000000000000000000000000;

/// Open file flag: the file is open for writing only.
pub const O_WRONLY: i32 = 0b00000000000000000000000000000001;

/// Open file flag: the file is open for reading and writing.
pub const O_RDWR: i32 = 0b00000000000000000000000000000010;

/// Open file flag: the file is created if it does not exist.
pub const O_CREAT: i32 = 0b00000000000000000000000001000000;

/// Open file flag: the file is truncated when it is open.
pub const O_TRUNC: i32 = 0b00000000000000000000001000000000;

/// Open file flag: writes append to the file.
pub const O_APPEND: i32 = 0b00000000000000000000010000000000;

/// Open file flag: I/O on the file does not block.
pub const O_NONBLOCK: i32 = 0b00000000000000000000100000000000;

/// Open file flag: I/O on the file bypasses the cache.
pub const O_DIRECT: i32 = 0b00000000000000000100000000000000;

/// Open file flag: the file must be a directory.
pub const O_DIRECTORY: i32 = 0b00000000000000010000000000000000;

/// Open file flag: a symbolic link at the end of the path is not followed.
pub const O_NOFOLLOW: i32 = 0b00000000000000100000000000000000;

/// Open file flag: the file descriptor is closed on `execve`.
pub const O_CLOEXEC: i32 = 0b00000000000010000000000000000000;

/// An open file description.
#[derive(Clone, Copy, Debug, PartialEq, Eq, Structural)]
pub struct OpenFile {
    /// The location of the file.
    pub location: FileLocation,
    /// The flags that the file was open with.
    pub flags: i32,
    /// The offset of the cursor in the file.
    pub off: u64,
}

impl OpenFile {
    /// The open file description for the file at `location`, with the cursor
    /// at the beginning of the file.
    pub open spec fn new_spec(location: FileLocation, flags: i32) -> OpenFile {
        OpenFile { location, flags, off: 0 }
    }

    /// Creates an open file description for the file at `location`, with the
    /// cursor at the beginning of the file.
    pub fn new(location: FileLocation, flags: i32) -> (f: Self)
        ensures
            f == Self::new_spec(location, flags),
    {
        OpenFile { location, flags, off: 0 }
    }

    /// Returns the location of the file.
    pub fn get_location(&self) -> (l: FileLocation)
        ensures
            l == self.location,
    {
        self.location
    }

    /// Returns the flags that the file was open with.
    pub fn get_flags(&self) -> (f: i32)
        ensures
            f == self.flags,
    {
        self.flags
    }

    /// Returns the offset of the cursor.
    pub fn get_offset(&self) -> (o: u64)
        ensures
            o == self.off,
    {
        self.off
    }

    /// Moves the cursor to offset `off`.
    pub fn set_offset(&mut self, off: u64)
        ensures
            *final(self) == (OpenFile { off, ..*old(self) }),
    {
        self.off = off;
    }
}

/// An open file description with the number of file descriptors that share
/// it.
#[derive(Clone, Copy, Debug, PartialEq, Eq, Structural)]
pub struct Shared {
    /// The open file description.
    pub open_file: OpenFile,
    /// The number of file descriptors that hold the description.
    pub refs: usize,
}

/// The open file descriptions of the system, and the count of the file
/// descriptors that are open system-wide.
pub struct OpenFiles {
    slots: Vec<Option<Shared>>,
    total_fd: usize,
    total_max: usize,
}

impl OpenFiles {
    /// The table's invariant: a description is held by one file descriptor
    /// at least, and the count of file descriptors is within its maximum.
    pub closed spec fn wf(&self) -> bool {
        &&& self.total_fd <= self.total_max
        &&& forall|h: int|
            0 <= h < self.slots@.len() ==> (#[trigger] self.slots@[h] matches Some(s) ==> s.refs > 0)
    }

    /// The description with handle `h`, if there is one, and the number of
    /// file descriptors that share it.
    pub closed spec fn slot(&self, h: int) -> Option<Shared> {
        if 0 <= h < self.slots@.len() {
            self.slots@[h]
        } else {
            None
        }
    }

    /// The number of file descriptors that are open system-wide.
    pub closed spec fn total(&self) -> nat {
        self.total_fd as nat
    }

    /// The maximum number of file descriptors that can be open system-wide
    /// at once.
    pub closed spec fn total_max(&self) -> nat {
        self.total_max as nat
    }

    /// A description of a well-formed table is held by one file descriptor
    /// at least.
    pub proof fn lemma_refs(&self, h: int)
        requires
            self.wf(),
            self.slot(h).is_some(),
        ensures
            self.slot(h)->0.refs > 0,
            self.total() <= self.total_max(),
    {
    }

    /// No more file descriptors are open system-wide than can be.
    pub proof fn lemma_total(&self)
        requires
            self.wf(),
        ensures
            self.total() <= self.total_max(),
    {
    }

    /// Creates a table with no description, in which `total_max` file
    /// descriptors can be open at once.
    pub fn new(total_max: usize) -> (t: Self)
        ensures
            t.wf(),
            t.total() == 0,
            t.total_max() == total_max,
            forall|h: int| #[trigger] t.slot(h).is_none(),
    {
        OpenFiles { slots: Vec::new(), total_fd: 0, total_max }
    }

    /// Returns the maximum number of file descriptors that can be open
    /// system-wide at once.
    pub fn total_max_value(&self) -> (n: usize)
        ensures
            n == self.total_max(),
    {
        self.total_max
    }

    /// Returns the number of file descriptors that are open system-wide.
    pub fn get_total(&self) -> (n: usize)
        ensures
            n == self.total(),
    {
        self.total_fd
    }

    /// Increments the total number of file descriptors open system-wide.
    ///
    /// If the maximum amount of file descriptors is reached, the function
    /// does nothing and returns an error with the appropriate errno.
    fn increment_total(&mut self) -> (r: EResult<()>)
        requires
            old(self).wf(),
        ensures
            final(self).wf(),
            final(self).slots == old(self).slots,
            final(self).total_max == old(self).total_max,
            match r {
                Ok(()) => old(self).total() < old(self).total_max() && final(self).total() == old(self).total() + 1,
                Err(e) => e == Errno::ENFILE && old(self).total() == old(self).total_max() && final(self).total() == old(self).total(),
            },
    {
        if self.total_fd >= self.total_max {
            return Err(Errno::ENFILE);
        }
        self.total_fd += 1;
        Ok(())
    }

    /// Decrements the total number of file descriptors open system-wide.
    fn decrement_total(&mut self)
        ensures
            final(self).slots == old(self).slots,
            final(self).total_max == old(self).total_max,
            final(self).total() == if old(self).total() > 0 {
                old(self).total() - 1
            } else {
                0
            },
    {
        if self.total_fd > 0 {
            self.total_fd -= 1;
        }
    }

    /// Returns the description with handle `h`, if there is one.
    pub fn get(&self, h: usize) -> (r: Option<OpenFile>)
        ensures
            r == match self.slot(h as int) {
                Some(s) => Some(s.open_file),
                None => None,
            },
    {
        if h < self.slots.len() {
            match self.slots[h] {
                Some(s) => Some(s.open_file),
                None => None,
            }
        } else {
            None
        }
    }

    /// Replaces the description with handle `h`, if there is one, by
    /// `open_file`, and tells whether there was one.
    pub fn set(&mut self, h: usize, open_file: OpenFile) -> (found: bool)
        requires
            old(self).wf(),
        ensures
            final(self).wf(),
            final(self).total() == old(self).total(),
            final(self).total_max() == old(self).total_max(),
            found == old(self).slot(h as int).is_some(),
            forall|k: int| k != h ==> #[trigger] final(self).slot(k) == old(self).slot(k),
            final(self).slot(h as int) == match old(self).slot(h as int) {
                Some(s) => Some(Shared { open_file, refs: s.refs }),
                None => None,
            },
    {
        if h < self.slots.len() {
            match self.slots[h] {
                Some(s) => {
                    self.slots.set(h, Some(Shared { open_file, refs: s.refs }));
                    true
                },
                None => false,
            }
        } else {
            false
        }
    }

    /// Tells whether `h` is the lowest handle that names no description.
    pub open spec fn lowest_unused(&self, h: int) -> bool {
        &&& 0 <= h
        &&& self.slot(h).is_none()
        &&& forall|k: int| 0 <= k < h ==> #[trigger] self.slot(k).is_some()
    }

    /// Adds the description `open_file`, for a new file descriptor to hold,
    /// and returns its handle: the lowest one that names no description.
    ///
    /// The function fails with `ENFILE`, and changes nothing, iff as many
    /// file descriptors are open system-wide as can be.
    pub fn insert(&mut self, open_file: OpenFile) -> (r: EResult<usize>)
        requires
            old(self).wf(),
        ensures
            final(self).wf(),
            final(self).total_max() == old(self).total_max(),
            match r {
                Ok(h) => {
                    &&& old(self).total() < old(self).total_max()
                    &&& old(self).lowest_unused(h as int)
                    &&& final(self).total() == old(self).total() + 1
                    &&& final(self).slot(h as int) == Some(Shared { open_file, refs: 1 })
                    &&& forall|k: int| k != h ==> #[trigger] final(self).slot(k) == old(self).slot(k)
                },
                Err(e) => {
                    &&& e == Errno::ENFILE
                    &&& old(self).total() == old(self).total_max()
                    &&& final(self).total() == old(self).total()
                    &&& forall|k: int| #[trigger] final(self).slot(k) == old(self).slot(k)
                },
            },
    {
        match self.increment_total() {
            Ok(()) => {},
            Err(e) => {
                return Err(e);
            },
        }
        let mut h: usize = 0;
        while h < self.slots.len()
            invariant
                h <= self.slots@.len(),
                self.wf(),
                self.slots@ == old(self).slots@,
                self.total_max == old(self).total_max,
                old(self).total() < old(self).total_max(),
                self.total() == old(self).total() + 1,
                forall|k: int| 0 <= k < h ==> #[trigger] old(self).slot(k).is_some(),
            decreases self.slots@.len() - h,
        {
            if self.slots[h].is_none() {
                self.slots.set(h, Some(Shared { open_file, refs: 1 }));
                return Ok(h);
            }
            h = h + 1;
        }
        self.slots.push(Some(Shared { open_file, refs: 1 }));
        Ok(h)
    }

    /// Records that one more file descriptor holds the description with
    /// handle `h`.
    ///
    /// The function fails, and changes nothing, with `EBADF` if the handle
    /// names no description, or else with `ENFILE` if as many file
    /// descriptors are open system-wide as can be, or if the description is
    /// held by as many file descriptors as can be counted.
    pub fn share(&mut self, h: usize) -> (r: EResult<()>)
        requires
            old(self).wf(),
        ensures
            final(self).wf(),
            final(self).total_max() == old(self).total_max(),
            forall|k: int| k != h ==> #[trigger] final(self).slot(k) == old(self).slot(k),
            match r {
                Ok(()) => {
                    &&& old(self).slot(h as int) matches Some(s)
                    &&& s.refs < usize::MAX
                    &&& old(self).total() < old(self).total_max()
                    &&& final(self).total() == old(self).total() + 1
                    &&& final(self).slot(h as int) == Some(
                        Shared { open_file: s.open_file, refs: (s.refs + 1) as usize },
                    )
                },
                Err(e) => {
                    &&& final(self).total() == old(self).total()
                    &&& final(self).slot(h as int) == old(self).slot(h as int)
                    &&& e == if old(self).slot(h as int).is_none() {
                        Errno::EBADF
                    } else {
                        Errno::ENFILE
                    }
                    &&& old(self).slot(h as int) matches Some(s) ==> s.refs == usize::MAX || old(self).total() == old(self).total_max()
                },
            },
    {
        if h >= self.slots.len() {
            return Err(Errno::EBADF);
        }
        let s = match self.slots[h] {
            Some(s) => s,
            None => {
                return Err(Errno::EBADF);
            },
        };
        if s.refs == usize::MAX {
            return Err(Errno::ENFILE);
        }
        match self.increment_total() {
            Ok(()) => {},
            Err(e) => {
                return Err(e);
            },
        }
        self.slots.set(h, Some(Shared { open_file: s.open_file, refs: s.refs + 1 }));
        Ok(())
    }

    /// Records that one file descriptor less holds the description with
    /// handle `h`. If no file descriptor holds it any more, the description
    /// is removed from the table and returned, for the file to be closed.
    ///
    /// Nothing changes if the handle names no description.
    pub fn release(&mut self, h: usize) -> (r: Option<OpenFile>)
        requires
            old(self).wf(),
        ensures
            final(self).wf(),
            final(self).total_max() == old(self).total_max(),
            forall|k: int| k != h ==> #[trigger] final(self).slot(k) == old(self).slot(k),
            match old(self).slot(h as int) {
                Some(s) => {
                    &&& final(self).total() == if old(self).total() > 0 {
                        old(self).total() - 1
                    } else {
                        0
                    }
                    &&& if s.refs == 1 {
                        r == Some(s.open_file) && final(self).slot(h as int).is_none()
                    } else {
                        r.is_none() && final(self).slot(h as int) == Some(
                            Shared { open_file: s.open_file, refs: (s.refs - 1) as usize },
                        )
                    }
                },
                None => {
                    &&& r.is_none()
                    &&& final(self).total() == old(self).total()
                    &&& final(self).slot(h as int).is_none()
                },
            },
    {
        if h >= self.slots.len() {
            return None;
        }
        let s = match self.slots[h] {
            Some(s) => s,
            None => {
                return None;
            },
        };
        self.decrement_total();
        if s.refs > 1 {
            self.slots.set(h, Some(Shared { open_file: s.open_file, refs: s.refs - 1 }));
            None
        } else {
            self.slots.set(h, None);
            Some(s.open_file)
        }
    }
}

} // verus!
