//! Error numbers returned by kernel operations.

use vstd::prelude::*;

verus! {

/// An error number, as handed back to userspace by a failed system call.
#[derive(Clone, Copy, Debug, PartialEq, Eq, Structural)]
pub enum Errno {
    /// Operation not permitted.
    EPERM,
    /// No such file or directory.
    ENOENT,
    /// No such process.
    ESRCH,
    /// Interrupted system call.
    EINTR,
    /// Bad file descriptor.
    EBADF,
    /// Resource temporarily unavailable.
    EAGAIN,
    /// Out of memory.
    ENOMEM,
    /// Permission denied.
    EACCES,
    /// Bad address.
    EFAULT,
    /// File exists.
    EEXIST,
    /// No such device.
    ENODEV,
    /// Not a directory.
    ENOTDIR,
    /// Invalid argument.
    EINVAL,
    /// Too many open files system-wide.
    ENFILE,
    /// Too many open files in the process.
    EMFILE,
    /// Illegal seek.
    ESPIPE,
    /// Broken pipe.
    EPIPE,
    /// Destination address required.
    EDESTADDRREQ,
}

/// The failure of a memory allocation.
#[derive(Clone, Copy, Debug, PartialEq, Eq, Structural)]
pub struct AllocError;

/// Result of an operation that fails with an error number.
pub type EResult<T> = Result<T, Errno>;

/// Result of an operation that fails only for want of memory.
pub type AllocResult<T> = Result<T, AllocError>;

/// The integer that stands for `e` at the system call boundary.
pub open spec fn errno_number(e: Errno) -> int {
    match e {
        Errno::EPERM => 1,
        Errno::ENOENT => 2,
        Errno::ESRCH => 3,
        Errno::EINTR => 4,
        Errno::EBADF => 9,
        Errno::EAGAIN => 11,
        Errno::ENOMEM => 12,
        Errno::EACCES => 13,
        Errno::EFAULT => 14,
        Errno::EEXIST => 17,
        Errno::ENODEV => 19,
        Errno::ENOTDIR => 20,
        Errno::EINVAL => 22,
        Errno::ENFILE => 23,
        Errno::EMFILE => 24,
        Errno::ESPIPE => 29,
        Errno::EPIPE => 32,
        Errno::EDESTADDRREQ => 89,
    }
}

impl Errno {
    /// Returns the error number as an integer.
    pub fn as_int(&self) -> (n: i32)
        ensures
            n == errno_number(*self),
    {
        match self {
            Errno::EPERM => 1,
            Errno::ENOENT => 2,
            Errno::ESRCH => 3,
            Errno::EINTR => 4,
            Errno::EBADF => 9,
            Errno::EAGAIN => 11,
            Errno::ENOMEM => 12,
            Errno::EACCES => 13,
            Errno::EFAULT => 14,
            Errno::EEXIST => 17,
            Errno::ENODEV => 19,
            Errno::ENOTDIR => 20,
            Errno::EINVAL => 22,
            Errno::ENFILE => 23,
            Errno::EMFILE => 24,
            Errno::ESPIPE => 29,
            Errno::EPIPE => 32,
            Errno::EDESTADDRREQ => 89,
        }
    }
}

/// Turns an allocation failure into the error number that reports it.
pub fn alloc_errno(_e: AllocError) -> (e: Errno)
    ensures
        e == Errno::ENOMEM,
{
    Errno::ENOMEM
}

} // verus!
