//! System-wide limits.

use vstd::prelude::*;

verus! {

/// The size of a page of memory in bytes.
pub const PAGE_SIZE: usize = 0x1000;

/// The maximum number of file descriptors that one process can hold.
pub const OPEN_MAX: u32 = 1024;

/// The maximum number of chunks in one vectored I/O request.
pub const IOV_MAX: usize = 1024;

/// Returns the number of pages needed to hold `len` bytes.
pub fn pages_for(len: usize) -> (pages: usize)
    ensures
        pages * PAGE_SIZE >= len,
        (pages - 1) * PAGE_SIZE < len,
        pages == (len + PAGE_SIZE - 1) / (PAGE_SIZE as int),
{
    let whole: usize = len / PAGE_SIZE;
    if len % PAGE_SIZE == 0 {
        whole
    } else {
        whole + 1
    }
}

} // verus!
