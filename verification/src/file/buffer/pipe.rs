//! A pipe is a queue of bytes between the processes that write to it and
//! those that read from it.

use vstd::prelude::*;
use crate::errno::{EResult, Errno};

verus! {

/// The number of bytes that a pipe can hold.
pub const PIPE_CAPACITY: usize = 65536;

/// The buffer of a pipe.
pub struct PipeBuffer {
    /// The bytes that wait to be read, the oldest first.
    data: Vec<u8>,
    /// The number of descriptions that are open on the reading end.
    readers: u32,
    /// The number of descriptions that are open on the writing end.
    writers: u32,
}

impl View for PipeBuffer {
    type V = Seq<u8>;

    closed spec fn view(&self) -> Seq<u8> {
        self.data@
    }
}

/// The number of bytes that `n` asked and `m` available make to transfer.
pub open spec fn least(n: int, m: int) -> int {
    if n < m {
        n
    } else {
        m
    }
}

impl PipeBuffer {
    /// The buffer's invariant: it holds no more bytes than a pipe can.
    pub closed spec fn wf(&self) -> bool {
        self.data@.len() <= PIPE_CAPACITY
    }

    /// The number of descriptions that are open on the reading end.
    pub closed spec fn readers(&self) -> nat {
        self.readers as nat
    }

    /// The number of descriptions that are open on the writing end.
    pub closed spec fn writers(&self) -> nat {
        self.writers as nat
    }

    /// A well-formed buffer holds no more bytes than a pipe can.
    pub proof fn lemma_len(&self)
        requires
            self.wf(),
        ensures
            self@.len() <= PIPE_CAPACITY,
    {
    }

    /// Creates an empty buffer, open on neither end.
    pub fn new() -> (b: Self)
        ensures
            b.wf(),
            b@.len() == 0,
            b.readers() == 0,
            b.writers() == 0,
    {
        PipeBuffer { data: Vec::new(), readers: 0, writers: 0 }
    }

    /// Returns the number of bytes that a pipe can hold.
    pub fn get_capacity(&self) -> (c: usize)
        ensures
            c == PIPE_CAPACITY,
    {
        PIPE_CAPACITY
    }

    /// Returns the number of descriptions that are open on the reading end.
    pub fn get_readers(&self) -> (n: u32)
        ensures
            n == self.readers(),
    {
        self.readers
    }

    /// Returns the number of bytes that wait to be read.
    pub fn get_data_len(&self) -> (n: usize)
        ensures
            n == self@.len(),
    {
        self.data.len()
    }

    /// Returns the number of bytes that can be written before the buffer is
    /// full.
    pub fn get_available_len(&self) -> (n: usize)
        requires
            self.wf(),
        ensures
            n == PIPE_CAPACITY - self@.len(),
    {
        PIPE_CAPACITY - self.data.len()
    }

    /// Records that one more description is open on the reading end, the
    /// writing end or both.
    pub fn increment_open(&mut self, read: bool, write: bool)
        ensures
            final(self)@ == old(self)@,
            final(self).wf() == old(self).wf(),
            final(self).readers() == if read && old(self).readers() < u32::MAX {
                old(self).readers() + 1
            } else {
                old(self).readers()
            },
            final(self).writers() == if write && old(self).writers() < u32::MAX {
                old(self).writers() + 1
            } else {
                old(self).writers()
            },
    {
        if read && self.readers < u32::MAX {
            self.readers += 1;
        }
        if write && self.writers < u32::MAX {
            self.writers += 1;
        }
    }

    /// Records that one description less is open on the reading end, the
    /// writing end or both.
    pub fn decrement_open(&mut self, read: bool, write: bool)
        ensures
            final(self)@ == old(self)@,
            final(self).wf() == old(self).wf(),
            final(self).readers() == if read && old(self).readers() > 0 {
                old(self).readers() - 1
            } else {
                old(self).readers() as int
            },
            final(self).writers() == if write && old(self).writers() > 0 {
                old(self).writers() - 1
            } else {
                old(self).writers() as int
            },
    {
        if read && self.readers > 0 {
            self.readers -= 1;
        }
        if write && self.writers > 0 {
            self.writers -= 1;
        }
    }

    /// Takes up to `len` bytes out of the buffer, the oldest first, and
    /// returns them.
    pub fn read(&mut self, len: usize) -> (r: Vec<u8>)
        requires
            old(self).wf(),
        ensures
            final(self).wf(),
            final(self).readers() == old(self).readers(),
            final(self).writers() == old(self).writers(),
            r@ == old(self)@.subrange(0, least(len as int, old(self)@.len() as int)),
            final(self)@ == old(self)@.subrange(
                least(len as int, old(self)@.len() as int),
                old(self)@.len() as int,
            ),
    {
        let n = if len < self.data.len() {
            len
        } else {
            self.data.len()
        };
        let mut out: Vec<u8> = Vec::new();
        let mut rest: Vec<u8> = Vec::new();
        let mut i: usize = 0;
        while i < self.data.len()
            invariant
                i <= self.data@.len(),
                n <= self.data@.len(),
                out@ == self.data@.subrange(0, least(i as int, n as int)),
                rest@ == self.data@.subrange(n as int, if i < n { n as int } else { i as int }),
            decreases self.data@.len() - i,
        {
            if i < n {
                out.push(self.data[i]);
                assert(out@ =~= self.data@.subrange(0, i + 1));
            } else {
                rest.push(self.data[i]);
                assert(rest@ =~= self.data@.subrange(n as int, i + 1));
            }
            i = i + 1;
        }
        self.data = rest;
        out
    }

    /// Puts at the end of the buffer as many of the first bytes of `buf` as
    /// it has room for, and returns their number.
    ///
    /// The function fails with `EPIPE`, and changes nothing, if no
    /// description is open on the reading end.
    pub fn write(&mut self, buf: &Vec<u8>) -> (r: EResult<usize>)
        requires
            old(self).wf(),
        ensures
            final(self).wf(),
            final(self).readers() == old(self).readers(),
            final(self).writers() == old(self).writers(),
            match r {
                Ok(n) => {
                    &&& old(self).readers() > 0
                    &&& n == least(buf@.len() as int, PIPE_CAPACITY - old(self)@.len())
                    &&& final(self)@ == old(self)@ + buf@.subrange(0, n as int)
                },
                Err(e) => e == Errno::EPIPE && old(self).readers() == 0 && final(self)@ == old(self)@,
            },
    {
        if self.readers == 0 {
            return Err(Errno::EPIPE);
        }
        let room = PIPE_CAPACITY - self.data.len();
        let n = if buf.len() < room {
            buf.len()
        } else {
            room
        };
        let mut i: usize = 0;
        while i < n
            invariant
                i <= n,
                n <= buf@.len(),
                old(self)@.len() + n <= PIPE_CAPACITY,
                self.readers == old(self).readers,
                self.writers == old(self).writers,
                self@ == old(self)@ + buf@.subrange(0, i as int),
            decreases n - i,
        {
            self.data.push(buf[i]);
            assert(self@ =~= old(self)@ + buf@.subrange(0, i + 1));
            i = i + 1;
        }
        Ok(n)
    }
}

} // verus!
