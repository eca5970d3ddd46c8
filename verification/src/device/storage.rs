//! Storage devices.

use vstd::prelude::*;
use crate::device::DeviceIO;
use crate::errno::{EResult, Errno};

verus! {

/// A disk whose blocks are kept in memory.
pub struct RamDisk {
    /// The size of a block in bytes.
    block_size: u64,
    /// The bytes of the disk.
    data: Vec<u8>,
}

impl RamDisk {
    /// The disk's invariant: its blocks are not empty, and it is made of
    /// whole blocks.
    pub closed spec fn wf(&self) -> bool {
        &&& self.block_size > 0
        &&& self.data@.len() % self.block_size as nat == 0
    }

    /// The bytes of the disk.
    pub closed spec fn data(&self) -> Seq<u8> {
        self.data@
    }

    /// The offset in bytes of the block number `off`.
    pub closed spec fn start(&self, off: u64) -> int {
        off * self.block_size
    }

    /// The offset of a block is the number of bytes of the blocks before it.
    pub proof fn lemma_start(&self, off: u64)
        requires
            self.wf(),
        ensures
            self.start(off) == off * self.spec_block_size(),
    {
    }

    /// The number of bytes that a transfer of `len` bytes at most moves at
    /// block `off`: as many as the disk has from that block on. There is
    /// none if the block is beyond the end of the disk.
    pub open spec fn moved(&self, off: u64, len: int) -> Option<int> {
        if self.start(off) <= self.data().len() {
            Some(
                if len < self.data().len() - self.start(off) {
                    len
                } else {
                    self.data().len() - self.start(off)
                },
            )
        } else {
            None
        }
    }

    /// Creates a disk of `blocks` blocks of `block_size` bytes, which hold
    /// zeros. The function returns `None` if the blocks are empty or if the
    /// size of the disk cannot be counted.
    pub fn new(block_size: u64, blocks: u64) -> (r: Option<Self>)
        ensures
            match r {
                Some(d) => {
                    &&& d.wf()
                    &&& block_size > 0
                    &&& d.spec_block_size() == block_size
                    &&& d.spec_blocks_count() == blocks
                    &&& d.data().len() == block_size * blocks
                    &&& forall|i: int| 0 <= i < d.data().len() ==> d.data()[i] == 0u8
                },
                None => block_size == 0 || block_size * blocks > usize::MAX,
            },
    {
        if block_size == 0 {
            return None;
        }
        let size = match block_size.checked_mul(blocks) {
            Some(size) => size,
            None => {
                return None;
            },
        };
        if size > usize::MAX as u64 {
            return None;
        }
        let mut data: Vec<u8> = Vec::new();
        let mut i: u64 = 0;
        while i < size
            invariant
                i <= size,
                data@.len() == i,
                forall|k: int| 0 <= k < i ==> data@[k] == 0u8,
            decreases size - i,
        {
            data.push(0u8);
            i = i + 1;
        }
        proof {
            assert((block_size * blocks) as int % block_size as int == 0) by (nonlinear_arith)
                requires
                    block_size > 0,
            ;
            assert((block_size * blocks) as int / block_size as int == blocks) by (nonlinear_arith)
                requires
                    block_size > 0,
            ;
        }
        Some(RamDisk { block_size, data })
    }
}

impl DeviceIO for RamDisk {
    closed spec fn spec_block_size(&self) -> nat {
        if self.block_size == 0 {
            1
        } else {
            self.block_size as nat
        }
    }

    open spec fn has_ioctl(&self, request: u32) -> bool {
        false
    }

    closed spec fn spec_blocks_count(&self) -> nat {
        if self.block_size > 0 {
            (self.data@.len() / self.block_size as nat) as u64 as nat
        } else {
            0
        }
    }

    fn block_size(&self) -> (s: u64) {
        if self.block_size == 0 {
            1
        } else {
            self.block_size
        }
    }

    fn blocks_count(&self) -> (n: u64) {
        if self.block_size > 0 {
            (self.data.len() as u64 / self.block_size) as u64
        } else {
            0
        }
    }

    /// Reads the bytes of the disk from block `off` on into `buf`, as many
    /// as the disk has and the buffer has room for, and returns their
    /// number: the rest of the buffer is left as it was. The function fails
    /// with `EINVAL`, and changes nothing, iff the block is beyond the end of
    /// the disk.
    fn read(&self, off: u64, buf: &mut Vec<u8>) -> (r: EResult<usize>)
        ensures
            match r {
                Ok(n) => {
                    &&& self.moved(off, old(buf)@.len() as int) == Some(n as int)
                    &&& forall|i: int|
                        0 <= i < n ==> #[trigger] final(buf)@[i] == self.data()[self.start(off) + i]
                    &&& forall|i: int|
                        n <= i < old(buf)@.len() ==> #[trigger] final(buf)@[i] == old(buf)@[i]
                },
                Err(e) => {
                    &&& e == Errno::EINVAL
                    &&& self.moved(off, old(buf)@.len() as int).is_none()
                    &&& final(buf)@ == old(buf)@
                },
            },
    {
        let size = self.data.len();
        let start = match off.checked_mul(self.block_size) {
            Some(start) => start,
            None => {
                assert(off * self.block_size > size);
                return Err(Errno::EINVAL);
            },
        };
        if start > self.data.len() as u64 {
            return Err(Errno::EINVAL);
        }
        let start = start as usize;
        let n = if buf.len() < self.data.len() - start {
            buf.len()
        } else {
            self.data.len() - start
        };
        let mut i: usize = 0;
        let total = self.data.len();
        while i < n
            invariant
                i <= n,
                n <= buf@.len(),
                total == self.data@.len(),
                start + n <= self.data@.len(),
                buf@.len() == old(buf)@.len(),
                forall|k: int| 0 <= k < i ==> #[trigger] buf@[k] == self.data@[start + k],
                forall|k: int| i <= k < buf@.len() ==> #[trigger] buf@[k] == old(buf)@[k],
            decreases n - i,
        {
            buf.set(i, self.data[start + i]);
            i = i + 1;
        }
        Ok(n)
    }

    /// Writes the bytes of `buf` to the disk from block `off` on, as many as
    /// the disk has room for, and returns their number: the other bytes of
    /// the disk are left as they were. The function fails with `EINVAL`, and
    /// changes nothing, iff the block is beyond the end of the disk.
    fn write(&mut self, off: u64, buf: &Vec<u8>) -> (r: EResult<usize>)
        ensures
            final(self).wf() == old(self).wf(),
            final(self).data().len() == old(self).data().len(),
            forall|o: u64| #[trigger] final(self).start(o) == old(self).start(o),
            match r {
                Ok(n) => {
                    &&& old(self).moved(off, buf@.len() as int) == Some(n as int)
                    &&& forall|i: int|
                        0 <= i < n ==> #[trigger] final(self).data()[old(self).start(off) + i]
                            == buf@[i]
                    &&& forall|k: int|
                        0 <= k < old(self).data().len() && !(old(self).start(off) <= k < old(self).start(off) + n) ==> #[trigger] final(self).data()[k] == old(self).data()[k]
                },
                Err(e) => {
                    &&& e == Errno::EINVAL
                    &&& old(self).moved(off, buf@.len() as int).is_none()
                    &&& final(self).data() == old(self).data()
                },
            },
    {
        let size = self.data.len();
        let start = match off.checked_mul(self.block_size) {
            Some(start) => start,
            None => {
                assert(off * self.block_size > size);
                return Err(Errno::EINVAL);
            },
        };
        if start > self.data.len() as u64 {
            return Err(Errno::EINVAL);
        }
        let start = start as usize;
        let n = if buf.len() < self.data.len() - start {
            buf.len()
        } else {
            self.data.len() - start
        };
        let mut i: usize = 0;
        let total = self.data.len();
        while i < n
            invariant
                i <= n,
                n <= buf@.len(),
                total == self.data@.len(),
                start + n <= self.data@.len(),
                self.data@.len() == old(self).data@.len(),
                self.block_size == old(self).block_size,
                forall|k: int| 0 <= k < i ==> #[trigger] self.data@[start + k] == buf@[k],
                forall|k: int|
                    0 <= k < self.data@.len() && !(start <= k < start + i) ==> #[trigger] self.data@[k]
                        == old(self).data@[k],
            decreases n - i,
        {
            self.data.set(start + i, buf[i]);
            i = i + 1;
        }
        Ok(n)
    }
}

} // verus!
