//! The IDs of processes.

use vstd::prelude::*;
use crate::errno::{EResult, Errno};

verus! {

/// The ID of a process.
pub type Pid = u16;

/// The ID of the init process.
pub const INIT_PID: Pid = 1;

/// The largest ID that a process can have.
pub const MAX_PID: Pid = 32768;

/// The allocator of the IDs of processes.
pub struct PIDManager {
    /// Which IDs are in use: ID `i + 1` is iff `used[i]`.
    used: Vec<bool>,
}

impl PIDManager {
    /// The manager's invariant.
    pub closed spec fn wf(&self) -> bool {
        self.used@.len() == MAX_PID
    }

    /// Tells whether the ID `pid` is in use.
    pub closed spec fn is_used(&self, pid: int) -> bool {
        1 <= pid <= self.used@.len() && self.used@[pid - 1]
    }

    /// Creates a manager in which no ID is in use.
    pub fn new() -> (m: Self)
        ensures
            m.wf(),
            forall|pid: int| !#[trigger] m.is_used(pid),
    {
        let mut used: Vec<bool> = Vec::new();
        let mut i: u16 = 0;
        while i < MAX_PID
            invariant
                i <= MAX_PID,
                used@.len() == i,
                forall|k: int| 0 <= k < i ==> !used@[k],
            decreases MAX_PID - i,
        {
            used.push(false);
            i = i + 1;
        }
        PIDManager { used }
    }

    /// Returns an ID that is not in use, the lowest one, and marks it as in
    /// use. The function fails with `EAGAIN`, and changes nothing, iff every
    /// ID is in use.
    pub fn get_unique_pid(&mut self) -> (r: EResult<Pid>)
        requires
            old(self).wf(),
        ensures
            final(self).wf(),
            match r {
                Ok(pid) => {
                    &&& 1 <= pid <= MAX_PID
                    &&& !old(self).is_used(pid as int)
                    &&& forall|p: int| 1 <= p < pid ==> #[trigger] old(self).is_used(p)
                    &&& forall|p: int|
                        #[trigger] final(self).is_used(p) == (old(self).is_used(p) || p == pid)
                },
                Err(e) => {
                    &&& e == Errno::EAGAIN
                    &&& forall|p: int| 1 <= p <= MAX_PID ==> #[trigger] old(self).is_used(p)
                    &&& forall|p: int| #[trigger] final(self).is_used(p) == old(self).is_used(p)
                },
            },
    {
        let mut i: u16 = 0;
        while i < MAX_PID
            invariant
                self.wf(),
                i <= MAX_PID,
                *self == *old(self),
                forall|p: int| 1 <= p <= i ==> #[trigger] self.is_used(p),
            decreases MAX_PID - i,
        {
            if !self.used[i as usize] {
                self.used.set(i as usize, true);
                return Ok(i + 1);
            }
            i = i + 1;
        }
        Err(Errno::EAGAIN)
    }

    /// Marks the ID `pid` as not in use.
    pub fn release_pid(&mut self, pid: Pid)
        requires
            old(self).wf(),
        ensures
            final(self).wf(),
            forall|p: int| #[trigger] final(self).is_used(p) == (old(self).is_used(p) && p != pid),
    {
        if pid >= 1 && pid <= MAX_PID {
            self.used.set((pid - 1) as usize, false);
        }
    }
}

} // verus!
