//! The scheduler keeps the table of the processes of the system, and knows
//! which one of them runs.
//!
//! A process names its parent, its children and the owner of its group by
//! their IDs: the table is where the IDs are looked up.

use vstd::prelude::*;
use crate::errno::{EResult, Errno};
use crate::process::pid::{PIDManager, Pid, INIT_PID};
use crate::process::{joined, left, Process};

verus! {

/// The table of the processes of the system.
pub struct Scheduler {
    /// The processes, in the order in which they were added.
    pub processes: Vec<Process>,
    /// The ID of the process that runs, if one does.
    pub current: Option<Pid>,
}

/// The index in `processes` of the process with ID `pid`, if there is one.
pub open spec fn index_of(processes: Seq<Process>, pid: Pid) -> Option<int> {
    if exists|i: int| 0 <= i < processes.len() && processes[i].pid == pid {
        Some(choose|i: int| 0 <= i < processes.len() && processes[i].pid == pid)
    } else {
        None
    }
}

/// The ID of the group that a process with ID `pid` is in once it has been
/// put in group `pgid`: a group of its own if the group is zero.
pub open spec fn group_of(pid: Pid, pgid: Pid) -> Pid {
    if pgid == 0 {
        pid
    } else {
        pgid
    }
}

/// Tells whether `after` is what the process `before` becomes when the
/// process `member`, which was in group `from`, is put in group `to`:
/// - the member has its new group;
/// - the owner of the group that the member was in, if it is another
///   process, counts it no more among the processes of its group;
/// - the owner of the new group, if it is another process, counts it among
///   them.
pub open spec fn regrouped(before: &Process, after: &Process, member: Pid, from: Pid, to: Pid) -> bool {
    let loses = from != 0 && from != member && before.pid == from;
    let gains = to != member && before.pid == to;
    &&& *after == (Process {
        pgid: if before.pid == member {
            group_of(member, to)
        } else {
            before.pgid
        },
        process_group: after.process_group,
        ..*before
    })
    &&& if loses && gains {
        exists|mid: Seq<Pid>|
            #[trigger] left(before.process_group@, mid, member) && joined(
                mid,
                after.process_group@,
                member,
            )
    } else if loses {
        left(before.process_group@, after.process_group@, member)
    } else if gains {
        joined(before.process_group@, after.process_group@, member)
    } else {
        after.process_group@ == before.process_group@
    }
}

impl Scheduler {
    /// The invariant of the table: each process is in order, and no two
    /// processes have the same ID.
    pub open spec fn wf(&self) -> bool {
        &&& forall|i: int| 0 <= i < self.processes@.len() ==> (#[trigger] self.processes@[i]).wf()
        &&& forall|i: int, j: int|
            0 <= i < j < self.processes@.len() ==> (#[trigger] self.processes@[i]).pid != (
            #[trigger] self.processes@[j]).pid
    }

    /// Creates a table with no process.
    pub fn new() -> (s: Self)
        ensures
            s.wf(),
            s.processes@.len() == 0,
            s.current.is_none(),
    {
        Scheduler { processes: Vec::new(), current: None }
    }

    /// Returns the index of the process with ID `pid`, if there is one.
    pub fn find(&self, pid: Pid) -> (r: Option<usize>)
        requires
            self.wf(),
        ensures
            r matches Some(i) ==> i < self.processes@.len() && self.processes@[i as int].pid == pid,
            match r {
                Some(i) => index_of(self.processes@, pid) == Some(i as int),
                None => index_of(self.processes@, pid).is_none(),
            },
    {
        let mut i: usize = 0;
        while i < self.processes.len()
            invariant
                self.wf(),
                i <= self.processes@.len(),
                forall|k: int| 0 <= k < i ==> (#[trigger] self.processes@[k]).pid != pid,
            decreases self.processes@.len() - i,
        {
            if self.processes[i].pid == pid {
                proof {
                    let j = choose|j: int| 0 <= j < self.processes@.len() && self.processes@[j].pid == pid;
                    assert(self.processes@[i as int].pid == self.processes@[j].pid);
                }
                return Some(i);
            }
            i = i + 1;
        }
        None
    }

    /// Returns the process with PID `pid`. If the process doesn't exist, the
    /// function returns None.
    pub fn get_by_pid(&self, pid: Pid) -> (r: Option<&Process>)
        requires
            self.wf(),
        ensures
            match r {
                Some(p) => index_of(self.processes@, pid) matches Some(i) && *p == self.processes@[i],
                None => index_of(self.processes@, pid).is_none(),
            },
    {
        match self.find(pid) {
            Some(i) => Some(&self.processes[i]),
            None => None,
        }
    }

    /// Returns the current running process. If no process is running, the
    /// function returns None.
    pub fn get_current_process(&self) -> (r: Option<&Process>)
        requires
            self.wf(),
        ensures
            match r {
                Some(p) => self.current matches Some(pid) && index_of(self.processes@, pid) matches Some(
                    i,
                ) && *p == self.processes@[i],
                None => self.current matches Some(pid) ==> index_of(self.processes@, pid).is_none(),
            },
    {
        match self.current {
            Some(pid) => self.get_by_pid(pid),
            None => None,
        }
    }

    /// Makes the process with ID `pid` the one that runs, or none if no ID is
    /// given.
    pub fn set_current(&mut self, pid: Option<Pid>)
        ensures
            final(self).processes == old(self).processes,
            final(self).current == pid,
    {
        self.current = pid;
    }

    /// Adds the process `process` to the table, behind the others. The
    /// function fails with `EEXIST`, and changes nothing, iff a process has
    /// its ID already.
    pub fn add_process(&mut self, process: Process) -> (r: EResult<()>)
        requires
            old(self).wf(),
            process.wf(),
        ensures
            final(self).wf(),
            final(self).current == old(self).current,
            match r {
                Ok(()) => {
                    &&& index_of(old(self).processes@, process.pid).is_none()
                    &&& final(self).processes@ == old(self).processes@.push(process)
                },
                Err(e) => {
                    &&& e == Errno::EEXIST
                    &&& index_of(old(self).processes@, process.pid).is_some()
                    &&& final(self).processes@ == old(self).processes@
                },
            },
    {
        if self.find(process.pid).is_some() {
            return Err(Errno::EEXIST);
        }
        let ghost added = process;
        self.processes.push(process);
        proof {
            assert forall|i: int, j: int| 0 <= i < j < self.processes@.len() implies (
            #[trigger] self.processes@[i]).pid != (#[trigger] self.processes@[j]).pid by {
                if j == old(self).processes@.len() {
                    assert(old(self).processes@[i].pid != added.pid);
                }
            }
        }
        Ok(())
    }

    /// Sets the group ID of the process with ID `pid` to the given value
    /// `pgid`; each process becomes what [`regrouped`] tells.
    ///
    /// The function fails with `ESRCH`, and changes nothing, if there is no
    /// such process. It fails with `ESRCH` as well if the group is not the
    /// one that the process owns and no process owns it: the process is in
    /// the group all the same.
    pub fn set_pgid(&mut self, pid: Pid, pgid: Pid) -> (r: EResult<()>)
        requires
            old(self).wf(),
        ensures
            final(self).wf(),
            final(self).current == old(self).current,
            match index_of(old(self).processes@, pid) {
                None => r == Err::<(), Errno>(Errno::ESRCH) && final(self).processes@ == old(self).processes@,
                Some(i) => {
                    &&& r == if pgid == pid || index_of(old(self).processes@, pgid).is_some() {
                        Ok::<(), Errno>(())
                    } else {
                        Err::<(), Errno>(Errno::ESRCH)
                    }
                    &&& final(self).processes@.len() == old(self).processes@.len()
                    &&& forall|k: int|
                        0 <= k < old(self).processes@.len() ==> regrouped(
                            &old(self).processes@[k],
                            #[trigger] &final(self).processes@[k],
                            pid,
                            old(self).processes@[i].pgid,
                            pgid,
                        )
                },
            },
    {
        let i = match self.find(pid) {
            Some(i) => i,
            None => {
                return Err(Errno::ESRCH);
            },
        };
        let ghost s0 = self.processes@;
        let from = self.processes[i].pgid;
        if from != 0 && from != pid {
            self.regroup(from, pid, false);
        }
        let ghost s1 = self.processes@;
        self.processes[i].set_pgid(pgid);
        let ghost s2 = self.processes@;
        proof {
            assert forall|k: int| 0 <= k < s0.len() implies (#[trigger] s2[k]).wf() && s2[k].pid
                == s0[k].pid by {
                assert(s1[k].wf());
            }
        }
        let found = if pgid != pid {
            self.regroup(pgid, pid, true)
        } else {
            true
        };
        proof {
            let s3 = self.processes@;
            assert forall|k: int| 0 <= k < s0.len() implies regrouped(
                &s0[k],
                #[trigger] &s3[k],
                pid,
                from,
                pgid,
            ) by {
                assert(s1[k].pid == s0[k].pid);
                assert(s2[k].pid == s0[k].pid);
                lemma_regrouped(&s0[k], &s1[k], &s2[k], &s3[k], pid, from, pgid);
            }
            if pgid != pid && index_of(s0, pgid).is_some() {
                let n = index_of(s0, pgid)->0;
                assert(s2[n].pid == pgid);
            }
            if found && pgid != pid {
                let n = index_of(s2, pgid)->0;
                assert(s0[n].pid == pgid);
            }
        }
        if found {
            Ok(())
        } else {
            Err(Errno::ESRCH)
        }
    }

    /// Exits the process with ID `pid` with the given `status`: the process
    /// becomes a zombie, and its parent, if it has one, is woken up. The
    /// function tells whether there is such a process; nothing changes if
    /// there is none.
    ///
    /// The init process must not exit.
    pub fn exit(&mut self, pid: Pid, status: u32) -> (found: bool)
        requires
            old(self).wf(),
            pid != INIT_PID,
        ensures
            final(self).wf(),
            final(self).current == old(self).current,
            final(self).processes@.len() == old(self).processes@.len(),
            found == index_of(old(self).processes@, pid).is_some(),
            !found ==> final(self).processes@ == old(self).processes@,
            index_of(old(self).processes@, pid) matches Some(i) ==> forall|k: int|
                0 <= k < old(self).processes@.len() ==> ended(
                    &old(self).processes@[k],
                    #[trigger] &final(self).processes@[k],
                    pid,
                    old(self).processes@[i].parent,
                    status,
                ),
    {
        let i = match self.find(pid) {
            Some(i) => i,
            None => {
                return false;
            },
        };
        let parent = self.processes[i].parent;
        self.processes[i].exit(status);
        let ghost s1 = self.processes@;
        proof {
            assert forall|k: int| 0 <= k < s1.len() implies (#[trigger] s1[k]).wf() && s1[k].pid == old(self).processes@[k].pid by {
                assert(old(self).processes@[k].wf());
            }
        }
        match parent {
            Some(parent) => {
                if parent != pid {
                    match self.find(parent) {
                        Some(j) => {
                            self.processes[j].wakeup();
                        },
                        None => {},
                    }
                }
            },
            None => {},
        }
        proof {
            let s2 = self.processes@;
            assert forall|k: int| 0 <= k < s2.len() implies (#[trigger] s2[k]).wf() && s2[k].pid == s1[k].pid by {
                assert(s1[k].wf());
            }
        }
        true
    }

    /// Removes the process with ID `pid` from the table and returns it: its
    /// parent, if it has one, has it for a child no more, its ID is not in
    /// use any more, and it does not run any more. Nothing changes if there
    /// is no such process.
    ///
    /// The init process must not be removed.
    pub fn remove_process(&mut self, pids: &mut PIDManager, pid: Pid) -> (r: Option<Process>)
        requires
            old(self).wf(),
            old(pids).wf(),
            pid != INIT_PID,
        ensures
            final(self).wf(),
            final(pids).wf(),
            match index_of(old(self).processes@, pid) {
                None => {
                    &&& r.is_none()
                    &&& final(self).processes@ == old(self).processes@
                    &&& final(self).current == old(self).current
                    &&& forall|p: int| #[trigger] final(pids).is_used(p) == old(pids).is_used(p)
                },
                Some(i) => {
                    &&& r == Some(old(self).processes@[i])
                    &&& final(self).processes@.len() == old(self).processes@.len() - 1
                    &&& forall|k: int|
                        0 <= k < final(self).processes@.len() ==> orphaned(
                            &old(self).processes@.remove(i)[k],
                            #[trigger] &final(self).processes@[k],
                            pid,
                            old(self).processes@[i].parent,
                        )
                    &&& final(self).current == if old(self).current == Some(pid) {
                        None
                    } else {
                        old(self).current
                    }
                    &&& forall|p: int|
                        #[trigger] final(pids).is_used(p) == (old(pids).is_used(p) && p != pid)
                },
            },
    {
        let i = match self.find(pid) {
            Some(i) => i,
            None => {
                return None;
            },
        };
        let process = self.processes.remove(i);
        let ghost s1 = self.processes@;
        proof {
            assert(s1 == old(self).processes@.remove(i as int));
            assert forall|k: int| 0 <= k < s1.len() implies (#[trigger] s1[k]).wf() && s1[k].pid != pid by {
                if k < i {
                    assert(s1[k] == old(self).processes@[k]);
                } else {
                    assert(s1[k] == old(self).processes@[k + 1]);
                }
            }
            assert forall|a: int, b: int| 0 <= a < b < s1.len() implies (#[trigger] s1[a]).pid != (
            #[trigger] s1[b]).pid by {
                let a0 = if a < i {
                    a
                } else {
                    a + 1
                };
                let b0 = if b < i {
                    b
                } else {
                    b + 1
                };
                assert(s1[a] == old(self).processes@[a0]);
                assert(s1[b] == old(self).processes@[b0]);
            }
        }
        match process.parent {
            Some(parent) => {
                match self.find(parent) {
                    Some(j) => {
                        self.processes[j].remove_child(pid);
                    },
                    None => {},
                }
            },
            None => {},
        }
        proof {
            let s2 = self.processes@;
            assert forall|k: int| 0 <= k < s2.len() implies (#[trigger] s2[k]).wf() && s2[k].pid == s1[k].pid by {
                assert(s1[k].wf());
            }
        }
        pids.release_pid(pid);
        if self.current == Some(pid) {
            self.current = None;
        }
        Some(process)
    }

    /// Makes the process with ID `leader`, if there is one, count the process
    /// with ID `member` among those of its group, if `gain` is set, or count
    /// it no more, if not. The function tells whether there is such a
    /// process.
    fn regroup(&mut self, leader: Pid, member: Pid, gain: bool) -> (found: bool)
        requires
            old(self).wf(),
        ensures
            final(self).wf(),
            final(self).current == old(self).current,
            final(self).processes@.len() == old(self).processes@.len(),
            found == index_of(old(self).processes@, leader).is_some(),
            forall|k: int|
                0 <= k < old(self).processes@.len() ==> stepped(
                    &old(self).processes@[k],
                    #[trigger] &final(self).processes@[k],
                    leader,
                    member,
                    gain,
                ),
    {
        match self.find(leader) {
            Some(o) => {
                if gain {
                    self.processes[o].add_to_group(member);
                } else {
                    self.processes[o].remove_from_group(member);
                }
                true
            },
            None => false,
        }
    }
}

/// Tells whether `after` is what the process `before` becomes when the
/// process with ID `pid`, whose parent is `parent`, exits with status
/// `status`: the process exits, and its parent is woken up.
pub open spec fn ended(before: &Process, after: &Process, pid: Pid, parent: Option<Pid>, status: u32) -> bool {
    if before.pid == pid {
        Process::exited(before, after, status)
    } else if parent == Some(before.pid) {
        Process::woken(before, after)
    } else {
        *after == *before
    }
}

/// Tells whether `after` is what the process `before` becomes when the
/// process with ID `pid`, whose parent is `parent`, is removed: its parent
/// has it for a child no more.
pub open spec fn orphaned(before: &Process, after: &Process, pid: Pid, parent: Option<Pid>) -> bool {
    if parent == Some(before.pid) {
        &&& Process::same_but_children(before, after)
        &&& left(before.children@, after.children@, pid)
    } else {
        *after == *before
    }
}

/// Tells whether `after` is the process `before` once the process with ID
/// `leader` counts the process with ID `member` among those of its group, if
/// `gain` is set, or counts it no more, if not.
pub open spec fn stepped(before: &Process, after: &Process, leader: Pid, member: Pid, gain: bool) -> bool {
    if before.pid == leader {
        &&& Process::same_but_group(before, after)
        &&& if gain {
            joined(before.process_group@, after.process_group@, member)
        } else {
            left(before.process_group@, after.process_group@, member)
        }
    } else {
        *after == *before
    }
}

/// A process that leaves a group, changes its group, and joins a group, in
/// that order, is regrouped.
proof fn lemma_regrouped(
    start: &Process,
    parted: &Process,
    moved: &Process,
    ended: &Process,
    member: Pid,
    from: Pid,
    to: Pid,
)
    requires
        if from != 0 && from != member {
            stepped(start, parted, from, member, false)
        } else {
            *parted == *start
        },
        *moved == if start.pid == member {
            Process { pgid: group_of(member, to), ..*parted }
        } else {
            *parted
        },
        if to != member {
            stepped(moved, ended, to, member, true)
        } else {
            *ended == *moved
        },
    ensures
        regrouped(start, ended, member, from, to),
{
    let loses = from != 0 && from != member && start.pid == from;
    let gains = to != member && start.pid == to;
    assert(parted.pid == start.pid);
    assert(moved.pid == start.pid);
    assert(moved.process_group@ == parted.process_group@);
    if loses && gains {
        assert(left(start.process_group@, parted.process_group@, member));
    }
}

impl Process {
    /// Returns the process with PID `pid`. If the process doesn't exist, the
    /// function returns None.
    pub fn get_by_pid(scheduler: &Scheduler, pid: Pid) -> (r: Option<&Process>)
        requires
            scheduler.wf(),
        ensures
            match r {
                Some(p) => index_of(scheduler.processes@, pid) matches Some(i) && *p
                    == scheduler.processes@[i],
                None => index_of(scheduler.processes@, pid).is_none(),
            },
    {
        scheduler.get_by_pid(pid)
    }

    /// Returns the current running process. If no process is running, the
    /// function returns None.
    pub fn get_current(scheduler: &Scheduler) -> (r: Option<&Process>)
        requires
            scheduler.wf(),
        ensures
            match r {
                Some(p) => scheduler.current matches Some(pid) && index_of(
                    scheduler.processes@,
                    pid,
                ) matches Some(i) && *p == scheduler.processes@[i],
                None => scheduler.current matches Some(pid) ==> index_of(
                    scheduler.processes@,
                    pid,
                ).is_none(),
            },
    {
        scheduler.get_current_process()
    }
}

} // verus!
