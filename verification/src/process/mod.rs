//! A process is a task running on the kernel. A multitasking system allows
//! several processes to run at the same time by sharing the CPU resources
//! using a scheduler.

pub mod event;
pub mod exec;
pub mod mem_space;
pub mod pid;
pub mod scheduler;
pub mod signal;

use vstd::prelude::*;
use crate::cpu::Cpu;
use crate::errno::{EResult, Errno};
use crate::file::fd::{FileDescriptor, FileDescriptorTable, NewFDConstraint};
use crate::file::open_file::{OpenFile, OpenFiles};
use crate::file::perm::AccessProfile;
use crate::file::{Gid, Mode, Uid};
use crate::memory::{PhysMemory, VirtAddr};
use crate::limits::PAGE_SIZE;
use mem_space::mapping::MapResidence;
use mem_space::{MapConstraint, MemSpace};
use pid::{PIDManager, Pid, INIT_PID};
use signal::{SignalAction, SignalType, SIGCHLD};

verus! {

/// The default file creation mask.
pub const DEFAULT_UMASK: Mode = 0o022;

/// The size of the userspace stack of a process in number of pages.
pub const USER_STACK_SIZE: usize = 2048;

/// The size of the kernelspace stack of a process in number of pages.
pub const KERNEL_STACK_SIZE: usize = 64;

/// The flags for the userspace stack mapping.
pub const USER_STACK_FLAGS: u8 = mem_space::MAPPING_FLAG_WRITE | mem_space::MAPPING_FLAG_USER;

/// The flags for the kernelspace stack mapping.
pub const KERNEL_STACK_FLAGS: u8 = mem_space::MAPPING_FLAG_WRITE | mem_space::MAPPING_FLAG_NOLAZY;

/// The file descriptor number of the standard input stream.
pub const STDIN_FILENO: u32 = 0;

/// The file descriptor number of the standard output stream.
pub const STDOUT_FILENO: u32 = 1;

/// The file descriptor number of the standard error stream.
pub const STDERR_FILENO: u32 = 2;

/// An enumeration containing possible states for a process.
#[derive(Clone, Copy, Debug, PartialEq, Eq, Structural)]
pub enum State {
    /// The process is running or waiting to run.
    Running,
    /// The process is waiting for an event.
    Sleeping,
    /// The process has been stopped by a signal or by tracing.
    Stopped,
    /// The process has been killed.
    Zombie,
}

/// Type representing an exit status.
pub type ExitStatus = u8;

/// The state of the registers of a process.
#[derive(Clone, Copy, Debug, PartialEq, Eq, Structural)]
pub struct Regs {
    /// The accumulator, which holds what a system call returns.
    pub eax: u32,
    /// The first argument of a system call.
    pub ebx: u32,
    /// The second argument of a system call.
    pub ecx: u32,
    /// The third argument of a system call.
    pub edx: u32,
    /// The stack pointer.
    pub esp: u32,
    /// The program counter.
    pub eip: u32,
}

/// The selector of the segment of the data of the kernel.
pub const KERNEL_DS: u32 = 16;

/// The selector of the segment of the data of userspace.
pub const USER_DS: u32 = 32;

/// The stack pointer that stands for the top `stack` of a stack: its low 32
/// bits, or zero if there is no stack.
pub open spec fn stack_top(stack: Option<VirtAddr>) -> u32 {
    match stack {
        Some(top) => (top.0 & 0xffff_ffff) as u32,
        None => 0u32,
    }
}

/// What the task state segment holds of a process that runs: the segments
/// of the stacks, and the top of the stack that the kernel uses when the
/// process enters it.
#[derive(Clone, Copy, Debug, PartialEq, Eq, Structural)]
pub struct Tss {
    /// The segment of the stack of the kernel.
    pub ss0: u32,
    /// The segment of the stack of the process.
    pub ss: u32,
    /// The top of the stack of the kernel.
    pub esp0: u32,
}

/// The Process Control Block (PCB). This structure stores all the
/// informations about a process.
pub struct Process {
    /// The ID of the process.
    pub pid: Pid,
    /// The ID of the process group.
    pub pgid: Pid,
    /// The thread ID of the process.
    pub tid: Pid,
    /// The users and the groups that the process acts as.
    pub access_profile: AccessProfile,
    /// The process's current umask.
    pub umask: Mode,
    /// The current state of the process.
    pub state: State,
    /// The priority of the process.
    pub priority: usize,
    /// The number of quantum run during the cycle.
    pub quantum_count: usize,
    /// The ID of the parent process.
    pub parent: Option<Pid>,
    /// The list of children processes, in increasing order.
    pub children: Vec<Pid>,
    /// The IDs of the processes of the group that the process owns, in
    /// order, but its own.
    pub process_group: Vec<Pid>,
    /// The last saved registers state.
    pub regs: Regs,
    /// Tells whether the process was syscalling or not.
    pub syscalling: bool,
    /// Tells whether the process is handling a signal.
    pub handled_signal: Option<SignalType>,
    /// The saved state of registers, used when handling a signal.
    pub saved_regs: Regs,
    /// The signals that have been received and are not handled yet: signal
    /// `s` is pending iff `pending[s]`.
    pub pending: Vec<bool>,
    /// Tells whether the process has information that can be retrieved by
    /// wait/waitpid.
    pub waitable: bool,
    /// The virtual memory of the process containing every mappings.
    pub mem_space: Option<MemSpace>,
    /// The address of the end of the userspace stack.
    pub user_stack: Option<VirtAddr>,
    /// The address of the end of the kernelspace stack.
    pub kernel_stack: Option<VirtAddr>,
    /// The current working directory.
    pub cwd: String,
    /// The path to the program that the process executes: it is empty if
    /// the process executes none.
    pub exec_path: String,
    /// The list of open file descriptors.
    pub file_descriptors: FileDescriptorTable,
    /// The exit status of the process after exiting.
    pub exit_status: ExitStatus,
    /// The terminating signal.
    pub termsig: u8,
}

/// Tells whether `s` is in increasing order.
pub open spec fn sorted(s: Seq<Pid>) -> bool {
    forall|i: int, j: int| 0 <= i <= j < s.len() ==> s[i] <= s[j]
}

/// Tells whether `i` is the place of `pid` in the list `s`, which is in
/// order: the index of the first ID that is not below it.
pub open spec fn place(s: Seq<Pid>, pid: Pid, i: int) -> bool {
    &&& 0 <= i <= s.len()
    &&& forall|k: int| 0 <= k < i ==> s[k] < pid
    &&& forall|k: int| i <= k < s.len() ==> s[k] >= pid
}

/// Tells whether `after` is the list `before` with `pid` in its place, if it
/// was not in the list, and the same list if it was.
pub open spec fn joined(before: Seq<Pid>, after: Seq<Pid>, pid: Pid) -> bool {
    if before.contains(pid) {
        after == before
    } else {
        exists|i: int| #[trigger] place(before, pid, i) && after == before.insert(i, pid)
    }
}

/// Tells whether `after` is the list `before` without the first `pid` that
/// it holds, and the same list if it holds none.
pub open spec fn left(before: Seq<Pid>, after: Seq<Pid>, pid: Pid) -> bool {
    if before.contains(pid) {
        exists|i: int| #[trigger] place(before, pid, i) && i < before.len() && after == before.remove(i)
    } else {
        after == before
    }
}

/// A list does not hold an ID whose place holds another one.
pub proof fn lemma_not_held(s: Seq<Pid>, pid: Pid, i: int)
    requires
        place(s, pid, i),
        i < s.len() ==> s[i] != pid,
        sorted(s),
    ensures
        !s.contains(pid),
{
    if s.contains(pid) {
        let k = choose|k: int| 0 <= k < s.len() && s[k] == pid;
        if k > i {
            assert(s[i] <= s[k]);
        }
    }
}

/// Returns the place of `pid` in the list `v`.
fn position(v: &Vec<Pid>, pid: Pid) -> (i: usize)
    requires
        sorted(v@),
    ensures
        place(v@, pid, i as int),
{
    let mut i: usize = 0;
    while i < v.len() && v[i] < pid
        invariant
            i <= v@.len(),
            forall|k: int| 0 <= k < i ==> v@[k] < pid,
        decreases v@.len() - i,
    {
        i = i + 1;
    }
    i
}

/// The registers of a process that has not run.
pub open spec fn no_regs() -> Regs {
    Regs { eax: 0, ebx: 0, ecx: 0, edx: 0, esp: 0, eip: 0 }
}

impl Process {
    /// The invariant of a process: its children are in order, its file
    /// descriptors and its memory space are in order, and it keeps track of
    /// every signal.
    pub open spec fn wf(&self) -> bool {
        &&& sorted(self.children@)
        &&& sorted(self.process_group@)
        &&& self.file_descriptors.wf()
        &&& self.pending@.len() == signal::SIGNALS_COUNT + 1
        &&& self.mem_space matches Some(m) ==> m.inv()
        &&& self.handled_signal matches Some(s) ==> s <= signal::SIGNALS_COUNT
    }

    /// Creates the process with ID `pid`, which is owned by the superuser,
    /// runs, and has no parent, no child, no memory space and no file
    /// descriptor. Its working directory is the root.
    pub fn new(pid: Pid) -> (p: Self)
        ensures
            p.wf(),
            p.pid == pid,
            p.pgid == pid,
            p.tid == pid,
            p.access_profile == AccessProfile::spec_kernel(),
            p.umask == DEFAULT_UMASK,
            p.state == State::Running,
            p.priority == 0,
            p.quantum_count == 0,
            p.parent.is_none(),
            p.children@.len() == 0,
            p.process_group@.len() == 0,
            p.regs == no_regs(),
            !p.syscalling,
            p.handled_signal.is_none(),
            forall|s: int| 0 <= s < p.pending@.len() ==> !p.pending@[s],
            !p.waitable,
            p.mem_space.is_none(),
            p.user_stack.is_none(),
            p.kernel_stack.is_none(),
            p.cwd@ == "/"@,
            p.exec_path@.len() == 0,
            p.file_descriptors@.len() == 0,
            p.exit_status == 0,
            p.termsig == 0,
    {
        let mut pending: Vec<bool> = Vec::new();
        let mut i: usize = 0;
        while i <= signal::SIGNALS_COUNT
            invariant
                i <= signal::SIGNALS_COUNT + 1,
                pending@.len() == i,
                forall|s: int| 0 <= s < i ==> !pending@[s],
            decreases signal::SIGNALS_COUNT + 1 - i,
        {
            pending.push(false);
            i = i + 1;
        }
        let regs = Regs { eax: 0, ebx: 0, ecx: 0, edx: 0, esp: 0, eip: 0 };
        Process {
            pid,
            pgid: pid,
            tid: pid,
            access_profile: AccessProfile::kernel(),
            umask: DEFAULT_UMASK,
            state: State::Running,
            priority: 0,
            quantum_count: 0,
            parent: None,
            children: Vec::new(),
            process_group: Vec::new(),
            regs,
            syscalling: false,
            handled_signal: None,
            saved_regs: regs,
            pending,
            waitable: false,
            mem_space: None,
            user_stack: None,
            kernel_stack: None,
            cwd: "/".to_owned(),
            exec_path: String::new(),
            file_descriptors: FileDescriptorTable::new(),
            exit_status: 0,
            termsig: 0,
        }
    }

    /// Tells whether the process is the init process.
    pub fn is_init(&self) -> (b: bool)
        ensures
            b == (self.pid == INIT_PID),
    {
        self.get_pid() == INIT_PID
    }

    /// Returns the process's PID.
    pub fn get_pid(&self) -> (p: Pid)
        ensures
            p == self.pid,
    {
        self.pid
    }

    /// Returns the process's group ID.
    pub fn get_pgid(&self) -> (p: Pid)
        ensures
            p == self.pgid,
    {
        self.pgid
    }

    /// Returns the process's thread ID.
    pub fn get_tid(&self) -> (p: Pid)
        ensures
            p == self.tid,
    {
        self.tid
    }

    /// Tells whether the process is among a group and is not its owner.
    pub fn is_in_group(&self) -> (b: bool)
        ensures
            b == (self.pgid != 0 && self.pgid != self.pid),
    {
        self.pgid != 0 && self.pgid != self.pid
    }

    /// Sets the process's group ID to the given value `pgid`: a group ID of
    /// zero makes the process the owner of a group of its own.
    pub fn set_pgid(&mut self, pgid: Pid)
        ensures
            *final(self) == (Process {
                pgid: if pgid == 0 {
                    old(self).pid
                } else {
                    pgid
                },
                ..*old(self)
            }),
    {
        self.pgid = if pgid == 0 {
            self.pid
        } else {
            pgid
        };
    }

    /// Returns the parent process's PID: a process without parent is its own
    /// parent.
    pub fn get_parent_pid(&self) -> (p: Pid)
        ensures
            p == match self.parent {
                Some(parent) => parent,
                None => self.pid,
            },
    {
        match self.parent {
            Some(parent) => parent,
            None => self.get_pid(),
        }
    }

    /// Returns the process's real user owner ID.
    pub fn get_uid(&self) -> (u: Uid)
        ensures
            u == self.access_profile.uid,
    {
        self.access_profile.uid
    }

    /// Sets the process's real user owner ID.
    pub fn set_uid(&mut self, uid: Uid)
        ensures
            *final(self) == (Process {
                access_profile: AccessProfile { uid, ..old(self).access_profile },
                ..*old(self)
            }),
    {
        self.access_profile.uid = uid;
    }

    /// Returns the process's real group owner ID.
    pub fn get_gid(&self) -> (g: Gid)
        ensures
            g == self.access_profile.gid,
    {
        self.access_profile.gid
    }

    /// Sets the process's real group owner ID.
    pub fn set_gid(&mut self, gid: Gid)
        ensures
            *final(self) == (Process {
                access_profile: AccessProfile { gid, ..old(self).access_profile },
                ..*old(self)
            }),
    {
        self.access_profile.gid = gid;
    }

    /// Returns the process's effective user owner ID.
    pub fn get_euid(&self) -> (u: Uid)
        ensures
            u == self.access_profile.euid,
    {
        self.access_profile.euid
    }

    /// Returns the process's effective group owner ID.
    pub fn get_egid(&self) -> (g: Gid)
        ensures
            g == self.access_profile.egid,
    {
        self.access_profile.egid
    }

    /// Returns the file creation mask.
    pub fn get_umask(&self) -> (m: Mode)
        ensures
            m == self.umask,
    {
        self.umask
    }

    /// Sets the file creation mask.
    pub fn set_umask(&mut self, umask: Mode)
        ensures
            *final(self) == (Process { umask, ..*old(self) }),
    {
        self.umask = umask;
    }

    /// Returns the process's current state.
    pub fn get_state(&self) -> (s: State)
        ensures
            s == self.state,
    {
        self.state
    }

    /// Sets the process's state to `new_state`. A process that has been
    /// killed stays so; one that becomes so has information for its parent
    /// to retrieve.
    ///
    /// The init process must not be killed.
    pub fn set_state(&mut self, new_state: State)
        requires
            !(old(self).pid == INIT_PID && new_state == State::Zombie),
        ensures
            *final(self) == (Process {
                state: if old(self).state == State::Zombie {
                    State::Zombie
                } else {
                    new_state
                },
                waitable: old(self).waitable || old(self).state == State::Zombie || new_state
                    == State::Zombie,
                ..*old(self)
            }),
    {
        if self.state != State::Zombie {
            self.state = new_state;
        }
        if self.state == State::Zombie {
            self.waitable = true;
        }
    }

    /// Tells whether the current process has informations to be retrieved by
    /// the `waitpid` system call.
    pub fn is_waitable(&self) -> (b: bool)
        ensures
            b == self.waitable,
    {
        self.waitable
    }

    /// Sets the process waitable with the given signal type `type_`.
    pub fn set_waitable(&mut self, type_: u8)
        ensures
            *final(self) == (Process { waitable: true, termsig: type_, ..*old(self) }),
    {
        self.waitable = true;
        self.termsig = type_;
    }

    /// Clears the waitable flag.
    pub fn clear_waitable(&mut self)
        ensures
            *final(self) == (Process { waitable: false, ..*old(self) }),
    {
        self.waitable = false;
    }

    /// Returns the priority of the process. A greater number means a higher
    /// priority relative to other processes.
    pub fn get_priority(&self) -> (p: usize)
        ensures
            p == self.priority,
    {
        self.priority
    }

    /// Returns the ID of the process's parent if exists.
    pub fn get_parent(&self) -> (p: Option<Pid>)
        ensures
            p == self.parent,
    {
        self.parent
    }

    /// Returns a reference to the list of the process's children.
    pub fn get_children(&self) -> (c: &Vec<Pid>)
        ensures
            c@ == self.children@,
    {
        &self.children
    }

    /// Returns the index of the first child whose ID is not below `pid`.
    fn child_position(&self, pid: Pid) -> (i: usize)
        requires
            sorted(self.children@),
        ensures
            i <= self.children@.len(),
            forall|k: int| 0 <= k < i ==> self.children@[k] < pid,
            forall|k: int| i <= k < self.children@.len() ==> self.children@[k] >= pid,
    {
        let mut i: usize = 0;
        while i < self.children.len() && self.children[i] < pid
            invariant
                i <= self.children@.len(),
                forall|k: int| 0 <= k < i ==> self.children@[k] < pid,
            decreases self.children@.len() - i,
        {
            i = i + 1;
        }
        i
    }

    /// Tells whether the process has a child with the given pid.
    pub fn has_child(&self, pid: Pid) -> (b: bool)
        requires
            self.wf(),
        ensures
            b == self.children@.contains(pid),
    {
        let i = self.child_position(pid);
        let b = i < self.children.len() && self.children[i] == pid;
        proof {
            if !b && self.children@.contains(pid) {
                let k = choose|k: int| 0 <= k < self.children@.len() && self.children@[k] == pid;
                assert(self.children@[k] == pid);
            }
        }
        b
    }

    /// Adds the process with the given PID `pid` as child to the process: the
    /// ID is put before the first child whose ID is not lower.
    pub fn add_child(&mut self, pid: Pid) -> (r: EResult<()>)
        requires
            old(self).wf(),
        ensures
            final(self).wf(),
            r.is_ok(),
            exists|i: int|
                0 <= i <= old(self).children@.len() && #[trigger] final(self).children@ == old(self).children@.insert(i, pid),
            Self::same_but_children(old(self), final(self)),
    {
        let i = self.child_position(pid);
        let ghost before = self.children@;
        self.children.insert(i, pid);
        proof {
            before.insert_ensures(i as int, pid);
            assert forall|a: int, b: int| 0 <= a <= b < self.children@.len() implies self.children@[a]
                <= self.children@[b] by {
                let a0 = if a < i {
                    a
                } else {
                    a - 1
                };
                let b0 = if b < i {
                    b
                } else {
                    b - 1
                };
                if a != i && b != i {
                    assert(before[a0] <= before[b0]);
                }
            }
        }
        Ok(())
    }

    /// Removes the process with the given PID `pid` as child to the process:
    /// the first child with that ID is removed, if there is one.
    pub fn remove_child(&mut self, pid: Pid)
        requires
            old(self).wf(),
        ensures
            final(self).wf(),
            Self::same_but_children(old(self), final(self)),
            left(old(self).children@, final(self).children@, pid),
            if old(self).children@.contains(pid) {
                exists|i: int|
                    0 <= i < old(self).children@.len() && old(self).children@[i] == pid
                        && #[trigger] final(self).children@ == old(self).children@.remove(i)
            } else {
                final(self).children@ == old(self).children@
            },
    {
        let i = self.child_position(pid);
        assert(place(self.children@, pid, i as int));
        if i < self.children.len() && self.children[i] == pid {
            let ghost before = self.children@;
            self.children.remove(i);
            proof {
                before.remove_ensures(i as int);
                assert(before.contains(pid)) by {
                    assert(before[i as int] == pid);
                }
                assert forall|a: int, b: int|
                    0 <= a <= b < self.children@.len() implies self.children@[a]
                    <= self.children@[b] by {
                    let a0 = if a < i {
                        a
                    } else {
                        a + 1
                    };
                    let b0 = if b < i {
                        b
                    } else {
                        b + 1
                    };
                    assert(before[a0] <= before[b0]);
                }
            }
        } else {
            proof {
                if self.children@.contains(pid) {
                    let k = choose|k: int|
                        0 <= k < self.children@.len() && self.children@[k] == pid;
                    assert(self.children@[k] == pid);
                }
            }
        }
    }

    /// Returns a reference to the list of PIDs of processes in the current
    /// process's group.
    pub fn get_group_processes(&self) -> (g: &Vec<Pid>)
        ensures
            g@ == self.process_group@,
    {
        &self.process_group
    }

    /// Tells whether `after` is `before`, but for the processes of its
    /// group.
    pub open spec fn same_but_group(before: &Process, after: &Process) -> bool {
        *after == (Process { process_group: after.process_group, ..*before })
    }

    /// Counts the process with ID `pid` among those of the group that the
    /// process owns, unless it is counted already.
    pub fn add_to_group(&mut self, pid: Pid)
        requires
            old(self).wf(),
        ensures
            final(self).wf(),
            Self::same_but_group(old(self), final(self)),
            joined(old(self).process_group@, final(self).process_group@, pid),
    {
        let i = position(&self.process_group, pid);
        if i < self.process_group.len() && self.process_group[i] == pid {
            proof {
                assert(self.process_group@.contains(pid)) by {
                    assert(self.process_group@[i as int] == pid);
                }
            }
        } else {
            let ghost before = self.process_group@;
            self.process_group.insert(i, pid);
            proof {
                before.insert_ensures(i as int, pid);
                lemma_not_held(before, pid, i as int);
                assert forall|a: int, b: int|
                    0 <= a <= b < self.process_group@.len() implies self.process_group@[a]
                    <= self.process_group@[b] by {
                    let a0 = if a < i {
                        a
                    } else {
                        a - 1
                    };
                    let b0 = if b < i {
                        b
                    } else {
                        b - 1
                    };
                    if a != i && b != i {
                        assert(before[a0] <= before[b0]);
                    }
                }
            }
        }
    }

    /// Counts the process with ID `pid` no more among those of the group
    /// that the process owns.
    pub fn remove_from_group(&mut self, pid: Pid)
        requires
            old(self).wf(),
        ensures
            final(self).wf(),
            Self::same_but_group(old(self), final(self)),
            left(old(self).process_group@, final(self).process_group@, pid),
    {
        let i = position(&self.process_group, pid);
        if i < self.process_group.len() && self.process_group[i] == pid {
            let ghost before = self.process_group@;
            self.process_group.remove(i);
            proof {
                before.remove_ensures(i as int);
                assert(before.contains(pid)) by {
                    assert(before[i as int] == pid);
                }
                assert forall|a: int, b: int|
                    0 <= a <= b < self.process_group@.len() implies self.process_group@[a]
                    <= self.process_group@[b] by {
                    let a0 = if a < i {
                        a
                    } else {
                        a + 1
                    };
                    let b0 = if b < i {
                        b
                    } else {
                        b + 1
                    };
                    assert(before[a0] <= before[b0]);
                }
            }
        } else {
            proof {
                lemma_not_held(self.process_group@, pid, i as int);
            }
        }
    }

    /// Tells whether `after` is `before`, but for its children.
    pub open spec fn same_but_children(before: &Process, after: &Process) -> bool {
        *after == (Process { children: after.children, ..*before })
    }

    /// Returns a reference to the process's memory space.
    /// If the process is terminated, the function returns None.
    pub fn get_mem_space(&self) -> (m: Option<&MemSpace>)
        ensures
            match m {
                Some(m) => self.mem_space == Some(*m),
                None => self.mem_space.is_none(),
            },
    {
        self.mem_space.as_ref()
    }

    /// Sets the new memory space for the process, and returns the previous
    /// one, if any, for it to be destroyed.
    pub fn set_mem_space(&mut self, mem_space: Option<MemSpace>) -> (previous: Option<MemSpace>)
        ensures
            previous == old(self).mem_space,
            *final(self) == (Process { mem_space, ..*old(self) }),
    {
        let mut previous = mem_space;
        core::mem::swap(&mut self.mem_space, &mut previous);
        previous
    }

    /// Returns a reference to the process's current working directory.
    pub fn get_cwd(&self) -> (c: &str)
        ensures
            c@ == self.cwd@,
    {
        self.cwd.as_str()
    }

    /// Sets the process's current working directory.
    pub fn set_cwd(&mut self, path: String)
        ensures
            final(self).cwd@ == path@,
            *final(self) == (Process { cwd: final(self).cwd, ..*old(self) }),
    {
        self.cwd = path;
    }

    /// Returns the process's saved state registers.
    pub fn get_regs(&self) -> (r: &Regs)
        ensures
            *r == self.regs,
    {
        &self.regs
    }

    /// Sets the process's saved state registers.
    pub fn set_regs(&mut self, regs: &Regs)
        ensures
            *final(self) == (Process { regs: *regs, ..*old(self) }),
    {
        self.regs = *regs;
    }

    /// Initializes the process to run without a program: the process gets a
    /// memory space of its own, which may hold `tables` page tables, with a
    /// stack for the kernel, which is in place at once, and a stack for
    /// userspace, and registers that hold the top of that stack and the
    /// initial program counter `pc`.
    ///
    /// The function fails with `ENOMEM` if there is no memory for the memory
    /// space, the kernel's zone having no free frame, or for the stack of the
    /// kernel, one of its pages being stuck as [`MemSpace::stuck_at`] tells;
    /// the process is then left as it was, each frame has as many references
    /// as it had and, if no free frame had a reference, the frames that were
    /// free are free again, and no other.
    ///
    /// The processor must not be bound to a context whose frame is free.
    pub fn init_dummy(&mut self, mem: &mut PhysMemory, cpu: &mut Cpu, pc: u32, tables: usize) -> (r:
        EResult<()>)
        requires
            old(self).wf(),
            old(mem).wf(),
            old(cpu).wf(),
            forall|f: int|
                #[trigger] old(mem).refs.count(f) + KERNEL_STACK_SIZE + USER_STACK_SIZE < usize::MAX,
            old(cpu).page_dir() matches Some(root) ==> !old(mem).frames.is_free(
                root.0 as int / PAGE_SIZE as int,
            ),
        ensures
            final(self).wf(),
            final(mem).wf(),
            final(cpu).wf(),
            final(cpu).same_switches(old(cpu)),
            old(mem).sound() ==> final(mem).sound(),
            match r {
                Ok(()) => {
                    &&& final(self).mem_space matches Some(m) && m.counted_by(&final(mem).refs)
                    &&& final(self).kernel_stack matches Some(top) && Self::stack_at(
                        &final(self).mem_space->0,
                        top,
                        KERNEL_STACK_SIZE,
                        KERNEL_STACK_FLAGS,
                    )
                    &&& final(self).user_stack matches Some(top) && Self::stack_at(
                        &final(self).mem_space->0,
                        top,
                        USER_STACK_SIZE,
                        USER_STACK_FLAGS,
                    )
                    &&& *final(self) == (Process {
                        mem_space: final(self).mem_space,
                        kernel_stack: final(self).kernel_stack,
                        user_stack: final(self).user_stack,
                        regs: Regs { esp: stack_top(final(self).user_stack), eip: pc, ..no_regs() },
                        ..*old(self)
                    })
                },
                Err(e) => {
                    &&& e == Errno::ENOMEM
                    &&& *final(self) == *old(self)
                    &&& forall|f: int| #[trigger] final(mem).refs.count(f) == old(mem).refs.count(f)
                    &&& old(mem).sound() ==> forall|x: int|
                        #[trigger] final(mem).frames.is_free(x) == old(mem).frames.is_free(x)
                    &&& (forall|g: int|
                        !#[trigger] old(mem).frames.is_free_in(crate::memory::buddy::Zone::Kernel, g))
                        || exists|
                        mid: MemSpace,
                        stuck: MemSpace,
                        mem_mid: PhysMemory,
                        mem_stuck: PhysMemory,
                        b: int,
                        k: int,
                    | #[trigger]
                        MemSpace::stuck_at(
                            &mid,
                            &stuck,
                            &mem_mid,
                            &mem_stuck,
                            b,
                            k,
                            KERNEL_STACK_SIZE as int,
                        )
                },
            },
    {
        // Creating the memory space and the stacks
        let mut mem_space = MemSpace::new(mem, tables)?;
        let ghost fresh = mem_space;
        proof {
            assert(mem_space.root_frame() == mem_space.root().0 as int / PAGE_SIZE as int);
            assert(!mem_space.bound_to(cpu));
            assert((1u8 | 8u8) & 8u8 != 0 && (1u8 | 4u8) & 8u8 == 0) by (bit_vector);
            assert(mem_space::has_flag(KERNEL_STACK_FLAGS, mem_space::MAPPING_FLAG_NOLAZY));
            assert(!mem_space::has_flag(USER_STACK_FLAGS, mem_space::MAPPING_FLAG_NOLAZY));
        }
        let ghost mem_fresh = *mem;
        let ghost cpu_fresh = *cpu;
        let kernel_stack = mem_space.map(
            mem,
            cpu,
            MapConstraint::Any,
            KERNEL_STACK_SIZE,
            KERNEL_STACK_FLAGS,
            MapResidence::Normal,
        );
        proof {
            assert(fresh.gap_at(crate::memory::ALLOC_BEGIN_PAGE as int) == Some(
                (
                    crate::memory::ALLOC_BEGIN_PAGE as int,
                    crate::memory::PROCESS_END_PAGE - crate::memory::ALLOC_BEGIN_PAGE,
                ),
            ));
            assert(fresh.fits_at(
                crate::memory::ALLOC_BEGIN_PAGE as int,
                KERNEL_STACK_SIZE as int,
                mem_space::min_page(MapConstraint::Any),
            ));
            assert(!MemSpace::map_result(
                &fresh,
                &mem_space,
                &mem_fresh,
                mem,
                &cpu_fresh,
                cpu,
                MapConstraint::Any,
                KERNEL_STACK_SIZE,
                KERNEL_STACK_FLAGS,
                mem_space::mapping::ResidenceView::Normal,
                Err::<VirtAddr, Errno>(Errno::ENOMEM),
            ));
            if kernel_stack.is_err() {
                assert(exists|
                    mid: MemSpace,
                    stuck: MemSpace,
                    mem_mid: PhysMemory,
                    mem_stuck: PhysMemory,
                    b: int,
                    k: int,
                | #[trigger]
                    MemSpace::stuck_at(
                        &mid,
                        &stuck,
                        &mem_mid,
                        &mem_stuck,
                        b,
                        k,
                        KERNEL_STACK_SIZE as int,
                    ));
            }
        }
        let kernel_stack = match kernel_stack {
            Ok(begin) => {
                proof {
                    let b = begin.0 as int / PAGE_SIZE as int;
                    let last = b + KERNEL_STACK_SIZE - 1;
                    assert(mem_space.mapping_at(last).is_some());
                    mem_space.lemma_partition(last);
                    assert(fresh.gap_begin(b) == b);
                    assert(b == crate::memory::ALLOC_BEGIN_PAGE);
                    assert forall|f: int| #[trigger] mem.refs.count(f) + USER_STACK_SIZE < usize::MAX by {
                        let lo = crate::memory::ALLOC_BEGIN_PAGE as int;
                        let hi = crate::memory::PROCESS_END_PAGE as int;
                        mem_space::regions::lemma_refs_split(mem_space.regions(), f, lo, b, hi);
                        mem_space::regions::lemma_refs_split(
                            mem_space.regions(),
                            f,
                            b,
                            b + KERNEL_STACK_SIZE,
                            hi,
                        );
                        mem_space::regions::lemma_refs_most(
                            mem_space.regions(),
                            f,
                            b,
                            b + KERNEL_STACK_SIZE,
                        );
                        assert forall|p: int| lo <= p < b implies !#[trigger] mem_space::regions::holds(
                            mem_space.regions(),
                            p,
                            f,
                        ) by {
                            assert(mem_space.frame_at(p) == fresh.frame_at(p));
                            fresh.lemma_gap_pages(p, p);
                        }
                        assert forall|p: int|
                            b + KERNEL_STACK_SIZE <= p < hi implies !#[trigger] mem_space::regions::holds(
                            mem_space.regions(),
                            p,
                            f,
                        ) by {
                            assert(mem_space.frame_at(p) == fresh.frame_at(p));
                            fresh.lemma_gap_pages(p, p);
                        }
                        mem_space::regions::lemma_refs_none(mem_space.regions(), f, lo, b);
                        mem_space::regions::lemma_refs_none(
                            mem_space.regions(),
                            f,
                            b + KERNEL_STACK_SIZE,
                            hi,
                        );
                        assert(fresh.refs(f) == 0);
                    }
                }
                VirtAddr(begin.0 + KERNEL_STACK_SIZE * PAGE_SIZE)
            },
            Err(_) => {
                let ghost undone = mem_space;
                let ghost mem_undone = *mem;
                proof {
                    assert(MemSpace::restored(&fresh, &undone, &mem_fresh, &mem_undone, old(mem).sound()));
                    assert(undone.root_frame() == fresh.root_frame());
                    old(mem).frames.lemma_free_is_managed(fresh.root_frame());
                }
                mem_space.destroy(mem, cpu);
                proof {
                    let lo = crate::memory::ALLOC_BEGIN_PAGE as int;
                    let hi = crate::memory::PROCESS_END_PAGE as int;
                    assert forall|f: int| #[trigger] mem.refs.count(f) == old(mem).refs.count(f) by {
                        assert(undone.refs(f) == fresh.refs(f));
                        assert(mem_undone.refs.count(f) == mem_fresh.refs.count(f));
                    }
                    assert forall|x: int| !undone.dropped_in(&mem_undone.refs, x, lo, hi) by {
                        if undone.dropped_in(&mem_undone.refs, x, lo, hi) {
                            let q = mem_space::regions::lemma_dropped_page(
                                undone.regions(),
                                &mem_undone.refs,
                                x,
                                lo,
                                hi,
                            );
                            mem_space::regions::lemma_refs_one(undone.regions(), x, lo, hi, q);
                            assert(undone.refs(x) == fresh.refs(x));
                        }
                    }
                    if old(mem).sound() {
                        assert forall|x: int| #[trigger]
                            mem.frames.is_free(x) == old(mem).frames.is_free(x) by {
                            assert(mem_undone.frames.is_free(x) == mem_fresh.frames.is_free(x));
                            assert(!undone.dropped_in(&mem_undone.refs, x, lo, hi));
                        }
                    }
                }
                return Err(Errno::ENOMEM);
            },
        };
        let ghost with_kernel_stack = mem_space;
        assert(kernel_stack.0 == (crate::memory::ALLOC_BEGIN_PAGE + KERNEL_STACK_SIZE) * PAGE_SIZE);
        assert(forall|p: int|
            crate::memory::ALLOC_BEGIN_PAGE + KERNEL_STACK_SIZE <= p ==> #[trigger] mem_space.mapping_at(p)
                == fresh.mapping_at(p));
        let ghost mem_mid = *mem;
        let ghost cpu_mid = *cpu;
        assert(Self::stack_at(&mem_space, kernel_stack, KERNEL_STACK_SIZE, KERNEL_STACK_FLAGS));
        let user_stack = mem_space.map_stack(
            mem,
            cpu,
            MapConstraint::Any,
            USER_STACK_SIZE,
            USER_STACK_FLAGS,
        );
        let user_stack = match user_stack {
            Ok(user_stack) => user_stack,
            Err(_) => {
                proof {
                    let b = kernel_stack.0 as int / PAGE_SIZE as int;
                    let n = crate::memory::PROCESS_END_PAGE - b;
                    with_kernel_stack.lemma_inv();
                    assert(b == crate::memory::ALLOC_BEGIN_PAGE + KERNEL_STACK_SIZE);
                    assert forall|p: int| b <= p < b + n implies #[trigger] mem_space::regions::mapping_in(
                        with_kernel_stack.regions(),
                        p,
                    ) is None by {
                        assert(with_kernel_stack.mapping_at(p) == fresh.mapping_at(p));
                        fresh.lemma_gap_pages(p, p);
                    }
                    mem_space::regions::lemma_gap_run(with_kernel_stack.regions(), b, n);
                    assert(with_kernel_stack.gap_size(b) >= n);
                    with_kernel_stack.lemma_partition(b);
                    assert(with_kernel_stack.gap_begin(b) >= 0) by {
                        mem_space::regions::lemma_bounds(
                            with_kernel_stack.regions(),
                            mem_space::regions::index_of(with_kernel_stack.regions(), b),
                        );
                    }
                    assert(with_kernel_stack.fits_at(
                        b,
                        USER_STACK_SIZE as int,
                        mem_space::min_page(MapConstraint::Any),
                    ));
                    assert(false);
                }
                mem_space.destroy(mem, cpu);
                return Err(Errno::ENOMEM);
            },
        };
        proof {
            let begin = choose|begin: VirtAddr|
                {
                    &&& user_stack.0 == begin.0 + USER_STACK_SIZE * PAGE_SIZE
                    &&& #[trigger] MemSpace::map_result(
                        &with_kernel_stack,
                        &mem_space,
                        &mem_mid,
                        mem,
                        &cpu_mid,
                        cpu,
                        MapConstraint::Any,
                        USER_STACK_SIZE,
                        USER_STACK_FLAGS,
                        mem_space::mapping::ResidenceView::Normal,
                        Ok::<VirtAddr, Errno>(begin),
                    )
                };
            let b = begin.0 as int / PAGE_SIZE as int;
            assert forall|p: int| b <= p < b + USER_STACK_SIZE implies with_kernel_stack.mapping_at(
                p,
            ).is_none() by {
                with_kernel_stack.lemma_gap_pages(b, p);
            }
            assert(Self::stack_at(&mem_space, kernel_stack, KERNEL_STACK_SIZE, KERNEL_STACK_FLAGS));
            assert(Self::stack_at(&mem_space, user_stack, USER_STACK_SIZE, USER_STACK_FLAGS));
        }
        self.mem_space = Some(mem_space);
        self.kernel_stack = Some(kernel_stack);
        self.user_stack = Some(user_stack);
        // Setting the registers' initial state
        self.regs = Regs {
            eax: 0,
            ebx: 0,
            ecx: 0,
            edx: 0,
            esp: (user_stack.0 & 0xffff_ffff) as u32,
            eip: pc,
        };
        Ok(())
    }

    /// Tells whether the memory space `m` holds a stack of `pages` pages with
    /// flags `flags` whose top is `top`: the pages below the address belong
    /// to one mapping, which has that size and those flags, and holds
    /// memory that begins as zeros.
    pub open spec fn stack_at(m: &MemSpace, top: VirtAddr, pages: usize, flags: u8) -> bool {
        let end = top.0 as int / PAGE_SIZE as int;
        &&& top.0 == end * PAGE_SIZE
        &&& forall|p: int|
            end - pages <= p < end ==> #[trigger] m.mapping_at(p) == Some(
                mem_space::mapping::MappingView {
                    begin: end - pages,
                    size: pages as int,
                    flags,
                    residence: mem_space::mapping::ResidenceView::Normal,
                },
            )
    }

    /// Tells whether the process was syscalling before being interrupted.
    pub fn is_syscalling(&self) -> (b: bool)
        ensures
            b == (self.syscalling && self.handled_signal.is_none()),
    {
        self.syscalling && !self.is_handling_signal()
    }

    /// Sets the process's syscalling state.
    pub fn set_syscalling(&mut self, syscalling: bool)
        ensures
            *final(self) == (Process { syscalling, ..*old(self) }),
    {
        self.syscalling = syscalling;
    }

    /// Creates a file descriptor and returns it with its ID.
    ///
    /// `flags` are the file descriptor's flags. `open_file` is the open file
    /// description that the file descriptor holds.
    ///
    /// The function does what [`FileDescriptorTable::create_fd`] does.
    pub fn create_fd(&mut self, files: &mut OpenFiles, flags: i32, open_file: OpenFile) -> (r: EResult<
        (u32, FileDescriptor),
    >)
        requires
            old(self).file_descriptors.wf(),
            old(files).wf(),
        ensures
            final(self).file_descriptors.wf(),
            final(files).wf(),
            *final(self) == (Process {
                file_descriptors: final(self).file_descriptors,
                ..*old(self)
            }),
            Self::fd_created(
                &old(self).file_descriptors,
                &final(self).file_descriptors,
                old(files),
                final(files),
                flags,
                open_file,
                r,
            ),
    {
        self.file_descriptors.create_fd(files, flags, open_file)
    }

    /// What [`FileDescriptorTable::create_fd`] returns and does.
    pub open spec fn fd_created(
        before: &FileDescriptorTable,
        after: &FileDescriptorTable,
        files_before: &OpenFiles,
        files_after: &OpenFiles,
        flags: i32,
        open_file: OpenFile,
        r: EResult<(u32, FileDescriptor)>,
    ) -> bool {
        &&& files_after.total_max() == files_before.total_max()
        &&& match r {
            Ok((id, fd)) => {
                &&& id < crate::limits::OPEN_MAX
                &&& crate::file::fd::lowest_free(before@, id as int, 0)
                &&& fd.flags == flags
                &&& after.fd(id as int) == Some(fd)
                &&& forall|k: int| k != id ==> #[trigger] after.fd(k) == before.fd(k)
                &&& files_before.lowest_unused(fd.open_file as int)
                &&& files_after.total() == files_before.total() + 1
                &&& files_after.slot(fd.open_file as int) == Some(
                    crate::file::open_file::Shared { open_file, refs: 1 },
                )
                &&& forall|k: int|
                    k != fd.open_file ==> #[trigger] files_after.slot(k) == files_before.slot(k)
            },
            Err(e) => {
                &&& after@ == before@
                &&& files_after.total() == files_before.total()
                &&& forall|k: int| #[trigger] files_after.slot(k) == files_before.slot(k)
                &&& e == if crate::file::fd::self_full(before@) {
                    Errno::EMFILE
                } else {
                    Errno::ENFILE
                }
                &&& crate::file::fd::self_full(before@) || files_before.total()
                    == files_before.total_max()
            },
        }
    }

    /// Duplicates the file descriptor with id `id`.
    ///
    /// The function does what [`FileDescriptorTable::duplicate_fd`] does.
    pub fn duplicate_fd(
        &mut self,
        files: &mut OpenFiles,
        id: i32,
        constraint: NewFDConstraint,
        cloexec: bool,
    ) -> (r: EResult<(u32, FileDescriptor, Option<OpenFile>)>)
        requires
            old(self).file_descriptors.wf(),
            old(files).wf(),
        ensures
            final(self).file_descriptors.wf(),
            final(files).wf(),
            final(files).total_max() == old(files).total_max(),
            *final(self) == (Process {
                file_descriptors: final(self).file_descriptors,
                ..*old(self)
            }),
            FileDescriptorTable::duplicated(
                &old(self).file_descriptors,
                &final(self).file_descriptors,
                old(files),
                final(files),
                id,
                constraint,
                cloexec,
                r,
            ),
    {
        self.file_descriptors.duplicate_fd(files, id, constraint, cloexec)
    }

    /// Returns the file descriptor with ID `id`. If the file descriptor
    /// doesn't exist, the function returns None.
    pub fn get_fd(&self, id: u32) -> (r: Option<&FileDescriptor>)
        ensures
            match r {
                Some(fd) => id <= i32::MAX && self.file_descriptors.fd(id as int) == Some(*fd),
                None => id > i32::MAX || self.file_descriptors.fd(id as int).is_none(),
            },
    {
        if id > i32::MAX as u32 {
            return None;
        }
        match self.file_descriptors.get_fd(id as i32) {
            Ok(fd) => Some(fd),
            Err(_) => None,
        }
    }

    /// Closes the file descriptor with the ID `id`.
    ///
    /// The function does what [`FileDescriptorTable::close_fd`] does.
    pub fn close_fd(&mut self, files: &mut OpenFiles, id: i32) -> (r: EResult<Option<OpenFile>>)
        requires
            old(self).file_descriptors.wf(),
            old(files).wf(),
        ensures
            final(self).file_descriptors.wf(),
            final(files).wf(),
            final(files).total_max() == old(files).total_max(),
            *final(self) == (Process {
                file_descriptors: final(self).file_descriptors,
                ..*old(self)
            }),
            match r {
                Ok(closed) => {
                    &&& old(self).file_descriptors.fd(id as int) matches Some(fd)
                    &&& final(self).file_descriptors.fd(id as int).is_none()
                    &&& forall|k: int|
                        k != id ==> #[trigger] final(self).file_descriptors.fd(k) == old(self).file_descriptors.fd(k)
                    &&& crate::file::fd::released(
                        old(files),
                        final(files),
                        fd.open_file as int,
                        closed,
                    )
                },
                Err(e) => {
                    &&& e == Errno::EBADF
                    &&& old(self).file_descriptors.fd(id as int).is_none()
                    &&& final(self).file_descriptors@ == old(self).file_descriptors@
                    &&& final(files).total() == old(files).total()
                    &&& forall|k: int| #[trigger] final(files).slot(k) == old(files).slot(k)
                },
            },
    {
        self.file_descriptors.close_fd(files, id)
    }

    /// Returns the exit status if the process has ended.
    pub fn get_exit_status(&self) -> (s: Option<ExitStatus>)
        ensures
            s == if self.state == State::Zombie {
                Some(self.exit_status)
            } else {
                None
            },
    {
        if self.state == State::Zombie {
            Some(self.exit_status)
        } else {
            None
        }
    }

    /// Returns the signal that killed the process.
    pub fn get_termsig(&self) -> (s: u8)
        ensures
            s == self.termsig,
    {
        self.termsig
    }

    /// Tells whether the process is handling a signal.
    pub fn is_handling_signal(&self) -> (b: bool)
        ensures
            b == self.handled_signal.is_some(),
    {
        self.handled_signal.is_some()
    }

    /// What the default action of signal `sig` makes of the state of a
    /// process in state `state`.
    pub open spec fn state_after(state: State, sig: SignalType) -> State {
        if state == State::Zombie {
            State::Zombie
        } else {
            match signal::default_action(sig) {
                SignalAction::Terminate => State::Zombie,
                SignalAction::Ignore => state,
                SignalAction::Stop => State::Stopped,
                SignalAction::Continue => State::Running,
            }
        }
    }

    /// Executes the default action of signal `sig` on the process: a signal
    /// that terminates makes the process a zombie, which has the signal for
    /// its parent to retrieve.
    ///
    /// The init process must not be killed.
    pub fn execute_action(&mut self, sig: SignalType)
        requires
            !(old(self).pid == INIT_PID && signal::default_action(sig) == SignalAction::Terminate),
        ensures
            *final(self) == (Process {
                state: Self::state_after(old(self).state, sig),
                waitable: old(self).waitable || old(self).state == State::Zombie
                    || signal::default_action(sig) == SignalAction::Terminate,
                termsig: if signal::default_action(sig) == SignalAction::Terminate && old(self).state != State::Zombie {
                    sig
                } else {
                    old(self).termsig
                },
                ..*old(self)
            }),
    {
        match signal::get_default_action(sig) {
            SignalAction::Terminate => {
                if self.state != State::Zombie {
                    self.termsig = sig;
                }
                self.set_state(State::Zombie);
            },
            SignalAction::Ignore => {
                if self.state == State::Zombie {
                    self.waitable = true;
                }
            },
            SignalAction::Stop => {
                self.set_state(State::Stopped);
            },
            SignalAction::Continue => {
                self.set_state(State::Running);
            },
        }
    }

    /// Tells whether `after` is the process `before` once signal `sig` has
    /// been sent to it, as [`Self::kill`] sends it.
    pub open spec fn killed(before: &Process, after: &Process, sig: SignalType, no_handler: bool) -> bool {
        let resumed = before.state == State::Stopped && signal::default_action(sig)
            == SignalAction::Continue;
        let state = if resumed {
            State::Running
        } else {
            before.state
        };
        if !signal::catchable(sig) || (before.handled_signal.is_some() && no_handler) {
            *after == (Process {
                state: Self::state_after(state, sig),
                waitable: before.waitable || before.state == State::Zombie || signal::default_action(sig)
                    == SignalAction::Terminate,
                termsig: if signal::default_action(sig) == SignalAction::Terminate && before.state
                    != State::Zombie {
                    sig
                } else {
                    before.termsig
                },
                ..*before
            })
        } else {
            &&& after.pending@ == before.pending@.update(sig as int, true)
            &&& *after == (Process { state, pending: after.pending, ..*before })
        }
    }

    /// Tells whether `s` is the lowest signal that is pending in `pending`.
    pub open spec fn first_pending(pending: Seq<bool>, s: int) -> bool {
        &&& 0 <= s < pending.len()
        &&& pending[s]
        &&& forall|k: int| 0 <= k < s ==> !pending[k]
    }

    /// Tells whether the next signal that the process handles terminates it.
    pub open spec fn dies_next(&self) -> bool {
        exists|s: int|
            #[trigger] Self::first_pending(self.pending@, s) && signal::default_action(s as SignalType)
                == SignalAction::Terminate
    }

    /// Tells whether `after` is the process `before` once it has handled its
    /// next signal, as [`Self::signal_next`] makes it.
    pub open spec fn handled_next(before: &Process, after: &Process) -> bool {
        &&& (forall|s: int| 0 <= s < before.pending@.len() ==> !before.pending@[s]) ==> *after
            == *before
        &&& forall|s: int| #[trigger]
            Self::first_pending(before.pending@, s) ==> {
                &&& after.pending@ == before.pending@.update(s, false)
                &&& *after == (Process {
                    state: Self::state_after(before.state, s as SignalType),
                    waitable: before.waitable || before.state == State::Zombie
                        || signal::default_action(s as SignalType) == SignalAction::Terminate,
                    termsig: if signal::default_action(s as SignalType) == SignalAction::Terminate
                        && before.state != State::Zombie {
                        s as SignalType
                    } else {
                        before.termsig
                    },
                    pending: after.pending,
                    ..*before
                })
            }
    }

    /// Kills the process with the given signal `sig`.
    ///
    /// A process that is stopped runs again if the signal is the one that
    /// makes a process continue. Then, if the signal cannot be caught, or if
    /// the process is handling a signal and `no_handler` is set, the default
    /// action of the signal is executed at once; otherwise the signal is
    /// pending.
    ///
    /// The init process must not be killed.
    pub fn kill(&mut self, sig: SignalType, no_handler: bool)
        requires
            old(self).wf(),
            sig <= signal::SIGNALS_COUNT,
            !(old(self).pid == INIT_PID && signal::default_action(sig) == SignalAction::Terminate),
        ensures
            final(self).wf(),
            Self::killed(old(self), final(self), sig, no_handler),
    {
        if self.get_state() == State::Stopped && signal::get_default_action(sig)
            == SignalAction::Continue {
            self.set_state(State::Running);
        }
        let no_handler = self.is_handling_signal() && no_handler;
        if !signal::can_catch(sig) || no_handler {
            self.execute_action(sig);
        } else {
            self.pending.set(sig as usize, true);
        }
    }

    /// Tells whether the process has a signal pending.
    pub fn has_signal_pending(&self) -> (b: bool)
        ensures
            b == exists|s: int| 0 <= s < self.pending@.len() && self.pending@[s],
    {
        let mut s: usize = 0;
        while s < self.pending.len()
            invariant
                s <= self.pending@.len(),
                forall|k: int| 0 <= k < s ==> !self.pending@[k],
            decreases self.pending@.len() - s,
        {
            if self.pending[s] {
                return true;
            }
            s = s + 1;
        }
        false
    }

    /// Makes the process handle the next signal: the lowest signal that is
    /// pending does what it does by default, and is not pending any more. If
    /// no signal is pending, the function does nothing.
    ///
    /// The init process must not be killed.
    pub fn signal_next(&mut self)
        requires
            old(self).wf(),
            !(old(self).pid == INIT_PID && old(self).dies_next()),
        ensures
            final(self).wf(),
            final(self).pid == old(self).pid,
            final(self).mem_space == old(self).mem_space,
            Self::handled_next(old(self), final(self)),
    {
        let n = self.pending.len();
        let mut s: usize = 0;
        while s < n
            invariant
                s <= n,
                n == self.pending@.len(),
                n == signal::SIGNALS_COUNT + 1,
                *self == *old(self),
                self.wf(),
                !(old(self).pid == INIT_PID && old(self).dies_next()),
                forall|k: int| 0 <= k < s ==> !self.pending@[k],
            decreases n - s,
        {
            if self.pending[s] {
                let sig = s as SignalType;
                proof {
                    assert(Self::first_pending(old(self).pending@, s as int));
                    assert((s as int) as SignalType == sig);
                    if signal::default_action(sig) == SignalAction::Terminate {
                        assert(old(self).dies_next());
                    }
                }
                self.pending.set(s, false);
                self.execute_action(sig);
                return ;
            }
            s = s + 1;
        }
    }

    /// Prepares for context switching to the process, which runs: the
    /// process has one more tick, its memory space is bound to `cpu`, and it
    /// handles its next signal. The function returns what the task state
    /// segment must hold. A call to this function must be followed by a
    /// context switch to the process.
    ///
    /// The process must have a memory space and a kernel stack.
    pub fn prepare_switch(&mut self, cpu: &mut Cpu) -> (tss: Tss)
        requires
            old(self).wf(),
            old(cpu).wf(),
            old(self).state == State::Running,
            old(self).mem_space.is_some(),
            old(self).kernel_stack.is_some(),
            old(self).quantum_count < usize::MAX,
            !(old(self).pid == INIT_PID && old(self).dies_next()),
        ensures
            final(self).wf(),
            final(cpu).wf(),
            tss == (Tss {
                ss0: KERNEL_DS,
                ss: USER_DS,
                esp0: stack_top(old(self).kernel_stack),
            }),
            old(self).mem_space->0.bound_to(final(cpu)),
            Self::handled_next(
                &(Process { quantum_count: (old(self).quantum_count + 1) as usize, ..*old(self) }),
                final(self),
            ),
    {
        // Incrementing the number of ticks the process had
        self.quantum_count += 1;
        // Filling the TSS
        let esp0 = match self.kernel_stack {
            Some(stack) => (stack.0 & 0xffff_ffff) as u32,
            None => 0u32,
        };
        let tss = Tss { ss0: KERNEL_DS, ss: USER_DS, esp0 };
        // Binding the memory space
        match &self.mem_space {
            Some(mem_space) => mem_space.bind(cpu),
            None => {},
        }
        // If a signal is pending on the process, execute it
        self.signal_next();
        tss
    }

    /// Tells whether `after` is the process `before` once it has been woken
    /// up, as [`Self::wakeup`] does.
    pub open spec fn woken(before: &Process, after: &Process) -> bool {
        &&& after.pending@ == before.pending@.update(SIGCHLD as int, true)
        &&& *after == (Process {
            state: if before.state == State::Sleeping {
                State::Running
            } else {
                before.state
            },
            pending: after.pending,
            ..*before
        })
    }

    /// Wakes up the process. The function sends a signal SIGCHLD to the
    /// process and, if it was in Sleeping state, changes it to Running.
    pub fn wakeup(&mut self)
        requires
            old(self).wf(),
        ensures
            final(self).wf(),
            Self::woken(old(self), final(self)),
    {
        self.kill(SIGCHLD, false);
        if self.state == State::Sleeping {
            self.state = State::Running;
        }
    }

    /// Saves the process's state to handle a signal.
    /// `sig` is the signal number.
    pub fn signal_save(&mut self, sig: SignalType)
        requires
            sig <= signal::SIGNALS_COUNT,
        ensures
            *final(self) == (Process {
                saved_regs: old(self).regs,
                handled_signal: Some(sig),
                ..*old(self)
            }),
    {
        self.saved_regs = self.regs;
        self.handled_signal = Some(sig);
    }

    /// Restores the process's state after handling a signal: the signal is
    /// not pending any more, and the registers are those that were saved.
    /// Nothing changes if the process is handling no signal.
    pub fn signal_restore(&mut self)
        requires
            old(self).wf(),
        ensures
            final(self).wf(),
            match old(self).handled_signal {
                Some(sig) => {
                    &&& final(self).pending@ == old(self).pending@.update(sig as int, false)
                    &&& *final(self) == (Process {
                        pending: final(self).pending,
                        handled_signal: None,
                        regs: old(self).saved_regs,
                        ..*old(self)
                    })
                },
                None => *final(self) == *old(self),
            },
    {
        if let Some(sig) = self.handled_signal {
            self.pending.set(sig as usize, false);
            self.handled_signal = None;
            self.regs = self.saved_regs;
        }
    }

    /// Tells whether `after` is the process `before` once it has exited with
    /// status `status`.
    pub open spec fn exited(before: &Process, after: &Process, status: u32) -> bool {
        *after == (Process {
            exit_status: (status & 0xff) as u8,
            state: State::Zombie,
            waitable: true,
            ..*before
        })
    }

    /// Exits the process with the given `status`. This function changes the
    /// process's status to `Zombie`.
    ///
    /// The init process must not exit.
    pub fn exit(&mut self, status: u32)
        requires
            old(self).pid != INIT_PID,
        ensures
            Self::exited(old(self), final(self), status),
    {
        self.exit_status = (status & 0xff) as ExitStatus;
        self.set_state(State::Zombie);
    }

    /// Returns the OOM score, used by the OOM killer to determine the process
    /// to kill in case the system runs out of memory. A higher score means a
    /// higher probability of getting killed.
    ///
    /// The score of a process is zero, less one hundred, counted in 16 bits,
    /// if the process is owned by the superuser.
    pub fn get_oom_score(&self) -> (score: u16)
        ensures
            score == if self.access_profile.uid == 0 {
                65436u16
            } else {
                0u16
            },
    {
        let mut score: u16 = 0;
        // If the process is owned by the superuser, give it a bonus
        if self.access_profile.uid == 0 {
            score = score.wrapping_sub(100);
        }
        score
    }
}

impl Process {
    /// Tells whether `child` is the process that a fork of `parent` makes
    /// with ID `pid`: it has the owners, the mask, the priority, the
    /// registers and the directory of its parent, but the accumulator, which
    /// holds zero; it runs, and has no child, no pending signal and nothing
    /// for a parent to retrieve.
    pub open spec fn forked_from(parent: &Process, child: &Process, pid: Pid) -> bool {
        &&& child.pid == pid
        &&& child.pgid == parent.pgid
        &&& child.tid == parent.pid
        &&& child.access_profile == parent.access_profile
        &&& child.umask == parent.umask
        &&& child.state == State::Running
        &&& child.priority == parent.priority
        &&& child.quantum_count == 0
        &&& child.parent == Some(parent.pid)
        &&& child.children@.len() == 0
        &&& child.process_group@.len() == 0
        &&& child.regs == (Regs { eax: 0, ..parent.regs })
        &&& !child.syscalling
        &&& child.handled_signal == parent.handled_signal
        &&& child.saved_regs == parent.saved_regs
        &&& child.pending@.len() == parent.pending@.len()
        &&& forall|s: int| 0 <= s < child.pending@.len() ==> !child.pending@[s]
        &&& !child.waitable
        &&& child.user_stack == parent.user_stack
        &&& child.kernel_stack == parent.kernel_stack
        &&& child.cwd@ == parent.cwd@
        &&& child.exec_path@ == parent.exec_path@
        &&& child.exit_status == parent.exit_status
        &&& child.termsig == 0
    }

    /// Forks the current process. The internal state of the process
    /// (registers and memory) are copied.
    ///
    /// The child gets the lowest ID that is not in use, a copy of the memory
    /// space of its parent, made as [`MemSpace::fork`] makes it, and a copy
    /// of its file descriptors, which hold the same open file descriptions.
    /// It becomes a child of the process.
    ///
    /// The function fails, and changes nothing:
    /// - with `EAGAIN` if every ID is in use;
    /// - or else with `ENFILE` if the file descriptors of the child would
    ///   make more file descriptors open system-wide than can be;
    /// - or else with `ENOMEM` iff there is no memory for the memory space of
    ///   the child: the kernel's zone has no free frame.
    pub fn fork(
        &mut self,
        pids: &mut PIDManager,
        mem: &mut PhysMemory,
        cpu: &mut Cpu,
        files: &mut OpenFiles,
    ) -> (r: EResult<Process>)
        requires
            old(self).wf(),
            old(pids).wf(),
            old(mem).wf(),
            old(cpu).wf(),
            old(files).wf(),
            old(self).mem_space matches Some(m) && m.counted_by(&old(mem).refs) && (forall|f: int|
                #[trigger] old(mem).refs.count(f) + m.refs(f) <= usize::MAX),
            old(self).file_descriptors.open_in(old(files)),
        ensures
            final(self).wf(),
            final(pids).wf(),
            final(mem).wf(),
            old(mem).sound() ==> final(mem).sound(),
            final(cpu).wf(),
            final(files).wf(),
            final(files).total_max() == old(files).total_max(),
            final(mem).ram == old(mem).ram,
            final(self).mem_space matches Some(m1) && m1.counted_by(&final(mem).refs) && (forall|
                q: int,
            | #[trigger] m1.mapping_at(q) == old(self).mem_space->0.mapping_at(q)) && (forall|q: int|
                #[trigger] m1.frame_at(q) == old(self).mem_space->0.frame_at(q)),
            *final(self) == (Process {
                children: final(self).children,
                mem_space: final(self).mem_space,
                ..*old(self)
            }),
            match r {
                Ok(child) => {
                    &&& child.wf()
                    &&& 1 <= child.pid <= pid::MAX_PID
                    &&& !old(pids).is_used(child.pid as int)
                    &&& forall|p: int| 1 <= p < child.pid ==> #[trigger] old(pids).is_used(p)
                    &&& forall|p: int|
                        #[trigger] final(pids).is_used(p) == (old(pids).is_used(p) || p == child.pid)
                    &&& Self::forked_from(old(self), &child, child.pid)
                    &&& exists|i: int|
                        0 <= i <= old(self).children@.len() && #[trigger] final(self).children@
                            == old(self).children@.insert(i, child.pid)
                    &&& child.mem_space matches Some(cm)
                    &&& cm.counted_by(&final(mem).refs)
                    &&& forall|q: int|
                        #[trigger] cm.mapping_at(q) == old(self).mem_space->0.mapping_at(q)
                    &&& forall|q: int|
                        #[trigger] cm.frame_at(q) == old(self).mem_space->0.frame_at(q)
                    &&& forall|q: int|
                        #[trigger] cm.table().entry(q) == old(self).mem_space->0.forked_entry(q)
                    &&& forall|q: int|
                        #[trigger] final(self).mem_space->0.table().entry(q) == old(self).mem_space->0.forked_entry(q)
                    &&& forall|f: int|
                        #[trigger] final(mem).refs.count(f) == old(mem).refs.count(f) + old(self).mem_space->0.refs(f)
                    &&& forall|k: int|
                        #[trigger] child.file_descriptors.fd(k) == old(self).file_descriptors.fd(k)
                    &&& crate::file::fd::shared_prefix(
                        old(files),
                        final(files),
                        old(self).file_descriptors@,
                        false,
                        old(self).file_descriptors@.len() as int,
                    )
                },
                Err(e) => {
                    &&& final(self).children@ == old(self).children@
                    &&& forall|q: int|
                        #[trigger] final(self).mem_space->0.table().entry(q) == old(self).mem_space->0.table().entry(q)
                    &&& forall|p: int| #[trigger] final(pids).is_used(p) == old(pids).is_used(p)
                    &&& final(mem).refs == old(mem).refs
                    &&& forall|x: int|
                        #[trigger] final(mem).frames.is_free(x) == old(mem).frames.is_free(x)
                    &&& final(files).total() == old(files).total()
                    &&& forall|h: int| #[trigger] final(files).slot(h) == old(files).slot(h)
                    &&& e == if forall|p: int| 1 <= p <= pid::MAX_PID ==> #[trigger] old(pids).is_used(p) {
                        Errno::EAGAIN
                    } else if old(files).total() + crate::file::fd::kept_count(
                        old(self).file_descriptors@,
                        false,
                        old(self).file_descriptors@.len() as int,
                    ) > old(files).total_max() {
                        Errno::ENFILE
                    } else {
                        Errno::ENOMEM
                    }
                    &&& e == Errno::ENOMEM ==> forall|g: int|
                        !#[trigger] old(mem).frames.is_free_in(crate::memory::buddy::Zone::Kernel, g)
                },
            },
            (forall|g: int| !#[trigger] old(mem).frames.is_free_in(crate::memory::buddy::Zone::Kernel, g))
                ==> r.is_err(),
    {
        let pid = match pids.get_unique_pid() {
            Ok(pid) => pid,
            Err(e) => {
                return Err(e);
            },
        };
        proof {
            assert(!old(pids).is_used(pid as int));
            files.lemma_total();
        }
        // The file descriptors of the child have to be counted
        let kept = self.file_descriptors.count_kept(false);
        if kept > files.total_max_value() - files.get_total() {
            pids.release_pid(pid);
            return Err(Errno::ENFILE);
        }
        let mut regs = self.regs;
        regs.eax = 0;
        let ghost ms0 = old(self).mem_space->0;
        let forked = match &mut self.mem_space {
            Some(m) => m.fork(mem, cpu),
            None => Err(Errno::ENOMEM),
        };
        let mem_space = match forked {
            Ok(m) => m,
            Err(e) => {
                pids.release_pid(pid);
                return Err(e);
            },
        };
        let file_descriptors = match self.file_descriptors.duplicate(files, false) {
            Ok(fds) => fds,
            Err(e) => {
                proof {
                    assert(false);
                }
                return Err(e);
            },
        };
        let mut pending: Vec<bool> = Vec::new();
        let mut i: usize = 0;
        while i <= signal::SIGNALS_COUNT
            invariant
                i <= signal::SIGNALS_COUNT + 1,
                pending@.len() == i,
                forall|s: int| 0 <= s < i ==> !pending@[s],
            decreases signal::SIGNALS_COUNT + 1 - i,
        {
            pending.push(false);
            i = i + 1;
        }
        let process = Process {
            pid,
            pgid: self.pgid,
            tid: self.pid,
            access_profile: self.access_profile,
            umask: self.umask,
            state: State::Running,
            priority: self.priority,
            quantum_count: 0,
            parent: Some(self.pid),
            children: Vec::new(),
            process_group: Vec::new(),
            regs,
            syscalling: false,
            handled_signal: self.handled_signal,
            saved_regs: self.saved_regs,
            pending,
            waitable: false,
            mem_space: Some(mem_space),
            user_stack: self.user_stack,
            kernel_stack: self.kernel_stack,
            cwd: self.cwd.clone(),
            exec_path: self.exec_path.clone(),
            file_descriptors,
            exit_status: self.exit_status,
            termsig: 0,
        };
        let ghost before_add = *self;
        let _ = self.add_child(pid);
        proof {
            assert(before_add.children@ == old(self).children@);
            let i = choose|i: int|
                0 <= i <= before_add.children@.len() && #[trigger] self.children@
                    == before_add.children@.insert(i, pid);
            assert(0 <= i <= old(self).children@.len() && self.children@ == old(self).children@.insert(i, pid));
            assert(Self::forked_from(old(self), &process, pid));
            assert(process.wf());
            assert forall|k: int| #[trigger]
                process.file_descriptors.fd(k) == old(self).file_descriptors.fd(k) by {
                assert(crate::file::fd::kept(old(self).file_descriptors.fd(k), false)
                    == old(self).file_descriptors.fd(k).is_some());
            }
        }
        Ok(process)
    }
}

/// Initializes the processes system: creates the manager of the IDs of
/// processes, in which no ID is in use, and the table of processes, which
/// holds none, and returns them with the functions that handle the
/// exceptions of processes, to be registered in that order. This function
/// must be called only once, at kernel initialization.
pub fn init() -> (r: EResult<(PIDManager, scheduler::Scheduler, Vec<(u32, event::Callback)>)>)
    ensures
        match r {
            Ok((pids, scheduler, callbacks)) => {
                &&& pids.wf()
                &&& forall|p: int| !#[trigger] pids.is_used(p)
                &&& scheduler.wf()
                &&& scheduler.processes@.len() == 0
                &&& scheduler.current.is_none()
                &&& callbacks@.len() == 8
                &&& forall|k: int|
                    0 <= k < callbacks@.len() ==> ((#[trigger] callbacks@[k]).1 == if callbacks@[k].0
                        == event::PAGE_FAULT {
                        event::Callback::PageFault
                    } else {
                        event::Callback::Exception
                    })
                &&& forall|id: u32|
                    event::exception_signal(id).is_some() || id == event::PAGE_FAULT <==> exists|k: int|
                        0 <= k < callbacks@.len() && (#[trigger] callbacks@[k]).0 == id
            },
            Err(_) => false,
        },
{
    let pids = PIDManager::new();
    let scheduler = scheduler::Scheduler::new();
    let callbacks = event::callbacks();
    proof {
        assert forall|id: u32|
            event::exception_signal(id).is_some() || id == event::PAGE_FAULT implies exists|k: int|
            0 <= k < callbacks@.len() && (#[trigger] callbacks@[k]).0 == id by {
            if id == 0x00 {
                assert(callbacks@[0].0 == id);
            } else if id == 0x03 {
                assert(callbacks@[1].0 == id);
            } else if id == 0x06 {
                assert(callbacks@[2].0 == id);
            } else if id == 0x0d {
                assert(callbacks@[3].0 == id);
            } else if id == 0x0e {
                assert(callbacks@[4].0 == id);
            } else if id == 0x10 {
                assert(callbacks@[5].0 == id);
            } else if id == 0x11 {
                assert(callbacks@[6].0 == id);
            } else {
                assert(callbacks@[7].0 == id);
            }
        }
    }
    Ok((pids, scheduler, callbacks))
}

} // verus!
