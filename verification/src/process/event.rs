//! What the kernel does when the processor raises an exception while a
//! process runs: the process gets the signal of the exception, or the page
//! that it lacks, and runs again if it can.

use vstd::prelude::*;
use crate::cpu::Cpu;
use crate::errno::AllocResult;
use crate::memory::ram::Ram;
use crate::memory::{PhysMemory, VirtAddr};
use crate::process::mem_space::{MemSpace, Resolution};
use crate::process::pid::INIT_PID;
use crate::process::scheduler::{index_of, Scheduler};
use crate::process::signal::{SignalType, SIGBUS, SIGFPE, SIGILL, SIGSEGV, SIGTRAP};
use crate::process::{Process, Regs, State};

verus! {

/// The opcode of the instruction that halts the processor, with which a
/// process that runs without a program ends.
pub const HLT_INSTRUCTION: u8 = 0xf4;

/// The number of the exception that a protection fault raises.
pub const GENERAL_PROTECTION_FAULT: u32 = 0x0d;

/// The number of the exception that a page fault raises.
pub const PAGE_FAULT: u32 = 0x0e;

/// What the kernel does once an interruption has been handled.
#[derive(Clone, Copy, Debug, PartialEq, Eq, Structural)]
pub enum InterruptResultAction {
    /// The execution resumes where it was interrupted.
    Resume,
    /// The kernel waits for another process to run.
    Loop,
    /// The kernel panics.
    Panic,
}

/// The result of the handling of an interruption.
#[derive(Clone, Copy, Debug, PartialEq, Eq, Structural)]
pub struct InterruptResult {
    /// Tells whether the handlers that follow are skipped.
    pub skip_next: bool,
    /// What the kernel does next.
    pub action: InterruptResultAction,
}

impl InterruptResult {
    /// Creates a result.
    pub fn new(skip_next: bool, action: InterruptResultAction) -> (r: Self)
        ensures
            r == (InterruptResult { skip_next, action }),
    {
        InterruptResult { skip_next, action }
    }
}

/// The kind of function that handles an exception.
#[derive(Clone, Copy, Debug, PartialEq, Eq, Structural)]
pub enum Callback {
    /// The function that handles the exceptions that end in a signal.
    Exception,
    /// The function that handles page faults.
    PageFault,
}

/// The result for a process that goes on: it resumes.
pub open spec fn resume() -> InterruptResult {
    InterruptResult { skip_next: false, action: InterruptResultAction::Resume }
}

/// The result for a process that cannot go on: the kernel waits for another
/// one.
pub open spec fn wait() -> InterruptResult {
    InterruptResult { skip_next: true, action: InterruptResultAction::Loop }
}

/// The result for what the kernel cannot recover from.
pub open spec fn panic() -> InterruptResult {
    InterruptResult { skip_next: true, action: InterruptResultAction::Panic }
}

/// The result for a process in state `state`: it resumes if it runs, and the
/// kernel waits for another one if not.
pub open spec fn outcome(state: State) -> InterruptResult {
    if state == State::Running {
        resume()
    } else {
        wait()
    }
}

/// The signal that the exception with number `id` sends to the process that
/// raised it, if it sends one: a division by zero or a floating-point
/// exception, a breakpoint, an invalid opcode, a protection fault, and an
/// alignment check do.
pub open spec fn exception_signal(id: u32) -> Option<SignalType> {
    if id == 0x00 || id == 0x10 || id == 0x13 {
        Some(SIGFPE)
    } else if id == 0x03 {
        Some(SIGTRAP)
    } else if id == 0x06 {
        Some(SIGILL)
    } else if id == 0x0d {
        Some(SIGSEGV)
    } else if id == 0x11 {
        Some(SIGBUS)
    } else {
        None
    }
}

/// Returns the signal that the exception with number `id` sends.
pub fn get_exception_signal(id: u32) -> (r: Option<SignalType>)
    ensures
        r == exception_signal(id),
{
    if id == 0x00 || id == 0x10 || id == 0x13 {
        Some(SIGFPE)
    } else if id == 0x03 {
        Some(SIGTRAP)
    } else if id == 0x06 {
        Some(SIGILL)
    } else if id == 0x0d {
        Some(SIGSEGV)
    } else if id == 0x11 {
        Some(SIGBUS)
    } else {
        None
    }
}

impl Process {
    /// Tells whether `after` is the process `before` once it has got signal
    /// `sig` for a fault of its own: the signal is sent, with no regard for a
    /// handler, and the process handles its next signal.
    pub open spec fn faulted(before: &Process, after: &Process, sig: SignalType) -> bool {
        exists|mid: Process| #[trigger]
            Self::killed(before, &mid, sig, true) && mid.wf() && Self::handled_next(&mid, after)
    }

    /// Sends signal `sig`, one of those that terminate a process, to the
    /// process for a fault of its own, and makes it handle its next signal.
    ///
    /// The init process must not be killed.
    pub fn fault(&mut self, sig: SignalType)
        requires
            old(self).wf(),
            old(self).pid != INIT_PID,
            sig <= crate::process::signal::SIGNALS_COUNT,
        ensures
            final(self).wf(),
            final(self).pid == old(self).pid,
            final(self).mem_space == old(self).mem_space,
            Self::faulted(old(self), final(self), sig),
    {
        self.kill(sig, true);
        let ghost mid = *self;
        self.signal_next();
        assert(Self::killed(old(self), &mid, sig, true) && mid.wf() && Self::handled_next(&mid, self));
    }

    /// Tells whether `after` is the process `before` once it has raised the
    /// exception with number `id`, with `eax` in its accumulator and `opcode`
    /// for the first byte of the instruction that it was at: a protection
    /// fault at the instruction that halts the processor makes the process
    /// exit with the status that the accumulator holds; another exception
    /// sends its signal, if it has one.
    pub open spec fn excepted(before: &Process, after: &Process, id: u32, eax: u32, opcode: u8) -> bool {
        if id == GENERAL_PROTECTION_FAULT && opcode == HLT_INSTRUCTION {
            Self::exited(before, after, eax)
        } else {
            match exception_signal(id) {
                Some(sig) => Self::faulted(before, after, sig),
                None => *after == *before,
            }
        }
    }

    /// The first byte of the instruction at address `eip` of the memory of
    /// the process.
    pub open spec fn opcode_at(&self, ram: &Ram, eip: u32) -> u8 {
        match self.mem_space {
            Some(m) => m.byte_at(ram, eip as usize),
            None => 0,
        }
    }

    /// Handles the exception with number `id` that the process has raised,
    /// with registers `regs`, as [`Self::excepted`] tells.
    ///
    /// The process must not be the init process.
    pub fn except(&mut self, ram: &Ram, id: u32, regs: &Regs)
        requires
            old(self).wf(),
            ram.wf(),
            old(self).pid != INIT_PID,
        ensures
            final(self).wf(),
            final(self).pid == old(self).pid,
            Self::excepted(old(self), final(self), id, regs.eax, old(self).opcode_at(ram, regs.eip)),
    {
        if id == GENERAL_PROTECTION_FAULT {
            let inst_prefix = match &self.mem_space {
                Some(mem_space) => mem_space.read_byte(ram, VirtAddr(regs.eip as usize)),
                None => 0,
            };
            if inst_prefix == HLT_INSTRUCTION {
                self.exit(regs.eax);
                return ;
            }
        }
        match get_exception_signal(id) {
            Some(sig) => self.fault(sig),
            None => {},
        }
    }
}

impl Process {
    /// Tells whether `after` is the process `before`, whose memory space has
    /// handled a page fault with result `handled`, and `r` what the kernel
    /// does next, for a fault raised in ring `ring`:
    /// - the kernel panics if there was no memory to resolve the fault;
    /// - if the fault is resolved, the process goes on;
    /// - if it is not, the kernel panics if the fault comes from the kernel
    ///   itself or from the init process, and the process gets the signal of
    ///   a segmentation fault otherwise.
    pub open spec fn page_faulted(
        before: &Process,
        after: &Process,
        handled: AllocResult<Resolution>,
        ring: u32,
        r: InterruptResult,
    ) -> bool {
        let mid = Process { mem_space: after.mem_space, ..*before };
        match handled {
            Err(_) => *after == mid && r == panic(),
            Ok(Resolution::Resolved) => *after == mid && r == outcome(before.state),
            Ok(Resolution::Unresolved) => if ring < 3 || before.pid == INIT_PID {
                *after == mid && r == panic()
            } else {
                Self::faulted(&mid, after, SIGSEGV) && r == outcome(after.state)
            },
        }
    }

    /// Handles a page fault that the process has raised in ring `ring`, at
    /// address `accessed` and with code `code`: the memory space of the
    /// process handles the fault, as [`MemSpace::fault_handled`] tells, and
    /// the process becomes what [`Self::page_faulted`] tells.
    ///
    /// The process must have a memory space.
    pub fn page_fault(
        &mut self,
        mem: &mut PhysMemory,
        cpu: &mut Cpu,
        accessed: VirtAddr,
        code: u32,
        ring: u32,
    ) -> (r: InterruptResult)
        requires
            old(self).wf(),
            old(mem).wf(),
            old(cpu).wf(),
            old(mem).refs.has_room(),
            old(self).mem_space matches Some(m) && m.counted_by(&old(mem).refs),
        ensures
            final(self).wf(),
            final(mem).wf(),
            old(mem).sound() && old(self).mem_space->0.static_held(
                &old(mem).frames,
                crate::memory::page_of(accessed.0),
            ) ==> final(mem).sound(),
            final(cpu).wf(),
            final(self).pid == old(self).pid,
            final(self).mem_space matches Some(m) && m.counted_by(&final(mem).refs),
            exists|handled: AllocResult<Resolution>|
                {
                    &&& #[trigger] MemSpace::fault_handled(
                        &old(self).mem_space->0,
                        &final(self).mem_space->0,
                        old(mem),
                        final(mem),
                        old(cpu),
                        final(cpu),
                        accessed,
                        code,
                        handled,
                    )
                    &&& Self::page_faulted(old(self), final(self), handled, ring, r)
                },
    {
        let mut mem_space = match self.mem_space.take() {
            Some(mem_space) => mem_space,
            None => {
                return InterruptResult::new(true, InterruptResultAction::Panic);
            },
        };
        let handled = mem_space.handle_page_fault(mem, cpu, accessed, code);
        self.mem_space = Some(mem_space);
        let ghost mid = *self;
        let r = match handled {
            Err(_) => InterruptResult::new(true, InterruptResultAction::Panic),
            Ok(Resolution::Resolved) => self.after(),
            Ok(Resolution::Unresolved) => {
                if ring < 3 || self.pid == INIT_PID {
                    InterruptResult::new(true, InterruptResultAction::Panic)
                } else {
                    self.fault(SIGSEGV);
                    self.after()
                }
            },
        };
        proof {
            assert(mid == (Process { mem_space: mid.mem_space, ..*old(self) }));
            assert(self.mem_space == mid.mem_space);
            assert(MemSpace::fault_handled(
                &old(self).mem_space->0,
                &self.mem_space->0,
                old(mem),
                mem,
                old(cpu),
                cpu,
                accessed,
                code,
                handled,
            ));
            assert(Self::page_faulted(old(self), self, handled, ring, r));
        }
        r
    }

    /// Returns what the kernel does once the process has been interrupted:
    /// the process resumes if it runs, and the kernel waits for another one
    /// if not.
    fn after(&self) -> (r: InterruptResult)
        ensures
            r == outcome(self.state),
    {
        if self.state == State::Running {
            InterruptResult::new(false, InterruptResultAction::Resume)
        } else {
            InterruptResult::new(true, InterruptResultAction::Loop)
        }
    }
}

/// Tells whether `after` is the table `before` in which the process of index
/// `i` alone may have changed.
pub open spec fn same_but(before: &Scheduler, after: &Scheduler, i: int) -> bool {
    &&& after.current == before.current
    &&& after.processes@.len() == before.processes@.len()
    &&& forall|k: int|
        0 <= k < before.processes@.len() && k != i ==> #[trigger] after.processes@[k]
            == before.processes@[k]
}

/// The index in the table `scheduler` of the process that runs, if one does.
pub open spec fn running(scheduler: &Scheduler) -> Option<int> {
    match scheduler.current {
        Some(pid) => index_of(scheduler.processes@, pid),
        None => None,
    }
}

/// Handles the exception with number `id`, raised in ring `ring` with
/// registers `regs`.
///
/// The kernel panics, and nothing changes, if the exception comes from the
/// kernel itself, if no process runs, or if the process that runs is the
/// init process. Otherwise the process that runs becomes what
/// [`Process::excepted`] tells; it resumes if it still runs, and the kernel
/// waits for another process if not.
pub fn on_exception(scheduler: &mut Scheduler, ram: &Ram, id: u32, regs: &Regs, ring: u32) -> (r:
    InterruptResult)
    requires
        old(scheduler).wf(),
        ram.wf(),
    ensures
        final(scheduler).wf(),
        match running(old(scheduler)) {
            Some(i) if ring >= 3 && old(scheduler).processes@[i].pid != INIT_PID => {
                &&& same_but(old(scheduler), final(scheduler), i)
                &&& Process::excepted(
                    &old(scheduler).processes@[i],
                    &final(scheduler).processes@[i],
                    id,
                    regs.eax,
                    old(scheduler).processes@[i].opcode_at(ram, regs.eip),
                )
                &&& r == outcome(final(scheduler).processes@[i].state)
            },
            _ => r == panic() && *final(scheduler) == *old(scheduler),
        },
{
    if ring < 3 {
        return InterruptResult::new(true, InterruptResultAction::Panic);
    }
    let i = match scheduler.current {
        Some(pid) => match scheduler.find(pid) {
            Some(i) => i,
            None => {
                return InterruptResult::new(true, InterruptResultAction::Panic);
            },
        },
        None => {
            return InterruptResult::new(true, InterruptResultAction::Panic);
        },
    };
    if scheduler.processes[i].pid == INIT_PID {
        return InterruptResult::new(true, InterruptResultAction::Panic);
    }
    scheduler.processes[i].except(ram, id, regs);
    proof {
        assert forall|k: int| 0 <= k < scheduler.processes@.len() implies (
        #[trigger] scheduler.processes@[k]).wf() && scheduler.processes@[k].pid == old(scheduler).processes@[k].pid by {
            assert(old(scheduler).processes@[k].wf());
        }
    }
    if scheduler.processes[i].state == State::Running {
        InterruptResult::new(false, InterruptResultAction::Resume)
    } else {
        InterruptResult::new(true, InterruptResultAction::Loop)
    }
}

/// Handles the page fault raised in ring `ring` at address `accessed`, with
/// code `code`.
///
/// The kernel panics, and nothing changes, if no process runs. Otherwise the
/// process that runs handles the fault as [`Process::page_fault`] does.
///
/// Each process that has a memory space must have its frames counted.
pub fn on_page_fault(
    scheduler: &mut Scheduler,
    mem: &mut PhysMemory,
    cpu: &mut Cpu,
    accessed: VirtAddr,
    code: u32,
    ring: u32,
) -> (r: InterruptResult)
    requires
        old(scheduler).wf(),
        old(mem).wf(),
        old(cpu).wf(),
        old(mem).refs.has_room(),
        running(old(scheduler)) matches Some(i) ==> (old(scheduler).processes@[i].mem_space matches Some(
            m,
        ) && m.counted_by(&old(mem).refs)),
    ensures
        final(scheduler).wf(),
        final(mem).wf(),
        old(mem).sound() && (running(old(scheduler)) matches Some(i) ==> old(scheduler).processes@[i].mem_space->0.static_held(&old(mem).frames, crate::memory::page_of(accessed.0)))
            ==> final(mem).sound(),
        final(cpu).wf(),
        match running(old(scheduler)) {
            Some(i) => {
                &&& same_but(old(scheduler), final(scheduler), i)
                &&& final(scheduler).processes@[i].mem_space matches Some(m) && m.counted_by(
                    &final(mem).refs,
                )
                &&& exists|handled: AllocResult<Resolution>|
                    {
                        &&& #[trigger] MemSpace::fault_handled(
                            &old(scheduler).processes@[i].mem_space->0,
                            &final(scheduler).processes@[i].mem_space->0,
                            old(mem),
                            final(mem),
                            old(cpu),
                            final(cpu),
                            accessed,
                            code,
                            handled,
                        )
                        &&& Process::page_faulted(
                            &old(scheduler).processes@[i],
                            &final(scheduler).processes@[i],
                            handled,
                            ring,
                            r,
                        )
                    }
            },
            None => {
                &&& r == panic()
                &&& *final(scheduler) == *old(scheduler)
                &&& *final(mem) == *old(mem)
                &&& *final(cpu) == *old(cpu)
            },
        },
{
    let i = match scheduler.current {
        Some(pid) => match scheduler.find(pid) {
            Some(i) => i,
            None => {
                return InterruptResult::new(true, InterruptResultAction::Panic);
            },
        },
        None => {
            return InterruptResult::new(true, InterruptResultAction::Panic);
        },
    };
    let r = scheduler.processes[i].page_fault(mem, cpu, accessed, code, ring);
    proof {
        assert forall|k: int| 0 <= k < scheduler.processes@.len() implies (
        #[trigger] scheduler.processes@[k]).wf() && scheduler.processes@[k].pid == old(scheduler).processes@[k].pid by {
            assert(old(scheduler).processes@[k].wf());
        }
    }
    r
}

/// Returns the functions that handle the exceptions of processes, each with
/// the number of its exception, in the order in which they are registered.
pub fn callbacks() -> (list: Vec<(u32, Callback)>)
    ensures
        list@ == seq![
            (0x00u32, Callback::Exception),
            (0x03u32, Callback::Exception),
            (0x06u32, Callback::Exception),
            (GENERAL_PROTECTION_FAULT, Callback::Exception),
            (PAGE_FAULT, Callback::PageFault),
            (0x10u32, Callback::Exception),
            (0x11u32, Callback::Exception),
            (0x13u32, Callback::Exception),
        ],
        forall|k: int|
            0 <= k < list@.len() ==> ((#[trigger] list@[k]).1 == Callback::Exception
                <==> exception_signal(list@[k].0).is_some()),
{
    let mut list: Vec<(u32, Callback)> = Vec::new();
    list.push((0x00, Callback::Exception));
    list.push((0x03, Callback::Exception));
    list.push((0x06, Callback::Exception));
    list.push((GENERAL_PROTECTION_FAULT, Callback::Exception));
    list.push((PAGE_FAULT, Callback::PageFault));
    list.push((0x10, Callback::Exception));
    list.push((0x11, Callback::Exception));
    list.push((0x13, Callback::Exception));
    assert(list@ =~= seq![
        (0x00u32, Callback::Exception),
        (0x03u32, Callback::Exception),
        (0x06u32, Callback::Exception),
        (GENERAL_PROTECTION_FAULT, Callback::Exception),
        (PAGE_FAULT, Callback::PageFault),
        (0x10u32, Callback::Exception),
        (0x11u32, Callback::Exception),
        (0x13u32, Callback::Exception),
    ]);
    list
}

} // verus!
