use maestro::cpu::Cpu;
use maestro::errno::Errno;
use maestro::memory::ram::Ram;
use maestro::memory::{PhysMemory, VirtAddr};
use maestro::process::event::{
    callbacks, get_exception_signal, on_exception, on_page_fault, Callback, InterruptResult,
    InterruptResultAction, GENERAL_PROTECTION_FAULT, HLT_INSTRUCTION, PAGE_FAULT,
};
use maestro::process::mem_space::mapping::MapResidence;
use maestro::process::mem_space::{MapConstraint, MemSpace, MAPPING_FLAG_USER, MAPPING_FLAG_WRITE};
use maestro::process::pid::PIDManager;
use maestro::process::scheduler::Scheduler;
use maestro::process::signal::{SIGBUS, SIGCHLD, SIGFPE, SIGILL, SIGINT, SIGSEGV, SIGTRAP};
use maestro::process::{init, Process, Regs, State, Tss, KERNEL_DS, USER_DS};
use maestro::memory::vmem::x86::{PAGE_FAULT_USER, PAGE_FAULT_WRITE};

const RESUME: InterruptResult =
    InterruptResult { skip_next: false, action: InterruptResultAction::Resume };
const LOOP: InterruptResult = InterruptResult { skip_next: true, action: InterruptResultAction::Loop };
const PANIC: InterruptResult =
    InterruptResult { skip_next: true, action: InterruptResultAction::Panic };

fn regs(eax: u32, eip: u32) -> Regs {
    Regs { eax, ebx: 0, ecx: 0, edx: 0, esp: 0, eip }
}

fn family() -> Scheduler {
    let mut scheduler = Scheduler::new();
    let mut init = Process::new(1);
    init.add_child(2).unwrap();
    let mut child = Process::new(2);
    child.parent = Some(1);
    child.add_child(3).unwrap();
    let mut grandchild = Process::new(3);
    grandchild.parent = Some(2);
    assert_eq!(scheduler.add_process(init), Ok(()));
    assert_eq!(scheduler.add_process(child), Ok(()));
    assert_eq!(scheduler.add_process(grandchild), Ok(()));
    scheduler
}

#[test]
fn processes_by_id() {
    let mut scheduler = family();
    assert_eq!(scheduler.add_process(Process::new(2)).err(), Some(Errno::EEXIST));
    assert_eq!(scheduler.find(3), Some(2));
    assert_eq!(scheduler.find(4), None);
    assert_eq!(scheduler.get_by_pid(2).map(|p| p.get_parent()), Some(Some(1)));
    assert!(Process::get_by_pid(&scheduler, 9).is_none());
    assert!(scheduler.get_current_process().is_none());
    assert!(Process::get_current(&scheduler).is_none());
    scheduler.set_current(Some(3));
    assert_eq!(Process::get_current(&scheduler).map(|p| p.get_pid()), Some(3));
    scheduler.set_current(Some(9));
    assert!(scheduler.get_current_process().is_none());
}

#[test]
fn groups_follow_their_members() {
    let mut scheduler = family();
    assert_eq!(scheduler.set_pgid(3, 2), Ok(()));
    assert_eq!(scheduler.get_by_pid(3).unwrap().get_pgid(), 2);
    assert!(scheduler.get_by_pid(3).unwrap().is_in_group());
    assert_eq!(scheduler.get_by_pid(2).unwrap().get_group_processes(), &vec![3]);
    assert_eq!(scheduler.set_pgid(1, 2), Ok(()));
    assert_eq!(scheduler.get_by_pid(2).unwrap().get_group_processes(), &vec![1, 3]);
    assert_eq!(scheduler.set_pgid(3, 2), Ok(()));
    assert_eq!(scheduler.get_by_pid(2).unwrap().get_group_processes(), &vec![1, 3]);
    assert_eq!(scheduler.set_pgid(3, 1), Ok(()));
    assert_eq!(scheduler.get_by_pid(2).unwrap().get_group_processes(), &vec![1]);
    assert_eq!(scheduler.get_by_pid(1).unwrap().get_group_processes(), &vec![3]);
    assert_eq!(scheduler.set_pgid(3, 3), Ok(()));
    assert!(scheduler.get_by_pid(1).unwrap().get_group_processes().is_empty());
    assert!(!scheduler.get_by_pid(3).unwrap().is_in_group());
    assert_eq!(scheduler.set_pgid(3, 7), Err(Errno::ESRCH));
    assert_eq!(scheduler.get_by_pid(3).unwrap().get_pgid(), 7);
    assert_eq!(scheduler.set_pgid(3, 0), Err(Errno::ESRCH));
    assert_eq!(scheduler.get_by_pid(3).unwrap().get_pgid(), 3);
    assert_eq!(scheduler.set_pgid(8, 1), Err(Errno::ESRCH));
}

#[test]
fn exit_wakes_the_parent() {
    let mut scheduler = family();
    scheduler.processes[1].set_state(State::Sleeping);
    assert!(scheduler.exit(3, 0x203));
    let child = scheduler.get_by_pid(3).unwrap();
    assert_eq!(child.get_state(), State::Zombie);
    assert_eq!(child.get_exit_status(), Some(3));
    assert!(child.is_waitable());
    let parent = scheduler.get_by_pid(2).unwrap();
    assert_eq!(parent.get_state(), State::Running);
    assert!(parent.pending[SIGCHLD as usize]);
    assert!(!scheduler.get_by_pid(1).unwrap().has_signal_pending());
    assert!(!scheduler.exit(9, 0));
}

#[test]
fn removal_frees_the_id() {
    let mut scheduler = family();
    let mut pids = PIDManager::new();
    for expected in 1..=3 {
        assert_eq!(pids.get_unique_pid(), Ok(expected));
    }
    scheduler.set_current(Some(3));
    let gone = scheduler.remove_process(&mut pids, 3).unwrap();
    assert_eq!(gone.get_pid(), 3);
    assert!(scheduler.get_by_pid(3).is_none());
    assert!(scheduler.get_by_pid(2).unwrap().get_children().is_empty());
    assert_eq!(scheduler.get_by_pid(1).unwrap().get_children(), &vec![2]);
    assert_eq!(scheduler.current, None);
    assert_eq!(pids.get_unique_pid(), Ok(3));
    assert!(scheduler.remove_process(&mut pids, 3).is_none());
    assert_eq!(pids.get_unique_pid(), Ok(4));
}

#[test]
fn exceptions_send_their_signals() {
    assert_eq!(get_exception_signal(0x00), Some(SIGFPE));
    assert_eq!(get_exception_signal(0x10), Some(SIGFPE));
    assert_eq!(get_exception_signal(0x13), Some(SIGFPE));
    assert_eq!(get_exception_signal(0x03), Some(SIGTRAP));
    assert_eq!(get_exception_signal(0x06), Some(SIGILL));
    assert_eq!(get_exception_signal(0x0d), Some(SIGSEGV));
    assert_eq!(get_exception_signal(0x11), Some(SIGBUS));
    assert_eq!(get_exception_signal(0x0e), None);
    assert_eq!(get_exception_signal(0x20), None);
    for (id, sig) in [(0x00, SIGFPE), (0x03, SIGTRAP), (0x06, SIGILL), (0x0d, SIGSEGV), (0x11, SIGBUS)] {
        let mut scheduler = family();
        let ram = Ram::new();
        scheduler.set_current(Some(2));
        assert_eq!(on_exception(&mut scheduler, &ram, id, &regs(0, 0), 3), LOOP);
        let process = scheduler.get_by_pid(2).unwrap();
        assert_eq!(process.get_state(), State::Zombie);
        assert_eq!(process.get_termsig(), sig);
        assert!(!process.has_signal_pending());
        assert_eq!(scheduler.get_by_pid(3).unwrap().get_state(), State::Running);
    }
}

#[test]
fn an_earlier_signal_goes_first() {
    let mut scheduler = family();
    let ram = Ram::new();
    scheduler.set_current(Some(2));
    scheduler.processes[1].kill(SIGINT, false);
    assert_eq!(on_exception(&mut scheduler, &ram, 0x00, &regs(0, 0), 3), LOOP);
    let process = scheduler.get_by_pid(2).unwrap();
    assert_eq!(process.get_termsig(), SIGINT);
    assert!(process.pending[SIGFPE as usize]);
    assert!(!process.pending[SIGINT as usize]);
}

#[test]
fn exceptions_that_the_kernel_cannot_recover_from() {
    let ram = Ram::new();
    let mut scheduler = family();
    assert_eq!(on_exception(&mut scheduler, &ram, 0x00, &regs(0, 0), 3), PANIC);
    scheduler.set_current(Some(2));
    assert_eq!(on_exception(&mut scheduler, &ram, 0x00, &regs(0, 0), 0), PANIC);
    assert_eq!(scheduler.get_by_pid(2).unwrap().get_state(), State::Running);
    scheduler.set_current(Some(1));
    assert_eq!(on_exception(&mut scheduler, &ram, 0x00, &regs(0, 0), 3), PANIC);
    assert_eq!(scheduler.get_by_pid(1).unwrap().get_state(), State::Running);
    scheduler.set_current(Some(2));
    assert_eq!(on_exception(&mut scheduler, &ram, 0x20, &regs(0, 0), 3), RESUME);
    assert_eq!(scheduler.get_by_pid(2).unwrap().get_state(), State::Running);
}

#[test]
fn halting_exits_the_process() {
    let mut mem = PhysMemory::new(0x100, 16, 16);
    let mut cpu = Cpu::new();
    let mut space = MemSpace::new(&mut mem, 8).unwrap();
    let code = space
        .map_lazy(
            &mut mem,
            &mut cpu,
            MapConstraint::Any,
            1,
            MAPPING_FLAG_WRITE | MAPPING_FLAG_USER,
            MapResidence::Normal,
        )
        .unwrap();
    space
        .write_user(&mut mem, &mut cpu, VirtAddr(code.0 + 4), &vec![HLT_INSTRUCTION])
        .unwrap();
    let mut scheduler = family();
    scheduler.processes[2].set_mem_space(Some(space));
    scheduler.set_current(Some(3));
    let r = on_exception(
        &mut scheduler,
        &mem.ram,
        GENERAL_PROTECTION_FAULT,
        &regs(0x107, code.0 as u32 + 4),
        3,
    );
    assert_eq!(r, LOOP);
    let process = scheduler.get_by_pid(3).unwrap();
    assert_eq!(process.get_state(), State::Zombie);
    assert_eq!(process.get_exit_status(), Some(7));
    assert_eq!(process.get_termsig(), 0);

    let mut scheduler = family();
    scheduler.set_current(Some(3));
    let r = on_exception(&mut scheduler, &mem.ram, GENERAL_PROTECTION_FAULT, &regs(7, 0), 3);
    assert_eq!(r, LOOP);
    assert_eq!(scheduler.get_by_pid(3).unwrap().get_termsig(), SIGSEGV);
}

#[test]
fn page_faults_of_the_running_process() {
    let mut mem = PhysMemory::new(0x100, 16, 16);
    let mut cpu = Cpu::new();
    let mut space = MemSpace::new(&mut mem, 8).unwrap();
    let v = space
        .map_lazy(
            &mut mem,
            &mut cpu,
            MapConstraint::Any,
            1,
            MAPPING_FLAG_WRITE | MAPPING_FLAG_USER,
            MapResidence::Normal,
        )
        .unwrap();
    let mut scheduler = family();
    scheduler.processes[2].set_mem_space(Some(space));
    let fault = PAGE_FAULT_USER | PAGE_FAULT_WRITE;
    assert_eq!(on_page_fault(&mut scheduler, &mut mem, &mut cpu, v, fault, 3), PANIC);
    scheduler.set_current(Some(3));
    assert_eq!(on_page_fault(&mut scheduler, &mut mem, &mut cpu, v, fault, 3), RESUME);
    let process = scheduler.get_by_pid(3).unwrap();
    assert!(process.get_mem_space().unwrap().translate(v).is_some());
    assert_eq!(process.get_state(), State::Running);
    let r = on_page_fault(&mut scheduler, &mut mem, &mut cpu, VirtAddr(0x1000), fault, 0);
    assert_eq!(r, PANIC);
    assert_eq!(scheduler.get_by_pid(3).unwrap().get_state(), State::Running);
    let r = on_page_fault(&mut scheduler, &mut mem, &mut cpu, VirtAddr(0x1000), fault, 3);
    assert_eq!(r, LOOP);
    let process = scheduler.get_by_pid(3).unwrap();
    assert_eq!(process.get_state(), State::Zombie);
    assert_eq!(process.get_termsig(), SIGSEGV);
}

#[test]
fn init_registers_the_handlers() {
    let (mut pids, scheduler, handlers) = init().unwrap();
    assert_eq!(pids.get_unique_pid(), Ok(1));
    assert!(scheduler.processes.is_empty());
    assert_eq!(scheduler.current, None);
    assert_eq!(handlers, callbacks());
    let ids: Vec<u32> = handlers.iter().map(|h| h.0).collect();
    assert_eq!(ids, vec![0x00, 0x03, 0x06, 0x0d, 0x0e, 0x10, 0x11, 0x13]);
    for (id, callback) in handlers {
        assert_eq!(callback == Callback::PageFault, id == PAGE_FAULT);
    }
}

#[test]
fn switching_to_a_process() {
    let mut mem = PhysMemory::new(0x100, 16, 16);
    let mut cpu = Cpu::new();
    let space = MemSpace::new(&mut mem, 8).unwrap();
    let root = space.get_vmem().get_root();
    let mut process = Process::new(2);
    process.set_mem_space(Some(space));
    process.kernel_stack = Some(VirtAddr(0x4004_0000));
    process.kill(SIGCHLD, false);
    let tss = process.prepare_switch(&mut cpu);
    assert_eq!(tss, Tss { ss0: KERNEL_DS, ss: USER_DS, esp0: 0x4004_0000 });
    assert_eq!(cpu.get_page_dir(), Some(root));
    assert_eq!(process.quantum_count, 1);
    assert!(!process.has_signal_pending());
    assert_eq!(process.get_state(), State::Running);
    process.kill(SIGINT, false);
    process.signal_next();
    assert_eq!(process.get_state(), State::Zombie);
    assert_eq!(process.get_termsig(), SIGINT);
    process.signal_next();
    assert_eq!(process.get_termsig(), SIGINT);
}
