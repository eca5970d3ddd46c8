use maestro::file::fs::procfs::Exe;
use maestro::file::FileContent;
use maestro::limits::PAGE_SIZE;
use maestro::memory::buddy::Zone;
use maestro::process::scheduler::Scheduler;
use maestro::process::{KERNEL_STACK_SIZE, USER_STACK_SIZE};
use maestro::cpu::Cpu;
use maestro::errno::Errno;
use maestro::file::fd::NewFDConstraint;
use maestro::file::open_file::{OpenFile, OpenFiles, O_RDWR};
use maestro::file::FileLocation;
use maestro::memory::PhysMemory;
use maestro::process::mem_space::mapping::MapResidence;
use maestro::process::mem_space::{MapConstraint, MemSpace, MAPPING_FLAG_USER, MAPPING_FLAG_WRITE};
use maestro::process::pid::{PIDManager, INIT_PID, MAX_PID};
use maestro::process::signal::{
    can_catch, get_default_action, SignalAction, SIGCHLD, SIGCONT, SIGINT, SIGKILL, SIGSTOP,
    SIGTERM, SIGTSTP,
};
use maestro::process::{Process, Regs, State};

fn open_file() -> OpenFile {
    OpenFile::new(FileLocation { mountpoint_id: 0, inode: 1 }, O_RDWR)
}

#[test]
fn new_process() {
    let proc = Process::new(7);
    assert_eq!(proc.get_pid(), 7);
    assert_eq!(proc.get_pgid(), 7);
    assert_eq!(proc.get_tid(), 7);
    assert!(!proc.is_init());
    assert!(Process::new(INIT_PID).is_init());
    assert_eq!(proc.get_parent(), None);
    assert_eq!(proc.get_parent_pid(), 7);
    assert_eq!(proc.get_uid(), 0);
    assert_eq!(proc.get_gid(), 0);
    assert_eq!(proc.get_euid(), 0);
    assert_eq!(proc.get_egid(), 0);
    assert_eq!(proc.get_state(), State::Running);
    assert_eq!(proc.get_cwd(), "/");
    assert!(proc.get_mem_space().is_none());
    assert!(proc.get_children().is_empty());
    assert!(!proc.is_waitable());
    assert!(!proc.has_signal_pending());
    assert!(!proc.is_handling_signal());
    assert_eq!(proc.get_exit_status(), None);
    assert!(proc.get_fd(0).is_none());
}

#[test]
fn oom_score() {
    let mut proc = Process::new(2);
    assert_eq!(proc.get_oom_score(), 65436);
    proc.set_uid(1000);
    assert_eq!(proc.get_oom_score(), 0);
}

#[test]
fn children_stay_sorted() {
    let mut proc = Process::new(1);
    proc.add_child(5).unwrap();
    proc.add_child(3).unwrap();
    proc.add_child(9).unwrap();
    proc.add_child(4).unwrap();
    assert_eq!(proc.get_children(), &vec![3, 4, 5, 9]);
    assert!(proc.has_child(4));
    assert!(!proc.has_child(6));
    proc.remove_child(4);
    proc.remove_child(6);
    assert_eq!(proc.get_children(), &vec![3, 5, 9]);
}

#[test]
fn groups() {
    let mut proc = Process::new(4);
    assert!(!proc.is_in_group());
    proc.set_pgid(2);
    assert_eq!(proc.get_pgid(), 2);
    assert!(proc.is_in_group());
    proc.set_pgid(0);
    assert_eq!(proc.get_pgid(), 4);
    assert!(!proc.is_in_group());
}

#[test]
fn exit_makes_a_zombie() {
    let mut proc = Process::new(4);
    proc.exit(0x1ff);
    assert_eq!(proc.get_state(), State::Zombie);
    assert_eq!(proc.get_exit_status(), Some(0xff));
}

#[test]
fn signals() {
    let mut proc = Process::new(4);
    proc.kill(SIGINT, false);
    assert!(proc.has_signal_pending());
    assert_eq!(proc.get_state(), State::Running);
    proc.kill(SIGSTOP, false);
    assert_eq!(proc.get_state(), State::Stopped);
    proc.kill(SIGCONT, false);
    assert_eq!(proc.get_state(), State::Running);
    proc.kill(SIGKILL, false);
    assert_eq!(proc.get_state(), State::Zombie);
    assert_eq!(proc.get_termsig(), SIGKILL);

    let mut proc = Process::new(5);
    proc.execute_action(SIGCHLD);
    assert_eq!(proc.get_state(), State::Running);
    proc.execute_action(SIGTSTP);
    assert_eq!(proc.get_state(), State::Stopped);
    proc.execute_action(SIGTERM);
    assert_eq!(proc.get_state(), State::Zombie);
    assert_eq!(proc.get_termsig(), SIGTERM);
}

#[test]
fn signal_handling_saves_the_registers() {
    let mut proc = Process::new(4);
    let regs = Regs { eax: 1, ebx: 2, ecx: 3, edx: 4, esp: 5, eip: 6 };
    proc.set_regs(&regs);
    proc.kill(SIGINT, false);
    proc.signal_save(SIGINT);
    assert!(proc.is_handling_signal());
    proc.set_regs(&Regs { eax: 9, ebx: 9, ecx: 9, edx: 9, esp: 9, eip: 9 });
    proc.signal_restore();
    assert!(!proc.is_handling_signal());
    assert!(!proc.has_signal_pending());
    assert_eq!(proc.get_regs(), &regs);
    proc.signal_restore();
    assert_eq!(proc.get_regs(), &regs);
}

#[test]
fn wakeup_runs_a_sleeper() {
    let mut proc = Process::new(4);
    proc.set_state(State::Sleeping);
    proc.wakeup();
    assert_eq!(proc.get_state(), State::Running);
    assert!(proc.has_signal_pending());
}

#[test]
fn default_actions() {
    assert_eq!(get_default_action(SIGCHLD), SignalAction::Ignore);
    assert_eq!(get_default_action(SIGCONT), SignalAction::Continue);
    assert_eq!(get_default_action(SIGSTOP), SignalAction::Stop);
    assert_eq!(get_default_action(SIGTSTP), SignalAction::Stop);
    assert_eq!(get_default_action(SIGKILL), SignalAction::Terminate);
    assert_eq!(get_default_action(SIGINT), SignalAction::Terminate);
    assert!(can_catch(SIGINT));
    assert!(!can_catch(SIGKILL));
    assert!(!can_catch(SIGSTOP));
}

#[test]
fn pids_are_the_lowest_free() {
    let mut pids = PIDManager::new();
    assert_eq!(pids.get_unique_pid(), Ok(1));
    assert_eq!(pids.get_unique_pid(), Ok(2));
    assert_eq!(pids.get_unique_pid(), Ok(3));
    pids.release_pid(2);
    assert_eq!(pids.get_unique_pid(), Ok(2));
    assert_eq!(pids.get_unique_pid(), Ok(4));
}

#[test]
fn pids_run_out() {
    let mut pids = PIDManager::new();
    for expected in 1..=MAX_PID {
        assert_eq!(pids.get_unique_pid(), Ok(expected));
    }
    assert_eq!(pids.get_unique_pid(), Err(Errno::EAGAIN));
    pids.release_pid(77);
    assert_eq!(pids.get_unique_pid(), Ok(77));
}

#[test]
fn descriptors_of_the_process() {
    let mut files = OpenFiles::new(16);
    let mut proc = Process::new(4);
    let (id, fd) = proc.create_fd(&mut files, 0, open_file()).unwrap();
    assert_eq!(id, 0);
    let (dup, copy, _) = proc
        .duplicate_fd(&mut files, 0, NewFDConstraint::Min(3), false)
        .unwrap();
    assert_eq!(dup, 3);
    assert_eq!(copy.get_open_file(), fd.get_open_file());
    assert_eq!(proc.get_fd(3).map(|f| f.get_open_file()), Some(fd.get_open_file()));
    assert_eq!(proc.close_fd(&mut files, 0), Ok(None));
    assert_eq!(proc.close_fd(&mut files, 0), Err(Errno::EBADF));
    assert_eq!(proc.close_fd(&mut files, 3), Ok(Some(open_file())));
}

#[test]
fn fork_copies_the_process() {
    let mut mem = PhysMemory::new(0x100, 64, 256);
    let mut cpu = Cpu::new();
    let mut files = OpenFiles::new(16);
    let mut pids = PIDManager::new();
    let pid = pids.get_unique_pid().unwrap();
    let mut parent = Process::new(pid);
    let mut space = MemSpace::new(&mut mem, 8).unwrap();
    let v = space
        .map_lazy(
            &mut mem,
            &mut cpu,
            MapConstraint::Any,
            1,
            MAPPING_FLAG_WRITE | MAPPING_FLAG_USER,
            MapResidence::Normal,
        )
        .unwrap();
    space.write_user(&mut mem, &mut cpu, v, &vec![0xAB]).unwrap();
    parent.set_mem_space(Some(space));
    parent.set_regs(&Regs { eax: 57, ebx: 2, ecx: 3, edx: 4, esp: 5, eip: 6 });
    parent.set_cwd("/srv".to_owned());
    let (_, fd) = parent.create_fd(&mut files, 0, open_file()).unwrap();

    let child = parent.fork(&mut pids, &mut mem, &mut cpu, &mut files).unwrap();
    assert_eq!(child.get_pid(), 2);
    assert_eq!(child.get_parent(), Some(pid));
    assert_eq!(child.get_parent_pid(), pid);
    assert_eq!(parent.get_children(), &vec![2]);
    assert_eq!(child.get_regs(), &Regs { eax: 0, ebx: 2, ecx: 3, edx: 4, esp: 5, eip: 6 });
    assert_eq!(child.get_cwd(), "/srv");
    assert_eq!(child.get_state(), State::Running);
    assert_eq!(child.get_fd(0).map(|f| f.get_open_file()), Some(fd.get_open_file()));
    assert_eq!(files.get_total(), 2);
    let theirs = child.get_mem_space().unwrap();
    let ours = parent.get_mem_space().unwrap();
    assert_eq!(theirs.translate(v), ours.translate(v));
    assert_eq!(theirs.read_byte(&mem.ram, v), 0xAB);
    let frame = ours.translate(v).unwrap().0 / 0x1000;
    assert_eq!(mem.refs.get(frame), 2);
}

#[test]
fn fork_fails_without_changes() {
    let mut mem = PhysMemory::new(0x100, 64, 256);
    let mut cpu = Cpu::new();
    let mut files = OpenFiles::new(1);
    let mut pids = PIDManager::new();
    let pid = pids.get_unique_pid().unwrap();
    let mut parent = Process::new(pid);
    let space = MemSpace::new(&mut mem, 8).unwrap();
    parent.set_mem_space(Some(space));
    parent.create_fd(&mut files, 0, open_file()).unwrap();
    let r = parent.fork(&mut pids, &mut mem, &mut cpu, &mut files);
    assert_eq!(r.err(), Some(Errno::ENFILE));
    assert!(parent.get_children().is_empty());
    assert_eq!(files.get_total(), 1);
    assert_eq!(pids.get_unique_pid(), Ok(2));
}

#[test]
fn process_without_a_program() {
    let mut mem = PhysMemory::new(0x100, 16, 128);
    let mut cpu = Cpu::new();
    let mut process = Process::new(2);
    assert_eq!(process.init_dummy(&mut mem, &mut cpu, 0x1234, 8), Ok(()));
    let kernel_stack = process.kernel_stack.unwrap();
    let user_stack = process.user_stack.unwrap();
    assert_eq!(
        process.get_regs(),
        &Regs { eax: 0, ebx: 0, ecx: 0, edx: 0, esp: user_stack.0 as u32, eip: 0x1234 }
    );
    let space = process.get_mem_space().unwrap();
    let kernel_base = kernel_stack.0 - KERNEL_STACK_SIZE * PAGE_SIZE;
    let user_base = user_stack.0 - USER_STACK_SIZE * PAGE_SIZE;
    assert_eq!(user_base, kernel_stack.0);
    assert!(space.can_access(maestro::memory::VirtAddr(kernel_base), KERNEL_STACK_SIZE * PAGE_SIZE, false, true));
    assert!(!space.can_access(maestro::memory::VirtAddr(kernel_base), 1, true, false));
    assert!(space.can_access(maestro::memory::VirtAddr(user_base), USER_STACK_SIZE * PAGE_SIZE, true, true));
    assert!(!space.can_access(user_stack, 1, true, false));
    assert!(space.translate(maestro::memory::VirtAddr(kernel_base)).is_some());
    assert!(space.translate(maestro::memory::VirtAddr(kernel_stack.0 - 1)).is_some());
    assert!(space.translate(maestro::memory::VirtAddr(user_base)).is_none());
    assert_eq!(mem.frames.free_frames(Zone::User), 128 - KERNEL_STACK_SIZE);
    assert_eq!(mem.frames.free_frames(Zone::Kernel), 15);

    let mut small = PhysMemory::new(0x100, 16, 8);
    let mut other = Process::new(3);
    assert_eq!(other.init_dummy(&mut small, &mut cpu, 0, 8), Err(Errno::ENOMEM));
    assert!(other.get_mem_space().is_none());
    assert_eq!(other.kernel_stack, None);
    assert_eq!(small.frames.free_frames(Zone::User), 8);
    assert_eq!(small.frames.free_frames(Zone::Kernel), 16);
    for frame in 0x100..0x118 {
        assert_eq!(small.refs.get(frame), 0);
    }
}

#[test]
fn exe_links_to_the_program() {
    let mut scheduler = Scheduler::new();
    let mut process = Process::new(4);
    process.exec_path = "/bin/sh".to_owned();
    scheduler.add_process(process).unwrap();
    let target = |pid| match (Exe { pid }).get_content(&scheduler) {
        Ok(FileContent::Link(path)) => path,
        _ => panic!("the node is a link"),
    };
    assert_eq!(target(4), "/bin/sh");
    assert_eq!(target(5), "");
}
