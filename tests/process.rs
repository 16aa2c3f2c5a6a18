use ysos_core::context::ProcessContext;
use ysos_core::manager::{AppEntry, ProcessManager};
use ysos_core::data::ProcessData;
use ysos_core::memory::{segment_pages, AddressSpace, Region, STACK_INIT_BOT, STACK_MAX_SIZE};
use ysos_core::pid::{PidAllocator, ProcessId};
use ysos_core::process::{ExecImage, Process, ProgramStatus};
use ysos_core::resource::{Resource, StdIO};
use ysos_core::sem::{KernelSemaphore, SemaphoreResult, SemaphoreSet};
use ysos_core::sync::Semaphore;
use ysos_core::syscall::{
    exit_process, list_process, page_fault_trap, spawn_process, sys_close, sys_fork, sys_get_pid, sys_read,
    sys_sem, sys_wait_pid, sys_write, Syscall, SyscallArgs, FAULT_EXIT_CODE,
};

fn app(name: &str, entry: u64) -> AppEntry {
    AppEntry {
        name: name.to_string(),
        image: ExecImage { entry, segments: vec![Region { start: 0x40_0000, pages: 2 }] },
    }
}

fn manager() -> ProcessManager {
    let mut m = ProcessManager::new();
    m.set_app_list(vec![app("Hello", 0x40_1000), app("shell", 0x40_2000)]);
    m
}

fn ctx() -> ProcessContext {
    ProcessContext { rax: 0, rbp: 0, rsp: 0, rip: 0, rflags: 0 }
}

fn args(syscall: Syscall, arg0: usize, arg1: usize, arg2: usize) -> SyscallArgs {
    SyscallArgs { syscall, arg0, arg1, arg2 }
}

#[test]
fn pids_start_at_two_and_increase() {
    let mut a = PidAllocator::new();
    assert_eq!(ProcessId::new(&mut a), Some(ProcessId(2)));
    assert_eq!(ProcessId::new(&mut a), Some(ProcessId(3)));
    assert_eq!(a.peek(), 4);
}

#[test]
fn spawn_registers_and_queues() {
    let mut m = manager();
    assert_eq!(m.current(), ProcessId(1));
    let pid = m.spawn("hello").unwrap();
    assert_eq!(pid, ProcessId(2));
    let p = m.get_proc(pid).unwrap();
    assert_eq!(p.inner.name, "hello");
    assert_eq!(p.inner.status, ProgramStatus::Ready);
    assert_eq!(p.inner.parent, Some(ProcessId(1)));
    assert_eq!(p.inner.context.rip, 0x40_1000);
    let bot = STACK_INIT_BOT - STACK_MAX_SIZE;
    assert_eq!(p.inner.context.rsp, bot + 4096 - 8);
    assert_eq!(p.inner.proc_data.as_ref().unwrap().stack_segment, Some(Region { start: bot, pages: 1 }));
    assert_eq!(m.queued(), vec![ProcessId(2)]);
    // the catalog is matched ignoring case
    assert_eq!(m.spawn("SHELL"), Some(ProcessId(3)));
    assert_eq!(m.get_proc(ProcessId(3)).unwrap().inner.name, "shell");
    assert_eq!(m.spawn("nope"), None);
    assert_eq!(spawn_process(&mut m, "nope"), 0);
    assert_eq!(spawn_process(&mut m, "Hello"), 4);
}

#[test]
fn spawn_refuses_overlapping_image() {
    let mut m = ProcessManager::new();
    let bad = AppEntry {
        name: "bad".to_string(),
        image: ExecImage {
            entry: 0,
            segments: vec![Region { start: 0x1000, pages: 4 }, Region { start: 0x3000, pages: 1 }],
        },
    };
    m.set_app_list(vec![bad]);
    assert_eq!(m.spawn("bad"), None);
    assert_eq!(m.queued(), vec![]);
}

#[test]
fn unique_pids_over_spawn_and_fork() {
    let mut m = manager();
    let a = m.spawn("hello").unwrap();
    let b = m.spawn("hello").unwrap();
    let mut c = ctx();
    m.switch(&mut c);
    assert_eq!(m.current(), a);
    let child = sys_fork(&mut m, &mut c).unwrap();
    let ids = list_process(&m);
    assert_eq!(ids, vec![ProcessId(1), a, b, child]);
    let mut sorted = ids.clone();
    sorted.dedup();
    assert_eq!(sorted.len(), 4);
}

#[test]
fn fork_return_values() {
    let mut m = manager();
    let a = m.spawn("hello").unwrap();
    let mut c = ctx();
    m.switch(&mut c);
    assert_eq!(sys_get_pid(&m), 2);
    c.rax = 58;
    let child = sys_fork(&mut m, &mut c).unwrap();
    assert_eq!(child, ProcessId(3));
    assert_eq!(m.get_proc(child).unwrap().inner.context.rax, 0);
    assert_eq!(m.get_proc(a).unwrap().inner.context.rax, 3);
    assert_eq!(m.get_proc(child).unwrap().inner.parent, Some(a));
    assert_eq!(m.get_proc(a).unwrap().inner.children, vec![child]);
}

#[test]
fn fork_copies_stack_once() {
    let mut m = manager();
    let a = m.spawn("hello").unwrap();
    let mut c = ctx();
    m.switch(&mut c);
    let bot = STACK_INIT_BOT - STACK_MAX_SIZE;
    let slot = bot + 4096 - 8;
    assert!(m.write_memory(a, slot, 0xAA));
    c.rsp = slot;
    let child = m.fork().unwrap();
    let child_bot = bot - STACK_MAX_SIZE;
    let cp = m.get_proc(child).unwrap();
    assert_eq!(cp.inner.proc_data.as_ref().unwrap().stack_segment, Some(Region { start: child_bot, pages: 1 }));
    assert_eq!(m.read_memory(child, child_bot + 4096 - 8), Some(0xAA));
    assert!(m.write_memory(child, child_bot + 4096 - 8, 0xBB));
    assert_eq!(m.read_memory(child, child_bot + 4096 - 8), Some(0xBB));
    assert_eq!(m.read_memory(a, slot), Some(0xAA));
}

#[test]
fn fork_moves_stack_pointer() {
    let mut m = manager();
    m.spawn("hello").unwrap();
    let mut c = ctx();
    m.switch(&mut c);
    let bot = STACK_INIT_BOT - STACK_MAX_SIZE;
    let mut trap = ctx();
    trap.rsp = bot + 0x100;
    trap.rbp = bot + 0x200;
    m.save_current(&trap);
    let child = m.fork().unwrap();
    let cc = m.get_proc(child).unwrap().inner.context;
    assert_eq!(cc.rsp, bot - STACK_MAX_SIZE + 0x100);
    // only the stack pointer moves
    assert_eq!(cc.rbp, bot + 0x200);
    // a second child goes one more slot down
    let child2 = m.fork().unwrap();
    let cc2 = m.get_proc(child2).unwrap().inner.context;
    assert_eq!(cc2.rsp, bot - 2 * STACK_MAX_SIZE + 0x100);
}

#[test]
fn semaphore_fifo_fairness() {
    let mut s = SemaphoreSet::new();
    assert!(s.insert(7, 0));
    assert!(!s.insert(7, 3));
    assert_eq!(s.wait(7, ProcessId(11)), SemaphoreResult::Block(ProcessId(11)));
    assert_eq!(s.wait(7, ProcessId(12)), SemaphoreResult::Block(ProcessId(12)));
    assert_eq!(s.wait(7, ProcessId(13)), SemaphoreResult::Block(ProcessId(13)));
    assert_eq!(s.signal(7), SemaphoreResult::WakeUp(ProcessId(11)));
    assert_eq!(s.signal(7), SemaphoreResult::WakeUp(ProcessId(12)));
    // the third stays blocked until another signal
    assert_eq!(s.signal(7), SemaphoreResult::WakeUp(ProcessId(13)));
    assert_eq!(s.signal(7), SemaphoreResult::Done);
    assert_eq!(s.wait(7, ProcessId(14)), SemaphoreResult::Done);
    assert_eq!(s.wait(8, ProcessId(14)), SemaphoreResult::NotExist);
    assert!(s.remove(7));
    assert!(!s.remove(7));
    assert_eq!(s.signal(7), SemaphoreResult::NotExist);
}

#[test]
fn kernel_semaphore_counts() {
    let mut k = KernelSemaphore::new(1);
    assert_eq!(k.wait(ProcessId(2)), SemaphoreResult::Done);
    assert_eq!(k.wait(ProcessId(3)), SemaphoreResult::Block(ProcessId(3)));
    assert_eq!(k.signal(), SemaphoreResult::WakeUp(ProcessId(3)));
    assert_eq!(k.signal(), SemaphoreResult::Done);
    assert_eq!(k.wait(ProcessId(4)), SemaphoreResult::Done);
}

#[test]
fn sem_syscalls_block_and_wake() {
    let mut m = manager();
    let a = m.spawn("hello").unwrap();
    let mut c = ctx();
    m.switch(&mut c);
    assert_eq!(m.current(), a);
    let b = sys_fork(&mut m, &mut c).unwrap();
    // queue is now [b, a] or a runs; dispatch until a runs
    while m.current() != a {
        m.switch(&mut c);
    }
    let sem = Semaphore::new(5);
    assert!(sem.init(&mut m, &mut c, 0));
    assert!(!sem.init(&mut m, &mut c, 0));
    // a waits and blocks; another process runs
    sem.wait(&mut m, &mut c);
    assert_eq!(m.get_proc(a).unwrap().inner.status, ProgramStatus::Blocked);
    assert_ne!(m.current(), a);
    assert!(!m.queued().contains(&a));
    while m.current() != b {
        assert_ne!(m.switch(&mut c), a);
    }
    // b shares a's semaphore group and wakes a
    sem.signal(&mut m, &mut c);
    assert_eq!(c.rax, 0);
    assert_eq!(m.get_proc(a).unwrap().inner.status, ProgramStatus::Ready);
    assert!(m.queued().contains(&a));
    assert!(sem.free(&mut m, &mut c));
    assert!(!sem.free(&mut m, &mut c));
    let mut c2 = c;
    sys_sem(&mut m, &args(Syscall::Sem, 9, 5, 0), &mut c2);
    assert_eq!(c2.rax, u64::MAX);
}

#[test]
fn stack_fault_bound() {
    let mut m = manager();
    m.spawn("hello").unwrap();
    let mut c = ctx();
    m.switch(&mut c);
    let bot = STACK_INIT_BOT - STACK_MAX_SIZE;
    // protection violations are fatal
    assert!(!m.handle_page_fault(bot - 4096, 1));
    // below the stack slot: fatal
    assert!(!m.handle_page_fault(bot - STACK_MAX_SIZE, 0));
    // one page below the floor: the stack grows
    assert!(m.handle_page_fault(bot - 10, 0));
    let d = m.get_proc(m.current()).unwrap().inner.proc_data.as_ref().unwrap();
    assert_eq!(d.stack_segment, Some(Region { start: bot - 4096, pages: 2 }));
    assert_eq!(d.stack_memory, 2);
    assert!(m.write_memory(m.current(), bot - 8, 1));
    // above the floor: not a growth fault
    assert!(!m.handle_page_fault(bot + 8, 0));
}

#[test]
fn round_robin_progress() {
    let mut m = manager();
    let a = m.spawn("hello").unwrap();
    let b = m.spawn("hello").unwrap();
    let c3 = m.spawn("hello").unwrap();
    let mut c = ctx();
    let mut seen = Vec::new();
    for _ in 0..8 {
        seen.push(m.switch(&mut c));
    }
    let k = ProcessId(1);
    assert_eq!(seen, vec![a, b, c3, k, a, b, c3, k]);
}

#[test]
fn switch_skips_blocked_and_dead() {
    let mut m = manager();
    let a = m.spawn("hello").unwrap();
    let b = m.spawn("hello").unwrap();
    let c3 = m.spawn("hello").unwrap();
    m.block(a);
    m.kill(b, 3);
    let mut c = ctx();
    assert_eq!(m.switch(&mut c), c3);
    assert_eq!(m.queued(), vec![ProcessId(1)]);
}

#[test]
fn dead_process_tombstone() {
    let mut m = manager();
    let a = m.spawn("hello").unwrap();
    assert_eq!(m.wait_pid(a), None);
    assert_eq!(sys_wait_pid(&m, &args(Syscall::WaitPid, 2, 0, 0)), usize::MAX);
    m.kill(a, 7);
    assert_eq!(m.wait_pid(a), Some(7));
    m.kill(a, 9);
    assert_eq!(m.wait_pid(a), Some(7));
    assert_eq!(m.get_proc(a).unwrap().inner.status, ProgramStatus::Dead);
    assert_eq!(sys_wait_pid(&m, &args(Syscall::WaitPid, 2, 0, 0)), 7);
    assert!(!m.still_alive(a));
    assert_eq!(m.wait_pid(ProcessId(99)), None);
}

#[test]
fn kill_releases_once() {
    let mut m = manager();
    let a = m.spawn("hello").unwrap();
    m.kill(a, 1);
    let p = m.get_proc(a).unwrap();
    assert!(p.inner.page_table.is_none());
    assert!(p.inner.proc_data.is_none());
    m.kill(a, 2);
    let p = m.get_proc(a).unwrap();
    assert!(p.inner.page_table.is_none());
    assert_eq!(p.inner.exit_code, Some(1));
}

#[test]
fn exit_switches_away() {
    let mut m = manager();
    let a = m.spawn("hello").unwrap();
    let mut c = ctx();
    m.switch(&mut c);
    assert_eq!(m.current(), a);
    exit_process(&mut m, &args(Syscall::Exit, 5, 0, 0), &mut c);
    assert_eq!(m.current(), ProcessId(1));
    assert_eq!(m.wait_pid(a), Some(5));
}

#[test]
fn descriptors() {
    let mut m = manager();
    assert_eq!(m.resource(1), Some(Resource::Console(StdIO::Stdout)));
    assert_eq!(sys_write(&m, &args(Syscall::Write, 1, 0, 5)), 5);
    assert_eq!(sys_write(&m, &args(Syscall::Write, 0, 0, 5)), usize::MAX);
    assert_eq!(m.read(0, 8, Some('é')), 2);
    assert_eq!(m.read(0, 2, Some('a')), 0);
    assert_eq!(m.read(0, 8, None), 0);
    assert_eq!(m.read(1, 8, Some('a')), -1);
    assert_eq!(sys_close(&mut m, &args(Syscall::Close, 2, 0, 0)), 1);
    assert_eq!(sys_close(&mut m, &args(Syscall::Close, 2, 0, 0)), 0);
    assert_eq!(m.write(2, 3), -1);
}

#[test]
fn syscall_numbers() {
    assert_eq!(Syscall::from_number(58), Syscall::Fork);
    assert_eq!(Syscall::from_number(44326), Syscall::Sem);
    assert_eq!(Syscall::from_number(7), Syscall::Unknown);
}

#[test]
fn fatal_fault_kills_and_switches() {
    let mut m = manager();
    let a = m.spawn("hello").unwrap();
    let mut c = ctx();
    m.switch(&mut c);
    assert_eq!(m.current(), a);
    let bot = STACK_INIT_BOT - STACK_MAX_SIZE;
    assert!(page_fault_trap(&mut m, bot - 4096, 0, &mut c));
    assert_eq!(m.current(), a);
    assert!(!page_fault_trap(&mut m, 0x10, 0, &mut c));
    assert_eq!(m.wait_pid(a), Some(FAULT_EXIT_CODE));
    assert_eq!(m.current(), ProcessId(1));
}

#[test]
fn read_syscall() {
    let m = manager();
    assert_eq!(sys_read(&m, &args(Syscall::Read, 0, 0, 16), Some('z')), 1);
    assert_eq!(sys_read(&m, &args(Syscall::Read, 1, 0, 16), Some('z')), usize::MAX);
    assert_eq!(sys_read(&m, &args(Syscall::Read, 9, 0, 16), Some('z')), usize::MAX);
}

#[test]
fn blocked_process_stays_blocked_when_saved() {
    let mut m = manager();
    let a = m.spawn("hello").unwrap();
    let mut c = ctx();
    m.switch(&mut c);
    assert_eq!(m.current(), a);
    // the kernel waits in the queue; block it so nothing else is ready
    m.block(ProcessId(1));
    let sem = Semaphore::new(3);
    assert!(sem.init(&mut m, &mut c, 0));
    sem.wait(&mut m, &mut c);
    // nothing was ready: a still holds the processor, blocked
    assert_eq!(m.current(), a);
    assert_eq!(m.get_proc(a).unwrap().inner.status, ProgramStatus::Blocked);
    m.switch(&mut c);
    assert_eq!(m.get_proc(a).unwrap().inner.status, ProgramStatus::Blocked);
    assert!(!m.queued().contains(&a));
}

#[test]
fn fork_queues_child_ready() {
    let mut m = manager();
    let a = m.spawn("hello").unwrap();
    let mut c = ctx();
    m.switch(&mut c);
    let child = sys_fork(&mut m, &mut c).unwrap();
    // the kernel was first in the queue and runs; child then parent wait
    assert_eq!(m.current(), ProcessId(1));
    assert_eq!(m.queued(), vec![child, a]);
    assert_eq!(m.get_proc(child).unwrap().inner.status, ProgramStatus::Ready);
}

#[test]
fn sem_syscall_creates_and_removes() {
    let mut m = manager();
    let mut c = ctx();
    sys_sem(&mut m, &args(Syscall::Sem, 0, 9, 2), &mut c);
    assert_eq!(c.rax, 1);
    sys_sem(&mut m, &args(Syscall::Sem, 0, 9, 2), &mut c);
    assert_eq!(c.rax, 0);
    sys_sem(&mut m, &args(Syscall::Sem, 3, 9, 0), &mut c);
    assert_eq!(c.rax, 0);
    sys_sem(&mut m, &args(Syscall::Sem, 1, 9, 0), &mut c);
    assert_eq!(c.rax, 1);
    sys_sem(&mut m, &args(Syscall::Sem, 1, 9, 0), &mut c);
    assert_eq!(c.rax, 0);
    sys_sem(&mut m, &args(Syscall::Sem, 2, 9, 0), &mut c);
    assert_eq!(c.rax, 1);
}

#[test]
fn load_into_used_space() {
    let mut pids = PidAllocator::new();
    let mut space = AddressSpace::new();
    assert!(space.map_range(0x10_0000, 1));
    let mut p = Process::new(&mut pids, "p", None, space, ProcessData::new(0)).unwrap();
    let clash = ExecImage { entry: 0, segments: vec![Region { start: 0x10_0000, pages: 1 }] };
    assert_eq!(p.inner.load_elf(&clash, 2), None);
    let ok = ExecImage {
        entry: 0,
        segments: vec![Region { start: 0x20_0000, pages: 2 }, Region { start: 0x30_0000, pages: 5 }],
    };
    let bot = p.inner.load_elf(&ok, 2).unwrap();
    assert_eq!(bot, STACK_INIT_BOT - STACK_MAX_SIZE);
    let d = p.inner.proc_data.as_ref().unwrap();
    assert_eq!(d.code_memory, 7);
    assert_eq!(d.stack_memory, 1);
    assert_eq!(d.get_memory_usage(), 8);
    assert_eq!(p.inner.load_elf(&ok, 0), None);
}

#[test]
fn segment_page_runs() {
    assert_eq!(segment_pages(0x40_1234, 0x10), Some(Region { start: 0x40_1000, pages: 1 }));
    assert_eq!(segment_pages(0x40_0ff8, 0x10), Some(Region { start: 0x40_0000, pages: 2 }));
    assert_eq!(segment_pages(0x40_0000, 0), Some(Region { start: 0x40_0000, pages: 0 }));
    assert_eq!(segment_pages(0x8000_0000_0000, 1), None);
    assert_eq!(segment_pages(0x7fff_ffff_f000, 0x2000), None);
}
