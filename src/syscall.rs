use vstd::prelude::*;
use crate::context::ProcessContext;
use crate::manager::{first_ready, lemma_first_ready_bound, lemma_first_ready_range, close_effect, new_sem_effect, remove_sem_effect, switched, ProcessManager};
use crate::pid::ProcessId;
use crate::process::ProgramStatus;
use crate::sem::SemaphoreResult;

verus! {

/// The system calls, by number.
#[derive(Clone, Copy, PartialEq, Eq, Structural, Debug)]
pub enum Syscall {
    Read,
    Write,
    ListDir,
    Open,
    Close,
    GetPid,
    Fork,
    Spawn,
    Exit,
    WaitPid,
    Time,
    Sem,
    ListApp,
    Stat,
    Allocate,
    Deallocate,
    Unknown,
}

/// Whether some call has number `n`.
pub open spec fn known_number(n: usize) -> bool {
    n == 0 || n == 1 || n == 2 || n == 3 || n == 4 || n == 39 || n == 58 || n == 59 || n == 60 || n == 61
        || n == 201 || n == 44326 || n == 65531 || n == 65532 || n == 65533 || n == 65534
}

impl Syscall {
    pub open spec fn number(&self) -> usize {
        match *self {
            Syscall::Read => 0,
            Syscall::Write => 1,
            Syscall::ListDir => 2,
            Syscall::Open => 3,
            Syscall::Close => 4,
            Syscall::GetPid => 39,
            Syscall::Fork => 58,
            Syscall::Spawn => 59,
            Syscall::Exit => 60,
            Syscall::WaitPid => 61,
            Syscall::Time => 201,
            Syscall::Sem => 44326,
            Syscall::ListApp => 65531,
            Syscall::Stat => 65532,
            Syscall::Allocate => 65533,
            Syscall::Deallocate => 65534,
            Syscall::Unknown => 65535,
        }
    }

    /// The call with number `n`; `Unknown` for a number no call has.
    pub fn from_number(n: usize) -> (r: Syscall)
        ensures
            r != Syscall::Unknown ==> r.number() == n,
            (r == Syscall::Unknown) == !known_number(n),
    {
        let r = match n {
            0 => Syscall::Read,
            1 => Syscall::Write,
            2 => Syscall::ListDir,
            3 => Syscall::Open,
            4 => Syscall::Close,
            39 => Syscall::GetPid,
            58 => Syscall::Fork,
            59 => Syscall::Spawn,
            60 => Syscall::Exit,
            61 => Syscall::WaitPid,
            201 => Syscall::Time,
            44326 => Syscall::Sem,
            65531 => Syscall::ListApp,
            65532 => Syscall::Stat,
            65533 => Syscall::Allocate,
            65534 => Syscall::Deallocate,
            _ => Syscall::Unknown,
        };
        r
    }
}

/// The raw arguments of a system call.
#[derive(Clone, Copy, PartialEq, Eq, Structural, Debug)]
pub struct SyscallArgs {
    pub syscall: Syscall,
    pub arg0: usize,
    pub arg1: usize,
    pub arg2: usize,
}

/// What `wait_pid` hands back to a program: the exit code once the process
/// is dead, else -1 (all ones), on which the caller retries.
pub open spec fn wait_pid_result(m: ProcessManager, pid: ProcessId) -> usize {
    match m.exit_code_of(pid) {
        Some(c) => c as usize,
        None => usize::MAX,
    }
}

/// `WaitPid(pid)`: polls for the exit code of process `arg0`.
pub fn sys_wait_pid(m: &ProcessManager, args: &SyscallArgs) -> (r: usize)
    requires
        m.wf(),
    ensures
        r == wait_pid_result(*m, ProcessId(args.arg0 as u16)),
{
    let pid = ProcessId(args.arg0 as u16);
    match m.wait_pid(pid) {
        Some(c) => c as usize,
        None => usize::MAX,
    }
}

/// `GetPid`: the running process's id.
pub fn sys_get_pid(m: &ProcessManager) -> (r: u16)
    ensures
        r == m.current_pid().0,
{
    m.current().0
}

/// `Spawn(name)`: starts the program `name`; its id, or 0 where it could not
/// be started.
pub fn spawn_process(m: &mut ProcessManager, name: &str) -> (r: usize)
    requires
        old(m).wf(),
    ensures
        final(m).wf(),
        r == (if crate::manager::spawn_possible(old(m).apps(), name@, old(m).next_pid()) {
            old(m).next_pid() as usize
        } else {
            0usize
        }),
{
    match m.spawn(name) {
        Some(pid) => pid.0 as usize,
        None => 0,
    }
}

/// `Exit(code)`: kills the running process with exit code `arg0` and
/// dispatches the next ready one.
pub fn exit_process(m: &mut ProcessManager, args: &SyscallArgs, ctx: &mut ProcessContext)
    requires
        old(m).wf(),
    ensures
        final(m).wf(),
        switched(
            old(m).killed(old(m).current_pid(), args.arg0 as isize),
            old(m).queue(),
            old(m).current_pid(),
            *old(ctx),
            final(m).procs(),
            final(m).queue(),
            final(m).current_pid(),
            *final(ctx),
        ),
{
    m.kill_current(args.arg0 as isize);
    m.switch_next(ctx);
}

/// `Fork`: saves the caller's registers, forks it, queues the child and
/// then the parent, and dispatches the first ready process. The child's
/// saved return value is 0 and the parent's is the child's id.
pub fn sys_fork(m: &mut ProcessManager, ctx: &mut ProcessContext) -> (r: Option<ProcessId>)
    requires
        old(m).wf(),
    ensures
        final(m).wf(),
        r.is_some() == old(m).fork_possible(),
        r.is_some() ==> {
            let c = r.unwrap();
            let parent = old(m).current_pid();
            &&& final(m).has(c)
            &&& final(m).has(parent)
            &&& c != parent
            &&& final(m).inner_of(c).context.rax == 0
            &&& final(m).inner_of(parent).context.rax == c.0 as u64
            &&& final(m).inner_of(c).parent == Some(parent)
            &&& (final(m).current_pid() == c && final(m).status_of(c) == ProgramStatus::Running)
                || (final(m).status_of(c) == ProgramStatus::Ready && final(m).queue().contains(c))
            &&& final(m).current_pid() == parent ==> final(ctx).rax == c.0 as u64
        },
{
    let ghost m0 = *m;
    let parent = m.save_current(ctx);
    proof {
        let p0 = m0.inner_of(parent);
        let p1 = m.inner_of(parent);
        assert(m.procs()[parent.0] == m0.saved(*ctx)[parent.0]);
        assert(p1.children == p0.children && p1.page_table == p0.page_table && p1.proc_data == p0.proc_data);
        assert((p1.status == ProgramStatus::Dead) == (p0.status == ProgramStatus::Dead));
        assert(m.fork_possible() == m0.fork_possible());
    }
    let ghost q0 = m.queue();
    let child = m.fork();
    match child {
        Some(c) => ctx.set_rax(c.0 as u64),
        None => {},
    }
    m.push_ready(parent);
    let ghost m1 = *m;
    let ghost ctx1 = *ctx;
    m.switch_next(ctx);
    proof {
        if child.is_some() {
            let c = child.unwrap();
            assert(m1.has(c) && m1.has(parent));
            assert(m1.inner_of(c).context.rax == 0);
            let qq = m1.queue();
            let k = q0.len() as int;
            assert(qq == q0.push(c).push(parent));
            assert(qq[k] == c);
            assert(m1.procs()[c.0].pid == c);
            lemma_first_ready_bound(m1.procs(), qq, k);
            lemma_first_ready_range(m1.procs(), qq);
            let i = first_ready(m1.procs(), qq);
            assert(i <= k);
            assert(i < qq.len());
            let n = qq[i];
            assert(ctx1.rax == c.0 as u64);
            assert(m1.status_of(c) == ProgramStatus::Ready);
            assert(m1.current_pid() == parent);
            assert(c != parent);
            if n != c {
                assert(i < k);
                assert(m.queue() == qq.skip(i + 1));
                let j = k - i - 1;
                assert(0 <= j < qq.skip(i + 1).len());
                assert(qq.skip(i + 1)[j] == qq[i + 1 + j]);
                assert(m.queue()[j] == c);
                assert(m.queue().contains(c));
                assert(m.status_of(c) == ProgramStatus::Ready);
            } else {
                assert(m.current_pid() == c);
                assert(m.status_of(c) == ProgramStatus::Running);
            }
            if m.current_pid() == parent {
                assert(n == parent);
                assert(*ctx == ctx1);
            }
        }
    }
    child
}

/// What a `signal` on semaphore `key` by the running process does, `m0`
/// before and `m1`, `ctx1` after: the return register is 1 where the
/// semaphore does not exist, else 0; the longest waiter, if any, is made
/// ready and queued; the caller keeps running.
pub open spec fn signal_effect(m0: ProcessManager, m1: ProcessManager, ctx1: ProcessContext, key: u32) -> bool {
    let exists = match m0.current_group() {
        Some(g) => m0.sem_sets()[g].view().contains_key(key),
        None => false,
    };
    &&& m1.current_pid() == m0.current_pid()
    &&& !exists ==> ctx1.rax == 1 && m1.procs() == m0.procs() && m1.queue()
        == m0.queue()
    &&& exists ==> {
        let a = m0.sem_sets()[m0.current_group().unwrap()].view()[key];
        &&& ctx1.rax == 0
        &&& a.waiting().len() > 0 ==> m1.procs() == m0.with_status(
            a.waiting()[0],
            ProgramStatus::Ready,
        ) && (m0.alive(a.waiting()[0]) ==> m1.queue() == m0.queue().push(
            a.waiting()[0],
        ))
        &&& a.waiting().len() == 0 ==> m1.procs() == m0.procs() && m1.queue()
            == m0.queue()
    }
}

/// What a `wait` on semaphore `key` by the running process does, `m0`
/// before and `m1`, `ctx1` after: the return register is 1 where the
/// semaphore does not exist; with a free slot the process goes on with 0;
/// with none it is queued on the semaphore, blocked with a saved return
/// value of 0, and another process is dispatched.
pub open spec fn wait_effect(m0: ProcessManager, m1: ProcessManager, ctx1: ProcessContext, key: u32) -> bool {
    let cur = m0.current_pid();
    let exists = match m0.current_group() {
        Some(g) => m0.sem_sets()[g].view().contains_key(key),
        None => false,
    };
    &&& !exists ==> ctx1.rax == 1 && m1.procs() == m0.procs()
        && m1.current_pid() == cur
    &&& exists ==> {
        let a = m0.sem_sets()[m0.current_group().unwrap()].view()[key];
        &&& a.free() > 0 ==> ctx1.rax == 0 && m1.procs() == m0.procs()
            && m1.current_pid() == cur
        &&& a.free() == 0 ==> {
            &&& m1.inner_of(cur).context.rax == 0
            &&& m1.inner_of(cur).status == ProgramStatus::Blocked
            &&& m1.sem_sets()[m0.current_group().unwrap()].view()[key].waiting()
                == a.waiting().push(cur)
        }
    }
}

/// `Sem(op, key, value)`: op 0 creates semaphore `key` with `value` slots,
/// op 1 removes it (return register 1 on success, 0 on failure); op 2
/// signals and op 3 waits (see `sem_signal` and `sem_wait`); another op
/// sets the return register to all ones.
pub fn sys_sem(m: &mut ProcessManager, args: &SyscallArgs, ctx: &mut ProcessContext)
    requires
        old(m).wf(),
    ensures
        final(m).wf(),
        args.arg0 == 0 ==> (final(ctx).rax == 0 || final(ctx).rax == 1) && new_sem_effect(
            *old(m),
            *final(m),
            args.arg1 as u32,
            args.arg2,
            final(ctx).rax == 1,
        ),
        args.arg0 == 1 ==> (final(ctx).rax == 0 || final(ctx).rax == 1) && remove_sem_effect(
            *old(m),
            *final(m),
            args.arg1 as u32,
            final(ctx).rax == 1,
        ),
        args.arg0 == 2 ==> signal_effect(*old(m), *final(m), *final(ctx), args.arg1 as u32),
        args.arg0 == 3 ==> wait_effect(*old(m), *final(m), *final(ctx), args.arg1 as u32),
        args.arg0 > 3 ==> final(ctx).rax == u64::MAX && final(m).procs() == old(m).procs()
            && final(m).sem_sets() == old(m).sem_sets() && final(m).queue() == old(m).queue()
            && final(m).current_pid() == old(m).current_pid(),
{
    if args.arg0 == 0 {
        let ok = m.new_sem(args.arg1 as u32, args.arg2);
        ctx.set_rax(if ok { 1 } else { 0 });
    } else if args.arg0 == 1 {
        let ok = m.remove_sem(args.arg1 as u32);
        ctx.set_rax(if ok { 1 } else { 0 });
    } else if args.arg0 == 2 {
        sem_signal(m, args.arg1 as u32, ctx);
    } else if args.arg0 == 3 {
        sem_wait(m, args.arg1 as u32, ctx);
    } else {
        ctx.set_rax(u64::MAX);
    }
}

/// Signals semaphore `key` for the running process: the longest waiter, if
/// any, is made ready and queued. The return register is 0, or 1 where the
/// semaphore does not exist.
pub fn sem_signal(m: &mut ProcessManager, key: u32, ctx: &mut ProcessContext)
    requires
        old(m).wf(),
    ensures
        final(m).wf(),
        final(m).current_pid() == old(m).current_pid(),
        signal_effect(*old(m), *final(m), *final(ctx), key),
{
    match m.sem_signal(key) {
        SemaphoreResult::WakeUp(pid) => {
            m.wake_up(pid);
            ctx.set_rax(0);
        },
        SemaphoreResult::NotExist => {
            ctx.set_rax(1);
        },
        _ => {
            ctx.set_rax(0);
        },
    }
}

/// Waits on semaphore `key` for the running process. With a free slot it
/// goes on (return register 0); with none it is queued on the semaphore,
/// its registers are saved with return value 0, it is blocked, and the
/// next ready process is dispatched. The return register is 1 where the
/// semaphore does not exist.
pub fn sem_wait(m: &mut ProcessManager, key: u32, ctx: &mut ProcessContext)
    requires
        old(m).wf(),
    ensures
        final(m).wf(),
        wait_effect(*old(m), *final(m), *final(ctx), key),
{
    let cur = m.current();
    match m.sem_wait(key, cur) {
        SemaphoreResult::Block(pid) => {
            ctx.set_rax(0);
            let saved = *ctx;
            m.save_current(&saved);
            m.block(pid);
            let ghost m1 = *m;
            m.switch_next(ctx);
            proof {
                assert(m1.inner_of(cur).context.rax == 0);
                assert(m1.inner_of(cur).status == ProgramStatus::Blocked);
            }
        },
        SemaphoreResult::NotExist => {
            ctx.set_rax(1);
        },
        _ => {
            ctx.set_rax(0);
        },
    }
}

/// `Close(fd)`: 1 where `fd` of the running process was open and is now
/// closed, else 0.
pub fn sys_close(m: &mut ProcessManager, args: &SyscallArgs) -> (r: usize)
    requires
        old(m).wf(),
    ensures
        final(m).wf(),
        r == 0 || r == 1,
        close_effect(*old(m), *final(m), args.arg0 as u8, r == 1),
{
    if m.close(args.arg0 as u8) {
        1
    } else {
        0
    }
}

/// `Write(fd, buf, len)`: bytes written, or -1 (all ones) where `fd` takes
/// no writes.
pub fn sys_write(m: &ProcessManager, args: &SyscallArgs) -> (r: usize)
    requires
        m.wf(),
        args.arg2 <= isize::MAX,
    ensures
        r == (match m.current_fds() {
            Some(t) => if t.contains_key(args.arg0 as u8) {
                match t[args.arg0 as u8].write_spec(args.arg2) {
                    Some(n) => n,
                    None => usize::MAX,
                }
            } else {
                usize::MAX
            },
            None => usize::MAX,
        }),
{
    let n = m.write(args.arg0 as u8, args.arg2);
    if n < 0 {
        usize::MAX
    } else {
        n as usize
    }
}

/// `Read(fd, buf, len)`: bytes read, or -1 (all ones) where `fd` is not read
/// here; `key` is the next key of the console input.
pub fn sys_read(m: &ProcessManager, args: &SyscallArgs, key: Option<char>) -> (r: usize)
    requires
        m.wf(),
    ensures
        r == (match m.current_fds() {
            Some(t) => if t.contains_key(args.arg0 as u8) {
                match t[args.arg0 as u8].read_spec(args.arg2, key) {
                    Some(n) => n,
                    None => usize::MAX,
                }
            } else {
                usize::MAX
            },
            None => usize::MAX,
        }),
{
    let n = m.read(args.arg0 as u8, args.arg2, key);
    if n < 0 {
        usize::MAX
    } else {
        n as usize
    }
}

/// Exit code of a process killed by a fatal page fault (128 + 11, as
/// shells report a segmentation fault).
pub const FAULT_EXIT_CODE: isize = 139;

/// The page-fault trap of the running process: a fault that stack growth
/// resolves lets it go on; any other kills it with `FAULT_EXIT_CODE` and
/// dispatches the next ready process, so one process's fault never stops
/// the others. Returns whether the fault was resolved.
pub fn page_fault_trap(m: &mut ProcessManager, addr: u64, code: u64, ctx: &mut ProcessContext) -> (ok: bool)
    requires
        old(m).wf(),
    ensures
        final(m).wf(),
        ok == old(m).fault_resolves(addr, code),
        ok ==> *final(ctx) == *old(ctx) && final(m).current_pid() == old(m).current_pid() && final(m).queue()
            == old(m).queue(),
        !ok ==> switched(
            old(m).killed(old(m).current_pid(), FAULT_EXIT_CODE),
            old(m).queue(),
            old(m).current_pid(),
            *old(ctx),
            final(m).procs(),
            final(m).queue(),
            final(m).current_pid(),
            *final(ctx),
        ),
{
    if m.handle_page_fault(addr, code) {
        return true;
    }
    m.kill_current(FAULT_EXIT_CODE);
    m.switch_next(ctx);
    false
}

/// The ids of the live processes, in increasing order.
pub fn list_process(m: &ProcessManager) -> (r: Vec<ProcessId>)
    requires
        m.wf(),
    ensures
        forall|i: int| 0 <= i < r@.len() ==> m.alive(#[trigger] r@[i]),
        forall|i: int, j: int| 0 <= i < j < r@.len() ==> (#[trigger] r@[i]).0 < (#[trigger] r@[j]).0,
        forall|k: u16| m.alive(ProcessId(k)) ==> r@.contains(ProcessId(k)),
{
    let mut r: Vec<ProcessId> = Vec::new();
    let mut k: u32 = 0;
    while k <= 0xFFFF
        invariant
            m.wf(),
            k <= 0x10000,
            forall|i: int| 0 <= i < r@.len() ==> m.alive(#[trigger] r@[i]),
            forall|i: int| 0 <= i < r@.len() ==> (#[trigger] r@[i]).0 < k,
            forall|i: int, j: int| 0 <= i < j < r@.len() ==> (#[trigger] r@[i]).0 < (#[trigger] r@[j]).0,
            forall|j: u16| j < k && m.alive(ProcessId(j)) ==> #[trigger] r@.contains(ProcessId(j)),
        decreases 0x10000 - k,
    {
        let pid = ProcessId(k as u16);
        let ghost r0 = r@;
        if m.still_alive(pid) {
            r.push(pid);
            proof {
                assert(r@[r@.len() - 1] == pid);
                assert forall|j: u16| j < k && m.alive(ProcessId(j)) implies #[trigger] r@.contains(ProcessId(j)) by {
                    assert(r0.contains(ProcessId(j)));
                    let i = choose|i: int| 0 <= i < r0.len() && r0[i] == ProcessId(j);
                    assert(r@[i] == ProcessId(j));
                }
            }
        }
        k = k + 1;
    }
    r
}

} // verus!
