use vstd::prelude::*;
use crate::context::ProcessContext;
use crate::manager::{first_ready, switched, ProcessManager};
use crate::pid::ProcessId;
use crate::process::{Process, ProgramStatus};
use crate::sem::{signal_step, wait_step, SemaphoreResult};
use crate::data::slot_of;
use crate::memory::{protection_violation, Region, PAGE_SIZE};

verus! {

/// Process ids identify processes: two table entries with the same id are
/// the same entry, and the id the manager hands out next names no process,
/// live or dead, so spawn and fork never reuse one.
pub proof fn lemma_unique_pids(m: ProcessManager)
    requires
        m.wf(),
    ensures
        forall|a: u16, b: u16|
            #![trigger m.procs()[a], m.procs()[b]]
            m.procs().contains_key(a) && m.procs().contains_key(b) && m.procs()[a].pid
                == m.procs()[b].pid ==> a == b,
        forall|k: u16| #[trigger] m.procs().contains_key(k) ==> k < m.next_pid(),
{
}

/// The scheduler's round-robin state: distinct ready processes queued, the
/// running process alive and not among them.
pub open spec fn round_robin(procs: Map<u16, Process>, q: Seq<ProcessId>, cur: ProcessId) -> bool {
    &&& q.no_duplicates()
    &&& !q.contains(cur)
    &&& forall|i: int|
        0 <= i < q.len() ==> procs.contains_key((#[trigger] q[i]).0) && procs[q[i].0].pid == q[i]
            && procs[q[i].0].inner.status == ProgramStatus::Ready
    &&& procs.contains_key(cur.0)
    &&& procs[cur.0].pid == cur
    &&& procs[cur.0].inner.status == ProgramStatus::Running
}

/// With ready processes queued and none blocking, a scheduler tick runs
/// the front of the queue and puts the interrupted process at the back; the
/// state after is again of that kind, so ticks keep visiting the processes
/// in queue order, round and round.
pub proof fn lemma_round_robin(
    m: ProcessManager,
    ctx0: ProcessContext,
    procs1: Map<u16, Process>,
    q1: Seq<ProcessId>,
    cur1: ProcessId,
    ctx1: ProcessContext,
)
    requires
        m.wf(),
        m.queue().len() > 0,
        round_robin(m.procs(), m.queue(), m.current_pid()),
        switched(m.saved(ctx0), m.queue().push(m.current_pid()), m.current_pid(), ctx0, procs1, q1, cur1, ctx1),
    ensures
        cur1 == m.queue()[0],
        q1 == m.queue().drop_first().push(m.current_pid()),
        round_robin(procs1, q1, cur1),
{
    let q = m.queue();
    let cur = m.current_pid();
    let sp = m.saved(ctx0);
    let qp = q.push(cur);
    assert(qp[0] == q[0]);
    assert(q[0] != cur) by {
        assert(q.contains(q[0]));
    }
    assert(first_ready(sp, qp) == 0);
    assert(qp.skip(1) =~= q.drop_first().push(cur));
    let n = q[0];
    assert forall|i: int| 0 <= i < q1.len() implies procs1.contains_key((#[trigger] q1[i]).0)
        && procs1[q1[i].0].pid == q1[i] && procs1[q1[i].0].inner.status == ProgramStatus::Ready by {
        if i < q1.len() - 1 {
            assert(q1[i] == q[i + 1]);
            assert(q[i + 1] != n);
            assert(q[i + 1] != cur) by {
                assert(q.contains(q[i + 1]));
            }
        } else {
            assert(q1[i] == cur);
        }
    }
    assert(q1.no_duplicates()) by {
        assert forall|i: int, j: int| 0 <= i < j < q1.len() implies q1[i] != q1[j] by {
            if j < q1.len() - 1 {
                assert(q1[i] == q[i + 1] && q1[j] == q[j + 1]);
            } else {
                assert(q1[i] == q[i + 1]);
                assert(q.contains(q[i + 1]));
            }
        }
    }
    assert(!q1.contains(n)) by {
        if q1.contains(n) {
            let i = choose|i: int| 0 <= i < q1.len() && q1[i] == n;
            if i < q1.len() - 1 {
                assert(q1[i] == q[i + 1]);
            }
        }
    }
}

/// A killed process is a tombstone: waiting on it reports the exit code it
/// was killed with, and killing it again changes nothing, so it stays dead
/// with that exit code.
pub proof fn lemma_dead_tombstone(
    m0: ProcessManager,
    m1: ProcessManager,
    m2: ProcessManager,
    pid: ProcessId,
    ret: isize,
    ret2: isize,
)
    requires
        m0.wf(),
        m0.alive(pid),
        m1.procs() == m0.killed(pid, ret),
        m2.procs() == m1.killed(pid, ret2),
    ensures
        m1.exit_code_of(pid) == Some(ret),
        m2.procs() == m1.procs(),
        m2.status_of(pid) == ProgramStatus::Dead,
        m2.exit_code_of(pid) == Some(ret),
{
}

/// Killing releases a process's address space and data once: after a kill
/// they are gone, and a second kill, of any exit code, leaves the table as
/// it is.
pub proof fn lemma_kill_idempotent(m0: ProcessManager, m1: ProcessManager, pid: ProcessId, ret: isize, ret2: isize)
    requires
        m0.wf(),
        m0.has(pid),
        m1.procs() == m0.killed(pid, ret),
    ensures
        m1.inner_of(pid).page_table.is_none(),
        m1.inner_of(pid).proc_data.is_none(),
        m1.killed(pid, ret2) == m1.procs(),
{
}

/// After a fork the two address spaces are independent: a write into one
/// process's memory (here the child's) leaves what any other process (here
/// the parent) reads unchanged.
pub proof fn lemma_fork_memory_independent(
    m1: ProcessManager,
    m2: ProcessManager,
    parent: ProcessId,
    child: ProcessId,
    addr: u64,
)
    requires
        m1.wf(),
        parent != child,
        m2.procs().dom() == m1.procs().dom(),
        forall|k: u16| k != child.0 ==> #[trigger] m2.procs()[k] == m1.procs()[k],
    ensures
        m2.mem_read(parent, addr) == m1.mem_read(parent, addr),
{
    assert(parent.0 != child.0);
    assert(m2.procs()[parent.0] == m1.procs()[parent.0]);
}

/// Stack growth is bounded by the stack slot: a fault below the slot of
/// the running process's stack is never resolved, while a fault one page
/// below the stack floor, inside the slot, on a free page and without a
/// protection violation is resolved, the grown stack starting at that page.
pub proof fn lemma_stack_fault_bound(m: ProcessManager, addr: u64, code: u64)
    requires
        m.wf(),
        m.alive(m.current_pid()),
        m.inner_of(m.current_pid()).proc_data.unwrap().stack_segment.is_some(),
    ensures
        ({
            let p = m.inner_of(m.current_pid());
            let r = p.proc_data.unwrap().stack_segment.unwrap();
            &&& slot_of(addr as int) < slot_of(r.start as int) ==> !m.fault_resolves(addr, code)
            &&& (addr == r.start - PAGE_SIZE && slot_of(addr as int) == slot_of(r.start as int)
                && !protection_violation(code) && p.page_table.unwrap().is_free(
                Region { start: addr, pages: 1 },
            )) ==> {
                &&& m.fault_resolves(addr, code)
                &&& p.stack_growth(addr).unwrap() == Region { start: addr, pages: (r.pages + 1) as u64 }
                &&& p.stack_growth(addr).unwrap().contains(addr as int)
            }
        }),
{
    let p = m.inner_of(m.current_pid());
    let r = p.proc_data.unwrap().stack_segment.unwrap();
    if addr == r.start - PAGE_SIZE && slot_of(addr as int) == slot_of(r.start as int) {
        assert(r.start % 4096 == 0);
        assert(addr % 4096 == 0);
        let g = p.stack_growth(addr).unwrap();
        assert(g == Region { start: addr, pages: (r.pages + 1) as u64 });
        assert(p.growth_pages(g) == Region { start: addr, pages: 1 });
    }
}

/// Semaphore wake-ups are first come, first served: on a semaphore with no
/// free slot and nobody waiting, after `p1`, `p2`, `p3` wait in that order,
/// one signal wakes `p1` alone, a second wakes `p2` alone, and `p3` is
/// still waiting.
pub proof fn lemma_semaphore_fifo(p1: ProcessId, p2: ProcessId, p3: ProcessId)
    ensures
        ({
            let (f1, q1, r1) = wait_step(0, Seq::<ProcessId>::empty(), p1);
            let (f2, q2, r2) = wait_step(f1, q1, p2);
            let (f3, q3, r3) = wait_step(f2, q2, p3);
            let (f4, q4, w1) = signal_step(f3, q3);
            let (f5, q5, w2) = signal_step(f4, q4);
            &&& r1 == SemaphoreResult::Block(p1)
            &&& r2 == SemaphoreResult::Block(p2)
            &&& r3 == SemaphoreResult::Block(p3)
            &&& w1 == SemaphoreResult::WakeUp(p1)
            &&& w2 == SemaphoreResult::WakeUp(p2)
            &&& q5 == seq![p3]
            &&& f5 == 0
        }),
{
    let (f1, q1, r1) = wait_step(0, Seq::<ProcessId>::empty(), p1);
    let (f2, q2, r2) = wait_step(f1, q1, p2);
    let (f3, q3, r3) = wait_step(f2, q2, p3);
    assert(q3 =~= seq![p1, p2, p3]);
    let (f4, q4, w1) = signal_step(f3, q3);
    assert(q4 =~= seq![p2, p3]);
    let (f5, q5, w2) = signal_step(f4, q4);
    assert(q5 =~= seq![p3]);
}

} // verus!
