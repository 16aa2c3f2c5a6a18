use vstd::prelude::*;
use std::collections::HashMap;
use std::collections::VecDeque;
use crate::context::{ProcessContext, RFLAGS_IF};
use crate::data::ProcessData;
use crate::memory::{is_protection_violation, protection_violation, AddressSpace, Region, STACK_DEF_SIZE};
use crate::pid::{PidAllocator, ProcessId, KERNEL_PID};
use crate::process::{
    ascii_lower, image_loadable, stack_slot, to_lower, ExecImage, Process, ProcessInner, ProgramStatus,
};
use crate::resource::Resource;
use crate::sem::{SemaphoreResult, SemaphoreSet};

verus! {

broadcast use vstd::std_specs::hash::group_hash_axioms;

/// An entry of the executable catalog.
pub struct AppEntry {
    pub name: String,
    pub image: ExecImage,
}

/// The process table, the ready queue and the running process.
pub struct ProcessManager {
    procs: HashMap<u16, Process>,
    ready_queue: VecDeque<ProcessId>,
    current: ProcessId,
    pids: PidAllocator,
    sem_sets: Vec<SemaphoreSet>,
    app_list: Option<Vec<AppEntry>>,
}

impl ProcessManager {
    /// Every process ever registered, by id; dead ones stay as tombstones.
    pub closed spec fn procs(&self) -> Map<u16, Process> {
        self.procs@
    }

    /// The ready queue, front first.
    pub closed spec fn queue(&self) -> Seq<ProcessId> {
        self.ready_queue@
    }

    /// The process whose registers are live.
    pub closed spec fn current_pid(&self) -> ProcessId {
        self.current
    }

    /// The id that the next new process gets.
    pub closed spec fn next_pid(&self) -> int {
        self.pids.next_pid()
    }

    /// The semaphore groups.
    pub closed spec fn sem_sets(&self) -> Seq<SemaphoreSet> {
        self.sem_sets@
    }

    /// The executable catalog.
    pub closed spec fn apps(&self) -> Option<Seq<AppEntry>> {
        match self.app_list {
            Some(v) => Some(v@),
            None => None,
        }
    }

    pub closed spec fn pids_wf(&self) -> bool {
        self.pids.wf()
    }

    pub open spec fn has(&self, pid: ProcessId) -> bool {
        self.procs().contains_key(pid.0)
    }

    /// The control block of `pid` (meaningful where `has(pid)`).
    pub open spec fn inner_of(&self, pid: ProcessId) -> ProcessInner {
        self.procs()[pid.0].inner
    }

    pub open spec fn status_of(&self, pid: ProcessId) -> ProgramStatus {
        self.inner_of(pid).status
    }

    pub open spec fn alive(&self, pid: ProcessId) -> bool {
        self.has(pid) && self.status_of(pid) != ProgramStatus::Dead
    }

    /// The process table after killing `pid` with exit code `ret`: a live
    /// process becomes a tombstone holding only its exit code; anything
    /// else stays.
    pub open spec fn killed(&self, pid: ProcessId, ret: isize) -> Map<u16, Process> {
        if self.alive(pid) {
            self.procs().insert(
                pid.0,
                Process {
                    pid,
                    inner: ProcessInner {
                        exit_code: Some(ret),
                        status: ProgramStatus::Dead,
                        page_table: None,
                        proc_data: None,
                        ..self.inner_of(pid)
                    },
                },
            )
        } else {
            self.procs()
        }
    }

    /// What a wait on `pid` reports: its exit code once it is dead.
    pub open spec fn exit_code_of(&self, pid: ProcessId) -> Option<isize> {
        if self.has(pid) && self.status_of(pid) == ProgramStatus::Dead {
            self.inner_of(pid).exit_code
        } else {
            None
        }
    }

    /// Each entry sits under its own id, is well formed, has an id below
    /// the next one to hand out, and a live one's semaphore group exists.
    pub open spec fn wf(&self) -> bool {
        &&& self.pids_wf()
        &&& self.has(self.current_pid())
        &&& forall|k: u16| #[trigger]
            self.procs().contains_key(k) ==> {
                let p = self.procs()[k];
                &&& p.pid.0 == k
                &&& p.inner.wf()
                &&& k < self.next_pid()
                &&& p.inner.status != ProgramStatus::Dead ==> p.inner.proc_data.unwrap().sem_group
                    < self.sem_sets().len()
            }
        &&& forall|i: int| 0 <= i < self.sem_sets().len() ==> (#[trigger] self.sem_sets()[i]).wf()
    }

    /// A manager holding only the kernel process, running, with an empty
    /// ready queue and no catalog.
    pub fn new() -> (r: ProcessManager)
        ensures
            r.wf(),
            r.current_pid() == ProcessId(KERNEL_PID),
            r.procs().dom() == set![KERNEL_PID],
            r.status_of(ProcessId(KERNEL_PID)) == ProgramStatus::Running,
            r.queue() == Seq::<ProcessId>::empty(),
            r.next_pid() == crate::pid::FIRST_USER_PID,
            r.apps().is_none(),
    {
        let inner = ProcessInner {
            name: String::new(),
            parent: None,
            children: Vec::new(),
            ticks_passed: 0,
            status: ProgramStatus::Running,
            exit_code: None,
            context: ProcessContext::empty(),
            page_table: Some(AddressSpace::new()),
            proc_data: Some(ProcessData::new(0)),
        };
        let kernel = Process { pid: ProcessId(KERNEL_PID), inner };
        let mut procs: HashMap<u16, Process> = HashMap::new();
        procs.insert(KERNEL_PID, kernel);
        let mut sem_sets: Vec<SemaphoreSet> = Vec::new();
        sem_sets.push(SemaphoreSet::new());
        let r = ProcessManager {
            procs,
            ready_queue: VecDeque::new(),
            current: ProcessId(KERNEL_PID),
            pids: PidAllocator::new(),
            sem_sets,
            app_list: None,
        };
        assert(r.procs().dom() =~= set![KERNEL_PID]);
        r
    }

    /// Installs the executable catalog.
    pub fn set_app_list(&mut self, apps: Vec<AppEntry>)
        requires
            old(self).wf(),
        ensures
            final(self).wf(),
            final(self).apps() == Some(apps@),
            final(self).procs() == old(self).procs(),
            final(self).queue() == old(self).queue(),
            final(self).current_pid() == old(self).current_pid(),
            final(self).next_pid() == old(self).next_pid(),
            final(self).sem_sets() == old(self).sem_sets(),
    {
        self.app_list = Some(apps);
    }

    /// The executable catalog, once installed.
    pub fn app_list(&self) -> (r: Option<&Vec<AppEntry>>)
        ensures
            match r {
                Some(v) => self.apps() == Some(v@),
                None => self.apps().is_none(),
            },
    {
        match &self.app_list {
            Some(v) => Some(v),
            None => None,
        }
    }

    /// The running process's environment variable `key`; `None` where it is
    /// unset or the process is dead.
    pub fn env(&self, key: &String) -> (r: Option<String>)
        requires
            self.wf(),
        ensures
            !self.alive(self.current_pid()) ==> r.is_none(),
            self.alive(self.current_pid()) ==> match r {
                Some(v) => self.inner_of(self.current_pid()).proc_data.unwrap().env_spec(key@) == Some(v@),
                None => self.inner_of(self.current_pid()).proc_data.unwrap().env_spec(key@).is_none(),
            },
    {
        assert(self.procs().contains_key(self.current.0));
        match self.procs.get(&self.current.0) {
            Some(p) => match &p.inner.proc_data {
                Some(d) => d.env(key),
                None => None,
            },
            None => None,
        }
    }

    /// The running process's id.
    pub fn current(&self) -> (r: ProcessId)
        ensures
            r == self.current_pid(),
    {
        self.current
    }

    /// The control block of `pid`.
    pub fn get_proc(&self, pid: ProcessId) -> (r: Option<&Process>)
        ensures
            match r {
                Some(p) => self.has(pid) && *p == self.procs()[pid.0],
                None => !self.has(pid),
            },
    {
        self.procs.get(&pid.0)
    }

    /// The ready queue, front first.
    pub fn queued(&self) -> (r: Vec<ProcessId>)
        ensures
            r@ == self.queue(),
    {
        let mut r: Vec<ProcessId> = Vec::new();
        let mut i: usize = 0;
        while i < self.ready_queue.len()
            invariant
                i <= self.ready_queue@.len(),
                r@ == self.ready_queue@.take(i as int),
            decreases self.ready_queue@.len() - i,
        {
            r.push(self.ready_queue[i]);
            proof {
                assert(r@ =~= self.ready_queue@.take(i + 1));
            }
            i = i + 1;
        }
        proof {
            assert(r@ =~= self.ready_queue@);
        }
        r
    }

    /// Appends `pid` to the ready queue.
    pub fn push_ready(&mut self, pid: ProcessId)
        requires
            old(self).wf(),
        ensures
            final(self).wf(),
            final(self).queue() == old(self).queue().push(pid),
            final(self).procs() == old(self).procs(),
            final(self).current_pid() == old(self).current_pid(),
            final(self).next_pid() == old(self).next_pid(),
            final(self).sem_sets() == old(self).sem_sets(),
            final(self).apps() == old(self).apps(),
    {
        self.ready_queue.push_back(pid);
    }

    /// The exit code of `pid` once it is dead; `None` while it lives or
    /// where there is no such process.
    pub fn get_exit_code(&self, pid: ProcessId) -> (r: Option<isize>)
        requires
            self.wf(),
        ensures
            r == self.exit_code_of(pid),
            self.has(pid) && self.status_of(pid) == ProgramStatus::Dead ==> r.is_some(),
    {
        match self.procs.get(&pid.0) {
            Some(p) => {
                assert(self.procs().contains_key(pid.0));
                if p.inner.status == ProgramStatus::Dead {
                    p.inner.exit_code
                } else {
                    None
                }
            },
            None => None,
        }
    }

    /// Non-blocking wait: the exit code of `pid` once it is dead.
    pub fn wait_pid(&self, pid: ProcessId) -> (r: Option<isize>)
        requires
            self.wf(),
        ensures
            r == self.exit_code_of(pid),
            self.has(pid) && self.status_of(pid) == ProgramStatus::Dead ==> r.is_some(),
    {
        self.get_exit_code(pid)
    }

    /// Whether `pid` is a process that has not died.
    pub fn still_alive(&self, pid: ProcessId) -> (r: bool)
        ensures
            r == self.alive(pid),
    {
        match self.procs.get(&pid.0) {
            Some(p) => p.inner.status != ProgramStatus::Dead,
            None => false,
        }
    }

    /// Kills `pid` with exit code `ret`, releasing its address space and
    /// data; nothing happens for a dead or unknown process.
    pub fn kill(&mut self, pid: ProcessId, ret: isize)
        requires
            old(self).wf(),
        ensures
            final(self).wf(),
            final(self).procs() == old(self).killed(pid, ret),
            final(self).queue() == old(self).queue(),
            final(self).current_pid() == old(self).current_pid(),
            final(self).next_pid() == old(self).next_pid(),
            final(self).sem_sets() == old(self).sem_sets(),
            final(self).apps() == old(self).apps(),
    {
        match self.procs.remove(&pid.0) {
            Some(p) => {
                assert(old(self).procs().contains_key(pid.0));
                let mut p = p;
                let ghost p0 = p;
                p.kill(ret);
                self.procs.insert(pid.0, p);
                proof {
                    if p0.inner.status == ProgramStatus::Dead {
                        assert(self.procs() =~= old(self).procs());
                    }
                    assert forall|k: u16| #[trigger] self.procs().contains_key(k) implies old(
                        self,
                    ).procs().contains_key(k) by {}
                }
            },
            None => {
                assert(self.procs() =~= old(self).procs());
            },
        }
    }

    /// Kills the running process (its own exit).
    pub fn kill_self(&mut self, ret: isize)
        requires
            old(self).wf(),
        ensures
            final(self).wf(),
            final(self).procs() == old(self).killed(old(self).current_pid(), ret),
            final(self).queue() == old(self).queue(),
            final(self).current_pid() == old(self).current_pid(),
            final(self).next_pid() == old(self).next_pid(),
            final(self).sem_sets() == old(self).sem_sets(),
            final(self).apps() == old(self).apps(),
    {
        self.kill_current(ret);
    }

    /// Kills the running process.
    pub fn kill_current(&mut self, ret: isize)
        requires
            old(self).wf(),
        ensures
            final(self).wf(),
            final(self).procs() == old(self).killed(old(self).current_pid(), ret),
            final(self).queue() == old(self).queue(),
            final(self).current_pid() == old(self).current_pid(),
            final(self).next_pid() == old(self).next_pid(),
            final(self).sem_sets() == old(self).sem_sets(),
            final(self).apps() == old(self).apps(),
    {
        let pid = self.current;
        self.kill(pid, ret);
    }

    /// The table after the trap-time registers `ctx` are stored for the
    /// running process: its tick count goes up and, if it was running, it
    /// becomes ready (a blocked or dead one keeps its status).
    pub open spec fn saved(&self, ctx: ProcessContext) -> Map<u16, Process> {
        let cur = self.current_pid();
        let inner = self.inner_of(cur);
        self.procs().insert(
            cur.0,
            Process {
                pid: cur,
                inner: ProcessInner {
                    ticks_passed: if inner.ticks_passed < u64::MAX {
                        (inner.ticks_passed + 1) as u64
                    } else {
                        u64::MAX
                    },
                    context: ctx,
                    status: if inner.status == ProgramStatus::Running {
                        ProgramStatus::Ready
                    } else {
                        inner.status
                    },
                    ..inner
                },
            },
        )
    }

    /// Stores `ctx` in the running process, counts a tick for it, and
    /// returns its id.
    pub fn save_current(&mut self, ctx: &ProcessContext) -> (r: ProcessId)
        requires
            old(self).wf(),
        ensures
            final(self).wf(),
            r == old(self).current_pid(),
            final(self).procs() == old(self).saved(*ctx),
            final(self).queue() == old(self).queue(),
            final(self).current_pid() == old(self).current_pid(),
            final(self).next_pid() == old(self).next_pid(),
            final(self).sem_sets() == old(self).sem_sets(),
            final(self).apps() == old(self).apps(),
    {
        let cur = self.current;
        assert(self.procs().contains_key(cur.0));
        match self.procs.remove(&cur.0) {
            Some(p) => {
                let mut p = p;
                p.inner.tick();
                p.inner.save(ctx);
                self.procs.insert(cur.0, p);
                assert(self.procs() =~= old(self).saved(*ctx));
                assert forall|k: u16| #[trigger] self.procs().contains_key(k) implies old(
                    self,
                ).procs().contains_key(k) by {}
            },
            None => {},
        }
        cur
    }

    /// Pops the ready queue down to its first ready process and switches to
    /// it: entries that are not ready (or unknown) are dropped. A process
    /// other than the running one has its registers restored into `ctx` and
    /// runs. With no ready entry the running process goes on. Returns the
    /// process that now runs.
    pub fn switch_next(&mut self, ctx: &mut ProcessContext) -> (r: ProcessId)
        requires
            old(self).wf(),
        ensures
            final(self).wf(),
            switched(old(self).procs(), old(self).queue(), old(self).current_pid(), *old(ctx),
                final(self).procs(), final(self).queue(), final(self).current_pid(), *final(ctx)),
            r == final(self).current_pid(),
            final(self).next_pid() == old(self).next_pid(),
            final(self).sem_sets() == old(self).sem_sets(),
            final(self).apps() == old(self).apps(),
    {
        let ghost q0 = self.ready_queue@;
        let ghost procs0 = self.procs@;
        let ghost mut j: int = 0;
        proof {
            assert(q0.skip(0) =~= q0);
        }
        loop
            invariant
                self.wf(),
                self.procs() == procs0,
                procs0 == old(self).procs(),
                q0 == old(self).queue(),
                self.current == old(self).current_pid(),
                *ctx == *old(ctx),
                self.next_pid() == old(self).next_pid(),
                self.sem_sets() == old(self).sem_sets(),
                self.apps() == old(self).apps(),
                0 <= j <= q0.len(),
                self.queue() == q0.skip(j),
                first_ready(procs0, q0) == j + first_ready(procs0, q0.skip(j)),
            decreases self.ready_queue@.len(),
        {
            let next = match self.ready_queue.pop_front() {
                Some(n) => n,
                None => {
                    assert(q0.skip(j).len() == 0);
                    assert(first_ready(procs0, q0) == q0.len());
                    assert(self.queue() =~= Seq::<ProcessId>::empty());
                    return self.current;
                },
            };
            proof {
                assert(q0.skip(j).drop_first() =~= q0.skip(j + 1));
                assert(self.queue() =~= q0.skip(j + 1));
                assert(q0.skip(j)[0] == q0[j]);
            }
            let ready = match self.procs.get(&next.0) {
                Some(p) => p.inner.status == ProgramStatus::Ready,
                None => false,
            };
            if !ready {
                proof {
                    j = j + 1;
                }
                continue;
            }
            assert(first_ready(procs0, q0) == j);
            if next.0 != self.current.0 {
                assert(self.procs().contains_key(next.0));
                match self.procs.remove(&next.0) {
                    Some(p) => {
                        assert(p == procs0[next.0]);
                        assert(p.pid == next);
                        assert(p.inner.page_table.is_some());
                        let mut p = p;
                        p.inner.restore(ctx);
                        self.procs.insert(next.0, p);
                        assert(self.procs() =~= procs0.insert(
                            next.0,
                            Process {
                                pid: next,
                                inner: ProcessInner { status: ProgramStatus::Running, ..procs0[next.0].inner },
                            },
                        ));
                        assert forall|k: u16| #[trigger] self.procs().contains_key(k) implies old(
                            self,
                        ).procs().contains_key(k) by {}
                    },
                    None => {},
                }
                self.current = next;
            }
            return self.current;
        }
    }

    /// One scheduler tick with the interrupted registers in `ctx`: stores
    /// them in the running process, puts it at the back of the ready queue,
    /// and switches to the first ready process in the queue.
    pub fn switch(&mut self, ctx: &mut ProcessContext) -> (r: ProcessId)
        requires
            old(self).wf(),
        ensures
            final(self).wf(),
            switched(old(self).saved(*old(ctx)), old(self).queue().push(old(self).current_pid()),
                old(self).current_pid(), *old(ctx),
                final(self).procs(), final(self).queue(), final(self).current_pid(), *final(ctx)),
            r == final(self).current_pid(),
            final(self).next_pid() == old(self).next_pid(),
            final(self).sem_sets() == old(self).sem_sets(),
            final(self).apps() == old(self).apps(),
    {
        let saved_ctx = *ctx;
        let pid = self.save_current(&saved_ctx);
        self.push_ready(pid);
        self.switch_next(ctx)
    }

    /// The process table after a successful fork of the running process
    /// into `c`: the parent as the fork leaves it, and the child added.
    pub open spec fn forked(&self, p1: Process, c: Process) -> Map<u16, Process> {
        self.procs().insert(self.current_pid().0, p1).insert(c.pid.0, c)
    }

    /// Whether a fork of the running process succeeds: ids remain, and it
    /// is alive with a stack that has a free slot below it.
    pub open spec fn fork_possible(&self) -> bool {
        let p = self.inner_of(self.current_pid());
        &&& self.next_pid() < u16::MAX
        &&& p.status != ProgramStatus::Dead
        &&& p.proc_data.unwrap().stack_segment.is_some()
        &&& exists|m: int|
            p.children@.len() < m && #[trigger] crate::process::child_slot_free(
                p.page_table.unwrap(),
                p.proc_data.unwrap().stack_segment.unwrap().start,
                p.proc_data.unwrap().stack_segment.unwrap().pages,
                m,
            )
    }

    /// Forks the running process (see `Process::fork`), registers the child
    /// and queues it. Returns the child's id; `None`, with the table and
    /// queue unchanged, when the fork is not possible.
    pub fn fork(&mut self) -> (r: Option<ProcessId>)
        requires
            old(self).wf(),
        ensures
            final(self).wf(),
            r.is_some() == old(self).fork_possible(),
            r.is_none() ==> final(self).procs() == old(self).procs() && final(self).queue() == old(self).queue(),
            r.is_some() ==> {
                let c = r.unwrap();
                let cur = old(self).current_pid();
                let p0 = old(self).procs()[cur.0];
                let p1 = final(self).procs()[cur.0];
                let pc = final(self).procs()[c.0];
                &&& c.0 == old(self).next_pid()
                &&& !old(self).has(c)
                &&& c != cur
                &&& final(self).next_pid() == old(self).next_pid() + 1
                &&& final(self).procs() == old(self).forked(p1, pc)
                &&& pc.pid == c
                &&& p1.pid == cur
                &&& crate::process::fork_result(
                    p0.inner,
                    ProcessInner { children: p0.inner.children, context: p0.inner.context, ..p1.inner },
                    pc.inner,
                    cur,
                )
                &&& p1.inner.children@ == p0.inner.children@.push(c)
                &&& p1.inner.context == (ProcessContext { rax: c.0 as u64, ..p0.inner.context })
                &&& pc.inner.context.rax == 0
                &&& final(self).queue() == old(self).queue().push(c)
            },
            final(self).current_pid() == old(self).current_pid(),
            final(self).sem_sets() == old(self).sem_sets(),
            final(self).apps() == old(self).apps(),
    {
        let cur = self.current;
        assert(self.procs().contains_key(cur.0));
        let mut p = match self.procs.remove(&cur.0) {
            Some(p) => p,
            None => {
                return None;
            },
        };
        assert(p == old(self).procs()[cur.0]);
        let child = p.fork(&mut self.pids);
        self.procs.insert(cur.0, p);
        match child {
            Some(c) => {
                let cpid = c.pid;
                assert(!old(self).procs().contains_key(cpid.0));
                self.procs.insert(cpid.0, c);
                self.ready_queue.push_back(cpid);
                assert forall|k: u16| #[trigger] self.procs().contains_key(k) implies k == cpid.0
                    || old(self).procs().contains_key(k) by {}
                Some(cpid)
            },
            None => {
                assert(self.procs() =~= old(self).procs());
                None
            },
        }
    }

    /// The word a read of `addr` in the address space of `pid` sees: `None`
    /// for a dead or unknown process or an unmapped address.
    pub open spec fn mem_read(&self, pid: ProcessId, addr: u64) -> Option<u64> {
        if self.alive(pid) {
            self.inner_of(pid).page_table.unwrap().read_spec(addr)
        } else {
            None
        }
    }

    /// Reads the word at `addr` in the address space of `pid`.
    pub fn read_memory(&self, pid: ProcessId, addr: u64) -> (r: Option<u64>)
        requires
            self.wf(),
        ensures
            r == self.mem_read(pid, addr),
    {
        match self.procs.get(&pid.0) {
            Some(p) => {
                assert(self.procs().contains_key(pid.0));
                match &p.inner.page_table {
                    Some(s) => s.read_word(addr),
                    None => None,
                }
            },
            None => None,
        }
    }

    /// Writes the word at `addr` in the address space of `pid`; refused
    /// (false, nothing changed) for a dead or unknown process or an unmapped
    /// address. No other process's memory changes.
    pub fn write_memory(&mut self, pid: ProcessId, addr: u64, val: u64) -> (ok: bool)
        requires
            old(self).wf(),
        ensures
            final(self).wf(),
            ok == (old(self).alive(pid) && old(self).inner_of(pid).page_table.unwrap().mapped(addr as int)),
            final(self).procs().dom() == old(self).procs().dom(),
            forall|k: u16| k != pid.0 ==> #[trigger] final(self).procs()[k] == old(self).procs()[k],
            !ok ==> final(self).procs() == old(self).procs(),
            ok ==> {
                let s0 = old(self).inner_of(pid).page_table.unwrap();
                let s1 = final(self).inner_of(pid).page_table.unwrap();
                &&& final(self).procs()[pid.0].pid == pid
                &&& final(self).inner_of(pid) == (ProcessInner {
                    page_table: final(self).inner_of(pid).page_table,
                    ..old(self).inner_of(pid)
                })
                &&& final(self).inner_of(pid).page_table.is_some()
                &&& s1.regions() == s0.regions()
                &&& s1.mem() == s0.mem().insert(addr, val)
            },
            final(self).queue() == old(self).queue(),
            final(self).current_pid() == old(self).current_pid(),
            final(self).next_pid() == old(self).next_pid(),
            final(self).sem_sets() == old(self).sem_sets(),
            final(self).apps() == old(self).apps(),
    {
        let alive_mapped = match self.procs.get(&pid.0) {
            Some(p) => match &p.inner.page_table {
                Some(s) => s.is_mapped(addr),
                None => false,
            },
            None => false,
        };
        if !alive_mapped {
            return false;
        }
        assert(self.procs().contains_key(pid.0));
        match self.procs.remove(&pid.0) {
            Some(p) => {
                let mut p = p;
                match &mut p.inner.page_table {
                    Some(s) => {
                        s.write_word(addr, val);
                    },
                    None => {},
                }
                self.procs.insert(pid.0, p);
                assert(self.procs().dom() =~= old(self).procs().dom());
                assert forall|k: u16| #[trigger] self.procs().contains_key(k) implies old(
                    self,
                ).procs().contains_key(k) by {}
            },
            None => {},
        }
        true
    }

    /// Starts the program `name` from the catalog (matched ignoring ASCII
    /// case, first match) as a child of the running process: a new address
    /// space with the image loaded and a stack in the process's slot, the
    /// context seeded to enter the program, a fresh semaphore group; the
    /// process is registered and queued. `None` when there is no catalog or
    /// no such program, ids are used up, or the image does not load (see
    /// `image_loadable`); then the table, queue and semaphore groups stay.
    pub fn spawn(&mut self, name: &str) -> (r: Option<ProcessId>)
        requires
            old(self).wf(),
        ensures
            final(self).wf(),
            r.is_some() == spawn_possible(old(self).apps(), name@, old(self).next_pid()),
            r.is_none() ==> final(self).procs() == old(self).procs() && final(self).queue() == old(self).queue()
                && final(self).sem_sets() == old(self).sem_sets(),
            r.is_some() ==> {
                let pid = r.unwrap();
                let apps = old(self).apps().unwrap();
                let app = apps[app_index(apps, name@)];
                let p = final(self).procs()[pid.0];
                let top = (stack_slot(pid.0).start + STACK_DEF_SIZE - 8) as u64;
                &&& pid.0 == old(self).next_pid()
                &&& !old(self).has(pid)
                &&& final(self).next_pid() == old(self).next_pid() + 1
                &&& final(self).procs() == old(self).procs().insert(pid.0, p)
                &&& final(self).queue() == old(self).queue().push(pid)
                &&& p.pid == pid
                &&& p.inner.name@ == ascii_lower(name@)
                &&& p.inner.parent == Some(old(self).current_pid())
                &&& p.inner.status == ProgramStatus::Ready
                &&& p.inner.context == (ProcessContext {
                    rax: 0,
                    rbp: top,
                    rsp: top,
                    rip: app.image.entry,
                    rflags: RFLAGS_IF,
                })
                &&& p.inner.proc_data.unwrap().stack_segment == Some(stack_slot(pid.0))
                &&& p.inner.page_table.unwrap().regions() == app.image.segments@.push(stack_slot(pid.0))
                &&& p.inner.proc_data.unwrap().sem_group == old(self).sem_sets().len()
                &&& final(self).sem_sets().len() == old(self).sem_sets().len() + 1
                &&& final(self).sem_sets().take(old(self).sem_sets().len() as int) == old(self).sem_sets()
                &&& final(self).sem_sets().last().view() == Map::<u32, crate::sem::KernelSemaphore>::empty()
            },
            final(self).current_pid() == old(self).current_pid(),
            final(self).apps() == old(self).apps(),
    {
        let apps = match &self.app_list {
            Some(a) => a,
            None => {
                return None;
            },
        };
        let wanted = to_lower(name);
        let mut i: usize = 0;
        while i < apps.len()
            invariant
                i <= apps@.len(),
                wanted@ == ascii_lower(name@),
                forall|j: int| 0 <= j < i ==> ascii_lower((#[trigger] apps@[j]).name@) != ascii_lower(name@),
            ensures
                i <= apps@.len(),
                forall|j: int| 0 <= j < i ==> ascii_lower((#[trigger] apps@[j]).name@) != ascii_lower(name@),
                i < apps@.len() ==> ascii_lower(apps@[i as int].name@) == ascii_lower(name@),
            decreases apps@.len() - i,
        {
            let n = to_lower(apps[i].name.as_str());
            if n == wanted {
                break;
            }
            i = i + 1;
        }
        proof {
            lemma_app_index(apps@, name@, i as int);
        }
        if i == apps.len() {
            return None;
        }
        let image = &apps[i].image;
        let group = self.sem_sets.len();
        let cur = self.current;
        let proc = Process::new(&mut self.pids, name, Some(cur), AddressSpace::new(), ProcessData::new(group));
        let mut p = match proc {
            Some(p) => p,
            None => {
                return None;
            },
        };
        let bot = match p.inner.load_elf(image, p.pid.0) {
            Some(b) => b,
            None => {
                return None;
            },
        };
        p.inner.init_stack_frame(image.entry, bot + STACK_DEF_SIZE - 8);
        let pid = p.pid;
        self.sem_sets.push(SemaphoreSet::new());
        self.procs.insert(pid.0, p);
        self.ready_queue.push_back(pid);
        proof {
            assert(self.sem_sets().take(old(self).sem_sets().len() as int) =~= old(self).sem_sets());
            assert forall|k: u16| #[trigger] self.procs().contains_key(k) implies k == pid.0
                || old(self).procs().contains_key(k) by {}
        }
        Some(pid)
    }
}

/// Index of the first catalog entry whose name matches `name` ignoring
/// ASCII case; `apps.len()` where none does.
pub open spec fn app_index(apps: Seq<AppEntry>, name: Seq<char>) -> int
    decreases apps.len(),
{
    if apps.len() == 0 {
        0
    } else if ascii_lower(apps[0].name@) == ascii_lower(name) {
        0
    } else {
        1 + app_index(apps.drop_first(), name)
    }
}

proof fn lemma_app_index(apps: Seq<AppEntry>, name: Seq<char>, i: int)
    requires
        0 <= i <= apps.len(),
        forall|j: int| 0 <= j < i ==> ascii_lower((#[trigger] apps[j]).name@) != ascii_lower(name),
        i < apps.len() ==> ascii_lower(apps[i].name@) == ascii_lower(name),
    ensures
        app_index(apps, name) == i,
    decreases apps.len(),
{
    if apps.len() > 0 && i > 0 {
        assert(ascii_lower(apps[0].name@) != ascii_lower(name));
        let t = apps.drop_first();
        assert forall|j: int| 0 <= j < i - 1 implies ascii_lower((#[trigger] t[j]).name@) != ascii_lower(name) by {
            assert(t[j] == apps[j + 1]);
        }
        if i < apps.len() {
            assert(t[i - 1] == apps[i]);
        }
        lemma_app_index(t, name, i - 1);
    }
}

/// Whether spawning `name` succeeds with `next` the next process id: the
/// catalog has the program, ids remain, and its image loads.
pub open spec fn spawn_possible(apps: Option<Seq<AppEntry>>, name: Seq<char>, next: int) -> bool {
    match apps {
        Some(a) => {
            &&& app_index(a, name) < a.len()
            &&& next < u16::MAX
            &&& image_loadable(Seq::<Region>::empty(), a[app_index(a, name)].image.segments@, next as u16)
        },
        None => false,
    }
}

impl ProcessManager {
    /// Whether a page fault at `addr` with error code `code` in the running
    /// process is resolved: not a protection violation, and a stack growth
    /// whose new pages are free (see `ProcessInner::stack_growth`).
    pub open spec fn fault_resolves(&self, addr: u64, code: u64) -> bool {
        let p = self.inner_of(self.current_pid());
        &&& !protection_violation(code)
        &&& match p.stack_growth(addr) {
            Some(g) => p.page_table.unwrap().is_free(p.growth_pages(g)),
            None => false,
        }
    }

    /// Handles a page fault of the running process: a protection violation,
    /// or an address off the process's stack slot, is fatal (false); a fault
    /// below the stack inside its slot grows the stack down to the faulting
    /// page (see `ProcessInner::handle_stack_page_fault`).
    pub fn handle_page_fault(&mut self, addr: u64, code: u64) -> (ok: bool)
        requires
            old(self).wf(),
        ensures
            final(self).wf(),
            ok == old(self).fault_resolves(addr, code),
            !ok ==> final(self).procs() == old(self).procs(),
            ok ==> {
                let cur = old(self).current_pid();
                let p0 = old(self).inner_of(cur);
                let p1 = final(self).inner_of(cur);
                let g = p0.stack_growth(addr).unwrap();
                &&& final(self).procs() == old(self).procs().insert(cur.0, Process { pid: cur, inner: p1 })
                &&& p1.proc_data.unwrap().stack_segment == Some(g)
                &&& p1.page_table.unwrap().regions() == p0.page_table.unwrap().regions().push(p0.growth_pages(g))
                &&& p1.page_table.unwrap().mem() == p0.page_table.unwrap().mem()
                &&& p1.status == p0.status
                &&& p1.context == p0.context
            },
            final(self).queue() == old(self).queue(),
            final(self).current_pid() == old(self).current_pid(),
            final(self).next_pid() == old(self).next_pid(),
            final(self).sem_sets() == old(self).sem_sets(),
            final(self).apps() == old(self).apps(),
    {
        if is_protection_violation(code) {
            return false;
        }
        let cur = self.current;
        assert(self.procs().contains_key(cur.0));
        let on_stack = match self.procs.get(&cur.0) {
            Some(p) => match &p.inner.proc_data {
                Some(d) => d.is_on_stack(addr),
                None => false,
            },
            None => false,
        };
        if !on_stack {
            return false;
        }
        match self.procs.remove(&cur.0) {
            Some(p) => {
                let mut p = p;
                assert(p == old(self).procs()[cur.0]);
                let ok = p.inner.handle_stack_page_fault(addr);
                self.procs.insert(cur.0, p);
                proof {
                    if !ok {
                        assert(self.procs() =~= old(self).procs());
                    }
                    assert forall|k: u16| #[trigger] self.procs().contains_key(k) implies old(
                        self,
                    ).procs().contains_key(k) by {}
                }
                ok
            },
            None => false,
        }
    }

    /// The semaphore group of the running process, where it is alive.
    pub open spec fn current_group(&self) -> Option<int> {
        if self.alive(self.current_pid()) {
            Some(self.inner_of(self.current_pid()).proc_data.unwrap().sem_group as int)
        } else {
            None
        }
    }

    fn current_group_exec(&self) -> (r: Option<usize>)
        requires
            self.wf(),
        ensures
            match r {
                Some(g) => (self.current_group() == Some(g as int)) && ((g as int) < self.sem_sets().len()),
                None => self.current_group().is_none(),
            },
    {
        assert(self.procs().contains_key(self.current.0));
        match self.procs.get(&self.current.0) {
            Some(p) => match &p.inner.proc_data {
                Some(d) => Some(d.sem_group),
                None => None,
            },
            None => None,
        }
    }

    /// Creates semaphore `key` with `value` free slots in the running
    /// process's group; false when the key exists or the process is dead.
    pub fn new_sem(&mut self, key: u32, value: usize) -> (ok: bool)
        requires
            old(self).wf(),
        ensures
            final(self).wf(),
            new_sem_effect(*old(self), *final(self), key, value, ok),
    {
        match self.current_group_exec() {
            Some(g) => {
                if self.sem_sets[g].contains(key) {
                    return false;
                }
                self.sem_sets[g].insert(key, value)
            },
            None => false,
        }
    }

    /// Deletes semaphore `key` from the running process's group; false when
    /// there is none or the process is dead.
    pub fn remove_sem(&mut self, key: u32) -> (ok: bool)
        requires
            old(self).wf(),
        ensures
            final(self).wf(),
            remove_sem_effect(*old(self), *final(self), key, ok),
    {
        match self.current_group_exec() {
            Some(g) => {
                if !self.sem_sets[g].contains(key) {
                    return false;
                }
                self.sem_sets[g].remove(key)
            },
            None => false,
        }
    }

    /// `signal` on semaphore `key` of the running process's group.
    pub fn sem_signal(&mut self, key: u32) -> (r: SemaphoreResult)
        requires
            old(self).wf(),
        ensures
            final(self).wf(),
            old(self).current_group().is_none() ==> r == SemaphoreResult::NotExist && final(self).sem_sets()
                == old(self).sem_sets(),
            old(self).current_group().is_some() ==> {
                let g = old(self).current_group().unwrap();
                let s0 = old(self).sem_sets()[g].view();
                let s1 = final(self).sem_sets()[g].view();
                &&& final(self).sem_sets() == old(self).sem_sets().update(g, final(self).sem_sets()[g])
                &&& !s0.contains_key(key) ==> r == SemaphoreResult::NotExist && s1 == s0
                &&& s0.contains_key(key) ==> {
                    let a = s0[key];
                    let b = s1[key];
                    &&& s1 == s0.insert(key, b)
                    &&& a.waiting().len() > 0 ==> r == SemaphoreResult::WakeUp(a.waiting()[0])
                        && b.waiting() == a.waiting().drop_first() && b.free() == a.free()
                    &&& a.waiting().len() == 0 ==> r == SemaphoreResult::Done && b.waiting() == a.waiting()
                        && b.free() == (if a.free() < usize::MAX {
                        a.free() + 1
                    } else {
                        a.free()
                    })
                }
            },
            final(self).procs() == old(self).procs(),
            final(self).queue() == old(self).queue(),
            final(self).current_pid() == old(self).current_pid(),
            final(self).next_pid() == old(self).next_pid(),
            final(self).apps() == old(self).apps(),
    {
        match self.current_group_exec() {
            Some(g) => self.sem_sets[g].signal(key),
            None => SemaphoreResult::NotExist,
        }
    }

    /// `wait` on semaphore `key` of the running process's group, for
    /// process `pid`.
    pub fn sem_wait(&mut self, key: u32, pid: ProcessId) -> (r: SemaphoreResult)
        requires
            old(self).wf(),
        ensures
            final(self).wf(),
            old(self).current_group().is_none() ==> r == SemaphoreResult::NotExist && final(self).sem_sets()
                == old(self).sem_sets(),
            old(self).current_group().is_some() ==> {
                let g = old(self).current_group().unwrap();
                let s0 = old(self).sem_sets()[g].view();
                let s1 = final(self).sem_sets()[g].view();
                &&& final(self).sem_sets() == old(self).sem_sets().update(g, final(self).sem_sets()[g])
                &&& !s0.contains_key(key) ==> r == SemaphoreResult::NotExist && s1 == s0
                &&& s0.contains_key(key) ==> {
                    let a = s0[key];
                    let b = s1[key];
                    &&& s1 == s0.insert(key, b)
                    &&& b.counter() == a.counter() - 1
                    &&& a.free() > 0 ==> r == SemaphoreResult::Done && b.free() == a.free() - 1
                        && b.waiting() == a.waiting()
                    &&& a.free() == 0 ==> r == SemaphoreResult::Block(pid) && b.free() == 0
                        && b.waiting() == a.waiting().push(pid)
                }
            },
            final(self).procs() == old(self).procs(),
            final(self).queue() == old(self).queue(),
            final(self).current_pid() == old(self).current_pid(),
            final(self).next_pid() == old(self).next_pid(),
            final(self).apps() == old(self).apps(),
    {
        match self.current_group_exec() {
            Some(g) => self.sem_sets[g].wait(key, pid),
            None => SemaphoreResult::NotExist,
        }
    }

    /// The table with live process `pid` set to `status`; anything else
    /// stays.
    pub open spec fn with_status(&self, pid: ProcessId, status: ProgramStatus) -> Map<u16, Process> {
        if self.alive(pid) {
            self.procs().insert(pid.0, Process { pid, inner: ProcessInner { status, ..self.inner_of(pid) } })
        } else {
            self.procs()
        }
    }

    fn set_status(&mut self, pid: ProcessId, status: ProgramStatus)
        requires
            old(self).wf(),
            status != ProgramStatus::Dead,
        ensures
            final(self).wf(),
            final(self).procs() == old(self).with_status(pid, status),
            final(self).queue() == old(self).queue(),
            final(self).current_pid() == old(self).current_pid(),
            final(self).next_pid() == old(self).next_pid(),
            final(self).sem_sets() == old(self).sem_sets(),
            final(self).apps() == old(self).apps(),
    {
        if !self.still_alive(pid) {
            return;
        }
        assert(self.procs().contains_key(pid.0));
        match self.procs.remove(&pid.0) {
            Some(p) => {
                let mut p = p;
                assert(p == old(self).procs()[pid.0]);
                p.inner.status = status;
                self.procs.insert(pid.0, p);
                assert(self.procs() =~= old(self).with_status(pid, status));
                assert forall|k: u16| #[trigger] self.procs().contains_key(k) implies old(
                    self,
                ).procs().contains_key(k) by {}
            },
            None => {},
        }
    }

    /// Marks live process `pid` blocked: dispatch passes it by.
    pub fn block(&mut self, pid: ProcessId)
        requires
            old(self).wf(),
        ensures
            final(self).wf(),
            final(self).procs() == old(self).with_status(pid, ProgramStatus::Blocked),
            final(self).queue() == old(self).queue(),
            final(self).current_pid() == old(self).current_pid(),
            final(self).next_pid() == old(self).next_pid(),
            final(self).sem_sets() == old(self).sem_sets(),
            final(self).apps() == old(self).apps(),
    {
        self.set_status(pid, ProgramStatus::Blocked);
    }

    /// Makes live process `pid` ready and queues it at the back; nothing
    /// happens for a dead or unknown one.
    pub fn wake_up(&mut self, pid: ProcessId)
        requires
            old(self).wf(),
        ensures
            final(self).wf(),
            final(self).procs() == old(self).with_status(pid, ProgramStatus::Ready),
            old(self).alive(pid) ==> final(self).queue() == old(self).queue().push(pid),
            !old(self).alive(pid) ==> final(self).queue() == old(self).queue(),
            final(self).current_pid() == old(self).current_pid(),
            final(self).next_pid() == old(self).next_pid(),
            final(self).sem_sets() == old(self).sem_sets(),
            final(self).apps() == old(self).apps(),
    {
        if !self.still_alive(pid) {
            return;
        }
        self.set_status(pid, ProgramStatus::Ready);
        self.ready_queue.push_back(pid);
    }

    /// The descriptor table of the running process, where it is alive.
    pub open spec fn current_fds(&self) -> Option<Map<u8, Resource>> {
        if self.alive(self.current_pid()) {
            Some(self.inner_of(self.current_pid()).proc_data.unwrap().resources.view())
        } else {
            None
        }
    }

    /// The resource that `fd` names in the running process.
    pub fn resource(&self, fd: u8) -> (r: Option<Resource>)
        requires
            self.wf(),
        ensures
            r == (match self.current_fds() {
                Some(t) => if t.contains_key(fd) {
                    Some(t[fd])
                } else {
                    None
                },
                None => None,
            }),
    {
        assert(self.procs().contains_key(self.current.0));
        match self.procs.get(&self.current.0) {
            Some(p) => match &p.inner.proc_data {
                Some(d) => d.resources.get(fd),
                None => None,
            },
            None => None,
        }
    }

    /// Bytes that writing `len` bytes to `fd` of the running process
    /// transfers, or -1 where `fd` is not open or takes no writes.
    pub fn write(&self, fd: u8, len: usize) -> (r: isize)
        requires
            self.wf(),
            len <= isize::MAX,
        ensures
            r == (match self.current_fds() {
                Some(t) => if t.contains_key(fd) {
                    match t[fd].write_spec(len) {
                        Some(n) => n as isize,
                        None => -1isize,
                    }
                } else {
                    -1isize
                },
                None => -1isize,
            }),
    {
        match self.resource(fd) {
            Some(res) => match res.write(len) {
                Some(n) => n as isize,
                None => -1,
            },
            None => -1,
        }
    }

    /// Bytes that reading `fd` of the running process into a buffer of
    /// `buf_len` bytes transfers, `key` being the next key of the console
    /// input; -1 where `fd` is not open or is not read here.
    pub fn read(&self, fd: u8, buf_len: usize, key: Option<char>) -> (r: isize)
        requires
            self.wf(),
        ensures
            r == (match self.current_fds() {
                Some(t) => if t.contains_key(fd) {
                    match t[fd].read_spec(buf_len, key) {
                        Some(n) => n as isize,
                        None => -1isize,
                    }
                } else {
                    -1isize
                },
                None => -1isize,
            }),
    {
        match self.resource(fd) {
            Some(res) => match res.read(buf_len, key) {
                Some(n) => n as isize,
                None => -1,
            },
            None => -1,
        }
    }

    /// Closes `fd` of the running process; false where it was not open or
    /// the process is dead.
    pub fn close(&mut self, fd: u8) -> (ok: bool)
        requires
            old(self).wf(),
        ensures
            final(self).wf(),
            close_effect(*old(self), *final(self), fd, ok),
    {
        let cur = self.current;
        if self.resource(fd).is_none() {
            return false;
        }
        assert(self.procs().contains_key(cur.0));
        match self.procs.remove(&cur.0) {
            Some(p) => {
                let mut p = p;
                assert(p == old(self).procs()[cur.0]);
                let ok = match &mut p.inner.proc_data {
                    Some(d) => d.close(fd),
                    None => false,
                };
                self.procs.insert(cur.0, p);
                assert(self.procs().dom() =~= old(self).procs().dom());
                assert forall|k: u16| #[trigger] self.procs().contains_key(k) implies old(
                    self,
                ).procs().contains_key(k) by {}
                ok
            },
            None => false,
        }
    }
}

/// Whether semaphore `key` exists in the running process's group (false
/// for a dead process).
pub open spec fn sem_exists(m: ProcessManager, key: u32) -> bool {
    match m.current_group() {
        Some(g) => m.sem_sets()[g].view().contains_key(key),
        None => false,
    }
}

/// What creating semaphore `key` with `value` free slots in the running
/// process's group does, `m0` before and `m1` after: it succeeds (`ok`)
/// exactly when the process is alive and the key is new; then the group
/// gains the semaphore, free count `value`, nobody waiting, and nothing
/// else changes.
pub open spec fn new_sem_effect(m0: ProcessManager, m1: ProcessManager, key: u32, value: usize, ok: bool) -> bool {
    &&& ok == (m0.current_group().is_some() && !sem_exists(m0, key))
    &&& ok ==> {
        let g = m0.current_group().unwrap();
        let t = m1.sem_sets()[g].view();
        &&& m1.sem_sets() == m0.sem_sets().update(g, m1.sem_sets()[g])
        &&& t.contains_key(key)
        &&& t[key].free() == value
        &&& t[key].waiting() == Seq::<ProcessId>::empty()
        &&& t.remove(key) == m0.sem_sets()[g].view()
    }
    &&& !ok ==> m1.sem_sets() == m0.sem_sets()
    &&& m1.procs() == m0.procs()
    &&& m1.queue() == m0.queue()
    &&& m1.current_pid() == m0.current_pid()
    &&& m1.next_pid() == m0.next_pid()
    &&& m1.apps() == m0.apps()
}

/// What removing semaphore `key` from the running process's group does: it
/// succeeds (`ok`) exactly when the semaphore exists; then it leaves the
/// group, and nothing else changes.
pub open spec fn remove_sem_effect(m0: ProcessManager, m1: ProcessManager, key: u32, ok: bool) -> bool {
    &&& ok == sem_exists(m0, key)
    &&& ok ==> {
        let g = m0.current_group().unwrap();
        &&& m1.sem_sets() == m0.sem_sets().update(g, m1.sem_sets()[g])
        &&& m1.sem_sets()[g].view() == m0.sem_sets()[g].view().remove(key)
    }
    &&& !ok ==> m1.sem_sets() == m0.sem_sets()
    &&& m1.procs() == m0.procs()
    &&& m1.queue() == m0.queue()
    &&& m1.current_pid() == m0.current_pid()
    &&& m1.next_pid() == m0.next_pid()
    &&& m1.apps() == m0.apps()
}

/// What closing descriptor `fd` of the running process does: it succeeds
/// (`ok`) exactly when the process is alive and `fd` is open; then `fd`
/// leaves its table. No other process, nor the queue, changes.
pub open spec fn close_effect(m0: ProcessManager, m1: ProcessManager, fd: u8, ok: bool) -> bool {
    &&& ok == (match m0.current_fds() {
        Some(t) => t.contains_key(fd),
        None => false,
    })
    &&& ok ==> m1.current_fds() == Some(m0.current_fds().unwrap().remove(fd))
    &&& !ok ==> m1.procs() == m0.procs()
    &&& m1.procs().dom() == m0.procs().dom()
    &&& forall|k: u16| k != m0.current_pid().0 ==> #[trigger] m1.procs()[k] == m0.procs()[k]
    &&& m1.queue() == m0.queue()
    &&& m1.current_pid() == m0.current_pid()
    &&& m1.next_pid() == m0.next_pid()
    &&& m1.sem_sets() == m0.sem_sets()
    &&& m1.apps() == m0.apps()
}

/// Index in `q` of the first entry that names a ready process in `procs`;
/// `q.len()` where there is none.
pub open spec fn first_ready(procs: Map<u16, Process>, q: Seq<ProcessId>) -> int
    decreases q.len(),
{
    if q.len() == 0 {
        0
    } else if procs.contains_key(q[0].0) && procs[q[0].0].inner.status == ProgramStatus::Ready {
        0
    } else {
        1 + first_ready(procs, q.drop_first())
    }
}

/// Dispatch stops at an index of the queue, or just past its end.
pub proof fn lemma_first_ready_range(procs: Map<u16, Process>, q: Seq<ProcessId>)
    ensures
        0 <= first_ready(procs, q) <= q.len(),
    decreases q.len(),
{
    if q.len() > 0 {
        lemma_first_ready_range(procs, q.drop_first());
    }
}

/// A ready entry at index `k` bounds where dispatch stops.
pub proof fn lemma_first_ready_bound(procs: Map<u16, Process>, q: Seq<ProcessId>, k: int)
    requires
        0 <= k < q.len(),
        procs.contains_key(q[k].0),
        procs[q[k].0].inner.status == ProgramStatus::Ready,
    ensures
        first_ready(procs, q) <= k,
    decreases k,
{
    if k > 0 {
        assert(q.drop_first()[k - 1] == q[k]);
        lemma_first_ready_bound(procs, q.drop_first(), k - 1);
    }
}

/// How the scheduler's dispatch changes the table, queue, running process
/// and live registers: everything up to the first ready entry `n` leaves
/// the queue; `n` runs, its registers restored if it was not running; with
/// no ready entry the queue empties and nothing else changes.
pub open spec fn switched(
    procs0: Map<u16, Process>,
    q0: Seq<ProcessId>,
    cur0: ProcessId,
    ctx0: ProcessContext,
    procs1: Map<u16, Process>,
    q1: Seq<ProcessId>,
    cur1: ProcessId,
    ctx1: ProcessContext,
) -> bool {
    let i = first_ready(procs0, q0);
    if i < q0.len() {
        let n = q0[i];
        &&& q1 == q0.skip(i + 1)
        &&& cur1 == n
        &&& if n == cur0 {
            procs1 == procs0 && ctx1 == ctx0
        } else {
            &&& ctx1 == procs0[n.0].inner.context
            &&& procs1 == procs0.insert(
                n.0,
                Process {
                    pid: n,
                    inner: ProcessInner { status: ProgramStatus::Running, ..procs0[n.0].inner },
                },
            )
        }
    } else {
        &&& q1 == Seq::<ProcessId>::empty()
        &&& cur1 == cur0
        &&& procs1 == procs0
        &&& ctx1 == ctx0
    }
}

} // verus!
