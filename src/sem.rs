use vstd::prelude::*;
use std::collections::HashMap;
use std::collections::VecDeque;
use crate::pid::ProcessId;

verus! {

broadcast use vstd::std_specs::hash::group_hash_axioms;

/// What a semaphore operation asks of its caller.
#[derive(Clone, Copy, PartialEq, Eq, Structural, Debug)]
pub enum SemaphoreResult {
    /// Done; the caller goes on.
    Done,
    /// No semaphore has the key.
    NotExist,
    /// The caller must block this process.
    Block(ProcessId),
    /// The caller must make this blocked process ready again.
    WakeUp(ProcessId),
}

/// A `wait` by `pid` on a semaphore with `free` free slots and `waiting`
/// queued processes: the new free count, the new queue and the result.
pub open spec fn wait_step(free: nat, waiting: Seq<ProcessId>, pid: ProcessId) -> (nat, Seq<ProcessId>, SemaphoreResult) {
    if free > 0 {
        ((free - 1) as nat, waiting, SemaphoreResult::Done)
    } else {
        (free, waiting.push(pid), SemaphoreResult::Block(pid))
    }
}

/// A `signal` on a semaphore with `free` free slots and `waiting` queued
/// processes: the longest waiter is woken, else a slot is freed (the count
/// stays put at `usize::MAX`).
pub open spec fn signal_step(free: nat, waiting: Seq<ProcessId>) -> (nat, Seq<ProcessId>, SemaphoreResult) {
    if waiting.len() > 0 {
        (free, waiting.drop_first(), SemaphoreResult::WakeUp(waiting[0]))
    } else if free < usize::MAX {
        (free + 1, waiting, SemaphoreResult::Done)
    } else {
        (free, waiting, SemaphoreResult::Done)
    }
}

/// A counting semaphore: the slots still free and the processes blocked on
/// it, longest waiting first. Its counter in the usual sense is
/// `free - waiting`: it goes negative while processes wait.
pub struct KernelSemaphore {
    count: usize,
    wait_queue: VecDeque<ProcessId>,
}

impl KernelSemaphore {
    pub closed spec fn free(&self) -> nat {
        self.count as nat
    }

    pub closed spec fn waiting(&self) -> Seq<ProcessId> {
        self.wait_queue@
    }

    /// The signed counter: free slots less waiting processes.
    pub open spec fn counter(&self) -> int {
        self.free() - self.waiting().len()
    }

    /// Processes wait only while no slot is free.
    pub open spec fn wf(&self) -> bool {
        self.waiting().len() > 0 ==> self.free() == 0
    }

    pub fn new(value: usize) -> (r: KernelSemaphore)
        ensures
            r.wf(),
            r.free() == value,
            r.waiting() == Seq::<ProcessId>::empty(),
    {
        KernelSemaphore { count: value, wait_queue: VecDeque::new() }
    }

    /// Takes a slot, or queues `pid` at the back when none is free.
    pub fn wait(&mut self, pid: ProcessId) -> (r: SemaphoreResult)
        requires
            old(self).wf(),
        ensures
            final(self).wf(),
            (final(self).free(), final(self).waiting(), r) == wait_step(old(self).free(), old(self).waiting(), pid),
            final(self).counter() == old(self).counter() - 1,
            old(self).free() > 0 ==> r == SemaphoreResult::Done && final(self).free() == old(self).free() - 1 && final(self).waiting() == old(self).waiting(),
            old(self).free() == 0 ==> r == SemaphoreResult::Block(pid) && final(self).free() == 0
                && final(self).waiting() == old(self).waiting().push(pid),
    {
        if self.count == 0 {
            self.wait_queue.push_back(pid);
            SemaphoreResult::Block(pid)
        } else {
            self.count = self.count - 1;
            SemaphoreResult::Done
        }
    }

    /// Releases a slot: to the longest-waiting process when one waits,
    /// else back to the free count (which stays put at `usize::MAX`).
    pub fn signal(&mut self) -> (r: SemaphoreResult)
        requires
            old(self).wf(),
        ensures
            final(self).wf(),
            (final(self).free(), final(self).waiting(), r) == signal_step(old(self).free(), old(self).waiting()),
            old(self).waiting().len() > 0 ==> r == SemaphoreResult::WakeUp(old(self).waiting()[0])
                && final(self).waiting() == old(self).waiting().drop_first() && final(self).free()
                == old(self).free(),
            old(self).waiting().len() == 0 ==> r == SemaphoreResult::Done && final(self).waiting()
                == old(self).waiting() && final(self).free() == (if old(self).free() < usize::MAX {
                old(self).free() + 1
            } else {
                old(self).free()
            }),
    {
        match self.wait_queue.pop_front() {
            Some(pid) => SemaphoreResult::WakeUp(pid),
            None => {
                self.count = self.count.saturating_add(1);
                SemaphoreResult::Done
            },
        }
    }
}

/// The semaphores of a group of processes, by key.
pub struct SemaphoreSet {
    sems: HashMap<u32, KernelSemaphore>,
}

impl SemaphoreSet {
    pub closed spec fn view(&self) -> Map<u32, KernelSemaphore> {
        self.sems@
    }

    pub open spec fn wf(&self) -> bool {
        forall|k: u32| #[trigger] self.view().contains_key(k) ==> self.view()[k].wf()
    }

    pub fn new() -> (r: SemaphoreSet)
        ensures
            r.wf(),
            r.view() == Map::<u32, KernelSemaphore>::empty(),
    {
        SemaphoreSet { sems: HashMap::new() }
    }

    /// Whether semaphore `key` exists.
    pub fn contains(&self, key: u32) -> (r: bool)
        ensures
            r == self.view().contains_key(key),
    {
        self.sems.contains_key(&key)
    }

    /// Creates the semaphore `key` with `value` free slots; fails when the
    /// key exists.
    pub fn insert(&mut self, key: u32, value: usize) -> (ok: bool)
        requires
            old(self).wf(),
        ensures
            final(self).wf(),
            ok == !old(self).view().contains_key(key),
            ok ==> final(self).view().contains_key(key) && final(self).view()[key].free() == value
                && final(self).view()[key].waiting() == Seq::<ProcessId>::empty() && final(self).view().remove(key) == old(self).view(),
            !ok ==> final(self).view() == old(self).view(),
    {
        if self.sems.contains_key(&key) {
            false
        } else {
            let s = KernelSemaphore::new(value);
            self.sems.insert(key, s);
            assert(self.view().remove(key) =~= old(self).view());
            true
        }
    }

    /// Deletes the semaphore `key`; fails when there is none.
    pub fn remove(&mut self, key: u32) -> (ok: bool)
        requires
            old(self).wf(),
        ensures
            final(self).wf(),
            ok == old(self).view().contains_key(key),
            final(self).view() == old(self).view().remove(key),
    {
        let r = self.sems.remove(&key);
        assert(self.view() =~= old(self).view().remove(key));
        r.is_some()
    }

    /// `wait` on the semaphore `key` for process `pid`.
    pub fn wait(&mut self, key: u32, pid: ProcessId) -> (r: SemaphoreResult)
        requires
            old(self).wf(),
        ensures
            final(self).wf(),
            !old(self).view().contains_key(key) ==> r == SemaphoreResult::NotExist && final(self).view() == old(self).view(),
            old(self).view().contains_key(key) ==> {
                let s = old(self).view()[key];
                let t = final(self).view()[key];
                &&& final(self).view() == old(self).view().insert(key, t)
                &&& t.counter() == s.counter() - 1
                &&& s.free() > 0 ==> r == SemaphoreResult::Done && t.free() == s.free() - 1
                    && t.waiting() == s.waiting()
                &&& s.free() == 0 ==> r == SemaphoreResult::Block(pid) && t.free() == 0
                    && t.waiting() == s.waiting().push(pid)
            },
    {
        match self.sems.remove(&key) {
            None => {
                assert(self.view() =~= old(self).view());
                SemaphoreResult::NotExist
            },
            Some(s) => {
                assert(old(self).view().contains_key(key));
                assert(s == old(self).view()[key]);
                let mut s = s;
                let r = s.wait(pid);
                self.sems.insert(key, s);
                assert(self.view() =~= old(self).view().insert(key, s));
                r
            },
        }
    }

    /// `signal` on the semaphore `key`.
    pub fn signal(&mut self, key: u32) -> (r: SemaphoreResult)
        requires
            old(self).wf(),
        ensures
            final(self).wf(),
            !old(self).view().contains_key(key) ==> r == SemaphoreResult::NotExist && final(self).view() == old(self).view(),
            old(self).view().contains_key(key) ==> {
                let s = old(self).view()[key];
                let t = final(self).view()[key];
                &&& final(self).view() == old(self).view().insert(key, t)
                &&& s.waiting().len() > 0 ==> r == SemaphoreResult::WakeUp(s.waiting()[0])
                    && t.waiting() == s.waiting().drop_first() && t.free() == s.free()
                &&& s.waiting().len() == 0 ==> r == SemaphoreResult::Done && t.waiting()
                    == s.waiting() && t.free() == (if s.free() < usize::MAX {
                    s.free() + 1
                } else {
                    s.free()
                })
            },
    {
        match self.sems.remove(&key) {
            None => {
                assert(self.view() =~= old(self).view());
                SemaphoreResult::NotExist
            },
            Some(s) => {
                assert(old(self).view().contains_key(key));
                assert(s == old(self).view()[key]);
                let mut s = s;
                let r = s.signal();
                self.sems.insert(key, s);
                assert(self.view() =~= old(self).view().insert(key, s));
                r
            },
        }
    }
}

} // verus!
