use vstd::prelude::*;
use crate::memory::{page_floor, Region, PAGE_SIZE, STACK_MAX, STACK_MAX_SIZE, USER_SPACE_END};
use crate::resource::{Resource, ResourceSet};

verus! {

/// Which stack slot holds `addr`: slots are `STACK_MAX_SIZE` bytes, aligned.
pub open spec fn slot_of(addr: int) -> int {
    addr / STACK_MAX_SIZE as int
}

/// A stack region that starts on a page, is not empty, stays below the stack
/// ceiling, and does not leave the slot in which it starts.
pub open spec fn stack_ok(r: Region) -> bool {
    &&& r.start as int % PAGE_SIZE as int == 0
    &&& r.pages >= 1
    &&& r.end() <= STACK_MAX
    &&& r.end() <= (slot_of(r.start as int) + 1) * STACK_MAX_SIZE
}

/// Process-local resources: environment, open descriptors, the semaphore
/// group shared with the processes forked from the same ancestor, and the
/// bookkeeping of the stack and code regions.
pub struct ProcessData {
    pub env: Vec<(String, String)>,
    pub resources: ResourceSet,
    pub sem_group: usize,
    pub stack_segment: Option<Region>,
    pub code_segments: Vec<Region>,
    pub stack_memory: u64,
    pub code_memory: u64,
}

/// The value bound to `key` in an environment list, the first binding
/// winning.
pub open spec fn env_lookup(env: Seq<(String, String)>, key: Seq<char>) -> Option<Seq<char>>
    decreases env.len(),
{
    if env.len() == 0 {
        None
    } else if env[0].0@ == key {
        Some(env[0].1@)
    } else {
        env_lookup(env.drop_first(), key)
    }
}

impl ProcessData {
    pub open spec fn env_list(&self) -> Seq<(String, String)> {
        self.env@
    }

    /// The environment as a map from name to value.
    pub open spec fn env_spec(&self, key: Seq<char>) -> Option<Seq<char>> {
        env_lookup(self.env_list(), key)
    }

    pub open spec fn wf(&self) -> bool {
        match self.stack_segment {
            Some(r) => stack_ok(r),
            None => true,
        }
    }

    /// Data for a fresh process in semaphore group `sem_group`: empty
    /// environment, console descriptors, no stack or code yet.
    pub fn new(sem_group: usize) -> (r: ProcessData)
        ensures
            r.wf(),
            r.sem_group == sem_group,
            r.stack_segment.is_none(),
            r.code_segments@ == Seq::<Region>::empty(),
            r.stack_memory == 0,
            r.code_memory == 0,
            forall|k: Seq<char>| #[trigger] r.env_spec(k).is_none(),
            r.resources.view() == crate::resource::console_table(),
    {
        ProcessData {
            env: Vec::new(),
            resources: ResourceSet::new(),
            sem_group,
            stack_segment: None,
            code_segments: Vec::new(),
            stack_memory: 0,
            code_memory: 0,
        }
    }

    /// A copy for a forked child: the same environment, descriptors,
    /// semaphore group and code regions.
    pub fn duplicate(&self) -> (r: ProcessData)
        ensures
            r.env_list().len() == self.env_list().len(),
            forall|k: Seq<char>| #[trigger] r.env_spec(k) == self.env_spec(k),
            r.resources.view() == self.resources.view(),
            r.sem_group == self.sem_group,
            r.stack_segment == self.stack_segment,
            r.code_segments@ == self.code_segments@,
            r.stack_memory == self.stack_memory,
            r.code_memory == self.code_memory,
    {
        let mut env: Vec<(String, String)> = Vec::new();
        let mut i: usize = 0;
        while i < self.env.len()
            invariant
                i <= self.env@.len(),
                env@.len() == i,
                forall|j: int| 0 <= j < i ==> (#[trigger] env@[j]).0@ == self.env@[j].0@ && env@[j].1@
                    == self.env@[j].1@,
            decreases self.env@.len() - i,
        {
            let k = self.env[i].0.clone();
            let v = self.env[i].1.clone();
            env.push((k, v));
            i = i + 1;
        }
        let r = ProcessData {
            env,
            resources: self.resources.duplicate(),
            sem_group: self.sem_group,
            stack_segment: self.stack_segment,
            code_segments: self.code_segments.clone(),
            stack_memory: self.stack_memory,
            code_memory: self.code_memory,
        };
        assert forall|k: Seq<char>| #[trigger] r.env_spec(k) == self.env_spec(k) by {
            Self::lemma_lookup_same(r.env@, self.env@, k);
        }
        r
    }

    proof fn lemma_lookup_same(a: Seq<(String, String)>, b: Seq<(String, String)>, k: Seq<char>)
        requires
            a.len() == b.len(),
            forall|j: int| 0 <= j < a.len() ==> (#[trigger] a[j]).0@ == b[j].0@ && a[j].1@ == b[j].1@,
        ensures
            env_lookup(a, k) == env_lookup(b, k),
        decreases a.len(),
    {
        if a.len() > 0 {
            assert(a[0].0@ == b[0].0@);
            Self::lemma_lookup_same(a.drop_first(), b.drop_first(), k);
        }
    }

    /// The value of environment variable `key`.
    pub fn env(&self, key: &String) -> (r: Option<String>)
        ensures
            match r {
                Some(v) => self.env_spec(key@) == Some(v@),
                None => self.env_spec(key@).is_none(),
            },
    {
        let mut i: usize = 0;
        assert(self.env@.skip(0) =~= self.env@);
        while i < self.env.len()
            invariant
                i <= self.env@.len(),
                env_lookup(self.env@.skip(i as int), key@) == env_lookup(self.env@, key@),
            decreases self.env@.len() - i,
        {
            assert(self.env@.skip(i as int).drop_first() =~= self.env@.skip(i + 1));
            if self.env[i].0 == *key {
                return Some(self.env[i].1.clone());
            }
            i = i + 1;
        }
        None
    }

    /// Binds environment variable `key` to `val`, replacing an earlier value.
    pub fn set_env(&mut self, key: String, val: String)
        ensures
            final(self).env_spec(key@) == Some(val@),
            forall|k: Seq<char>| k != key@ ==> #[trigger] final(self).env_spec(k) == old(self).env_spec(k),
            final(self).resources == old(self).resources,
            final(self).sem_group == old(self).sem_group,
            final(self).stack_segment == old(self).stack_segment,
            final(self).code_segments == old(self).code_segments,
            final(self).stack_memory == old(self).stack_memory,
            final(self).code_memory == old(self).code_memory,
    {
        let ghost old_env = self.env@;
        self.env.insert(0, (key, val));
        assert(self.env@.drop_first() =~= old_env);
    }

    /// Records the stack as `pages` pages from the page that holds `start`.
    pub fn set_stack(&mut self, start: u64, pages: u64)
        requires
            start < USER_SPACE_END,
        ensures
            final(self).stack_segment == Some(Region { start: page_floor_spec(start), pages }),
            final(self).stack_memory == pages,
            final(self).env_list() == old(self).env_list(),
            final(self).resources == old(self).resources,
            final(self).sem_group == old(self).sem_group,
            final(self).code_segments == old(self).code_segments,
            final(self).code_memory == old(self).code_memory,
    {
        let s = page_floor(start);
        self.stack_segment = Some(Region { start: s, pages });
        self.stack_memory = pages;
    }

    /// Whether `addr` lies in the stack slot of the current stack: the
    /// region into which the stack may grow.
    pub fn is_on_stack(&self, addr: u64) -> (b: bool)
        ensures
            b == match self.stack_segment {
                Some(r) => slot_of(addr as int) == slot_of(r.start as int),
                None => false,
            },
    {
        match self.stack_segment {
            Some(r) => addr / STACK_MAX_SIZE == r.start / STACK_MAX_SIZE,
            None => false,
        }
    }

    /// Pages of stack and code that the process holds.
    pub fn get_memory_usage(&self) -> (r: u64)
        ensures
            r == if self.stack_memory + self.code_memory <= u64::MAX {
                (self.stack_memory + self.code_memory) as u64
            } else {
                u64::MAX
            },
    {
        self.stack_memory.saturating_add(self.code_memory)
    }

    /// Opens `res` in the descriptor table (see `ResourceSet::open`).
    pub fn open(&mut self, res: Resource) -> (r: Option<u8>)
        ensures
            r.is_none() <==> forall|d: u8| #[trigger] old(self).resources.view().contains_key(d),
            r.is_none() ==> final(self).resources.view() == old(self).resources.view(),
            r.is_some() ==> {
                let fd = r.unwrap();
                &&& !old(self).resources.view().contains_key(fd)
                &&& forall|d: u8| d < fd ==> #[trigger] old(self).resources.view().contains_key(d)
                &&& final(self).resources.view() == old(self).resources.view().insert(fd, res)
            },
            final(self).env_list() == old(self).env_list(),
            final(self).sem_group == old(self).sem_group,
            final(self).stack_segment == old(self).stack_segment,
    {
        self.resources.open(res)
    }

    /// Closes `fd` in the descriptor table.
    pub fn close(&mut self, fd: u8) -> (ok: bool)
        ensures
            ok == old(self).resources.view().contains_key(fd),
            final(self).resources.view() == old(self).resources.view().remove(fd),
            final(self).env_list() == old(self).env_list(),
            final(self).sem_group == old(self).sem_group,
            final(self).stack_segment == old(self).stack_segment,
    {
        self.resources.close(fd)
    }
}

/// The start of the page that holds `addr`, as a machine word.
pub open spec fn page_floor_spec(addr: u64) -> u64 {
    (addr - addr % PAGE_SIZE) as u64
}

} // verus!
