use vstd::prelude::*;
use crate::context::{shifted, ProcessContext};
use crate::data::{slot_of, ProcessData};
use crate::memory::{
    overlap, page_floor, word_at, AddressSpace, Region, PAGE_SIZE, STACK_DEF_PAGE, STACK_DEF_SIZE, STACK_INIT_BOT, STACK_MAX_SIZE,
    USER_SPACE_END,
};
use crate::pid::{PidAllocator, ProcessId};

verus! {

/// Where a process is in its lifecycle.
#[derive(Clone, Copy, PartialEq, Eq, Structural, Debug)]
pub enum ProgramStatus {
    Running,
    Ready,
    Blocked,
    Dead,
}

/// ASCII lower case of a character sequence; other characters stay.
pub open spec fn ascii_lower(s: Seq<char>) -> Seq<char> {
    s.map_values(|c: char| if 'A' <= c && c <= 'Z' { ((c as u32) + 32) as char } else { c })
}

/// Relies on `str::to_ascii_lowercase`: each ASCII upper-case letter becomes
/// its lower-case form, every other character stays.
#[verifier::external_body]
pub(crate) fn to_lower(s: &str) -> (r: String)
    ensures
        r@ == ascii_lower(s@),
{
    s.to_ascii_lowercase()
}

/// Everything a process owns besides its identifier.
pub struct ProcessInner {
    pub name: String,
    pub parent: Option<ProcessId>,
    pub children: Vec<ProcessId>,
    pub ticks_passed: u64,
    pub status: ProgramStatus,
    pub exit_code: Option<isize>,
    pub context: ProcessContext,
    pub page_table: Option<AddressSpace>,
    pub proc_data: Option<ProcessData>,
}

/// A process control block.
pub struct Process {
    pub pid: ProcessId,
    pub inner: ProcessInner,
}

/// The stack slot `m` slots below `start`, where it fits above address 0.
pub open spec fn slot_below(start: u64, m: int) -> int {
    start as int - m * STACK_MAX_SIZE as int
}

/// Whether a forked stack of `pages` pages may go `m` slots below `start`.
pub open spec fn child_slot_free(space: AddressSpace, start: u64, pages: u64, m: int) -> bool {
    slot_below(start, m) >= 0 && space.is_free(Region { start: slot_below(start, m) as u64, pages })
}

proof fn lemma_slot_shift(a: int, m: int)
    requires
        0 <= m,
        m * STACK_MAX_SIZE <= a,
    ensures
        slot_of(a - m * STACK_MAX_SIZE) == slot_of(a) - m,
        (a - m * STACK_MAX_SIZE) % PAGE_SIZE as int == a % PAGE_SIZE as int,
{
    let s = STACK_MAX_SIZE as int;
    assert(s == 4096 * 0x100000);
    let q = a / s;
    let r = a % s;
    vstd::arithmetic::div_mod::lemma_fundamental_div_mod(a, s);
    assert(a - m * s == s * (q - m) + r) by (nonlinear_arith)
        requires
            a == s * q + r,
    ;
    vstd::arithmetic::div_mod::lemma_div_multiples_vanish_fancy(q - m, r, s);
    vstd::arithmetic::div_mod::lemma_mod_multiples_vanish(-m * 0x100000, a, 4096);
    assert(4096 * (-m * 0x100000) + a == a - m * s) by (nonlinear_arith)
        requires
            s == 4096 * 0x100000,
    ;
}

/// What a successful fork leaves: `p0` is the parent before, `p1` after,
/// `c` the child, `parent` the parent's id.
pub open spec fn fork_result(p0: ProcessInner, p1: ProcessInner, c: ProcessInner, parent: ProcessId) -> bool {
    let st = p0.proc_data.unwrap().stack_segment.unwrap();
    let cst = c.proc_data.unwrap().stack_segment.unwrap();
    let ps0 = p0.page_table.unwrap();
    let ps1 = p1.page_table.unwrap();
    let cs = c.page_table.unwrap();
    &&& c.wf()
    &&& c.name@ == p0.name@
    &&& c.parent == Some(parent)
    &&& c.children@ == Seq::<ProcessId>::empty()
    &&& c.ticks_passed == 0
    &&& c.status == ProgramStatus::Ready
    &&& c.context == (ProcessContext {
        rax: 0,
        rsp: shifted(p0.context.rsp, st.start, cst.start),
        ..p0.context
    })
    &&& cst.pages == st.pages
    &&& exists|m: int|
        p0.children@.len() < m && cst.start == slot_below(st.start, m)
            && child_slot_free(ps0, st.start, st.pages, m) && forall|j: int|
            p0.children@.len() < j < m ==> !#[trigger] child_slot_free(
                ps0,
                st.start,
                st.pages,
                j,
            )
    &&& ps1.regions() == ps0.regions().push(cst)
    &&& ps1.mem() == ps0.mem()
    &&& cs.regions() == ps1.regions()
    &&& forall|k: int|
        0 <= k < st.pages * 512 ==> #[trigger] word_at(cs.mem(), (cst.start + 8 * k) as u64)
            == word_at(ps0.mem(), (st.start + 8 * k) as u64)
    &&& forall|a: u64| !cst.contains(a as int) ==> #[trigger] word_at(cs.mem(), a) == word_at(ps0.mem(), a)
    &&& c.proc_data.unwrap().sem_group == p0.proc_data.unwrap().sem_group
    &&& c.proc_data.unwrap().resources.view() == p0.proc_data.unwrap().resources.view()
    &&& c.proc_data.unwrap().code_segments@ == p0.proc_data.unwrap().code_segments@
    &&& c.proc_data.unwrap().stack_memory == st.pages
    &&& forall|k: Seq<char>| #[trigger] c.proc_data.unwrap().env_spec(k) == p0.proc_data.unwrap().env_spec(k)
    &&& p1 == (ProcessInner { page_table: p1.page_table, ..p0 })
}

proof fn lemma_slot_room(a: u64, m: u64)
    requires
        m <= a / STACK_MAX_SIZE,
    ensures
        m * STACK_MAX_SIZE <= a,
{
    let q = a / STACK_MAX_SIZE;
    vstd::arithmetic::div_mod::lemma_fundamental_div_mod(a as int, STACK_MAX_SIZE as int);
    vstd::arithmetic::mul::lemma_mul_inequality(m as int, q as int, STACK_MAX_SIZE as int);
}

proof fn lemma_slot_beyond(a: u64, m: int)
    requires
        m > a / STACK_MAX_SIZE,
    ensures
        m * STACK_MAX_SIZE > a,
{
    let q = a / STACK_MAX_SIZE;
    vstd::arithmetic::div_mod::lemma_fundamental_div_mod(a as int, STACK_MAX_SIZE as int);
    vstd::arithmetic::mul::lemma_mul_inequality(q + 1, m, STACK_MAX_SIZE as int);
}

impl ProcessInner {
    /// Live processes own an address space and their data and have no exit
    /// code; dead ones hold only their exit code.
    pub open spec fn wf(&self) -> bool {
        &&& (self.status == ProgramStatus::Dead) == self.page_table.is_none()
        &&& (self.status == ProgramStatus::Dead) == self.proc_data.is_none()
        &&& (self.status == ProgramStatus::Dead) == self.exit_code.is_some()
        &&& match self.page_table {
            Some(s) => s.wf(),
            None => true,
        }
        &&& match self.proc_data {
            Some(d) => d.wf(),
            None => true,
        }
    }

    pub fn name(&self) -> (r: &String)
        ensures
            r == &self.name,
    {
        &self.name
    }

    /// Counts one more scheduler visit; the count stops at its maximum.
    pub fn tick(&mut self)
        ensures
            *final(self) == (ProcessInner {
                ticks_passed: if old(self).ticks_passed < u64::MAX {
                    (old(self).ticks_passed + 1) as u64
                } else {
                    u64::MAX
                },
                ..*old(self)
            }),
    {
        self.ticks_passed = self.ticks_passed.saturating_add(1);
    }

    pub fn status(&self) -> (r: ProgramStatus)
        ensures
            r == self.status,
    {
        self.status
    }

    /// Marks a live process ready.
    pub fn pause(&mut self)
        requires
            old(self).status != ProgramStatus::Dead,
        ensures
            *final(self) == (ProcessInner { status: ProgramStatus::Ready, ..*old(self) }),
    {
        self.status = ProgramStatus::Ready;
    }

    /// Marks a live process running.
    pub fn resume(&mut self)
        requires
            old(self).status != ProgramStatus::Dead,
        ensures
            *final(self) == (ProcessInner { status: ProgramStatus::Running, ..*old(self) }),
    {
        self.status = ProgramStatus::Running;
    }

    /// Marks a live process blocked.
    pub fn block(&mut self)
        requires
            old(self).status != ProgramStatus::Dead,
        ensures
            *final(self) == (ProcessInner { status: ProgramStatus::Blocked, ..*old(self) }),
    {
        self.status = ProgramStatus::Blocked;
    }

    /// The parent's id, where it has one.
    pub fn parent(&self) -> (r: Option<ProcessId>)
        ensures
            r == self.parent,
    {
        self.parent
    }

    /// A new address space for a process started from this one: the same
    /// mappings and contents, held apart from this one's.
    pub fn clone_page_table(&self) -> (r: Option<AddressSpace>)
        ensures
            self.page_table.is_none() ==> r.is_none(),
            self.page_table.is_some() ==> r.is_some() && r.unwrap().regions() == self.page_table.unwrap().regions()
                && r.unwrap().mem() == self.page_table.unwrap().mem(),
    {
        match &self.page_table {
            Some(s) => Some(s.duplicate()),
            None => None,
        }
    }

    pub fn exit_code(&self) -> (r: Option<isize>)
        ensures
            r == self.exit_code,
    {
        self.exit_code
    }

    pub fn is_ready(&self) -> (r: bool)
        ensures
            r == (self.status == ProgramStatus::Ready),
    {
        self.status == ProgramStatus::Ready
    }

    /// Seeds the saved context to start at `entry` on the stack `stack_top`.
    pub fn init_stack_frame(&mut self, entry: u64, stack_top: u64)
        ensures
            final(self).context == (ProcessContext {
                rax: 0,
                rbp: stack_top,
                rsp: stack_top,
                rip: entry,
                rflags: crate::context::RFLAGS_IF,
            }),
            *final(self) == (ProcessInner { context: final(self).context, ..*old(self) }),
    {
        self.context.init_stack_frame(entry, stack_top);
    }

    /// Stores the trap-time registers; a running process becomes ready,
    /// while a blocked, ready or dead one keeps its status.
    pub fn save(&mut self, context: &ProcessContext)
        ensures
            *final(self) == (ProcessInner {
                context: *context,
                status: if old(self).status == ProgramStatus::Running {
                    ProgramStatus::Ready
                } else {
                    old(self).status
                },
                ..*old(self)
            }),
    {
        self.context = *context;
        if self.status == ProgramStatus::Running {
            self.status = ProgramStatus::Ready;
        }
    }

    /// Loads the saved registers into `context`; a process that still owns
    /// its address space switches to it and runs.
    pub fn restore(&mut self, context: &mut ProcessContext)
        ensures
            *final(context) == old(self).context,
            *final(self) == (ProcessInner {
                status: if old(self).page_table.is_some() {
                    ProgramStatus::Running
                } else {
                    old(self).status
                },
                ..*old(self)
            }),
    {
        *context = self.context;
        if self.page_table.is_some() {
            self.status = ProgramStatus::Running;
        }
    }

    /// Ends the process with exit code `ret`, releasing its address space and
    /// data. A process that is dead already stays as it is.
    pub fn kill(&mut self, ret: isize)
        requires
            old(self).wf(),
        ensures
            final(self).wf(),
            old(self).status == ProgramStatus::Dead ==> *final(self) == *old(self),
            old(self).status != ProgramStatus::Dead ==> *final(self) == (ProcessInner {
                exit_code: Some(ret),
                status: ProgramStatus::Dead,
                page_table: None,
                proc_data: None,
                ..*old(self)
            }),
    {
        if self.status == ProgramStatus::Dead {
            return;
        }
        self.exit_code = Some(ret);
        self.status = ProgramStatus::Dead;
        self.proc_data = None;
        self.page_table = None;
    }

    /// The stack region after growing down to the page of `addr`, where the
    /// fault is one that stack growth resolves: the process is alive, `addr`
    /// lies below its stack but in the same stack slot.
    pub open spec fn stack_growth(&self, addr: u64) -> Option<Region> {
        if addr >= USER_SPACE_END || self.status == ProgramStatus::Dead {
            None
        } else {
            match self.proc_data {
                Some(d) => match d.stack_segment {
                    Some(r) => if addr < r.start && slot_of(addr as int) == slot_of(r.start as int) {
                        let p = crate::memory::page_of(addr);
                        Some(
                            Region {
                                start: p as u64,
                                pages: (r.pages + (r.start - p) / PAGE_SIZE as int) as u64,
                            },
                        )
                    } else {
                        None
                    },
                    None => None,
                },
                None => None,
            }
        }
    }

    /// The pages that growing to `grown` maps: from its start up to the old
    /// stack floor.
    pub open spec fn growth_pages(&self, grown: Region) -> Region {
        Region { start: grown.start, pages: (grown.pages - self.proc_data.unwrap().stack_segment.unwrap().pages) as u64 }
    }

    /// Resolves a page fault at `addr` by growing the stack: maps the pages
    /// from the faulting page up to the stack floor and records the larger
    /// stack. Returns whether the fault was resolved; when it was not,
    /// nothing changes.
    #[verifier::rlimit(40)]
    pub fn handle_stack_page_fault(&mut self, addr: u64) -> (ok: bool)
        requires
            old(self).wf(),
        ensures
            final(self).wf(),
            ok == match old(self).stack_growth(addr) {
                Some(g) => old(self).page_table.unwrap().is_free(old(self).growth_pages(g)),
                None => false,
            },
            !ok ==> *final(self) == *old(self),
            ok ==> {
                let g = old(self).stack_growth(addr).unwrap();
                let d0 = old(self).proc_data.unwrap();
                let d1 = final(self).proc_data.unwrap();
                let s0 = old(self).page_table.unwrap();
                let s1 = final(self).page_table.unwrap();
                &&& final(self).status == old(self).status
                &&& final(self).context == old(self).context
                &&& final(self).exit_code == old(self).exit_code
                &&& final(self).children == old(self).children
                &&& d1.stack_segment == Some(g)
                &&& d1.stack_memory == g.pages
                &&& d1.sem_group == d0.sem_group
                &&& d1.resources == d0.resources
                &&& d1.env == d0.env
                &&& s1.regions() == s0.regions().push(old(self).growth_pages(g))
                &&& s1.mem() == s0.mem()
            },
    {
        if addr >= USER_SPACE_END || self.status == ProgramStatus::Dead {
            return false;
        }
        let r = match &self.proc_data {
            Some(d) => match d.stack_segment {
                Some(r) => r,
                None => {
                    return false;
                },
            },
            None => {
                return false;
            },
        };
        if !(addr < r.start) || addr / STACK_MAX_SIZE != r.start / STACK_MAX_SIZE {
            return false;
        }
        let page = page_floor(addr);
        let count = (r.start - page) / PAGE_SIZE;
        proof {
            let g = self.stack_growth(addr).unwrap();
            assert(self.growth_pages(g) == Region { start: page, pages: count });
            assert(r.start as int % 4096 == 0);
            assert(page as int % 4096 == 0);
            assert(count * 4096 == r.start - page);
        }
        let free = match &self.page_table {
            Some(s) => s.range_free(Region { start: page, pages: count }),
            None => false,
        };
        if !free {
            return false;
        }
        match &mut self.page_table {
            Some(s) => {
                s.map_range(page, count);
            },
            None => {},
        }
        match &mut self.proc_data {
            Some(d) => {
                d.stack_segment = Some(Region { start: page, pages: r.pages + count });
                d.stack_memory = r.pages + count;
            },
            None => {},
        }
        true
    }

    /// Builds the child of a fork, `parent` being this process's id.
    ///
    /// The child's stack goes `m` stack slots below this process's stack, for
    /// the least `m` past the number of existing children whose slot is free
    /// in this address space; it is mapped here, so that later forks pass it
    /// by. The child gets a copy of the address space with the stack words
    /// copied into the new region, the saved registers with the stack
    /// pointer moved to the same offset in it and a return value of 0, a copy of the process data, and the status Ready. Fails (`None`,
    /// nothing changed) for a dead process, one without a stack, or when no
    /// slot is free.
    #[verifier::rlimit(60)]
    pub fn fork(&mut self, parent: ProcessId) -> (r: Option<ProcessInner>)
        requires
            old(self).wf(),
        ensures
            final(self).wf(),
            r.is_none() ==> *final(self) == *old(self),
            r.is_some() <==> old(self).status != ProgramStatus::Dead && old(
                self,
            ).proc_data.unwrap().stack_segment.is_some() && exists|m: int|
                old(self).children@.len() < m && #[trigger] child_slot_free(
                    old(self).page_table.unwrap(),
                    old(self).proc_data.unwrap().stack_segment.unwrap().start,
                    old(self).proc_data.unwrap().stack_segment.unwrap().pages,
                    m,
                ),
            r.is_some() ==> fork_result(*old(self), *final(self), r.unwrap(), parent),
    {
        if self.status == ProgramStatus::Dead {
            return None;
        }
        let st = match &self.proc_data {
            Some(d) => match d.stack_segment {
                Some(r) => r,
                None => {
                    return None;
                },
            },
            None => {
                return None;
            },
        };
        let ghost ps0 = self.page_table.unwrap();
        let ghost nkids = self.children@.len() as int;
        let top: u64 = st.start / STACK_MAX_SIZE;
        if self.children.len() as u64 >= top {
            proof {
                assert forall|m: int| nkids < m implies !#[trigger] child_slot_free(ps0, st.start, st.pages, m) by {
                    lemma_slot_beyond(st.start, m);
                }
            }
            return None;
        }
        let mut m: u64 = self.children.len() as u64 + 1;
        loop
            invariant
                nkids < m <= top,
                top == st.start / STACK_MAX_SIZE,
                *self == *old(self),
                old(self).wf(),
                old(self).status != ProgramStatus::Dead,
                old(self).proc_data.unwrap().stack_segment == Some(st),
                nkids == old(self).children@.len(),
                ps0 == old(self).page_table.unwrap(),
                forall|j: int| nkids < j < m ==> !#[trigger] child_slot_free(ps0, st.start, st.pages, j),
            ensures
                nkids < m <= top,
                child_slot_free(ps0, st.start, st.pages, m as int),
            decreases top - m,
        {
            proof {
                lemma_slot_room(st.start, m);
            }
            let cand = st.start - m * STACK_MAX_SIZE;
            let free = match &self.page_table {
                Some(s) => s.range_free(Region { start: cand, pages: st.pages }),
                None => false,
            };
            if free {
                break;
            }
            if m == top {
                proof {
                    assert forall|j: int| nkids < j implies !#[trigger] child_slot_free(ps0, st.start, st.pages, j) by {
                        if j > m {
                            lemma_slot_beyond(st.start, j);
                        }
                    }
                }
                return None;
            }
            m = m + 1;
        }
        proof {
            lemma_slot_room(st.start, m);
        }
        let cand = st.start - m * STACK_MAX_SIZE;
        proof {
            lemma_slot_shift(st.start as int, m as int);
        }
        match &mut self.page_table {
            Some(s) => {
                s.map_range(cand, st.pages);
            },
            None => {},
        }
        let mut child_space = match &self.page_table {
            Some(s) => s.duplicate(),
            None => AddressSpace::new(),
        };
        child_space.copy_pages(st.start, cand, st.pages);
        let mut child_context = self.context;
        child_context.move_stack(st.start, cand);
        child_context.set_rax(0);
        let mut child_data = match &self.proc_data {
            Some(d) => d.duplicate(),
            None => ProcessData::new(0),
        };
        let ghost dup = child_data;
        child_data.stack_segment = Some(Region { start: cand, pages: st.pages });
        child_data.stack_memory = st.pages;
        child_data.code_memory = 0;
        proof {
            let d0 = self.proc_data.unwrap();
            assert(child_data.env == dup.env);
            assert forall|k: Seq<char>| #[trigger] child_data.env_spec(k) == d0.env_spec(k) by {
                assert(dup.env_spec(k) == d0.env_spec(k));
            }
        }
        Some(ProcessInner {
            name: self.name.clone(),
            parent: Some(parent),
            children: Vec::new(),
            ticks_passed: 0,
            status: ProgramStatus::Ready,
            exit_code: None,
            context: child_context,
            page_table: Some(child_space),
            proc_data: Some(child_data),
        })
    }

    /// Maps a program image into this process: each code segment, then one
    /// page of stack at the top of stack slot `pid - 1` below the stack
    /// ceiling. Records the regions in the process data, with the stack's
    /// size and the code's size in pages (a sum that stops at `u64::MAX`),
    /// and returns the stack's bottom. Fails (`None`, nothing changed) for a
    /// dead process, or where the image does not fit (see
    /// `image_loadable`).
    #[verifier::rlimit(60)]
    pub fn load_elf(&mut self, image: &ExecImage, pid: u16) -> (r: Option<u64>)
        requires
            old(self).wf(),
        ensures
            final(self).wf(),
            r.is_some() <==> old(self).status != ProgramStatus::Dead && image_loadable(
                old(self).page_table.unwrap().regions(),
                image.segments@,
                pid,
            ),
            r.is_none() ==> *final(self) == *old(self),
            r.is_some() ==> {
                let st = stack_slot(pid);
                let d = final(self).proc_data.unwrap();
                &&& r.unwrap() == st.start
                &&& d.stack_segment == Some(st)
                &&& d.stack_memory == STACK_DEF_PAGE
                &&& d.code_segments@ == image.segments@
                &&& d.code_memory == pages_sum(image.segments@, image.segments@.len() as int)
                &&& final(self).page_table.unwrap().regions() == (old(self).page_table.unwrap().regions()
                    + image.segments@).push(st)
                &&& final(self).page_table.unwrap().mem() == old(self).page_table.unwrap().mem()
                &&& d.sem_group == old(self).proc_data.unwrap().sem_group
                &&& d.resources == old(self).proc_data.unwrap().resources
                &&& d.env == old(self).proc_data.unwrap().env
                &&& *final(self) == (ProcessInner {
                    page_table: final(self).page_table,
                    proc_data: final(self).proc_data,
                    ..*old(self)
                })
            },
    {
        if pid == 0 || pid > MAX_STACK_PID || self.status == ProgramStatus::Dead {
            return None;
        }
        let ghost segs = image.segments@;
        let ghost ex = self.page_table.unwrap().regions();
        let bot = STACK_INIT_BOT - (pid as u64 - 1) * STACK_MAX_SIZE;
        let st = Region { start: bot, pages: STACK_DEF_PAGE };
        proof {
            lemma_slot_shift(STACK_INIT_BOT as int, pid - 1);
            assert(st == stack_slot(pid));
        }
        // check the whole image before mapping any of it
        let mut i: usize = 0;
        while i < image.segments.len()
            invariant
                i <= segs.len(),
                segs == image.segments@,
                *self == *old(self),
                old(self).wf(),
                old(self).status != ProgramStatus::Dead,
                self.page_table.is_some(),
                ex == self.page_table.unwrap().regions(),
                forall|a: int| 0 <= a < i ==> (#[trigger] segs[a]).end() <= USER_SPACE_END,
                forall|a: int, j: int| 0 <= a < i && 0 <= j < ex.len() ==> !(#[trigger] ex[j]).overlaps(#[trigger] segs[a]),
                forall|a: int, b: int| 0 <= a < b < i ==> !(#[trigger] segs[a]).overlaps(#[trigger] segs[b]),
            decreases segs.len() - i,
        {
            let seg = image.segments[i];
            if seg.start as u128 + seg.pages as u128 * 4096 > USER_SPACE_END as u128 {
                return None;
            }
            let free = match &self.page_table {
                Some(s) => s.range_free(seg),
                None => false,
            };
            if !free {
                proof {
                    let j = choose|j: int| 0 <= j < ex.len() && #[trigger] ex[j].overlaps(seg);
                    assert(ex[j].overlaps(segs[i as int]));
                }
                return None;
            }
            let mut k: usize = 0;
            while k < i
                invariant
                    k <= i < segs.len(),
                    segs == image.segments@,
                    seg == segs[i as int],
                    forall|a: int| 0 <= a < k ==> !(#[trigger] segs[a]).overlaps(seg),
                    *self == *old(self),
                    old(self).wf(),
                    old(self).status != ProgramStatus::Dead,

                decreases i - k,
            {
                if overlap(image.segments[k], seg) {
                    return None;
                }
                k = k + 1;
            }
            i = i + 1;
        }
        let free = match &self.page_table {
            Some(s) => s.range_free(st),
            None => false,
        };
        if !free {
            proof {
                let j = choose|j: int| 0 <= j < ex.len() && #[trigger] ex[j].overlaps(st);
                assert(ex[j].overlaps(st));
            }
            return None;
        }
        let mut a: usize = 0;
        while a < image.segments.len()
            invariant
                a <= segs.len(),
                segs == image.segments@,
                forall|b: int| 0 <= b < a ==> !(#[trigger] segs[b]).overlaps(st),
                *self == *old(self),
                old(self).wf(),
                old(self).status != ProgramStatus::Dead,
                1 <= pid <= MAX_STACK_PID,
                st == stack_slot(pid),
                bot == st.start,
                self.page_table.is_some(),
                ex == self.page_table.unwrap().regions(),
                forall|a: int| 0 <= a < segs.len() ==> (#[trigger] segs[a]).end() <= USER_SPACE_END,
                forall|a: int, j: int| 0 <= a < segs.len() && 0 <= j < ex.len() ==> !(#[trigger] ex[j]).overlaps(#[trigger] segs[a]),
                forall|a: int, b: int| 0 <= a < b < segs.len() ==> !(#[trigger] segs[a]).overlaps(#[trigger] segs[b]),
                forall|j: int| 0 <= j < ex.len() ==> !(#[trigger] ex[j]).overlaps(st),
            decreases segs.len() - a,
        {
            if overlap(image.segments[a], st) {
                return None;
            }
            a = a + 1;
        }
        // every piece is free: map them
        let mut m: usize = 0;
        while m < image.segments.len()
            invariant
                m <= segs.len(),
                segs == image.segments@,
                image_loadable(ex, segs, pid),
                self.wf(),
                self.status != ProgramStatus::Dead,
                self.page_table.unwrap().regions() == ex + segs.take(m as int),
                self.page_table.unwrap().mem() == old(self).page_table.unwrap().mem(),
                *self == (ProcessInner { page_table: self.page_table, ..*old(self) }),
            decreases segs.len() - m,
        {
            let seg = image.segments[m];
            proof {
                let rs = ex + segs.take(m as int);
                assert forall|j: int| 0 <= j < rs.len() implies !#[trigger] rs[j].overlaps(seg) by {
                    if j < ex.len() {
                        assert(rs[j] == ex[j]);
                    } else {
                        assert(rs[j] == segs[j - ex.len()]);
                    }
                }
            }
            match &mut self.page_table {
                Some(s) => {
                    s.map_range(seg.start, seg.pages);
                },
                None => {},
            }
            proof {
                assert((ex + segs.take(m as int)).push(seg) =~= ex + segs.take(m + 1));
            }
            m = m + 1;
        }
        proof {
            assert(segs.take(segs.len() as int) =~= segs);
            let rs = ex + segs;
            assert forall|j: int| 0 <= j < rs.len() implies !#[trigger] rs[j].overlaps(st) by {
                if j < ex.len() {
                    assert(rs[j] == ex[j]);
                } else {
                    assert(rs[j] == segs[j - ex.len()]);
                }
            }
        }
        match &mut self.page_table {
            Some(s) => {
                s.map_range(bot, STACK_DEF_PAGE);
            },
            None => {},
        }
        let mut code_pages: u64 = 0;
        let mut k: usize = 0;
        while k < image.segments.len()
            invariant
                k <= segs.len(),
                segs == image.segments@,
                code_pages == pages_sum(segs, k as int),
            decreases segs.len() - k,
        {
            code_pages = code_pages.saturating_add(image.segments[k].pages);
            k = k + 1;
        }
        match &mut self.proc_data {
            Some(d) => {
                d.code_segments = image.segments.clone();
                d.code_memory = code_pages;
                d.stack_segment = Some(st);
                d.stack_memory = STACK_DEF_PAGE;
            },
            None => {},
        }
        Some(bot)
    }
}

/// Highest process id that has a stack slot below the stack ceiling.
pub const MAX_STACK_PID: u16 = 16384;

/// The initial stack of process `pid`: the top page of stack slot `pid - 1`
/// below the ceiling.
pub open spec fn stack_slot(pid: u16) -> Region {
    Region {
        start: (STACK_INIT_BOT - (pid - 1) * STACK_MAX_SIZE) as u64,
        pages: STACK_DEF_PAGE,
    }
}

/// A program image as the loader hands it over: its entry point and the
/// page runs of its loadable segments.
pub struct ExecImage {
    pub entry: u64,
    pub segments: Vec<Region>,
}

/// Whether an image loads for process `pid` into an address space with the
/// regions `ex` mapped: `pid` has a stack slot, every segment lies in user
/// space, no segment overlaps a mapped region or another segment, and the
/// stack page overlaps neither.
pub open spec fn image_loadable(ex: Seq<Region>, segs: Seq<Region>, pid: u16) -> bool {
    &&& 1 <= pid <= MAX_STACK_PID
    &&& forall|a: int| 0 <= a < segs.len() ==> (#[trigger] segs[a]).end() <= USER_SPACE_END
    &&& forall|a: int, j: int|
        0 <= a < segs.len() && 0 <= j < ex.len() ==> !(#[trigger] ex[j]).overlaps(#[trigger] segs[a])
    &&& forall|a: int, b: int| 0 <= a < b < segs.len() ==> !(#[trigger] segs[a]).overlaps(#[trigger] segs[b])
    &&& forall|j: int| 0 <= j < ex.len() ==> !(#[trigger] ex[j]).overlaps(stack_slot(pid))
    &&& forall|a: int| 0 <= a < segs.len() ==> !(#[trigger] segs[a]).overlaps(stack_slot(pid))
}

/// Pages in the first `n` segments, the sum stopping at `u64::MAX`.
pub open spec fn pages_sum(segs: Seq<Region>, n: int) -> int
    decreases n,
{
    if n <= 0 {
        0
    } else {
        let t = pages_sum(segs, n - 1) + segs[n - 1].pages;
        if t > u64::MAX {
            u64::MAX as int
        } else {
            t
        }
    }
}

impl Process {
    /// A new ready process with the next id from `pids`, named `name` in
    /// lower case, with a zeroed context; `None` once ids are used up.
    pub fn new(
        pids: &mut PidAllocator,
        name: &str,
        parent: Option<ProcessId>,
        page_table: AddressSpace,
        proc_data: ProcessData,
    ) -> (r: Option<Process>)
        requires
            old(pids).wf(),
            page_table.wf(),
            proc_data.wf(),
        ensures
            final(pids).wf(),
            r.is_some() == (old(pids).next_pid() < u16::MAX),
            r.is_some() ==> {
                let p = r.unwrap();
                &&& final(pids).next_pid() == old(pids).next_pid() + 1
                &&& p.pid.0 == old(pids).next_pid()
                &&& p.inner.wf()
                &&& p.inner.name@ == ascii_lower(name@)
                &&& p.inner.parent == parent
                &&& p.inner.children@ == Seq::<ProcessId>::empty()
                &&& p.inner.ticks_passed == 0
                &&& p.inner.status == ProgramStatus::Ready
                &&& p.inner.exit_code.is_none()
                &&& p.inner.context == ProcessContext { rax: 0, rbp: 0, rsp: 0, rip: 0, rflags: 0 }
                &&& p.inner.page_table == Some(page_table)
                &&& p.inner.proc_data == Some(proc_data)
            },
            r.is_none() ==> final(pids).next_pid() == old(pids).next_pid(),
    {
        let pid = match ProcessId::new(pids) {
            Some(p) => p,
            None => {
                return None;
            },
        };
        let inner = ProcessInner {
            name: to_lower(name),
            parent,
            children: Vec::new(),
            ticks_passed: 0,
            status: ProgramStatus::Ready,
            exit_code: None,
            context: ProcessContext::empty(),
            page_table: Some(page_table),
            proc_data: Some(proc_data),
        };
        Some(Process { pid, inner })
    }

    /// Maps the initial stack of this process (one page at the top of its
    /// stack slot, see `stack_slot`) and records it; returns the initial
    /// stack pointer, 8 bytes below the page's end. `None`, with nothing
    /// changed, where the process is dead, its id has no slot, or the page
    /// is mapped already.
    pub fn alloc_init_stack(&mut self) -> (r: Option<u64>)
        requires
            old(self).inner.wf(),
        ensures
            final(self).inner.wf(),
            final(self).pid == old(self).pid,
            r.is_none() ==> *final(self) == *old(self),
            r.is_some() <==> (old(self).inner.status != ProgramStatus::Dead && 1 <= old(self).pid.0 <= MAX_STACK_PID
                && old(self).inner.page_table.unwrap().is_free(stack_slot(old(self).pid.0))),
            r.is_some() ==> {
                let st = stack_slot(old(self).pid.0);
                &&& r.unwrap() == st.start + STACK_DEF_SIZE - 8
                &&& final(self).inner.proc_data.unwrap().stack_segment == Some(st)
                &&& final(self).inner.proc_data.unwrap().stack_memory == STACK_DEF_PAGE
                &&& final(self).inner.page_table.unwrap().regions() == old(self).inner.page_table.unwrap().regions().push(st)
                &&& final(self).inner.page_table.unwrap().mem() == old(self).inner.page_table.unwrap().mem()
                &&& final(self).inner == (ProcessInner {
                    page_table: final(self).inner.page_table,
                    proc_data: final(self).inner.proc_data,
                    ..old(self).inner
                })
            },
    {
        if self.inner.status == ProgramStatus::Dead || self.pid.0 == 0 || self.pid.0 > MAX_STACK_PID {
            return None;
        }
        let bot = STACK_INIT_BOT - (self.pid.0 as u64 - 1) * STACK_MAX_SIZE;
        let st = Region { start: bot, pages: STACK_DEF_PAGE };
        let free = match &self.inner.page_table {
            Some(s) => s.range_free(st),
            None => false,
        };
        if !free {
            return None;
        }
        proof {
            lemma_slot_shift(STACK_INIT_BOT as int, self.pid.0 - 1);
        }
        match &mut self.inner.page_table {
            Some(s) => {
                s.map_range(bot, STACK_DEF_PAGE);
            },
            None => {},
        }
        match &mut self.inner.proc_data {
            Some(d) => {
                d.stack_segment = Some(st);
                d.stack_memory = STACK_DEF_PAGE;
            },
            None => {},
        }
        Some(bot + STACK_DEF_SIZE - 8)
    }

    pub fn pid(&self) -> (r: ProcessId)
        ensures
            r == self.pid,
    {
        self.pid
    }

    /// Kills the process with exit code `ret`; see `ProcessInner::kill`.
    pub fn kill(&mut self, ret: isize)
        requires
            old(self).inner.wf(),
        ensures
            final(self).pid == old(self).pid,
            final(self).inner.wf(),
            old(self).inner.status == ProgramStatus::Dead ==> final(self).inner == old(self).inner,
            old(self).inner.status != ProgramStatus::Dead ==> final(self).inner == (ProcessInner {
                exit_code: Some(ret),
                status: ProgramStatus::Dead,
                page_table: None,
                proc_data: None,
                ..old(self).inner
            }),
    {
        self.inner.kill(ret);
    }

    /// Forks this process: the child (see `ProcessInner::fork`) takes the
    /// next id; the parent records it as a child, and its saved return-value
    /// register holds the child's id. `None`, with nothing changed, when the
    /// inner fork fails or ids are used up.
    pub fn fork(&mut self, pids: &mut PidAllocator) -> (r: Option<Process>)
        requires
            old(self).inner.wf(),
            old(pids).wf(),
        ensures
            final(self).inner.wf(),
            final(pids).wf(),
            final(self).pid == old(self).pid,
            r.is_none() ==> *final(self) == *old(self) && final(pids).next_pid() == old(pids).next_pid(),
            r.is_some() ==> {
                let c = r.unwrap();
                &&& old(pids).next_pid() < u16::MAX
                &&& c.pid.0 == old(pids).next_pid()
                &&& final(pids).next_pid() == old(pids).next_pid() + 1
                &&& old(self).pid.0 < old(pids).next_pid() ==> c.pid != old(self).pid
                &&& forall|k: ProcessId|
                    old(self).inner.children@.contains(k) && k.0 < old(pids).next_pid() ==> k != c.pid
                &&& fork_result(
                    old(self).inner,
                    ProcessInner {
                        children: old(self).inner.children,
                        context: old(self).inner.context,
                        ..final(self).inner
                    },
                    c.inner,
                    old(self).pid,
                )
                &&& final(self).inner.children@ == old(self).inner.children@.push(c.pid)
                &&& final(self).inner.context == (ProcessContext { rax: c.pid.0 as u64, ..old(self).inner.context })
            },
            (old(pids).next_pid() < u16::MAX && old(self).inner.status != ProgramStatus::Dead
                && old(self).inner.proc_data.unwrap().stack_segment.is_some() && (exists|m: int|
                old(self).inner.children@.len() < m && #[trigger] child_slot_free(
                    old(self).inner.page_table.unwrap(),
                    old(self).inner.proc_data.unwrap().stack_segment.unwrap().start,
                    old(self).inner.proc_data.unwrap().stack_segment.unwrap().pages,
                    m,
                ))) <==> r.is_some(),
    {
        if pids.peek() == u16::MAX {
            return None;
        }
        let child_inner = match self.inner.fork(self.pid) {
            Some(c) => c,
            None => {
                return None;
            },
        };
        let pid = match ProcessId::new(pids) {
            Some(p) => p,
            None => {
                return None;
            },
        };
        self.inner.children.push(pid);
        self.inner.context.set_rax(pid.0 as u64);
        Some(Process { pid, inner: child_inner })
    }
}

} // verus!
