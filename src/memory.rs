use vstd::prelude::*;
use std::collections::HashMap;

verus! {

broadcast use vstd::std_specs::hash::group_hash_axioms;

pub const PAGE_SIZE: u64 = 4096;

/// Ceiling of the user stack area; every stack slot lies below it.
pub const STACK_MAX: u64 = 0x0000_4000_0000_0000;
/// Pages in one stack slot: the most a stack may grow to.
pub const STACK_MAX_PAGES: u64 = 0x100000;
/// Bytes in one stack slot.
pub const STACK_MAX_SIZE: u64 = STACK_MAX_PAGES * PAGE_SIZE;
/// Pages mapped for a fresh stack.
pub const STACK_DEF_PAGE: u64 = 1;
pub const STACK_DEF_SIZE: u64 = STACK_DEF_PAGE * PAGE_SIZE;
/// Bottom of the first process's initial stack.
pub const STACK_INIT_BOT: u64 = STACK_MAX - STACK_DEF_SIZE;
/// Initial stack pointer of the first process.
pub const STACK_INIT_TOP: u64 = STACK_MAX - 8;
/// Highest address of the lower (user) half of a canonical address space.
pub const USER_SPACE_END: u64 = 0x0000_8000_0000_0000;

/// Start of the page that holds `addr`.
pub open spec fn page_of(addr: u64) -> int {
    addr as int - addr as int % PAGE_SIZE as int
}

/// Relies on x86_64's `Page::<Size4KiB>::containing_address`, which aligns a
/// virtual address down to its 4 KiB page. Below the canonical hole
/// `VirtAddr::new_truncate` leaves the address as it is.
#[verifier::external_body]
pub(crate) fn page_floor(addr: u64) -> (r: u64)
    requires
        addr < USER_SPACE_END,
    ensures
        r as int == page_of(addr),
{
    let page = x86_64::structures::paging::Page::<x86_64::structures::paging::Size4KiB>::containing_address(
        x86_64::VirtAddr::new_truncate(addr),
    );
    page.start_address().as_u64()
}

/// Whether a page-fault error code reports a protection violation (bit 0)
/// rather than a page that is not present.
pub open spec fn protection_violation(err: u64) -> bool {
    err & 1 == 1
}

/// Relies on x86_64's `PageFaultErrorCode`: `from_bits_truncate` keeps the
/// known bits, and `PROTECTION_VIOLATION` is bit 0.
#[verifier::external_body]
pub(crate) fn is_protection_violation(err: u64) -> (r: bool)
    ensures
        r == protection_violation(err),
{
    x86_64::structures::idt::PageFaultErrorCode::from_bits_truncate(err).contains(
        x86_64::structures::idt::PageFaultErrorCode::PROTECTION_VIOLATION,
    )
}

/// A run of mapped pages: its first address and its length in pages.
#[derive(Clone, Copy, PartialEq, Eq, Structural, Debug)]
pub struct Region {
    pub start: u64,
    pub pages: u64,
}

impl Region {
    pub open spec fn end(&self) -> int {
        self.start as int + self.pages as int * PAGE_SIZE as int
    }

    pub open spec fn contains(&self, addr: int) -> bool {
        self.start as int <= addr < self.end()
    }

    pub open spec fn overlaps(&self, o: Region) -> bool {
        self.start < o.end() && o.start < self.end()
    }
}

/// The pages that hold the `len` bytes from `addr`: from the page of
/// `addr` up to the page of the last byte. `None` where the bytes do not
/// lie below the end of user space.
pub fn segment_pages(addr: u64, len: u64) -> (r: Option<Region>)
    ensures
        r.is_some() <==> addr < USER_SPACE_END && addr + len <= USER_SPACE_END,
        r.is_some() ==> {
            let g = r.unwrap();
            &&& g.start == page_of(addr)
            &&& g.pages == (addr + len - page_of(addr) + PAGE_SIZE - 1) / PAGE_SIZE as int
            &&& g.end() <= USER_SPACE_END
            &&& g.start <= addr && addr + len <= g.end()
        },
{
    if addr >= USER_SPACE_END || len > USER_SPACE_END - addr {
        return None;
    }
    let start = page_floor(addr);
    let end = addr + len;
    let pages = (end - start + PAGE_SIZE - 1) / PAGE_SIZE;
    proof {
        assert(start as int % 4096 == 0);
        assert(USER_SPACE_END as int % 4096 == 0);
    }
    Some(Region { start, pages })
}

/// Whether two regions share an address.
pub fn overlap(a: Region, b: Region) -> (r: bool)
    ensures
        r == a.overlaps(b),
{
    (a.start as u128) < b.start as u128 + b.pages as u128 * 4096 && (b.start as u128) < a.start as u128
        + a.pages as u128 * 4096
}

/// Value of the word at `addr` in a memory image; unwritten words read 0.
pub open spec fn word_at(mem: Map<u64, u64>, addr: u64) -> u64 {
    if mem.contains_key(addr) {
        mem[addr]
    } else {
        0
    }
}

/// A process's private address space: the regions mapped in it and the
/// words written to it.
pub struct AddressSpace {
    regions: Vec<Region>,
    words: HashMap<u64, u64>,
}

impl AddressSpace {
    pub closed spec fn regions(&self) -> Seq<Region> {
        self.regions@
    }

    pub closed spec fn mem(&self) -> Map<u64, u64> {
        self.words@
    }

    pub open spec fn mapped(&self, addr: int) -> bool {
        exists|i: int| 0 <= i < self.regions().len() && #[trigger] self.regions()[i].contains(addr)
    }

    pub open spec fn is_free(&self, r: Region) -> bool {
        forall|i: int| 0 <= i < self.regions().len() ==> !#[trigger] self.regions()[i].overlaps(r)
    }

    pub open spec fn wf(&self) -> bool {
        forall|i: int|
            0 <= i < self.regions().len() ==> (#[trigger] self.regions()[i]).end() <= USER_SPACE_END
    }

    /// The word a read at `addr` sees, or `None` where nothing is mapped.
    pub open spec fn read_spec(&self, addr: u64) -> Option<u64> {
        if self.mapped(addr as int) {
            Some(word_at(self.mem(), addr))
        } else {
            None
        }
    }

    /// An empty lower half.
    pub fn new() -> (r: AddressSpace)
        ensures
            r.wf(),
            r.regions() == Seq::<Region>::empty(),
            r.mem() == Map::<u64, u64>::empty(),
    {
        AddressSpace { regions: Vec::new(), words: HashMap::new() }
    }

    /// A copy with the same mappings and contents, independent of this one.
    pub fn duplicate(&self) -> (r: AddressSpace)
        ensures
            r.regions() == self.regions(),
            r.mem() == self.mem(),
    {
        AddressSpace { regions: self.regions.clone(), words: self.words.clone() }
    }

    /// Whether `r` overlaps no mapped region.
    pub fn range_free(&self, r: Region) -> (b: bool)
        ensures
            b == self.is_free(r),
    {
        let mut i: usize = 0;
        while i < self.regions.len()
            invariant
                i <= self.regions@.len(),
                forall|j: int| 0 <= j < i ==> !#[trigger] self.regions@[j].overlaps(r),
            decreases self.regions@.len() - i,
        {
            let q = self.regions[i];
            if q.start as u128 + q.pages as u128 * 4096 > r.start as u128 && (r.start as u128)
                + (r.pages as u128) * 4096 > q.start as u128 {
                assert(self.regions()[i as int].overlaps(r));
                return false;
            }
            i = i + 1;
        }
        true
    }

    /// Whether `addr` lies in a mapped region.
    pub fn is_mapped(&self, addr: u64) -> (b: bool)
        ensures
            b == self.mapped(addr as int),
    {
        let mut i: usize = 0;
        while i < self.regions.len()
            invariant
                i <= self.regions@.len(),
                forall|j: int| 0 <= j < i ==> !#[trigger] self.regions@[j].contains(addr as int),
            decreases self.regions@.len() - i,
        {
            let q = self.regions[i];
            if q.start <= addr && (addr as u128) < q.start as u128 + q.pages as u128 * 4096 {
                assert(self.regions()[i as int].contains(addr as int));
                return true;
            }
            i = i + 1;
        }
        false
    }

    /// Maps `pages` pages from `start`. Fails, mapping nothing, where any of
    /// them is mapped already.
    pub fn map_range(&mut self, start: u64, pages: u64) -> (ok: bool)
        requires
            old(self).wf(),
            start as int + pages as int * PAGE_SIZE as int <= USER_SPACE_END,
        ensures
            final(self).wf(),
            ok == old(self).is_free(Region { start, pages }),
            ok ==> final(self).regions() == old(self).regions().push(Region { start, pages }),
            !ok ==> final(self).regions() == old(self).regions(),
            final(self).mem() == old(self).mem(),
    {
        let r = Region { start, pages };
        if self.range_free(r) {
            self.regions.push(r);
            true
        } else {
            false
        }
    }

    /// Reads the word at `addr`; `None` where nothing is mapped.
    pub fn read_word(&self, addr: u64) -> (r: Option<u64>)
        ensures
            r == self.read_spec(addr),
    {
        if self.is_mapped(addr) {
            match self.words.get(&addr) {
                Some(v) => Some(*v),
                None => Some(0),
            }
        } else {
            None
        }
    }

    /// Writes the word at `addr`; refused where nothing is mapped.
    pub fn write_word(&mut self, addr: u64, val: u64) -> (ok: bool)
        ensures
            ok == old(self).mapped(addr as int),
            final(self).regions() == old(self).regions(),
            ok ==> final(self).mem() == old(self).mem().insert(addr, val),
            !ok ==> final(self).mem() == old(self).mem(),
    {
        if self.is_mapped(addr) {
            self.words.insert(addr, val);
            true
        } else {
            false
        }
    }

    /// Copies `pages` pages of words from `src` to `dst`, one word at a time
    /// upwards; the source lies wholly above the destination.
    pub fn copy_pages(&mut self, src: u64, dst: u64, pages: u64)
        requires
            pages <= STACK_MAX_PAGES,
            dst as int + pages as int * PAGE_SIZE as int <= src as int,
            src as int + pages as int * PAGE_SIZE as int <= USER_SPACE_END,
        ensures
            final(self).regions() == old(self).regions(),
            forall|k: int|
                0 <= k < pages as int * 512 ==> #[trigger] word_at(final(self).mem(), (dst + 8 * k) as u64)
                    == word_at(old(self).mem(), (src + 8 * k) as u64),
            forall|a: u64|
                !(dst <= a < dst as int + pages as int * PAGE_SIZE as int) ==> word_at(
                    final(self).mem(),
                    a,
                ) == word_at(old(self).mem(), a),
    {
        let n: u64 = pages * 512;
        let mut k: u64 = 0;
        while k < n
            invariant
                n == pages * 512,
                k <= n,
                pages <= STACK_MAX_PAGES,
                dst as int + pages as int * PAGE_SIZE as int <= src as int,
                src as int + pages as int * PAGE_SIZE as int <= USER_SPACE_END,
                self.regions() == old(self).regions(),
                forall|j: int|
                    0 <= j < k ==> #[trigger] word_at(self.mem(), (dst + 8 * j) as u64) == word_at(
                        old(self).mem(),
                        (src + 8 * j) as u64,
                    ),
                forall|a: u64|
                    !(dst <= a < dst as int + 8 * k) ==> word_at(self.mem(), a) == word_at(
                        old(self).mem(),
                        a,
                    ),
            decreases n - k,
        {
            let s = src + 8 * k;
            let d = dst + 8 * k;
            let v = match self.words.get(&s) {
                Some(v) => *v,
                None => 0,
            };
            assert(v == word_at(old(self).mem(), s)) by {
                assert(!(dst <= s < dst as int + 8 * k));
            }
            let ghost m0 = self.mem();
            self.words.insert(d, v);
            assert forall|j: int| 0 <= j < k + 1 implies #[trigger] word_at(
                self.mem(),
                (dst + 8 * j) as u64,
            ) == word_at(old(self).mem(), (src + 8 * j) as u64) by {
                if j < k {
                    assert(word_at(m0, (dst + 8 * j) as u64) == word_at(
                        old(self).mem(),
                        (src + 8 * j) as u64,
                    ));
                }
            }
            k = k + 1;
        }
    }
}

} // verus!
