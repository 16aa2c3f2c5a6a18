use vstd::prelude::*;

verus! {

/// Identifier of the kernel's own process.
pub const KERNEL_PID: u16 = 1;

/// The first identifier handed to a process other than the kernel.
pub const FIRST_USER_PID: u16 = 2;

/// A process identifier: an opaque 16-bit value, never reused in a session.
#[derive(Clone, Copy, PartialEq, Eq, Structural, Debug)]
pub struct ProcessId(pub u16);

/// Hands out process identifiers in increasing order, starting after the
/// kernel's own.
pub struct PidAllocator {
    next: u16,
}

impl PidAllocator {
    /// The identifier that the next allocation returns.
    pub closed spec fn next_pid(&self) -> int {
        self.next as int
    }

    pub open spec fn wf(&self) -> bool {
        FIRST_USER_PID <= self.next_pid() <= u16::MAX
    }

    pub fn new() -> (r: PidAllocator)
        ensures
            r.wf(),
            r.next_pid() == FIRST_USER_PID,
    {
        PidAllocator { next: FIRST_USER_PID }
    }

    /// The identifier that the next allocation returns.
    pub fn peek(&self) -> (r: u16)
        ensures
            r as int == self.next_pid(),
    {
        self.next
    }
}

impl ProcessId {
    /// Allocates a fresh identifier. Identifiers come in increasing order;
    /// once all 16-bit values are used up, the allocator refuses rather than
    /// wrap around and reuse one.
    pub fn new(alloc: &mut PidAllocator) -> (r: Option<ProcessId>)
        requires
            old(alloc).wf(),
        ensures
            final(alloc).wf(),
            old(alloc).next_pid() < u16::MAX ==> r == Some(ProcessId(old(alloc).next_pid() as u16))
                && final(alloc).next_pid() == old(alloc).next_pid() + 1,
            old(alloc).next_pid() == u16::MAX ==> r.is_none() && final(alloc).next_pid()
                == old(alloc).next_pid(),
    {
        if alloc.next == u16::MAX {
            None
        } else {
            let pid = alloc.next;
            alloc.next = alloc.next + 1;
            Some(ProcessId(pid))
        }
    }

    /// The identifier's numeric value.
    pub fn value(&self) -> (r: u16)
        ensures
            r == self.0,
    {
        self.0
    }
}

} // verus!
