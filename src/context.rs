use vstd::prelude::*;

verus! {

/// Interrupt-enable bit of the flags register.
pub const RFLAGS_IF: u64 = 0x200;

/// The register snapshot saved at a trap: the parts that the process core
/// reads or writes are the return-value register (`rax`), the stack and
/// frame pointers, the instruction pointer and the flags.
#[derive(Clone, Copy, PartialEq, Eq, Structural, Debug)]
pub struct ProcessContext {
    pub rax: u64,
    pub rbp: u64,
    pub rsp: u64,
    pub rip: u64,
    pub rflags: u64,
}

/// `v - from + to`, modulo 2^64.
pub open spec fn shifted(v: u64, from: u64, to: u64) -> u64 {
    ((v as int - from as int + to as int) % 0x1_0000_0000_0000_0000int) as u64
}

impl ProcessContext {
    /// A zeroed snapshot.
    pub fn empty() -> (r: ProcessContext)
        ensures
            r == (ProcessContext { rax: 0, rbp: 0, rsp: 0, rip: 0, rflags: 0 }),
    {
        ProcessContext { rax: 0, rbp: 0, rsp: 0, rip: 0, rflags: 0 }
    }

    /// Sets the return-value register.
    pub fn set_rax(&mut self, v: u64)
        ensures
            *final(self) == (ProcessContext { rax: v, ..*old(self) }),
    {
        self.rax = v;
    }

    /// Seeds the snapshot so that restoring it starts at `entry` with stack
    /// pointer `stack_top` and interrupts enabled.
    pub fn init_stack_frame(&mut self, entry: u64, stack_top: u64)
        ensures
            *final(self) == (ProcessContext {
                rax: 0,
                rbp: stack_top,
                rsp: stack_top,
                rip: entry,
                rflags: RFLAGS_IF,
            }),
    {
        self.rax = 0;
        self.rbp = stack_top;
        self.rsp = stack_top;
        self.rip = entry;
        self.rflags = RFLAGS_IF;
    }

    /// Moves the stack pointer from a stack based at `from` to one based at
    /// `to`, keeping its offset from the base; every other register stays.
    pub fn move_stack(&mut self, from: u64, to: u64)
        ensures
            *final(self) == (ProcessContext {
                rsp: shifted(old(self).rsp, from, to),
                ..*old(self)
            }),
    {
        self.rsp = self.rsp.wrapping_sub(from).wrapping_add(to);
        proof {
            assert(self.rsp == shifted(old(self).rsp, from, to));
        }
    }
}

} // verus!
