use vstd::prelude::*;
use crate::context::ProcessContext;
use crate::manager::{new_sem_effect, remove_sem_effect, ProcessManager};
use crate::syscall::{signal_effect, sys_sem, wait_effect, Syscall, SyscallArgs};

verus! {

/// A program's handle on the semaphore with key `key` of its group; each
/// operation is a `Sem` system call made with the program's registers.
#[derive(Clone, Copy, PartialEq, Eq, Structural, Debug)]
pub struct Semaphore {
    key: u32,
}

impl Semaphore {
    pub closed spec fn key_spec(&self) -> u32 {
        self.key
    }

    pub fn new(key: u32) -> (r: Semaphore)
        ensures
            r.key_spec() == key,
    {
        Semaphore { key }
    }

    /// Creates the semaphore with `value` free slots; false where it exists
    /// already or the caller is dead.
    pub fn init(&self, m: &mut ProcessManager, ctx: &mut ProcessContext, value: usize) -> (r: bool)
        requires
            old(m).wf(),
        ensures
            final(m).wf(),
            new_sem_effect(*old(m), *final(m), self.key_spec(), value, r),
    {
        let args = SyscallArgs { syscall: Syscall::Sem, arg0: 0, arg1: self.key as usize, arg2: value };
        sys_sem(m, &args, ctx);
        ctx.rax != 0
    }

    /// Removes the semaphore; false where there is none or the caller is
    /// dead.
    pub fn free(&self, m: &mut ProcessManager, ctx: &mut ProcessContext) -> (r: bool)
        requires
            old(m).wf(),
        ensures
            final(m).wf(),
            remove_sem_effect(*old(m), *final(m), self.key_spec(), r),
    {
        let args = SyscallArgs { syscall: Syscall::Sem, arg0: 1, arg1: self.key as usize, arg2: 0 };
        sys_sem(m, &args, ctx);
        ctx.rax != 0
    }

    /// Signals the semaphore (see `syscall::sem_signal`).
    pub fn signal(&self, m: &mut ProcessManager, ctx: &mut ProcessContext)
        requires
            old(m).wf(),
        ensures
            final(m).wf(),
            signal_effect(*old(m), *final(m), *final(ctx), self.key_spec()),
    {
        let args = SyscallArgs { syscall: Syscall::Sem, arg0: 2, arg1: self.key as usize, arg2: 0 };
        sys_sem(m, &args, ctx);
    }

    /// Waits on the semaphore (see `syscall::sem_wait`).
    pub fn wait(&self, m: &mut ProcessManager, ctx: &mut ProcessContext)
        requires
            old(m).wf(),
        ensures
            final(m).wf(),
            wait_effect(*old(m), *final(m), *final(ctx), self.key_spec()),
    {
        let args = SyscallArgs { syscall: Syscall::Sem, arg0: 3, arg1: self.key as usize, arg2: 0 };
        sys_sem(m, &args, ctx);
    }
}

} // verus!
