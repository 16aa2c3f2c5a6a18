//! Process management core of a small teaching kernel, as a verified model:
//! process identifiers, per-process address spaces, process control blocks,
//! the scheduler's process table and ready queue, kernel semaphores, the
//! syscall surface over them, and the FAT16 directory-entry format that the
//! file resources read.
use vstd::prelude::*;

pub mod context;
pub mod data;
pub mod fat16;
pub mod io;
pub mod laws;
pub mod manager;
pub mod memory;
pub mod pid;
pub mod process;
pub mod resource;
pub mod sem;
pub mod sync;
pub mod syscall;

verus! {

} // verus!
