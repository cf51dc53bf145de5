//! The process-management part of a small RISC-V teaching kernel: the task
//! manager and its scheduler, each task's user address space, and the system
//! calls that act on them.
use vstd::prelude::*;

pub mod config;
pub mod mm;
pub mod trap;
pub mod task;
pub mod syscall;

verus! {

} // verus!
