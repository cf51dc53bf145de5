//! Constants of the kernel's memory layout and of its system-call table.
use vstd::prelude::*;

verus! {

/// Size of a page in bytes.
pub const PAGE_SIZE: usize = 0x1000;

/// Number of system-call numbers whose calls are counted per task.
pub const MAX_SYSCALL_NUM: usize = 500;

/// End of the physical memory; `mmap` and `munmap` refuse a start at or above it.
pub const MEMORY_END: usize = 0x8800_0000;

} // verus!
