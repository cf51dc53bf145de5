# rcore_os

The process-management core of a small RISC-V (Sv39) teaching kernel, written
in Verus and verified.

- `src/config.rs`: page size, number of counted system calls, end of memory.
- `src/mm.rs`: virtual addresses and page numbers, page-table entries (frame
  number and flags), map permissions, the stack allocator of physical frames,
  and `MemorySet`, a task's user address space (leaf entries, the level-1 and
  leaf page tables with their frames, and the bytes behind each valid entry),
  with mapping, unmapping and byte-level reads and writes of user memory.
- `src/trap.rs`: the trap context saved for each task.
- `src/task.rs`: task control blocks, the program break, and `TaskManager`:
  the round-robin choice of the next task, task state changes, system-call
  counting and the current task's address space.
- `src/syscall/process.rs`: `exit`, `yield`, `get_time`, `task_info`, `mmap`,
  `munmap` and `sbrk`, including the byte layout of what they write to user
  memory, and the laws that relate them.
- `app/main.rs`: a hosted run with a global task manager, a clock and a
  system-call entry; it checks the conditions under which the kernel would
  fault before it calls into the library.

The clock and the context switch are outside the library: the functions that
need the time take it as an argument, and those that pick a task return its id.
