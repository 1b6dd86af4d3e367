# os_kernel

The task-management and system-call logic of a small RISC-V teaching
kernel, written in Verus and proved against a mathematical model of the
kernel state.

- `src/mm.rs`: page arithmetic and the per-task set of mapped pages.
- `src/task.rs`: task control blocks, the task table with its current
  task, round-robin scheduling, exit, `mmap`/`munmap`, the heap end,
  system-call counts and trace requests.
- `src/processor.rs`: the processor's current task and the FIFO ready
  queue: suspending to the back of the queue, and exit with an exit code,
  where the children pass to the initial process.
- `src/process.rs`: `fork` and `exec`.
- `src/timeval.rs`: splitting microseconds into seconds and microseconds.
- `src/syscall.rs`: the system-call entry point, which counts each call
  and returns what is left to do (console output, raw user-memory access,
  a context switch).
- `src/laws.rs`: properties relating several operations.
- `app/lib.rs`: the global task manager, processor and ready queue, the timer, the console and raw
  user-memory accesses, around the verified library.
