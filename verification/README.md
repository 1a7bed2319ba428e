# mygoroutine

Green threads in four flavours, with their scheduling logic verified by Verus.

- `src/lib.rs`: a round-robin runtime whose tasks are `corosensei`
  coroutines (the coroutine calls sit behind small trusted functions).
- `src/context.rs` (+ `context/x86_64.rs`, `context/aarch64.rs`): the saved
  registers of a task and the layout of a fresh task stack.
- `src/task.rs`: a task (saved context, stack, finished flag).
- `src/n1.rs`: the N:1 worker (one thread, one FIFO run queue), with the
  round-robin laws.
- `src/mn.rs`: the M:N workers sharing one queue.
- `src/gmp.rs`: the GMP scheduler (workers, processors with local queues,
  a global queue); its contracts state that processors and tasks are
  neither lost nor duplicated and when the runtime shuts down.

`app/` wraps these in the usable API: thread-local worker state, the
register switch in inline assembly, OS threads, locks and condition
variables. `tests/` exercises the library on concrete scenarios.
