# rustos

The verified core of a small AArch64 kernel for the Raspberry Pi, written
in Verus. The functions in `src/` carry contracts that Verus proves; the
few without one (such as `VirtualMemoryManager::initialize`) promise
nothing beyond what their types say.

- `src/kern/` — the earlier kernel: the binned buddy allocator, exception
  decoding and handling (the trap frame update after a `brk`) and the shell
  (command parsing, dispatch, line editing).
- `src/kernel/` — the current kernel: syndromes and trap handling, the
  scheduler (`scheduling::global`) with its round-robin and fair policies,
  a queue scheduler and a proportional-share scheduler (each saving and
  restoring the trap frames of the processes it switches), the register
  context a program starts from or a forked child resumes from, page-table entries
  and tables, user address spaces with copy-on-write forks, frame pin
  counts, resource tables, pipes, program arguments, system-call checks
  and the SD card's request checks.
- `src/image.rs` — the disk-image tool's size and partition rules.
- `src/bootloader.rs` — the bootloader's allocator.
- `app/` — the disk-image command-line tool, which does the file work.
- `tests/` — tests of the library on concrete values.

Hardware access (loading and storing registers on a trap, interrupts,
timers), locks built on atomics, and the file system stay outside the
library: the library decides what each trap frame holds, and its callers
perform the actions it returns.
