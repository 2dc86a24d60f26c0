# tg_rcore

The logic of a small RISC-V teaching kernel and of its demo programs,
written in Verus with contracts and proved.

- `src/` — the verified library:
  - `pager`, `vm_process`: demand paging (lazy `mmap`/`sbrk`, page faults,
    FIFO / Clock / LRU-approx / working-set replacement, swap, thrashing
    detection, statistics); changes to page tables and memory come back
    as effects for the kernel to apply.
  - `elf`: the loading plan of an ELF image, read with `xmas_elf`;
    `process`: what a process made from an image (or by `fork`) starts
    with; `kernel_map`: the kernel's own identity mappings and portal page.
  - `easy_fs`, `vfs`: an in-memory model of the file system's inodes,
    bitmaps and blocks, and the directory layer on top of it.
  - `deadlock`, `syscalls`, `trap`, `proc_rel`: mutex and semaphore
    deadlock detection (wait-for cycles, banker's check), system-call
    decisions, what a trap does to a program, parent/child bookkeeping.
  - `smp`: inter-hart messages, per-hart slots, interrupt-masking depth,
    the two-hart ready queues with work stealing, and the tasks' finish
    bookkeeping of the two-hart round robin.
  - `snake`, `pong`, `pacman`, `doom`, `gfx`, `bench`: the demo programs'
    game rules, drawing and the paging benchmark's access patterns.
- `tests/` — tests of the library on concrete values.
- `app/` — a host program that runs the paging benchmark against the
  library on a simulated machine, and the locks and cells that rest on
  `UnsafeCell` and interrupt-enable bits.
