//! Verified core of a small RISC-V teaching kernel: syscall ABI values,
//! demand paging with page replacement, deadlock bookkeeping, SMP helpers,
//! a directory layer and the user-level demo programs' game logic.
use vstd::prelude::*;

pub mod abi;
pub mod bench;
pub mod deadlock;
pub mod doom;
pub mod easy_fs;
pub mod elf;
pub mod gfx;
pub mod kernel_map;
pub mod pacman;
pub mod pager;
pub mod pong;
pub mod proc_rel;
pub mod process;
pub mod smp;
pub mod snake;
pub mod syscalls;
pub mod trap;
pub mod vfs;
pub mod vm_process;
