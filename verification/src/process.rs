//! What a process of the thread chapter starts with when it is made from
//! a program image: its three standard descriptors, no locks, semaphores
//! or condition variables, deadlock detection off, and one thread that
//! starts at the program's entry with its stack pointer at the top of the
//! user stack and the address space's page table as its root; and what
//! the child of `fork` starts with.
use vstd::prelude::*;
use crate::deadlock::Process;
use crate::elf::{checked_load_plan, elf_header_of, loadable, plan_matches, LoadPlan, ET_EXEC, USER_SP};

verus! {

/// The paging mode bits of `satp` for Sv39.
pub const SATP_SV39: u64 = 0x8000_0000_0000_0000;

/// A plain descriptor: which ways it can be used.
#[derive(Clone, Copy, Debug, PartialEq, Eq, Structural)]
pub struct StdFd {
    pub read: bool,
    pub write: bool,
}

/// Where a thread starts: its program counter, stack pointer, first
/// argument register and `satp`.
#[derive(Clone, Copy, Debug, PartialEq, Eq, Structural)]
pub struct ThreadStart {
    pub pc: usize,
    pub sp: u64,
    pub a0: usize,
    pub satp: u64,
}

/// A new process besides its address space: its descriptor table, how
/// many semaphores, mutexes and condition variables it has made, its
/// deadlock bookkeeping, and its first thread.
pub struct NewProcess {
    pub fd_table: Vec<Option<StdFd>>,
    pub semaphores: usize,
    pub mutexes: usize,
    pub condvars: usize,
    pub sync: Process,
    pub thread: ThreadStart,
}

/// Standard input (read), output and error (write).
pub open spec fn std_fds() -> Seq<Option<StdFd>> {
    seq![
        Some(StdFd { read: true, write: false }),
        Some(StdFd { read: false, write: true }),
        Some(StdFd { read: false, write: true }),
    ]
}

/// The `satp` value of an Sv39 page table whose root is page `root_ppn`.
pub open spec fn satp_of(root_ppn: u64) -> u64 {
    SATP_SV39 | root_ppn
}

/// What a process made from an image with entry `entry`, whose address
/// space has its page table rooted at `root_ppn`, starts with.
pub open spec fn started(p: NewProcess, entry: usize, root_ppn: u64) -> bool {
    &&& p.fd_table@ == std_fds()
    &&& p.semaphores == 0 && p.mutexes == 0 && p.condvars == 0
    &&& !p.sync.deadlock
    &&& p.sync.mutex_owner@.len() == 0
    &&& p.sync.mutex_wait@ == Map::<usize, usize>::empty()
    &&& p.sync.semaphore_allocation@ == Map::<usize, Vec<usize>>::empty()
    &&& p.sync.semaphore_wait@ == Map::<usize, usize>::empty()
    &&& p.thread == ThreadStart { pc: entry, sp: USER_SP, a0: 0, satp: satp_of(root_ppn) }
}

impl NewProcess {
    /// Makes a process from a loaded image: the plan the image was loaded
    /// by and the page-table root of the address space built from it (the
    /// kernel's page allocator chose it). The image must be loadable (the
    /// kernel panics on one that is not); none unless it is an executable
    /// for RISC-V.
    pub fn from_elf(bytes: &[u8], root_ppn: u64) -> (r: Option<(LoadPlan, NewProcess)>)
        requires
            loadable(bytes@),
        ensures
            r is Some <==> (elf_header_of(bytes@) matches Some(h) && h.elf_type == ET_EXEC && h.riscv),
            r matches Some((plan, p)) ==> plan_matches(bytes@, Some(plan)) && started(
                p,
                plan.entry,
                root_ppn,
            ),
    {
        match checked_load_plan(bytes) {
            Some(plan) => {
                let p = NewProcess {
                    fd_table: vec![
                        Some(StdFd { read: true, write: false }),
                        Some(StdFd { read: false, write: true }),
                        Some(StdFd { read: false, write: true }),
                    ],
                    semaphores: 0,
                    mutexes: 0,
                    condvars: 0,
                    sync: Process::new(),
                    thread: ThreadStart { pc: plan.entry, sp: plan.user_sp, a0: 0, satp: SATP_SV39 | root_ppn },
                };
                assert(p.fd_table@ =~= std_fds());
                Some((plan, p))
            },
            None => None,
        }
    }

    /// The child of `fork`: a copy of this process's descriptor table, no
    /// locks, semaphores or condition variables, deadlock detection off,
    /// and one thread that goes on where the parent's thread `current`
    /// stopped, in the copied address space rooted at `root_ppn`, with
    /// `fork` returning 0 to it.
    pub fn fork(&self, current: ThreadStart, root_ppn: u64) -> (child: NewProcess)
        ensures
            child.fd_table@ == self.fd_table@,
            child.semaphores == 0 && child.mutexes == 0 && child.condvars == 0,
            !child.sync.deadlock,
            child.sync.mutex_owner@.len() == 0,
            child.sync.mutex_wait@ == Map::<usize, usize>::empty(),
            child.sync.semaphore_allocation@ == Map::<usize, Vec<usize>>::empty(),
            child.sync.semaphore_wait@ == Map::<usize, usize>::empty(),
            child.thread == (ThreadStart { a0: 0, satp: satp_of(root_ppn), ..current }),
    {
        let mut fds: Vec<Option<StdFd>> = Vec::new();
        let mut i: usize = 0;
        while i < self.fd_table.len()
            invariant
                i <= self.fd_table@.len(),
                fds@ == self.fd_table@.take(i as int),
            decreases self.fd_table.len() - i,
        {
            fds.push(self.fd_table[i]);
            i = i + 1;
            assert(fds@ =~= self.fd_table@.take(i as int));
        }
        assert(fds@ =~= self.fd_table@);
        NewProcess {
            fd_table: fds,
            semaphores: 0,
            mutexes: 0,
            condvars: 0,
            sync: Process::new(),
            thread: ThreadStart { pc: current.pc, sp: current.sp, a0: 0, satp: SATP_SV39 | root_ppn },
        }
    }
}

} // verus!
