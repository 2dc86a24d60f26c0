//! What a hart's scheduling loop does once a user program traps back into
//! the kernel, and whether the loop goes on at all. The loop itself (running
//! the program, reading the trap cause, calling the handlers) is the
//! kernel's; it hands these functions what happened and carries out what
//! they answer.
use vstd::prelude::*;

verus! {

/// System call number of `exit`.
pub const SYS_EXIT: usize = 93;
/// System call number of `mutex_lock`.
pub const SYS_MUTEX_LOCK: usize = 1011;
/// System call number of `semaphore_down`.
pub const SYS_SEMAPHORE_DOWN: usize = 1022;
/// System call number of `condvar_wait`.
pub const SYS_CONDVAR_WAIT: usize = 1032;
/// Exit code of a process that made a system call the kernel does not offer.
pub const EXIT_UNSUPPORTED: isize = -2;
/// Exit code of a process ended by a trap the kernel does not handle.
pub const EXIT_KILLED: isize = -3;

/// What a system call handler answered.
#[derive(Clone, Copy, Debug, PartialEq, Eq, Structural)]
pub enum SyscallOutcome {
    /// Handled, with this return value.
    Done(isize),
    /// No handler for this system call.
    Unsupported,
}

/// How a scheduling loop treats a task that goes on after a system call.
#[derive(Clone, Copy, Debug, PartialEq, Eq, Structural)]
pub enum LoopKind {
    /// The loop runs the same task again (the single-list loop of the
    /// paging chapter).
    SameTask,
    /// The loop puts the task back on the ready queue (the thread and
    /// multi-hart loops).
    ReadyQueue,
}

/// What brought the program back into the kernel.
#[derive(Clone, Copy, Debug, PartialEq, Eq, Structural)]
pub enum TrapEvent {
    /// System call `id`, already handled with this outcome; `signal_kill`
    /// is the exit code when the signal check that follows it kills the
    /// process.
    Syscall { id: usize, outcome: SyscallOutcome, signal_kill: Option<i32> },
    /// A page fault, already handled (the page is mapped now) or not.
    PageFault { handled: bool },
    /// The time slice ran out.
    Timer,
    /// Any other exception or interrupt.
    Other,
}

/// What becomes of the program.
#[derive(Clone, Copy, Debug, PartialEq, Eq, Structural)]
pub enum TrapAction {
    /// Goes on after the system call, which returns this value.
    Resume(isize),
    /// Its system call returns this value, and it goes back to the ready
    /// queue.
    Suspend(isize),
    /// Waits, off the ready queue, for what it asked for; its system call
    /// returns -1 once it runs again.
    Block,
    /// Goes on at the instruction that faulted.
    Retry,
    /// Goes back to the ready queue.
    Preempt,
    /// Ends with this exit code.
    Exit(isize),
}

/// Whether system call `id` waits for a lock, a semaphore or a condition.
pub open spec fn is_blocking_call(id: usize) -> bool {
    id == SYS_MUTEX_LOCK || id == SYS_SEMAPHORE_DOWN || id == SYS_CONDVAR_WAIT
}

/// The program's fate after a trap: a signal that kills the process after
/// a system call ends it with the signal's code; otherwise `exit` ends it
/// with its own code, a lock, semaphore or condition wait that answered -1
/// blocks it, any other handled system call returns its value (and the
/// task goes on, or back to the ready queue, as the loop does), an
/// unsupported one ends it with `EXIT_UNSUPPORTED`; a handled page fault
/// is retried, an unhandled one or any other trap ends it with
/// `EXIT_KILLED`; a timer interrupt sends it back to the queue.
pub open spec fn trap_action(kind: LoopKind, e: TrapEvent) -> TrapAction {
    match e {
        TrapEvent::Syscall { id, outcome, signal_kill } => match signal_kill {
            Some(code) => TrapAction::Exit(code as isize),
            None => match outcome {
                SyscallOutcome::Done(v) => if id == SYS_EXIT {
                    TrapAction::Exit(v)
                } else if is_blocking_call(id) && v == -1 {
                    TrapAction::Block
                } else {
                    match kind {
                        LoopKind::SameTask => TrapAction::Resume(v),
                        LoopKind::ReadyQueue => TrapAction::Suspend(v),
                    }
                },
                SyscallOutcome::Unsupported => TrapAction::Exit(EXIT_UNSUPPORTED),
            },
        },
        TrapEvent::PageFault { handled } => if handled {
            TrapAction::Retry
        } else {
            TrapAction::Exit(EXIT_KILLED)
        },
        TrapEvent::Timer => TrapAction::Preempt,
        TrapEvent::Other => TrapAction::Exit(EXIT_KILLED),
    }
}

/// Decides what becomes of a program after a trap in a loop of kind `kind`.
pub fn decide_trap(kind: LoopKind, event: TrapEvent) -> (r: TrapAction)
    ensures
        r == trap_action(kind, event),
{
    match event {
        TrapEvent::Syscall { id, outcome, signal_kill } => match signal_kill {
            Some(code) => TrapAction::Exit(code as isize),
            None => match outcome {
                SyscallOutcome::Done(v) => {
                    if id == SYS_EXIT {
                        TrapAction::Exit(v)
                    } else if (id == SYS_MUTEX_LOCK || id == SYS_SEMAPHORE_DOWN || id
                        == SYS_CONDVAR_WAIT) && v == -1 {
                        TrapAction::Block
                    } else {
                        match kind {
                            LoopKind::SameTask => TrapAction::Resume(v),
                            LoopKind::ReadyQueue => TrapAction::Suspend(v),
                        }
                    }
                },
                SyscallOutcome::Unsupported => TrapAction::Exit(EXIT_UNSUPPORTED),
            },
        },
        TrapEvent::PageFault { handled } => {
            if handled {
                TrapAction::Retry
            } else {
                TrapAction::Exit(EXIT_KILLED)
            }
        },
        TrapEvent::Timer => TrapAction::Preempt,
        TrapEvent::Other => TrapAction::Exit(EXIT_KILLED),
    }
}

/// What a hart's scheduling loop does next.
#[derive(Clone, Copy, Debug, PartialEq, Eq, Structural)]
pub enum LoopStep {
    /// Fetch and run a task.
    Run,
    /// All tasks are done: hart 0 shuts the machine down.
    Shutdown,
    /// All tasks are done: the other harts spin until then.
    Park,
}

/// The next step of hart `hart_id`'s loop when `live_tasks` tasks are left.
pub fn loop_step(live_tasks: usize, hart_id: usize) -> (r: LoopStep)
    ensures
        live_tasks > 0 ==> r == LoopStep::Run,
        live_tasks == 0 && hart_id == 0 ==> r == LoopStep::Shutdown,
        live_tasks == 0 && hart_id != 0 ==> r == LoopStep::Park,
{
    if live_tasks > 0 {
        LoopStep::Run
    } else if hart_id == 0 {
        LoopStep::Shutdown
    } else {
        LoopStep::Park
    }
}

} // verus!
