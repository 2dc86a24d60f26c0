//! Two-hart support: the actions one hart posts to another, per-hart
//! slots, the hart-started flags, nested interrupt masking, how tasks are
//! split between the harts, and the per-hart ready queues with stealing.
use vstd::prelude::*;
use std::collections::{BTreeMap, VecDeque};
use std::sync::atomic::{AtomicBool, AtomicU8, AtomicUsize, Ordering};

verus! {

broadcast use vstd::std_specs::btree::group_btree_axioms, vstd::laws_cmp::group_laws_cmp;

/// Number of harts supported.
pub const MAX_CPUS: usize = 2;

/// What one hart asks of another.
#[derive(Clone, Copy, PartialEq, Eq, Structural, Debug)]
pub enum IpiAction {
    /// Nothing to do.
    NoAction,
    /// Flush the TLB.
    TlbShootdown,
    /// Wake up.
    Wakeup,
    /// Pick another task.
    Reschedule,
}

/// The byte an action is posted as.
pub open spec fn ipi_code(a: IpiAction) -> u8 {
    match a {
        IpiAction::NoAction => 0,
        IpiAction::TlbShootdown => 1,
        IpiAction::Wakeup => 2,
        IpiAction::Reschedule => 3,
    }
}

/// The action a posted byte stands for (any unknown byte is no action).
pub open spec fn ipi_action_of(value: u8) -> IpiAction {
    if value == 1 {
        IpiAction::TlbShootdown
    } else if value == 2 {
        IpiAction::Wakeup
    } else if value == 3 {
        IpiAction::Reschedule
    } else {
        IpiAction::NoAction
    }
}

impl IpiAction {
    /// The byte this action is posted as.
    pub fn code(self) -> (r: u8)
        ensures
            r == ipi_code(self),
    {
        match self {
            IpiAction::NoAction => 0,
            IpiAction::TlbShootdown => 1,
            IpiAction::Wakeup => 2,
            IpiAction::Reschedule => 3,
        }
    }

    /// The action a posted byte stands for.
    pub fn from_code(value: u8) -> (r: IpiAction)
        ensures
            r == ipi_action_of(value),
    {
        match value {
            1 => IpiAction::TlbShootdown,
            2 => IpiAction::Wakeup,
            3 => IpiAction::Reschedule,
            _ => IpiAction::NoAction,
        }
    }
}

/// Decoding the byte an action is posted as gives the action back.
pub proof fn lemma_ipi_code_round_trip(a: IpiAction)
    ensures
        ipi_action_of(ipi_code(a)) == a,
{
}

/// Posts `action` to hart `target_hart`'s mailbox (replacing what was there).
pub fn post_ipi(pending: &[AtomicU8], target_hart: usize, action: IpiAction)
    requires
        target_hart < pending@.len(),
{
    let code = action.code();
    pending[target_hart].store(code, Ordering::Release);
}

/// Takes what is in hart `hart`'s mailbox, leaving it empty, and decodes it.
/// The other hart may post at any moment, so nothing is promised of which
/// action comes back.
pub fn take_pending_ipi(pending: &[AtomicU8], hart: usize) -> (r: IpiAction)
    requires
        hart < pending@.len(),
{
    let value = pending[hart].swap(0, Ordering::AcqRel);
    IpiAction::from_code(value)
}

/// What a chapter does on each action.
pub trait IpiHandler {
    /// Flushes the TLB.
    fn handle_tlb_shootdown(&self);

    /// Wakes up.
    fn handle_wakeup(&self);

    /// Picks another task.
    fn handle_reschedule(&self);

    /// Takes this hart's pending action and handles it.
    fn dispatch_ipi(&self, pending: &[AtomicU8], hart: usize)
        requires
            hart < pending@.len(),
    {
        match take_pending_ipi(pending, hart) {
            IpiAction::NoAction => {},
            IpiAction::TlbShootdown => self.handle_tlb_shootdown(),
            IpiAction::Wakeup => self.handle_wakeup(),
            IpiAction::Reschedule => self.handle_reschedule(),
        }
    }
}

/// Records that hart `hart_id` has finished its earliest start-up.
pub fn mark_hart_started(started: &[AtomicBool], hart_id: usize)
    requires
        hart_id < started@.len(),
{
    started[hart_id].store(true, Ordering::Release);
}

/// Whether hart `hart_id` has recorded its start-up. That hart may record
/// it at any moment, so nothing is promised of the value read.
pub fn hart_started(started: &[AtomicBool], hart_id: usize) -> bool
    requires
        hart_id < started@.len(),
{
    started[hart_id].load(Ordering::Acquire)
}

/// Keeps the compiler from moving memory accesses across this point: a
/// call of `core::sync::atomic::compiler_fence` with sequential
/// consistency. It returns nothing, so nothing is stated.
#[verifier::external_body]
pub fn compiler_barrier() {
    std::sync::atomic::compiler_fence(Ordering::SeqCst);
}

/// Records the kernel's page-table root for the harts that start later.
pub fn set_kernel_satp(kernel_satp: &AtomicUsize, satp: usize) {
    kernel_satp.store(satp, Ordering::Release);
}

/// One value per hart.
pub struct PerCpu<T> {
    pub data: [T; MAX_CPUS],
}

impl<T: Copy> PerCpu<T> {
    /// The slots, hart by hart.
    pub open spec fn slots(&self) -> Seq<T> {
        self.data@
    }

    /// Slots holding `init`.
    pub fn new(init: [T; MAX_CPUS]) -> (r: Self)
        ensures
            r.slots() == init@,
    {
        PerCpu { data: init }
    }

    /// Hart `hart`'s value.
    pub fn get(&self, hart: usize) -> (r: T)
        requires
            hart < MAX_CPUS,
        ensures
            r == self.slots()[hart as int],
    {
        self.data[hart]
    }

    /// Sets hart `hart`'s value.
    pub fn set(&mut self, hart: usize, value: T)
        requires
            hart < MAX_CPUS,
        ensures
            final(self).slots() == old(self).slots().update(hart as int, value),
    {
        self.data[hart] = value;
    }
}

/// Each hart has a slot of its own: after hart `h` sets its value it reads
/// that value back, and any other hart reads what it read before.
pub proof fn lemma_percpu_isolated<T>(slots: Seq<T>, h: int, v: T, other: int)
    requires
        0 <= h < slots.len(),
        0 <= other < slots.len(),
        other != h,
    ensures
        slots.update(h, v)[h] == v,
        slots.update(h, v)[other] == slots[other],
{
}

/// Forgets which process hart `hart` runs.
pub fn clear_current_process(current: &mut PerCpu<usize>, hart: usize)
    requires
        hart < MAX_CPUS,
    ensures
        final(current).slots() == old(current).slots().update(hart as int, 0usize),
{
    current.set(hart, 0);
}

/// The tasks `start..end` a hart runs.
#[derive(Clone, Copy, PartialEq, Eq, Structural, Debug)]
pub struct SchedulerRange {
    pub start: usize,
    pub end: usize,
}

/// The tasks of the first hart and of the second: the first takes half of
/// them rounded up.
pub open spec fn split_ranges(total: usize) -> (SchedulerRange, SchedulerRange) {
    let split = (total + 1) / 2;
    let mid = if split < total {
        split as usize
    } else {
        total
    };
    (SchedulerRange { start: 0, end: mid }, SchedulerRange { start: mid, end: total })
}

/// Splits `total_tasks` between the booting hart `primary` (the first
/// half, rounded up) and the other hart (the rest), and records how many
/// tasks remain: all of them. Gives the tasks' completion state, none
/// finished, whose count is the one stored in `remain`.
pub fn init_smp_scheduler(
    ranges: &mut PerCpu<SchedulerRange>,
    remain: &AtomicUsize,
    primary: usize,
    total_tasks: usize,
) -> (c: TaskCompletion)
    requires
        primary < MAX_CPUS,
    ensures
        final(ranges).slots()[primary as int] == split_ranges(total_tasks).0,
        final(ranges).slots()[1 - primary] == split_ranges(total_tasks).1,
        c.wf(),
        c.finish@ == Seq::new(total_tasks as nat, |i: int| false),
        c.remain == total_tasks,
{
    let split = total_tasks / 2 + total_tasks % 2;
    let mid = if split < total_tasks {
        split
    } else {
        total_tasks
    };
    let secondary = 1 - primary;
    ranges.set(primary, SchedulerRange { start: 0, end: mid });
    ranges.set(secondary, SchedulerRange { start: mid, end: total_tasks });
    let c = TaskCompletion::new(total_tasks);
    store_remaining(remain, c.remain);
    c
}

/// Records how many tasks remain.
pub fn store_remaining(remain: &AtomicUsize, count: usize) {
    remain.store(count, Ordering::Release);
}

/// The number of tasks not finished.
pub open spec fn count_unfinished(finish: Seq<bool>) -> nat
    decreases finish.len(),
{
    if finish.len() == 0 {
        0
    } else {
        count_unfinished(finish.drop_last()) + if finish.last() {
            0nat
        } else {
            1nat
        }
    }
}

proof fn lemma_count_unfinished_mark(f: Seq<bool>, i: int)
    requires
        0 <= i < f.len(),
        !f[i],
    ensures
        count_unfinished(f.update(i, true)) + 1 == count_unfinished(f),
    decreases f.len(),
{
    let u = f.update(i, true);
    if i == f.len() - 1 {
        assert(u.drop_last() =~= f.drop_last());
    } else {
        assert(u.drop_last() =~= f.drop_last().update(i, true));
        lemma_count_unfinished_mark(f.drop_last(), i);
    }
}

proof fn lemma_count_unfinished_all_false(n: nat)
    ensures
        count_unfinished(Seq::new(n, |i: int| false)) == n,
    decreases n,
{
    if n > 0 {
        assert(Seq::new(n, |i: int| false).drop_last() =~= Seq::new((n - 1) as nat, |i: int| false));
        lemma_count_unfinished_all_false((n - 1) as nat);
    }
}

/// No task is left exactly when every task has finished.
pub proof fn lemma_none_left(finish: Seq<bool>)
    ensures
        count_unfinished(finish) == 0 <==> forall|i: int| 0 <= i < finish.len() ==> #[trigger] finish[i],
    decreases finish.len(),
{
    if finish.len() > 0 {
        lemma_none_left(finish.drop_last());
        if count_unfinished(finish) == 0 {
            assert forall|i: int| 0 <= i < finish.len() implies #[trigger] finish[i] by {
                if i < finish.len() - 1 {
                    assert(finish.drop_last()[i] == finish[i]);
                }
            }
        }
        if forall|i: int| 0 <= i < finish.len() ==> #[trigger] finish[i] {
            assert(finish[finish.len() - 1]);
            assert forall|i: int| 0 <= i < finish.drop_last().len() implies #[trigger] finish.drop_last()[i] by {
                assert(finish[i]);
            }
        }
    }
}

/// The tasks' finish flags and the count of those not finished, which
/// the harts share while they run their ranges of tasks.
pub struct TaskCompletion {
    pub finish: Vec<bool>,
    pub remain: usize,
}

impl TaskCompletion {
    /// The count is that of the tasks not finished.
    pub open spec fn wf(&self) -> bool {
        self.remain == count_unfinished(self.finish@)
    }

    /// `total` tasks, none finished.
    pub fn new(total: usize) -> (r: TaskCompletion)
        ensures
            r.wf(),
            r.finish@ == Seq::new(total as nat, |i: int| false),
            r.remain == total,
    {
        let mut finish: Vec<bool> = Vec::new();
        let mut i: usize = 0;
        while i < total
            invariant
                i <= total,
                finish@ == Seq::new(i as nat, |k: int| false),
            decreases total - i,
        {
            finish.push(false);
            i = i + 1;
            assert(finish@ =~= Seq::new(i as nat, |k: int| false));
        }
        proof {
            lemma_count_unfinished_all_false(total as nat);
        }
        TaskCompletion { finish, remain: total }
    }

    /// One turn at task `index`: a finished task is skipped (`false`, it
    /// does not run); otherwise, when its run ended it (`exited`), it is
    /// marked finished and counted off once (`true`).
    pub fn record(&mut self, index: usize, exited: bool) -> (done: bool)
        requires
            old(self).wf(),
            index < old(self).finish@.len(),
        ensures
            final(self).wf(),
            done == (!old(self).finish@[index as int] && exited),
            final(self).finish@ == if done {
                old(self).finish@.update(index as int, true)
            } else {
                old(self).finish@
            },
            final(self).remain == if done {
                old(self).remain - 1
            } else {
                old(self).remain as int
            },
    {
        if self.finish[index] || !exited {
            return false;
        }
        proof {
            lemma_count_unfinished_mark(self.finish@, index as int);
        }
        self.finish.set(index, true);
        self.remain = self.remain - 1;
        true
    }
}

/// How a task's run on a hart ended.
#[derive(Clone, Copy, Debug, PartialEq, Eq, Structural)]
pub enum RunEnd {
    /// The timer interrupt took the hart back.
    TimeUp,
    /// A system call that lets the task go on (or yields).
    GoesOn,
    /// The task exited, or called what the kernel does not offer.
    Exited,
    /// Any other exception or interrupt killed the task.
    Killed,
}

/// Whether a run that ended so finishes the task.
pub open spec fn ends_task(e: RunEnd) -> bool {
    e == RunEnd::Exited || e == RunEnd::Killed
}

impl TaskCompletion {
    /// A hart's turn at `index` among its tasks `range`: the task it turns
    /// to (`index` wrapped into the range), and whether that task runs
    /// (it does unless it has finished).
    pub fn pick_turn(&self, range: SchedulerRange, index: usize) -> (r: (usize, bool))
        requires
            range.start <= index,
            range.start < range.end <= self.finish@.len(),
        ensures
            r.0 == (if index >= range.end { range.start } else { index }),
            range.start <= r.0 < range.end,
            r.1 == !self.finish@[r.0 as int],
    {
        let task = wrap_index(range, index);
        (task, !self.finish[task])
    }

    /// The end of a turn in which task `task` ran and ended so: a run that
    /// exited or was killed finishes the task and counts it off.
    pub fn end_turn(&mut self, task: usize, e: RunEnd) -> (done: bool)
        requires
            old(self).wf(),
            task < old(self).finish@.len(),
            !old(self).finish@[task as int],
        ensures
            final(self).wf(),
            done == ends_task(e),
            final(self).finish@ == if done {
                old(self).finish@.update(task as int, true)
            } else {
                old(self).finish@
            },
            final(self).remain == if done {
                old(self).remain - 1
            } else {
                old(self).remain as int
            },
    {
        let exits = match e {
            RunEnd::Exited => true,
            RunEnd::Killed => true,
            _ => false,
        };
        self.record(task, exits)
    }
}

/// A hart's turns keep to its range, and a task is finished and counted
/// off at most once: a turn at a finished task runs nothing, and the
/// count of unfinished tasks, which the turns keep, is zero exactly when
/// all tasks have finished.
pub proof fn lemma_turns_count_once(c: TaskCompletion, task: int)
    requires
        c.wf(),
        0 <= task < c.finish@.len(),
        c.finish@[task],
    ensures
        count_unfinished(c.finish@.update(task, true)) == c.remain,
        c.remain == 0 <==> forall|i: int| 0 <= i < c.finish@.len() ==> #[trigger] c.finish@[i],
{
    assert(c.finish@.update(task, true) =~= c.finish@);
    lemma_none_left(c.finish@);
}

/// The task a hart's round-robin turns to: `index`, or the start of its
/// range once `index` has run past the end.
pub fn wrap_index(range: SchedulerRange, index: usize) -> (r: usize)
    ensures
        r == if index >= range.end {
            range.start
        } else {
            index
        },
{
    if index >= range.end {
        range.start
    } else {
        index
    }
}

/// Interrupt masking that nests: what the interrupt-enable bit was before
/// the outermost masking, and how deep the masking is.
pub struct IntrMaskingInfo {
    pub nested_level: usize,
    pub sie_before_masking: bool,
}

/// The state after entering a masked section with interrupt-enable bit `sie`.
pub open spec fn entered(s: IntrMaskingInfo, sie: bool) -> IntrMaskingInfo {
    IntrMaskingInfo {
        nested_level: (s.nested_level + 1) as usize,
        sie_before_masking: if s.nested_level == 0 {
            sie
        } else {
            s.sie_before_masking
        },
    }
}

/// The state after leaving a masked section.
pub open spec fn exited(s: IntrMaskingInfo) -> IntrMaskingInfo {
    IntrMaskingInfo { nested_level: (s.nested_level - 1) as usize, sie_before_masking: s.sie_before_masking }
}

/// Whether leaving a masked section turns interrupts back on.
pub open spec fn reenables(s: IntrMaskingInfo) -> bool {
    s.nested_level == 1 && s.sie_before_masking
}

impl IntrMaskingInfo {
    /// Not masked.
    pub fn new() -> (r: Self)
        ensures
            r.nested_level == 0,
            !r.sie_before_masking,
    {
        IntrMaskingInfo { nested_level: 0, sie_before_masking: false }
    }

    /// Enters a masked section; `sie` is the interrupt-enable bit read just
    /// before the caller cleared it. Only the outermost entry records it.
    pub fn enter(&mut self, sie: bool)
        requires
            old(self).nested_level < usize::MAX,
        ensures
            *final(self) == entered(*old(self), sie),
    {
        if self.nested_level == 0 {
            self.sie_before_masking = sie;
        }
        self.nested_level = self.nested_level + 1;
    }

    /// Leaves a masked section; gives whether the caller must set the
    /// interrupt-enable bit again: when the outermost section ends and
    /// interrupts were enabled before it.
    pub fn exit(&mut self) -> (reenable: bool)
        requires
            old(self).nested_level > 0,
        ensures
            *final(self) == exited(*old(self)),
            reenable == reenables(*old(self)),
    {
        self.nested_level = self.nested_level - 1;
        self.nested_level == 0 && self.sie_before_masking
    }
}

/// Masked sections nest: leaving a section restores the depth found on
/// entering it, and interrupts come back on exactly when the outermost
/// section ends and they were on when it began; an inner section leaves
/// the recorded bit alone.
pub proof fn lemma_masking_nests(s: IntrMaskingInfo, sie: bool)
    requires
        s.nested_level < usize::MAX,
    ensures
        exited(entered(s, sie)).nested_level == s.nested_level,
        reenables(entered(s, sie)) == (s.nested_level == 0 && sie),
        s.nested_level > 0 ==> exited(entered(s, sie)) == s,
{
}

/// The tasks and the two harts' ready queues of process ids.
pub struct SmpState<P> {
    pub tasks: BTreeMap<usize, P>,
    pub ready0: VecDeque<usize>,
    pub ready1: VecDeque<usize>,
}

impl<P> SmpState<P> {
    /// Hart `cpu`'s ready queue.
    pub open spec fn ready(&self, cpu: int) -> Seq<usize> {
        if cpu == 0 {
            self.ready0@
        } else {
            self.ready1@
        }
    }

    /// No tasks, empty queues.
    pub fn new() -> (r: Self)
        ensures
            r.tasks@ == Map::<usize, P>::empty(),
            r.ready0@.len() == 0,
            r.ready1@.len() == 0,
    {
        SmpState { tasks: BTreeMap::new(), ready0: VecDeque::new(), ready1: VecDeque::new() }
    }

    fn pop_front_of(&mut self, cpu: usize) -> (r: Option<usize>)
        requires
            cpu < MAX_CPUS,
        ensures
            old(self).ready(cpu as int).len() == 0 ==> r is None && final(self).ready0@ == old(self).ready0@ && final(self).ready1@ == old(self).ready1@,
            old(self).ready(cpu as int).len() > 0 ==> r == Some(old(self).ready(cpu as int)[0])
                && final(self).ready(cpu as int) == old(self).ready(cpu as int).drop_first()
                && final(self).ready(1 - cpu) == old(self).ready(1 - cpu),
            final(self).tasks@ == old(self).tasks@,
    {
        if cpu == 0 {
            self.ready0.pop_front()
        } else {
            self.ready1.pop_front()
        }
    }

    fn pop_back_of(&mut self, cpu: usize) -> (r: Option<usize>)
        requires
            cpu < MAX_CPUS,
        ensures
            old(self).ready(cpu as int).len() == 0 ==> r is None && final(self).ready0@ == old(self).ready0@ && final(self).ready1@ == old(self).ready1@,
            old(self).ready(cpu as int).len() > 0 ==> r == Some(old(self).ready(cpu as int).last())
                && final(self).ready(cpu as int) == old(self).ready(cpu as int).drop_last()
                && final(self).ready(1 - cpu) == old(self).ready(1 - cpu),
            final(self).tasks@ == old(self).tasks@,
    {
        if cpu == 0 {
            self.ready0.pop_back()
        } else {
            self.ready1.pop_back()
        }
    }

    /// Appends `pid` to hart `cpu`'s ready queue.
    pub fn push_ready(&mut self, cpu: usize, pid: usize)
        requires
            cpu < MAX_CPUS,
        ensures
            final(self).ready(cpu as int) == old(self).ready(cpu as int).push(pid),
            final(self).ready(1 - cpu) == old(self).ready(1 - cpu),
            final(self).tasks@ == old(self).tasks@,
    {
        if cpu == 0 {
            self.ready0.push_back(pid);
        } else {
            self.ready1.push_back(pid);
        }
    }

    /// The next task for hart `cpu`: the front of its own queue, else the
    /// back of the other hart's; the task is taken out of the table. None
    /// when both queues are empty, or the process id has no task (it is
    /// dropped from the queue all the same).
    pub fn fetch_for(&mut self, cpu: usize) -> (r: Option<(usize, P)>)
        requires
            cpu < MAX_CPUS,
        ensures
            r matches Some(t) ==> !final(self).tasks@.contains_key(t.0),
            ({
                let own = old(self).ready(cpu as int);
                let other = old(self).ready(1 - cpu);
                if own.len() > 0 {
                    let pid = own[0];
                    &&& final(self).ready(cpu as int) == own.drop_first()
                    &&& final(self).ready(1 - cpu) == other
                    &&& final(self).tasks@ == old(self).tasks@.remove(pid)
                    &&& r == if old(self).tasks@.contains_key(pid) {
                        Some((pid, old(self).tasks@[pid]))
                    } else {
                        None
                    }
                } else if other.len() > 0 {
                    let pid = other.last();
                    &&& final(self).ready(cpu as int) == own
                    &&& final(self).ready(1 - cpu) == other.drop_last()
                    &&& final(self).tasks@ == old(self).tasks@.remove(pid)
                    &&& r == if old(self).tasks@.contains_key(pid) {
                        Some((pid, old(self).tasks@[pid]))
                    } else {
                        None
                    }
                } else {
                    &&& final(self).ready(cpu as int) == own
                    &&& final(self).ready(1 - cpu) == other
                    &&& final(self).tasks@ == old(self).tasks@
                    &&& r is None
                }
            }),
    {
        let pid = match self.pop_front_of(cpu) {
            Some(pid) => pid,
            None => match self.pop_back_of(1 - cpu) {
                Some(pid) => pid,
                None => {
                    return None;
                },
            },
        };
        match self.tasks.remove(&pid) {
            Some(task) => Some((pid, task)),
            None => None,
        }
    }

    /// Puts `process` back as task `pid` at the back of hart `cpu`'s queue.
    pub fn suspend(&mut self, pid: usize, process: P, cpu: usize)
        requires
            cpu < MAX_CPUS,
        ensures
            final(self).tasks@ == old(self).tasks@.insert(pid, process),
            final(self).ready(cpu as int) == old(self).ready(cpu as int).push(pid),
            final(self).ready(1 - cpu) == old(self).ready(1 - cpu),
    {
        self.tasks.insert(pid, process);
        self.push_ready(cpu, pid);
    }
}

/// The hart a new process is queued on: a process with no parent stays on
/// the hart that creates it; others are dealt out in turn by `counter`.
pub fn target_cpu(has_parent: bool, hart: usize, counter: usize) -> (r: usize)
    requires
        hart < MAX_CPUS,
    ensures
        r < MAX_CPUS,
        r == if has_parent {
            counter % 2
        } else {
            hart
        },
{
    if has_parent {
        counter % MAX_CPUS
    } else {
        hart
    }
}

} // verus!
