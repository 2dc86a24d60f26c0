use std::sync::atomic::{AtomicBool, AtomicU8, AtomicUsize, Ordering};
use tg_rcore::smp::{
    clear_current_process, compiler_barrier, hart_started, init_smp_scheduler, mark_hart_started,
    post_ipi, set_kernel_satp, take_pending_ipi, target_cpu, wrap_index, IntrMaskingInfo, IpiAction,
    IpiHandler, PerCpu, RunEnd, SchedulerRange, SmpState, TaskCompletion,
};

#[test]
fn ipi_codes_round_trip() {
    for a in [IpiAction::NoAction, IpiAction::TlbShootdown, IpiAction::Wakeup, IpiAction::Reschedule] {
        assert_eq!(IpiAction::from_code(a.code()), a);
    }
    assert_eq!(IpiAction::Reschedule.code(), 3);
    assert_eq!(IpiAction::from_code(200), IpiAction::NoAction);
}

#[test]
fn posted_ipi_is_taken_once() {
    let pending = [AtomicU8::new(0), AtomicU8::new(0)];
    post_ipi(&pending, 1, IpiAction::TlbShootdown);
    assert_eq!(take_pending_ipi(&pending, 0), IpiAction::NoAction);
    assert_eq!(take_pending_ipi(&pending, 1), IpiAction::TlbShootdown);
    assert_eq!(take_pending_ipi(&pending, 1), IpiAction::NoAction);
}

struct Recorder {
    seen: AtomicUsize,
}

impl IpiHandler for Recorder {
    fn handle_tlb_shootdown(&self) {
        self.seen.store(1, Ordering::SeqCst);
    }
    fn handle_wakeup(&self) {
        self.seen.store(2, Ordering::SeqCst);
    }
    fn handle_reschedule(&self) {
        self.seen.store(3, Ordering::SeqCst);
    }
}

#[test]
fn dispatch_calls_the_matching_handler() {
    let pending = [AtomicU8::new(0), AtomicU8::new(0)];
    let r = Recorder { seen: AtomicUsize::new(0) };
    post_ipi(&pending, 0, IpiAction::Wakeup);
    r.dispatch_ipi(&pending, 0);
    assert_eq!(r.seen.load(Ordering::SeqCst), 2);
    r.dispatch_ipi(&pending, 0);
    assert_eq!(r.seen.load(Ordering::SeqCst), 2);
}

#[test]
fn harts_record_their_start() {
    let started = [AtomicBool::new(false), AtomicBool::new(false)];
    assert!(!hart_started(&started, 1));
    mark_hart_started(&started, 1);
    assert!(hart_started(&started, 1));
    assert!(!hart_started(&started, 0));
    let satp = AtomicUsize::new(0);
    set_kernel_satp(&satp, 0x8000_0000_0008_0000);
    compiler_barrier();
    assert_eq!(satp.load(Ordering::SeqCst), 0x8000_0000_0008_0000);
}

#[test]
fn per_cpu_slots_are_separate() {
    let mut p = PerCpu::new([0usize, 0usize]);
    p.set(1, 5);
    assert_eq!(p.get(1), 5);
    assert_eq!(p.get(0), 0);
    clear_current_process(&mut p, 1);
    assert_eq!(p.get(1), 0);
}

#[test]
fn masking_nests() {
    let mut m = IntrMaskingInfo::new();
    m.enter(true);
    m.enter(false);
    assert_eq!(m.nested_level, 2);
    assert!(!m.exit());
    assert!(m.exit());
    assert_eq!(m.nested_level, 0);
    m.enter(false);
    assert!(!m.exit());
}

#[test]
fn tasks_are_split_between_harts() {
    let mut ranges = PerCpu::new([SchedulerRange { start: 0, end: 0 }; 2]);
    let remain = AtomicUsize::new(0);
    let c = init_smp_scheduler(&mut ranges, &remain, 1, 5);
    assert_eq!(c.remain, 5);
    assert_eq!(c.finish, vec![false; 5]);
    assert_eq!(ranges.get(1), SchedulerRange { start: 0, end: 3 });
    assert_eq!(ranges.get(0), SchedulerRange { start: 3, end: 5 });
    assert_eq!(remain.load(Ordering::SeqCst), 5);
    init_smp_scheduler(&mut ranges, &remain, 0, 1);
    assert_eq!(ranges.get(0), SchedulerRange { start: 0, end: 1 });
    assert_eq!(ranges.get(1), SchedulerRange { start: 1, end: 1 });
    assert_eq!(wrap_index(SchedulerRange { start: 3, end: 5 }, 5), 3);
    assert_eq!(wrap_index(SchedulerRange { start: 3, end: 5 }, 4), 4);
}

#[test]
fn own_queue_first_then_steal_from_the_back() {
    let mut s: SmpState<&str> = SmpState::new();
    s.suspend(7, "seven", 0);
    s.suspend(8, "eight", 0);
    s.suspend(9, "nine", 1);
    assert_eq!(s.fetch_for(1), Some((9, "nine")));
    assert_eq!(s.fetch_for(1), Some((8, "eight")));
    assert_eq!(s.fetch_for(0), Some((7, "seven")));
    assert_eq!(s.fetch_for(0), None);
}

#[test]
fn a_fetched_task_cannot_be_fetched_again() {
    let mut s: SmpState<u32> = SmpState::new();
    s.suspend(1, 10, 0);
    s.push_ready(1, 1);
    assert_eq!(s.fetch_for(0), Some((1, 10)));
    assert_eq!(s.fetch_for(1), None);
    assert!(s.ready1.is_empty());
}

#[test]
fn new_processes_are_dealt_out() {
    assert_eq!(target_cpu(false, 1, 6), 1);
    assert_eq!(target_cpu(true, 1, 6), 0);
    assert_eq!(target_cpu(true, 0, 7), 1);
}

#[test]
fn each_task_is_counted_off_once() {
    let mut c = TaskCompletion::new(3);
    assert_eq!(c.remain, 3);
    assert!(!c.record(1, false));
    assert_eq!(c.remain, 3);
    assert!(c.record(1, true));
    assert_eq!(c.remain, 2);
    assert!(!c.record(1, true));
    assert_eq!(c.remain, 2);
    assert!(c.record(0, true));
    assert!(c.record(2, true));
    assert_eq!(c.remain, 0);
    assert_eq!(c.finish, vec![true, true, true]);
}

#[test]
fn a_hart_turns_within_its_range() {
    let mut c = TaskCompletion::new(5);
    let range = SchedulerRange { start: 3, end: 5 };
    assert_eq!(c.pick_turn(range, 3), (3, true));
    assert_eq!(c.pick_turn(range, 5), (3, true));
    assert!(!c.end_turn(3, RunEnd::TimeUp));
    assert!(!c.end_turn(3, RunEnd::GoesOn));
    assert!(c.end_turn(3, RunEnd::Exited));
    assert_eq!(c.pick_turn(range, 3), (3, false));
    assert!(c.end_turn(4, RunEnd::Killed));
    assert_eq!(c.remain, 3);
}
