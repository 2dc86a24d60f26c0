use tg_rcore::deadlock::Process;
use tg_rcore::syscalls::{available_units, deadlock_switch, needs_banker_check, DEADLOCK_CODE};

#[test]
fn free_mutex_never_deadlocks() {
    let mut p = Process::new();
    p.set_deadlock_detect(true, 2);
    assert!(p.deadlock);
    assert_eq!(p.mutex_owner, vec![None, None]);
    assert!(!p.would_mutex_deadlock(1, 0));
}

#[test]
fn relocking_own_mutex_deadlocks() {
    let mut p = Process::new();
    p.set_deadlock_detect(true, 1);
    p.record_mutex_lock(1, 0);
    assert!(p.would_mutex_deadlock(1, 0));
    assert!(!p.would_mutex_deadlock(2, 0));
}

#[test]
fn two_threads_crossing_mutexes_deadlock() {
    let mut p = Process::new();
    p.set_deadlock_detect(true, 2);
    p.record_mutex_lock(1, 0);
    p.record_mutex_lock(2, 1);
    assert!(!p.would_mutex_deadlock(1, 1));
    p.record_mutex_wait(1, 1);
    assert!(p.would_mutex_deadlock(2, 0));
    p.record_mutex_unlock(1, Some(1));
    assert_eq!(p.mutex_owner[1], Some(1));
    assert!(p.mutex_wait.is_empty());
    p.record_mutex_unlock(1, None);
    assert_eq!(p.mutex_owner[1], None);
}

#[test]
fn mutex_table_grows_on_demand() {
    let mut p = Process::new();
    p.record_mutex_lock(3, 4);
    assert_eq!(p.mutex_owner.len(), 5);
    assert_eq!(p.mutex_owner[4], Some(3));
    assert_eq!(p.mutex_owner[0], None);
}

#[test]
fn banker_grants_when_holder_can_finish() {
    let mut p = Process::new();
    p.set_deadlock_detect(true, 0);
    p.record_semaphore_down(1, 0);
    assert_eq!(p.semaphore_allocation.get(&1), Some(&vec![1]));
    assert!(!p.would_semaphore_deadlock(2, 0, &[1, 2], &[0]));
}

#[test]
fn banker_refuses_circular_wait() {
    let mut p = Process::new();
    p.set_deadlock_detect(true, 0);
    p.record_semaphore_down(1, 0);
    p.record_semaphore_down(2, 1);
    p.record_semaphore_wait(1, 1);
    assert!(p.would_semaphore_deadlock(2, 0, &[1, 2], &[0, 0]));
    assert!(!p.would_semaphore_deadlock(2, 0, &[1, 2], &[1, 0]));
}

#[test]
fn semaphore_up_returns_unit_and_wakes() {
    let mut p = Process::new();
    p.record_semaphore_down(1, 0);
    p.record_semaphore_wait(2, 0);
    p.record_semaphore_up(1, 0, Some(2));
    assert_eq!(p.semaphore_allocation.get(&1), Some(&vec![0]));
    assert_eq!(p.semaphore_allocation.get(&2), Some(&vec![1]));
    assert!(p.semaphore_wait.is_empty());
}

#[test]
fn up_after_down_restores_holdings() {
    let mut p = Process::new();
    p.record_semaphore_down(5, 2);
    p.record_semaphore_up(5, 2, None);
    assert_eq!(p.semaphore_allocation.get(&5), Some(&vec![0, 0, 0]));
}

#[test]
fn detection_switch_and_helpers() {
    assert_eq!(deadlock_switch(0), Some(false));
    assert_eq!(deadlock_switch(1), Some(true));
    assert_eq!(deadlock_switch(2), None);
    assert_eq!(deadlock_switch(-1), None);
    assert_eq!(available_units(3), 3);
    assert_eq!(available_units(-2), 0);
    assert!(needs_banker_check(true, &[0, 2], 0));
    assert!(!needs_banker_check(true, &[0, 2], 1));
    assert!(!needs_banker_check(false, &[0, 2], 0));
    assert_eq!(DEADLOCK_CODE, -0xdead);
}

#[test]
fn lock_syscall_bookkeeping_follows_the_switch() {
    let mut p = Process::new();
    assert!(!p.refuses_mutex_lock(1, 0));
    assert_eq!(p.finish_mutex_lock(1, 0, true), 0);
    assert_eq!(p.mutex_owner, vec![Some(1)]);
    assert_eq!(p.finish_mutex_lock(2, 0, false), -1);
    assert!(p.mutex_wait.is_empty());
    p.set_deadlock_detect(true, 1);
    assert_eq!(p.finish_mutex_lock(1, 0, true), 0);
    assert_eq!(p.mutex_owner, vec![Some(1)]);
    assert!(p.refuses_mutex_lock(1, 0));
    assert_eq!(p.finish_mutex_lock(2, 0, false), -1);
    assert_eq!(p.mutex_wait.get(&2), Some(&0));
    p.finish_mutex_unlock(0, Some(2));
    assert_eq!(p.mutex_owner, vec![Some(2)]);
    assert!(p.mutex_wait.is_empty());
}

#[test]
fn only_the_owner_unlocks_a_mutex() {
    let mut p = Process::new();
    assert_eq!(p.finish_mutex_lock(1, 0, true), 0);
    assert!(p.refuses_mutex_unlock(2, 0));
    assert_eq!(p.mutex_owner, vec![Some(1)]);
    assert!(!p.refuses_mutex_unlock(1, 0));
    p.finish_mutex_unlock(0, None);
    assert_eq!(p.mutex_owner, vec![None]);
    assert!(p.refuses_mutex_unlock(1, 0));
    assert_eq!(p.finish_mutex_lock(2, 0, true), 0);
    assert!(!p.refuses_mutex_unlock(2, 0));
    assert!(p.refuses_mutex_unlock(2, 5));
    p.set_deadlock_detect(true, 2);
    assert_eq!(p.mutex_owner, vec![Some(2), None]);
    assert!(!p.refuses_mutex_unlock(2, 0));
}

#[test]
fn semaphore_syscall_bookkeeping() {
    let mut p = Process::new();
    p.set_deadlock_detect(true, 0);
    assert_eq!(p.finish_semaphore_down(1, 0, true), 0);
    assert_eq!(p.finish_semaphore_down(2, 1, true), 0);
    assert_eq!(p.finish_semaphore_down(1, 1, false), -1);
    assert!(p.refuses_semaphore_down(2, 0, &[1, 2], &[0, 0]));
    assert!(!p.refuses_semaphore_down(2, 0, &[1, 2], &[1, 0]));
    assert!(!p.refuses_semaphore_down(2, 0, &[1, 2], &[2, 3]));
    p.finish_semaphore_up(2, 1, Some(1));
    assert_eq!(p.semaphore_allocation.get(&1), Some(&vec![1, 1]));
    assert_eq!(p.semaphore_allocation.get(&2), Some(&vec![0, 0]));
    assert!(p.semaphore_wait.is_empty());
    p.set_deadlock_detect(false, 0);
    assert!(!p.refuses_semaphore_down(2, 0, &[1, 2], &[0, 0]));
    assert_eq!(p.finish_semaphore_down(3, 0, false), -1);
    assert!(p.semaphore_wait.is_empty());
}
