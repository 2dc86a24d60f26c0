//! Deadlock bookkeeping of a process whose threads use mutexes and
//! semaphores: who owns and who waits for each mutex (a wait-for chain is
//! followed to refuse a lock that would close a cycle), and how many units of
//! each semaphore every thread holds (the banker's safety check refuses a
//! `down` that would leave no order in which all threads can finish).
//!
//! Threads are named by their numeric thread id.
use vstd::prelude::*;
use std::collections::BTreeMap;

verus! {

broadcast use vstd::std_specs::btree::group_btree_axioms, vstd::laws_cmp::group_laws_cmp;

/// The owner of mutex `m`, if the mutex is known and held.
pub open spec fn owner_of(owners: Seq<Option<usize>>, m: usize) -> Option<usize> {
    if m < owners.len() {
        owners[m as int]
    } else {
        None
    }
}

/// The thread that `t` waits for: the owner of the mutex `t` waits on.
pub open spec fn waits_for(owners: Seq<Option<usize>>, waits: Map<usize, usize>, t: usize) -> Option<
    usize,
> {
    if waits.contains_key(t) {
        owner_of(owners, waits[t])
    } else {
        None
    }
}

/// Following the wait-for chain from `cur`, `target` is met within `fuel` threads.
pub open spec fn reaches(
    owners: Seq<Option<usize>>,
    waits: Map<usize, usize>,
    cur: usize,
    target: usize,
    fuel: nat,
) -> bool
    decreases fuel,
{
    if fuel == 0 {
        false
    } else if cur == target {
        true
    } else {
        match waits_for(owners, waits, cur) {
            None => false,
            Some(next) => reaches(owners, waits, next, target, (fuel - 1) as nat),
        }
    }
}

/// Blocking `tid` on mutex `m` would close a wait-for cycle: `m` is held,
/// and its owner is `tid` or leads to `tid` within one more step than there
/// are waiting threads.
pub open spec fn mutex_cycle(
    owners: Seq<Option<usize>>,
    waits: Map<usize, usize>,
    tid: usize,
    m: usize,
) -> bool {
    match owner_of(owners, m) {
        None => false,
        Some(o) => o == tid || reaches(owners, waits, o, tid, waits.len() + 1),
    }
}

/// The semaphore that thread `t` requests, with `tid`'s new request `sem` added.
pub open spec fn request_of(waits: Map<usize, usize>, tid: usize, sem: usize, t: usize) -> Option<
    usize,
> {
    if t == tid {
        Some(sem)
    } else if waits.contains_key(t) {
        Some(waits[t])
    } else {
        None
    }
}

/// A thread with this request can run to completion with `work` units available.
pub open spec fn can_finish(work: Seq<int>, req: Option<usize>) -> bool {
    match req {
        None => true,
        Some(r) => r < work.len() && work[r as int] > 0,
    }
}

/// The allocation table as plain sequences: thread id to units held of each semaphore.
pub open spec fn alloc_view(m: Map<usize, Vec<usize>>) -> Map<usize, Seq<usize>> {
    Map::new(|t: usize| m.contains_key(t), |t: usize| m[t]@)
}

/// The units of each semaphore that thread `t` holds (empty if it has no row).
pub open spec fn alloc_of(allocs: Map<usize, Seq<usize>>, t: usize) -> Seq<usize> {
    if allocs.contains_key(t) {
        allocs[t]
    } else {
        seq![]
    }
}

/// The units of semaphore `sem` that thread `t` holds.
pub open spec fn units(allocs: Map<usize, Seq<usize>>, t: usize, sem: usize) -> int {
    let a = alloc_of(allocs, t);
    if sem < a.len() {
        a[sem as int] as int
    } else {
        0
    }
}

/// A row with room for semaphore `sem`: zeros appended up to index `sem`.
pub open spec fn padded(a: Seq<usize>, sem: usize) -> Seq<usize> {
    if a.len() <= sem {
        a + Seq::new((sem + 1 - a.len()) as nat, |i: int| 0usize)
    } else {
        a
    }
}

/// Thread `t`'s row after it gains one unit of `sem`.
pub open spec fn acquired(allocs: Map<usize, Seq<usize>>, t: usize, sem: usize) -> Map<
    usize,
    Seq<usize>,
> {
    allocs.insert(t, padded(alloc_of(allocs, t), sem).update(sem as int, (units(allocs, t, sem) + 1) as usize))
}

/// Thread `t`'s row after it gives back one unit of `sem`, if it holds any.
pub open spec fn given_back(allocs: Map<usize, Seq<usize>>, t: usize, sem: usize) -> Map<
    usize,
    Seq<usize>,
> {
    let u = units(allocs, t, sem);
    allocs.insert(t, padded(alloc_of(allocs, t), sem).update(sem as int, if u > 0 { (u - 1) as usize } else { 0usize }))
}

/// `work` after a finished thread returns the units `a`.
pub open spec fn released(work: Seq<int>, a: Seq<usize>) -> Seq<int> {
    Seq::new(work.len(), |r: int| if r < a.len() { work[r] + a[r] } else { work[r] })
}

/// One pass of the safety check over the first `idx` threads, in order:
/// every unfinished thread that can finish is marked finished and releases
/// its units. Gives the units, the finished marks, and whether any thread finished.
pub open spec fn sweep(
    waits: Map<usize, usize>,
    allocs: Map<usize, Seq<usize>>,
    tid: usize,
    sem: usize,
    threads: Seq<usize>,
    work: Seq<int>,
    finish: Seq<bool>,
    idx: nat,
) -> (Seq<int>, Seq<bool>, bool)
    decreases idx,
{
    if idx == 0 {
        (work, finish, false)
    } else {
        let prev = sweep(waits, allocs, tid, sem, threads, work, finish, (idx - 1) as nat);
        let i = idx - 1;
        let t = threads[i];
        if prev.1[i] || !can_finish(prev.0, request_of(waits, tid, sem, t)) {
            prev
        } else {
            (released(prev.0, alloc_of(allocs, t)), prev.1.update(i, true), true)
        }
    }
}

/// Passes of the safety check until one finishes no thread (at most `fuel`
/// passes); gives the finished marks.
pub open spec fn passes(
    waits: Map<usize, usize>,
    allocs: Map<usize, Seq<usize>>,
    tid: usize,
    sem: usize,
    threads: Seq<usize>,
    work: Seq<int>,
    finish: Seq<bool>,
    fuel: nat,
) -> Seq<bool>
    decreases fuel,
{
    if fuel == 0 {
        finish
    } else {
        let s = sweep(waits, allocs, tid, sem, threads, work, finish, threads.len());
        if !s.2 {
            s.1
        } else {
            passes(waits, allocs, tid, sem, threads, s.0, s.1, (fuel - 1) as nat)
        }
    }
}

/// Number of finished marks.
pub open spec fn count_true(s: Seq<bool>) -> nat
    decreases s.len(),
{
    if s.len() == 0 {
        0
    } else {
        count_true(s.drop_last()) + if s.last() {
            1nat
        } else {
            0nat
        }
    }
}

/// The semaphores as numbers.
pub open spec fn as_ints(a: Seq<usize>) -> Seq<int> {
    Seq::new(a.len(), |i: int| a[i] as int)
}

/// The units thread index `i` holds of semaphore `r`.
pub open spec fn held(allocs: Map<usize, Seq<usize>>, threads: Seq<usize>, i: int, r: int) -> int {
    let a = alloc_of(allocs, threads[i]);
    if r < a.len() {
        a[r] as int
    } else {
        0
    }
}

/// Units of semaphore `r` held by the first `n` threads of the list.
pub open spec fn held_total(allocs: Map<usize, Seq<usize>>, threads: Seq<usize>, r: int, n: nat) -> int
    decreases n,
{
    if n == 0 {
        0
    } else {
        held_total(allocs, threads, r, (n - 1) as nat) + held(allocs, threads, n - 1, r)
    }
}

/// Units of semaphore `r` held by those of the first `n` threads that are marked finished.
pub open spec fn held_finished(
    allocs: Map<usize, Seq<usize>>,
    threads: Seq<usize>,
    finish: Seq<bool>,
    r: int,
    n: nat,
) -> int
    decreases n,
{
    if n == 0 {
        0
    } else {
        held_finished(allocs, threads, finish, r, (n - 1) as nat) + if finish[n - 1] {
            held(allocs, threads, n - 1, r)
        } else {
            0
        }
    }
}

/// The banker's check: granting `tid`'s request for semaphore `sem` leaves
/// some thread of `threads` that cannot finish, whatever the order, with
/// `available` free units (passes are repeated until one finishes nobody).
pub open spec fn semaphore_unsafe(
    waits: Map<usize, usize>,
    allocs: Map<usize, Seq<usize>>,
    tid: usize,
    sem: usize,
    threads: Seq<usize>,
    available: Seq<usize>,
) -> bool {
    let fin = passes(
        waits,
        allocs,
        tid,
        sem,
        threads,
        as_ints(available),
        Seq::new(threads.len(), |i: int| false),
        threads.len() + 1,
    );
    exists|i: int| 0 <= i < threads.len() && !#[trigger] fin[i]
}

proof fn lemma_count_mark(s: Seq<bool>, i: int)
    requires
        0 <= i < s.len(),
        !s[i],
    ensures
        count_true(s.update(i, true)) == count_true(s) + 1,
    decreases s.len(),
{
    let u = s.update(i, true);
    if i == s.len() - 1 {
        assert(u.drop_last() =~= s.drop_last());
    } else {
        assert(u.drop_last() =~= s.drop_last().update(i, true));
        lemma_count_mark(s.drop_last(), i);
    }
}

proof fn lemma_count_le(s: Seq<bool>)
    ensures
        count_true(s) <= s.len(),
    decreases s.len(),
{
    if s.len() > 0 {
        lemma_count_le(s.drop_last());
    }
}

proof fn lemma_held_finished_le(
    allocs: Map<usize, Seq<usize>>,
    threads: Seq<usize>,
    finish: Seq<bool>,
    r: int,
    n: nat,
)
    ensures
        0 <= held_finished(allocs, threads, finish, r, n) <= held_total(allocs, threads, r, n),
    decreases n,
{
    if n > 0 {
        lemma_held_finished_le(allocs, threads, finish, r, (n - 1) as nat);
    }
}

proof fn lemma_held_finished_mark(
    allocs: Map<usize, Seq<usize>>,
    threads: Seq<usize>,
    finish: Seq<bool>,
    r: int,
    n: nat,
    i: int,
)
    requires
        0 <= i < n <= finish.len(),
        !finish[i],
    ensures
        held_finished(allocs, threads, finish.update(i, true), r, n) == held_finished(
            allocs,
            threads,
            finish,
            r,
            n,
        ) + held(allocs, threads, i, r),
    decreases n,
{
    if i < n - 1 {
        lemma_held_finished_mark(allocs, threads, finish, r, (n - 1) as nat, i);
    } else {
        lemma_held_finished_same(allocs, threads, finish, finish.update(i, true), r, (n - 1) as nat);
    }
}

proof fn lemma_held_finished_none(
    allocs: Map<usize, Seq<usize>>,
    threads: Seq<usize>,
    finish: Seq<bool>,
    r: int,
    n: nat,
)
    requires
        forall|j: int| 0 <= j < n ==> !#[trigger] finish[j],
    ensures
        held_finished(allocs, threads, finish, r, n) == 0,
    decreases n,
{
    if n > 0 {
        lemma_held_finished_none(allocs, threads, finish, r, (n - 1) as nat);
    }
}

proof fn lemma_held_finished_same(
    allocs: Map<usize, Seq<usize>>,
    threads: Seq<usize>,
    f1: Seq<bool>,
    f2: Seq<bool>,
    r: int,
    n: nat,
)
    requires
        n <= f1.len(),
        n <= f2.len(),
        forall|j: int| 0 <= j < n ==> f1[j] == f2[j],
    ensures
        held_finished(allocs, threads, f1, r, n) == held_finished(allocs, threads, f2, r, n),
    decreases n,
{
    if n > 0 {
        lemma_held_finished_same(allocs, threads, f1, f2, r, (n - 1) as nat);
    }
}

/// Adds the units `allocation` returns to `work`, semaphore by semaphore,
/// as far as `work` reaches.
fn add_units(work: &mut Vec<usize>, allocation: &Vec<usize>)
    requires
        forall|r: int|
            0 <= r < old(work)@.len() && r < allocation@.len() ==> #[trigger] old(work)@[r]
                + allocation@[r] <= usize::MAX,
    ensures
        as_ints(final(work)@) == released(as_ints(old(work)@), allocation@),
{
    let ghost start = old(work)@;
    let mut rid: usize = 0;
    while rid < allocation.len() && rid < work.len()
        invariant
            rid <= allocation@.len(),
            work@.len() == start.len(),
            forall|r: int|
                0 <= r < start.len() && r < allocation@.len() ==> #[trigger] start[r]
                    + allocation@[r] <= usize::MAX,
            forall|r: int|
                0 <= r < work@.len() ==> #[trigger] work@[r] == if r < rid && r < allocation@.len() {
                    start[r] + allocation@[r]
                } else {
                    start[r] as int
                },
        decreases allocation.len() - rid,
    {
        let count = allocation[rid];
        work.set(rid, work[rid] + count);
        rid = rid + 1;
    }
    assert(as_ints(work@) =~= released(as_ints(start), allocation@));
}

/// The deadlock bookkeeping of one process.
pub struct Process {
    /// Whether deadlock detection is on.
    pub deadlock: bool,
    /// The owner of each mutex, by mutex id.
    pub mutex_owner: Vec<Option<usize>>,
    /// The mutex each blocked thread waits for.
    pub mutex_wait: BTreeMap<usize, usize>,
    /// Units of each semaphore held, by thread.
    pub semaphore_allocation: BTreeMap<usize, Vec<usize>>,
    /// The semaphore each blocked thread waits for.
    pub semaphore_wait: BTreeMap<usize, usize>,
}

impl Process {
    /// Detection off, nothing tracked.
    pub fn new() -> (r: Process)
        ensures
            !r.deadlock,
            r.mutex_owner@.len() == 0,
            r.mutex_wait@ == Map::<usize, usize>::empty(),
            r.semaphore_allocation@ == Map::<usize, Vec<usize>>::empty(),
            r.semaphore_wait@ == Map::<usize, usize>::empty(),
    {
        Process {
            deadlock: false,
            mutex_owner: Vec::new(),
            mutex_wait: BTreeMap::new(),
            semaphore_allocation: BTreeMap::new(),
            semaphore_wait: BTreeMap::new(),
        }
    }

    /// Forgets the waits and the semaphore units; the owner table, which is
    /// kept at all times, is sized to `mutex_count` mutexes.
    fn reset_deadlock_state(&mut self, mutex_count: usize)
        ensures
            final(self).mutex_owner@ == Seq::new(
                mutex_count as nat,
                |i: int| owner_of(old(self).mutex_owner@, i as usize),
            ),
            final(self).mutex_wait@ == Map::<usize, usize>::empty(),
            final(self).semaphore_allocation@ == Map::<usize, Vec<usize>>::empty(),
            final(self).semaphore_wait@ == Map::<usize, usize>::empty(),
            final(self).deadlock == old(self).deadlock,
    {
        let mut owners: Vec<Option<usize>> = Vec::new();
        let mut i: usize = 0;
        while i < mutex_count
            invariant
                i <= mutex_count,
                self.mutex_owner@ == old(self).mutex_owner@,
                owners@ == Seq::new(i as nat, |k: int| owner_of(old(self).mutex_owner@, k as usize)),
            decreases mutex_count - i,
        {
            let o = if i < self.mutex_owner.len() {
                self.mutex_owner[i]
            } else {
                None
            };
            owners.push(o);
            assert(owners@ =~= Seq::new((i + 1) as nat, |k: int| owner_of(old(self).mutex_owner@, k as usize)));
            i = i + 1;
        }
        self.mutex_owner = owners;
        self.mutex_wait.clear();
        self.semaphore_allocation.clear();
        self.semaphore_wait.clear();
    }

    /// Makes room for mutex `mutex_id` in the owner table (new entries unheld).
    fn ensure_mutex_slot(&mut self, mutex_id: usize)
        requires
            mutex_id < usize::MAX,
        ensures
            final(self).mutex_owner@.len() == if old(self).mutex_owner@.len() <= mutex_id {
                mutex_id + 1
            } else {
                old(self).mutex_owner@.len() as int
            },
            forall|m: usize| #[trigger] owner_of(final(self).mutex_owner@, m) == owner_of(
                old(self).mutex_owner@,
                m,
            ),
            final(self).mutex_wait@ == old(self).mutex_wait@,
            final(self).semaphore_allocation@ == old(self).semaphore_allocation@,
            final(self).semaphore_wait@ == old(self).semaphore_wait@,
            final(self).deadlock == old(self).deadlock,
    {
        let ghost orig = self.mutex_owner@;
        while self.mutex_owner.len() <= mutex_id
            invariant
                mutex_id < usize::MAX,
                orig.len() <= self.mutex_owner@.len() <= if orig.len() <= mutex_id {
                    mutex_id + 1
                } else {
                    orig.len() as int
                },
                forall|k: int| 0 <= k < orig.len() ==> #[trigger] self.mutex_owner@[k] == orig[k],
                forall|k: int|
                    orig.len() <= k < self.mutex_owner@.len() ==> #[trigger] self.mutex_owner@[k]
                        is None,
                orig == old(self).mutex_owner@,
                self.mutex_wait@ == old(self).mutex_wait@,
                self.semaphore_allocation@ == old(self).semaphore_allocation@,
                self.semaphore_wait@ == old(self).semaphore_wait@,
                self.deadlock == old(self).deadlock,
            decreases mutex_id + 1 - self.mutex_owner@.len(),
        {
            self.mutex_owner.push(None);
        }
        assert forall|m: usize| #[trigger] owner_of(self.mutex_owner@, m) == owner_of(orig, m) by {
            if m < self.mutex_owner@.len() && m >= orig.len() {
                assert(self.mutex_owner@[m as int] is None);
            }
        }
    }

    /// Turns detection on or off and forgets the waits and semaphore units;
    /// the owners of the process's `mutex_count` mutexes are kept.
    pub fn set_deadlock_detect(&mut self, is_enable: bool, mutex_count: usize)
        ensures
            final(self).deadlock == is_enable,
            final(self).mutex_owner@ == Seq::new(
                mutex_count as nat,
                |i: int| owner_of(old(self).mutex_owner@, i as usize),
            ),
            final(self).mutex_wait@ == Map::<usize, usize>::empty(),
            final(self).semaphore_allocation@ == Map::<usize, Vec<usize>>::empty(),
            final(self).semaphore_wait@ == Map::<usize, usize>::empty(),
    {
        self.deadlock = is_enable;
        self.reset_deadlock_state(mutex_count);
    }

    /// Whether blocking `tid` on mutex `mutex_id` would close a wait-for cycle.
    pub fn would_mutex_deadlock(&self, tid: usize, mutex_id: usize) -> (r: bool)
        ensures
            r == mutex_cycle(self.mutex_owner@, self.mutex_wait@, tid, mutex_id),
    {
        let owner = if mutex_id < self.mutex_owner.len() {
            self.mutex_owner[mutex_id]
        } else {
            None
        };
        let owner = match owner {
            Some(o) => o,
            None => {
                return false;
            },
        };
        if owner == tid {
            return true;
        }
        let n = self.mutex_wait.len();
        let ghost owners = self.mutex_owner@;
        let ghost waits = self.mutex_wait@;
        let ghost total: nat = (n + 1) as nat;
        let mut current = owner;
        let mut remaining: usize = n;
        loop
            invariant
                owners == self.mutex_owner@,
                waits == self.mutex_wait@,
                n == waits.len(),
                remaining <= n,
                reaches(owners, waits, owner, tid, (n + 1) as nat) == reaches(
                    owners,
                    waits,
                    current,
                    tid,
                    (remaining + 1) as nat,
                ),
                mutex_cycle(owners, waits, tid, mutex_id) == (owner == tid || reaches(
                    owners,
                    waits,
                    owner,
                    tid,
                    (n + 1) as nat,
                )),
            decreases remaining,
        {
            if current == tid {
                return true;
            }
            let wait_mutex = match self.mutex_wait.get(&current) {
                Some(m) => *m,
                None => {
                    return false;
                },
            };
            let next_owner = if wait_mutex < self.mutex_owner.len() {
                self.mutex_owner[wait_mutex]
            } else {
                None
            };
            let next_owner = match next_owner {
                Some(o) => o,
                None => {
                    return false;
                },
            };
            if remaining == 0 {
                proof {
                    reveal_with_fuel(reaches, 2);
                }
                return false;
            }
            current = next_owner;
            remaining = remaining - 1;
        }
    }

    /// Records that `tid` now holds mutex `mutex_id` (and waits no longer).
    pub fn record_mutex_lock(&mut self, tid: usize, mutex_id: usize)
        requires
            mutex_id < usize::MAX,
        ensures
            final(self).mutex_wait@ == old(self).mutex_wait@.remove(tid),
            owner_of(final(self).mutex_owner@, mutex_id) == Some(tid),
            forall|m: usize|
                m != mutex_id ==> #[trigger] owner_of(final(self).mutex_owner@, m) == owner_of(
                    old(self).mutex_owner@,
                    m,
                ),
            final(self).mutex_owner@.len() >= old(self).mutex_owner@.len(),
            final(self).semaphore_allocation@ == old(self).semaphore_allocation@,
            final(self).semaphore_wait@ == old(self).semaphore_wait@,
            final(self).deadlock == old(self).deadlock,
    {
        self.ensure_mutex_slot(mutex_id);
        let ghost prev = self.mutex_owner@;
        self.mutex_wait.remove(&tid);
        self.mutex_owner.set(mutex_id, Some(tid));
        assert forall|m: usize| m != mutex_id implies #[trigger] owner_of(self.mutex_owner@, m)
            == owner_of(old(self).mutex_owner@, m) by {
            assert(owner_of(prev, m) == owner_of(old(self).mutex_owner@, m));
        }
    }

    /// Records that `tid` blocks waiting for mutex `mutex_id`.
    pub fn record_mutex_wait(&mut self, tid: usize, mutex_id: usize)
        requires
            mutex_id < usize::MAX,
        ensures
            final(self).mutex_wait@ == old(self).mutex_wait@.insert(tid, mutex_id),
            forall|m: usize| #[trigger] owner_of(final(self).mutex_owner@, m) == owner_of(
                old(self).mutex_owner@,
                m,
            ),
            final(self).mutex_owner@.len() > mutex_id,
            final(self).semaphore_allocation@ == old(self).semaphore_allocation@,
            final(self).semaphore_wait@ == old(self).semaphore_wait@,
            final(self).deadlock == old(self).deadlock,
    {
        self.ensure_mutex_slot(mutex_id);
        self.mutex_wait.insert(tid, mutex_id);
    }

    /// Records the release of mutex `mutex_id`: the woken thread, if any,
    /// owns it now and waits no longer; otherwise it is free.
    pub fn record_mutex_unlock(&mut self, mutex_id: usize, waking_tid: Option<usize>)
        requires
            mutex_id < usize::MAX,
        ensures
            final(self).mutex_wait@ == match waking_tid {
                Some(t) => old(self).mutex_wait@.remove(t),
                None => old(self).mutex_wait@,
            },
            owner_of(final(self).mutex_owner@, mutex_id) == waking_tid,
            forall|m: usize|
                m != mutex_id ==> #[trigger] owner_of(final(self).mutex_owner@, m) == owner_of(
                    old(self).mutex_owner@,
                    m,
                ),
            final(self).mutex_owner@.len() > mutex_id,
            final(self).semaphore_allocation@ == old(self).semaphore_allocation@,
            final(self).semaphore_wait@ == old(self).semaphore_wait@,
            final(self).deadlock == old(self).deadlock,
    {
        self.ensure_mutex_slot(mutex_id);
        let ghost prev = self.mutex_owner@;
        match waking_tid {
            Some(tid) => {
                self.mutex_wait.remove(&tid);
                self.mutex_owner.set(mutex_id, Some(tid));
            },
            None => {
                self.mutex_owner.set(mutex_id, None);
            },
        }
        assert forall|m: usize| m != mutex_id implies #[trigger] owner_of(self.mutex_owner@, m)
            == owner_of(old(self).mutex_owner@, m) by {
            assert(owner_of(prev, m) == owner_of(old(self).mutex_owner@, m));
        }
    }

    /// Pads a row with zeros so that it has an entry for semaphore `sem_id`.
    fn ensure_semaphore_slot(alloc: &mut Vec<usize>, sem_id: usize)
        requires
            sem_id < usize::MAX,
        ensures
            final(alloc)@ == padded(old(alloc)@, sem_id),
    {
        let ghost orig = alloc@;
        while alloc.len() <= sem_id
            invariant
                sem_id < usize::MAX,
                orig.len() <= alloc@.len(),
                alloc@.len() <= if orig.len() <= sem_id {
                    sem_id + 1
                } else {
                    orig.len() as int
                },
                alloc@ == orig + Seq::new((alloc@.len() - orig.len()) as nat, |i: int| 0usize),
            decreases sem_id + 1 - alloc@.len(),
        {
            let ghost before = alloc@;
            alloc.push(0);
            assert(alloc@ =~= orig + Seq::new((alloc@.len() - orig.len()) as nat, |i: int| 0usize))
                by {
                assert(before =~= orig + Seq::new((before.len() - orig.len()) as nat, |i: int| 0usize));
            }
        }
        proof {
            if orig.len() > sem_id {
                assert(alloc@ =~= orig);
            }
        }
    }

    /// The row of thread `tid`, if it has one.
    fn semaphore_allocation_of(&self, tid: usize) -> (r: Option<&Vec<usize>>)
        ensures
            match r {
                Some(a) => self.semaphore_allocation@.contains_key(tid)
                    && self.semaphore_allocation@[tid] == *a,
                None => !self.semaphore_allocation@.contains_key(tid),
            },
    {
        self.semaphore_allocation.get(&tid)
    }

    /// Takes thread `tid`'s row out of the table (an empty one if it had
    /// none), padded so that it has an entry for semaphore `sem_id`.
    fn take_semaphore_allocation(&mut self, tid: usize, sem_id: usize) -> (row: Vec<usize>)
        requires
            sem_id < usize::MAX,
        ensures
            row@ == padded(alloc_of(alloc_view(old(self).semaphore_allocation@), tid), sem_id),
            alloc_view(final(self).semaphore_allocation@) == alloc_view(
                old(self).semaphore_allocation@,
            ).remove(tid),
            final(self).semaphore_wait@ == old(self).semaphore_wait@,
            final(self).mutex_owner@ == old(self).mutex_owner@,
            final(self).mutex_wait@ == old(self).mutex_wait@,
            final(self).deadlock == old(self).deadlock,
    {
        let mut row = match self.semaphore_allocation.remove(&tid) {
            Some(v) => v,
            None => Vec::new(),
        };
        Self::ensure_semaphore_slot(&mut row, sem_id);
        assert(alloc_view(self.semaphore_allocation@) =~= alloc_view(
            old(self).semaphore_allocation@,
        ).remove(tid));
        row
    }

    /// Puts thread `tid`'s row back into the table.
    fn put_semaphore_allocation(&mut self, tid: usize, row: Vec<usize>)
        ensures
            alloc_view(final(self).semaphore_allocation@) == alloc_view(
                old(self).semaphore_allocation@,
            ).insert(tid, row@),
            final(self).semaphore_wait@ == old(self).semaphore_wait@,
            final(self).mutex_owner@ == old(self).mutex_owner@,
            final(self).mutex_wait@ == old(self).mutex_wait@,
            final(self).deadlock == old(self).deadlock,
    {
        let ghost r = row@;
        self.semaphore_allocation.insert(tid, row);
        assert(alloc_view(self.semaphore_allocation@) =~= alloc_view(
            old(self).semaphore_allocation@,
        ).insert(tid, r));
    }

    /// Records that `tid` got one unit of semaphore `sem_id` (and waits no longer).
    pub fn record_semaphore_down(&mut self, tid: usize, sem_id: usize)
        requires
            sem_id < usize::MAX,
            units(alloc_view(old(self).semaphore_allocation@), tid, sem_id) < usize::MAX,
        ensures
            final(self).semaphore_wait@ == old(self).semaphore_wait@.remove(tid),
            alloc_view(final(self).semaphore_allocation@) == acquired(
                alloc_view(old(self).semaphore_allocation@),
                tid,
                sem_id,
            ),
            final(self).mutex_owner@ == old(self).mutex_owner@,
            final(self).mutex_wait@ == old(self).mutex_wait@,
            final(self).deadlock == old(self).deadlock,
    {
        let ghost av = alloc_view(self.semaphore_allocation@);
        self.semaphore_wait.remove(&tid);
        let mut alloc = self.take_semaphore_allocation(tid, sem_id);
        let cur = alloc[sem_id];
        assert(cur == units(av, tid, sem_id));
        alloc.set(sem_id, cur + 1);
        self.put_semaphore_allocation(tid, alloc);
        assert(alloc_view(self.semaphore_allocation@) =~= acquired(av, tid, sem_id));
    }

    /// Records that `tid` blocks waiting for semaphore `sem_id`.
    pub fn record_semaphore_wait(&mut self, tid: usize, sem_id: usize)
        ensures
            final(self).semaphore_wait@ == old(self).semaphore_wait@.insert(tid, sem_id),
            final(self).semaphore_allocation@ == old(self).semaphore_allocation@,
            final(self).mutex_owner@ == old(self).mutex_owner@,
            final(self).mutex_wait@ == old(self).mutex_wait@,
            final(self).deadlock == old(self).deadlock,
    {
        self.semaphore_wait.insert(tid, sem_id);
    }

    /// Records that `tid` gave back a unit of semaphore `sem_id` (if it held
    /// one) and that the woken thread, if any, got it and waits no longer.
    pub fn record_semaphore_up(&mut self, tid: usize, sem_id: usize, waking_tid: Option<usize>)
        requires
            sem_id < usize::MAX,
            match waking_tid {
                Some(w) => units(
                    given_back(alloc_view(old(self).semaphore_allocation@), tid, sem_id),
                    w,
                    sem_id,
                ) < usize::MAX,
                None => true,
            },
        ensures
            final(self).semaphore_wait@ == match waking_tid {
                Some(w) => old(self).semaphore_wait@.remove(w),
                None => old(self).semaphore_wait@,
            },
            alloc_view(final(self).semaphore_allocation@) == match waking_tid {
                Some(w) => acquired(
                    given_back(alloc_view(old(self).semaphore_allocation@), tid, sem_id),
                    w,
                    sem_id,
                ),
                None => given_back(alloc_view(old(self).semaphore_allocation@), tid, sem_id),
            },
            final(self).mutex_owner@ == old(self).mutex_owner@,
            final(self).mutex_wait@ == old(self).mutex_wait@,
            final(self).deadlock == old(self).deadlock,
    {
        let ghost av = alloc_view(self.semaphore_allocation@);
        let mut alloc = self.take_semaphore_allocation(tid, sem_id);
        let cur = alloc[sem_id];
        assert(cur == units(av, tid, sem_id));
        if cur > 0 {
            alloc.set(sem_id, cur - 1);
        }
        assert(alloc@ =~= padded(alloc_of(av, tid), sem_id).update(
            sem_id as int,
            if cur > 0 {
                (cur - 1) as usize
            } else {
                0usize
            },
        ));
        self.put_semaphore_allocation(tid, alloc);
        let ghost mid = alloc_view(self.semaphore_allocation@);
        assert(mid =~= given_back(av, tid, sem_id));
        if let Some(waking) = waking_tid {
            self.semaphore_wait.remove(&waking);
            let mut alloc2 = self.take_semaphore_allocation(waking, sem_id);
            let cur2 = alloc2[sem_id];
            assert(cur2 == units(mid, waking, sem_id));
            alloc2.set(sem_id, cur2 + 1);
            self.put_semaphore_allocation(waking, alloc2);
            assert(alloc_view(self.semaphore_allocation@) =~= acquired(mid, waking, sem_id));
        }
    }


    /// Whether `mutex_lock` refuses at once (with the deadlock code):
    /// detection is on and blocking `tid` on `mutex_id` would close a
    /// wait-for cycle.
    pub fn refuses_mutex_lock(&self, tid: usize, mutex_id: usize) -> (r: bool)
        ensures
            r == (self.deadlock && mutex_cycle(self.mutex_owner@, self.mutex_wait@, tid, mutex_id)),
    {
        self.deadlock && self.would_mutex_deadlock(tid, mutex_id)
    }

    /// The end of a `mutex_lock` that was not refused: 0 when `tid` got the
    /// mutex, -1 when it blocks. The new owner is always recorded; while
    /// detection is on, so is the wait.
    pub fn finish_mutex_lock(&mut self, tid: usize, mutex_id: usize, acquired: bool) -> (r: isize)
        requires
            mutex_id < usize::MAX,
        ensures
            r == if acquired { 0isize } else { -1isize },
            !old(self).deadlock && !acquired ==> *final(self) == *old(self),
            acquired ==> {
                &&& final(self).mutex_wait@ == old(self).mutex_wait@.remove(tid)
                &&& owner_of(final(self).mutex_owner@, mutex_id) == Some(tid)
                &&& forall|m: usize| m != mutex_id ==> #[trigger] owner_of(final(self).mutex_owner@, m)
                    == owner_of(old(self).mutex_owner@, m)
            },
            old(self).deadlock && !acquired ==> {
                &&& final(self).mutex_wait@ == old(self).mutex_wait@.insert(tid, mutex_id)
                &&& forall|m: usize| #[trigger] owner_of(final(self).mutex_owner@, m)
                    == owner_of(old(self).mutex_owner@, m)
            },
            final(self).deadlock == old(self).deadlock,
            final(self).semaphore_allocation@ == old(self).semaphore_allocation@,
            final(self).semaphore_wait@ == old(self).semaphore_wait@,
    {
        if acquired {
            self.record_mutex_lock(tid, mutex_id);
            0
        } else {
            if self.deadlock {
                self.record_mutex_wait(tid, mutex_id);
            }
            -1
        }
    }

    /// Whether `mutex_unlock` by `tid` is refused (with -1, changing
    /// nothing): `tid` does not own mutex `mutex_id`.
    pub fn refuses_mutex_unlock(&self, tid: usize, mutex_id: usize) -> (r: bool)
        ensures
            r == (owner_of(self.mutex_owner@, mutex_id) != Some(tid)),
    {
        if mutex_id < self.mutex_owner.len() {
            match self.mutex_owner[mutex_id] {
                Some(owner) => owner != tid,
                None => true,
            }
        } else {
            true
        }
    }

    /// The end of a `mutex_unlock` by the owner that woke `waking_tid`: the
    /// new owner (or none) is recorded, and the woken thread waits no longer.
    pub fn finish_mutex_unlock(&mut self, mutex_id: usize, waking_tid: Option<usize>)
        requires
            mutex_id < usize::MAX,
        ensures
            owner_of(final(self).mutex_owner@, mutex_id) == waking_tid,
            final(self).mutex_wait@ == match waking_tid {
                Some(t) => old(self).mutex_wait@.remove(t),
                None => old(self).mutex_wait@,
            },
            forall|m: usize| m != mutex_id ==> #[trigger] owner_of(final(self).mutex_owner@, m)
                == owner_of(old(self).mutex_owner@, m),
            final(self).deadlock == old(self).deadlock,
            final(self).semaphore_allocation@ == old(self).semaphore_allocation@,
            final(self).semaphore_wait@ == old(self).semaphore_wait@,
    {
        self.record_mutex_unlock(mutex_id, waking_tid);
    }

    /// The end of a `semaphore_up` by `tid` that woke `waking_tid`: while
    /// detection is on, the unit given back and the woken thread's unit
    /// are recorded.
    pub fn finish_semaphore_up(&mut self, tid: usize, sem_id: usize, waking_tid: Option<usize>)
        requires
            sem_id < usize::MAX,
            match waking_tid {
                Some(w) => units(
                    given_back(alloc_view(old(self).semaphore_allocation@), tid, sem_id),
                    w,
                    sem_id,
                ) < usize::MAX,
                None => true,
            },
        ensures
            !old(self).deadlock ==> *final(self) == *old(self),
            old(self).deadlock ==> {
                &&& final(self).semaphore_wait@ == match waking_tid {
                    Some(w) => old(self).semaphore_wait@.remove(w),
                    None => old(self).semaphore_wait@,
                }
                &&& alloc_view(final(self).semaphore_allocation@) == match waking_tid {
                    Some(w) => acquired(
                        given_back(alloc_view(old(self).semaphore_allocation@), tid, sem_id),
                        w,
                        sem_id,
                    ),
                    None => given_back(alloc_view(old(self).semaphore_allocation@), tid, sem_id),
                }
            },
            final(self).deadlock == old(self).deadlock,
            final(self).mutex_owner@ == old(self).mutex_owner@,
            final(self).mutex_wait@ == old(self).mutex_wait@,
    {
        if self.deadlock {
            self.record_semaphore_up(tid, sem_id, waking_tid);
        }
    }

    /// Whether `semaphore_down` refuses at once (with the deadlock code):
    /// detection is on, no unit of `sem_id` is free, and granting the
    /// request would be unsafe.
    pub fn refuses_semaphore_down(&self, tid: usize, sem_id: usize, threads: &[usize], available: &[usize]) -> (r: bool)
        requires
            forall|res: int|
                0 <= res < available@.len() ==> available@[res] + #[trigger] held_total(
                    alloc_view(self.semaphore_allocation@),
                    threads@,
                    res,
                    threads@.len(),
                ) <= usize::MAX,
        ensures
            r == (self.deadlock && (sem_id >= available@.len() || available@[sem_id as int] == 0)
                && semaphore_unsafe(
                self.semaphore_wait@,
                alloc_view(self.semaphore_allocation@),
                tid,
                sem_id,
                threads@,
                available@,
            )),
    {
        if !self.deadlock {
            return false;
        }
        let free = if sem_id < available.len() {
            available[sem_id]
        } else {
            0
        };
        free == 0 && self.would_semaphore_deadlock(tid, sem_id, threads, available)
    }

    /// The end of a `semaphore_down` that was not refused: 0 when `tid` got
    /// a unit, -1 when it blocks; while detection is on, the unit or the
    /// wait is recorded.
    pub fn finish_semaphore_down(&mut self, tid: usize, sem_id: usize, got: bool) -> (r: isize)
        requires
            sem_id < usize::MAX,
            units(alloc_view(old(self).semaphore_allocation@), tid, sem_id) < usize::MAX,
        ensures
            r == if got { 0isize } else { -1isize },
            !old(self).deadlock ==> *final(self) == *old(self),
            old(self).deadlock && got ==> {
                &&& final(self).semaphore_wait@ == old(self).semaphore_wait@.remove(tid)
                &&& alloc_view(final(self).semaphore_allocation@) == acquired(
                    alloc_view(old(self).semaphore_allocation@),
                    tid,
                    sem_id,
                )
            },
            old(self).deadlock && !got ==> {
                &&& final(self).semaphore_wait@ == old(self).semaphore_wait@.insert(tid, sem_id)
                &&& final(self).semaphore_allocation@ == old(self).semaphore_allocation@
            },
            final(self).deadlock == old(self).deadlock,
            final(self).mutex_owner@ == old(self).mutex_owner@,
            final(self).mutex_wait@ == old(self).mutex_wait@,
    {
        if got {
            if self.deadlock {
                self.record_semaphore_down(tid, sem_id);
            }
            0
        } else {
            if self.deadlock {
                self.record_semaphore_wait(tid, sem_id);
            }
            -1
        }
    }

    /// Whether granting `tid`'s request for semaphore `sem_id` would be
    /// unsafe: `threads` are the process's threads and `available` the free
    /// units of each semaphore.
    pub fn would_semaphore_deadlock(
        &self,
        tid: usize,
        sem_id: usize,
        threads: &[usize],
        available: &[usize],
    ) -> (r: bool)
        requires
            forall|res: int|
                0 <= res < available@.len() ==> available@[res] + #[trigger] held_total(
                    alloc_view(self.semaphore_allocation@),
                    threads@,
                    res,
                    threads@.len(),
                ) <= usize::MAX,
        ensures
            r == semaphore_unsafe(
                self.semaphore_wait@,
                alloc_view(self.semaphore_allocation@),
                tid,
                sem_id,
                threads@,
                available@,
            ),
    {
        let ghost waits = self.semaphore_wait@;
        let ghost av = alloc_view(self.semaphore_allocation@);
        let ghost ts = threads@;
        let n = threads.len();
        let mut work: Vec<usize> = Vec::new();
        let mut k: usize = 0;
        while k < available.len()
            invariant
                k <= available@.len(),
                work@ == available@.subrange(0, k as int),
            decreases available.len() - k,
        {
            work.push(available[k]);
            k = k + 1;
        }
        assert(work@ =~= available@);
        let mut finish: Vec<bool> = Vec::new();
        k = 0;
        while k < n
            invariant
                k <= n,
                n == threads@.len(),
                finish@ == Seq::new(k as nat, |i: int| false),
            decreases n - k,
        {
            finish.push(false);
            assert(finish@ =~= Seq::new((k + 1) as nat, |i: int| false));
            k = k + 1;
        }
        let ghost w0 = as_ints(work@);
        let ghost f0 = finish@;
        assert forall|res: int| 0 <= res < work@.len() implies #[trigger] work@[res]
            == available@[res] + held_finished(av, ts, finish@, res, n as nat) by {
            lemma_held_finished_none(av, ts, finish@, res, n as nat);
        }
        proof {
            lemma_count_le(finish@);
        }
        let ghost mut done: nat = 0;
        loop
            invariant
                n == ts.len(),
                ts == threads@,
                waits == self.semaphore_wait@,
                av == alloc_view(self.semaphore_allocation@),
                w0 == as_ints(available@),
                f0 == Seq::new(n as nat, |i: int| false),
                finish@.len() == n,
                work@.len() == available@.len(),
                done <= count_true(finish@),
                count_true(finish@) <= n,
                passes(waits, av, tid, sem_id, ts, w0, f0, (n + 1) as nat) == passes(
                    waits,
                    av,
                    tid,
                    sem_id,
                    ts,
                    as_ints(work@),
                    finish@,
                    (n + 1 - done) as nat,
                ),
                forall|res: int|
                    0 <= res < work@.len() ==> #[trigger] work@[res] == available@[res]
                        + held_finished(av, ts, finish@, res, n as nat),
                forall|res: int|
                    0 <= res < available@.len() ==> available@[res] + #[trigger] held_total(
                        av,
                        ts,
                        res,
                        n as nat,
                    ) <= usize::MAX,
            ensures
                finish@ == passes(waits, av, tid, sem_id, ts, w0, f0, (n + 1) as nat),
                finish@.len() == n,
            decreases n - done,
        {
            let ghost work_start = as_ints(work@);
            let ghost finish_start = finish@;
            let ghost mut marked: nat = 0;
            let mut progressed = false;
            let mut idx: usize = 0;
            while idx < n
                invariant
                    idx <= n,
                    n == ts.len(),
                    ts == threads@,
                    waits == self.semaphore_wait@,
                    av == alloc_view(self.semaphore_allocation@),
                    finish@.len() == n,
                    finish_start.len() == n,
                    work@.len() == available@.len(),
                    (as_ints(work@), finish@, progressed) == sweep(
                        waits,
                        av,
                        tid,
                        sem_id,
                        ts,
                        work_start,
                        finish_start,
                        idx as nat,
                    ),
                    count_true(finish@) == count_true(finish_start) + marked,
                    progressed == (marked > 0),
                    !progressed ==> finish@ == finish_start && as_ints(work@) == work_start,
                    forall|res: int|
                        0 <= res < work@.len() ==> #[trigger] work@[res] == available@[res]
                            + held_finished(av, ts, finish@, res, n as nat),
                    forall|res: int|
                        0 <= res < available@.len() ==> available@[res] + #[trigger] held_total(
                            av,
                            ts,
                            res,
                            n as nat,
                        ) <= usize::MAX,
                decreases n - idx,
            {
                if !finish[idx] {
                    let thread = threads[idx];
                    let request = if thread == tid {
                        Some(sem_id)
                    } else {
                        match self.semaphore_wait.get(&thread) {
                            Some(s) => Some(*s),
                            None => None,
                        }
                    };
                    let can_run = match request {
                        Some(request_sem) => request_sem < work.len() && work[request_sem] > 0,
                        None => true,
                    };
                    assert(request == request_of(waits, tid, sem_id, thread));
                    assert(can_run == can_finish(as_ints(work@), request));
                    if can_run {
                        let ghost before = finish@;
                        let ghost work_before = work@;
                        proof {
                            lemma_count_mark(before, idx as int);
                        }
                        finish.set(idx, true);
                        progressed = true;
                        proof {
                            marked = marked + 1;
                            assert forall|res: int| 0 <= res < work_before.len() implies #[trigger] work_before[res]
                                + held(av, ts, idx as int, res) == available@[res]
                                + held_finished(av, ts, finish@, res, n as nat) by {
                                lemma_held_finished_mark(av, ts, before, res, n as nat, idx as int);
                            }
                            assert forall|res: int| 0 <= res < available@.len() implies
                                held_finished(av, ts, finish@, res, n as nat) <= #[trigger] held_total(
                                av,
                                ts,
                                res,
                                n as nat,
                            ) by {
                                lemma_held_finished_le(av, ts, finish@, res, n as nat);
                            }
                        }
                        match self.semaphore_allocation_of(thread) {
                            Some(allocation) => {
                                assert(allocation@ == alloc_of(av, thread));
                                assert forall|res: int|
                                    0 <= res < work@.len() && res < allocation@.len() implies #[trigger] work@[res]
                                        + allocation@[res] <= usize::MAX by {
                                    assert(held(av, ts, idx as int, res) == allocation@[res]);
                                    lemma_held_finished_mark(av, ts, before, res, n as nat, idx as int);
                                    lemma_held_finished_le(av, ts, finish@, res, n as nat);
                                    assert(available@[res] + held_total(av, ts, res, n as nat) <= usize::MAX);
                                }
                                add_units(&mut work, allocation);
                                assert(as_ints(work@).len() == as_ints(work_before).len());
                                assert forall|res: int| 0 <= res < work@.len() implies #[trigger] work@[res]
                                    == available@[res] + held_finished(av, ts, finish@, res, n as nat) by {
                                    assert(as_ints(work@)[res] == released(as_ints(work_before), allocation@)[res]);
                                    lemma_held_finished_mark(av, ts, before, res, n as nat, idx as int);
                                    assert(work_before[res] == available@[res] + held_finished(av, ts, before, res, n as nat));
                                }
                            },
                            None => {
                                assert(as_ints(work@) =~= released(as_ints(work@), alloc_of(av, thread)));
                                assert forall|res: int| 0 <= res < work@.len() implies #[trigger] work@[res]
                                    == available@[res] + held_finished(av, ts, finish@, res, n as nat) by {
                                    lemma_held_finished_mark(av, ts, before, res, n as nat, idx as int);
                                    assert(work_before[res] == available@[res] + held_finished(av, ts, before, res, n as nat));
                                }
                            },
                        }
                    }
                }
                idx = idx + 1;
            }
            if !progressed {
                break;
            }
            proof {
                lemma_count_le(finish@);
                done = done + 1;
            }
        }
        let mut any = false;
        let mut i: usize = 0;
        while i < n
            invariant
                i <= n,
                finish@.len() == n,
                any == exists|j: int| 0 <= j < i && !#[trigger] finish@[j],
            decreases n - i,
        {
            if !finish[i] {
                any = true;
            }
            i = i + 1;
        }
        any
    }

}

/// A request for a free mutex never closes a wait-for cycle; a thread
/// asking again for a mutex it holds always does.
pub proof fn lemma_mutex_cycle_edges(owners: Seq<Option<usize>>, waits: Map<usize, usize>, tid: usize, m: usize)
    ensures
        owner_of(owners, m) is None ==> !mutex_cycle(owners, waits, tid, m),
        owner_of(owners, m) == Some(tid) ==> mutex_cycle(owners, waits, tid, m),
{
}

/// Giving back a unit of a semaphore just taken leaves what every thread
/// holds of every semaphore as it was.
pub proof fn lemma_up_undoes_down(allocs: Map<usize, Seq<usize>>, t: usize, sem: usize, x: usize, y: usize)
    requires
        units(allocs, t, sem) < usize::MAX,
    ensures
        units(given_back(acquired(allocs, t, sem), t, sem), x, y) == units(allocs, x, y),
{
    let a = acquired(allocs, t, sem);
    let b = given_back(a, t, sem);
    assert(units(a, t, sem) == units(allocs, t, sem) + 1);
    if x == t {
        if y != sem {
            assert(units(b, x, y) == units(allocs, x, y));
        }
    }
}

/// The thread met after `n` steps along the wait-for chain from `c`
/// (none if the chain stops before).
pub open spec fn walk(owners: Seq<Option<usize>>, waits: Map<usize, usize>, c: usize, n: nat) -> Option<usize>
    decreases n,
{
    if n == 0 {
        Some(c)
    } else {
        match waits_for(owners, waits, c) {
            None => None,
            Some(x) => walk(owners, waits, x, (n - 1) as nat),
        }
    }
}

/// The chain reaches `t` within `fuel` threads exactly when some walk of
/// fewer than `fuel` steps ends at `t`.
proof fn lemma_reaches_walk(owners: Seq<Option<usize>>, waits: Map<usize, usize>, c: usize, t: usize, fuel: nat)
    ensures
        reaches(owners, waits, c, t, fuel) ==> exists|k: nat| k < fuel && #[trigger] walk(owners, waits, c, k) == Some(t),
    decreases fuel,
{
    if fuel > 0 && c != t {
        if let Some(x) = waits_for(owners, waits, c) {
            lemma_reaches_walk(owners, waits, x, t, (fuel - 1) as nat);
            if reaches(owners, waits, c, t, fuel) {
                let k = choose|k: nat| k < fuel - 1 && #[trigger] walk(owners, waits, x, k) == Some(t);
                assert(walk(owners, waits, c, k + 1) == Some(t));
            }
        }
    } else if fuel > 0 {
        assert(walk(owners, waits, c, 0) == Some(t));
    }
}

/// A walk of `k` steps to `t` means the chain reaches `t` within any fuel above `k`.
proof fn lemma_walk_reaches(owners: Seq<Option<usize>>, waits: Map<usize, usize>, c: usize, t: usize, k: nat, fuel: nat)
    requires
        walk(owners, waits, c, k) == Some(t),
        k < fuel,
    ensures
        reaches(owners, waits, c, t, fuel),
    decreases k,
{
    if k > 0 && c != t {
        let x = waits_for(owners, waits, c)->0;
        lemma_walk_reaches(owners, waits, x, t, (k - 1) as nat, (fuel - 1) as nat);
    }
}

/// Walking `a` steps then `b` steps is walking `a + b` steps.
proof fn lemma_walk_split(owners: Seq<Option<usize>>, waits: Map<usize, usize>, c: usize, a: nat, b: nat)
    ensures
        walk(owners, waits, c, a + b) == match walk(owners, waits, c, a) {
            None => None,
            Some(y) => walk(owners, waits, y, b),
        },
    decreases a,
{
    if a > 0 {
        if let Some(x) = waits_for(owners, waits, c) {
            lemma_walk_split(owners, waits, x, (a - 1) as nat, b);
            assert((a + b - 1) as nat == ((a - 1) as nat + b) as nat);
        }
    }
}

/// Every thread a walk passes before its end waits for something.
proof fn lemma_walk_waits(owners: Seq<Option<usize>>, waits: Map<usize, usize>, c: usize, k: nat, i: nat)
    requires
        walk(owners, waits, c, k) is Some,
        i < k,
    ensures
        walk(owners, waits, c, i) is Some,
        waits.contains_key(walk(owners, waits, c, i)->0),
{
    lemma_walk_split(owners, waits, c, i, (k - i) as nat);
    let y = walk(owners, waits, c, i)->0;
    assert(walk(owners, waits, y, (k - i) as nat) is Some);
}

/// A walk longer than the number of waiting threads repeats a thread, so
/// a shorter walk ends at the same place.
proof fn lemma_walk_shorter(owners: Seq<Option<usize>>, waits: Map<usize, usize>, c: usize, k: nat)
    requires
        waits.dom().finite(),
        walk(owners, waits, c, k) is Some,
        k > waits.dom().len(),
    ensures
        exists|k2: nat| k2 < k && #[trigger] walk(owners, waits, c, k2) == walk(owners, waits, c, k),
{
    let n = waits.dom().len();
    let xs = vstd::set_lib::set_int_range(0, n + 1int);
    let f = |i: int| walk(owners, waits, c, i as nat)->0;
    vstd::set_lib::lemma_int_range(0, n + 1int);
    assert forall|y: usize| #[trigger] xs.map(f).contains(y) implies waits.dom().contains(y) by {
        let i = choose|i: int| xs.contains(i) && f(i) == y;
        lemma_walk_waits(owners, waits, c, k, i as nat);
    }
    if vstd::relations::injective_on(f, xs) {
        vstd::set_lib::lemma_map_size(xs, xs.map(f), f);
        vstd::set_lib::lemma_len_subset(xs.map(f), waits.dom());
        assert(false);
    }
    let (i, j) = choose|i: int, j: int| xs.contains(i) && xs.contains(j) && i != j && #[trigger] f(i) == #[trigger] f(j);
    let (lo, hi) = if i < j { (i as nat, j as nat) } else { (j as nat, i as nat) };
    lemma_walk_waits(owners, waits, c, k, lo);
    lemma_walk_waits(owners, waits, c, k, hi);
    lemma_walk_split(owners, waits, c, hi, (k - hi) as nat);
    lemma_walk_split(owners, waits, c, lo, (k - hi) as nat);
    assert((lo + (k - hi) as nat) < k);
    assert(walk(owners, waits, c, (lo + (k - hi) as nat) as nat) == walk(owners, waits, c, k));
}

/// Some walk to the same place takes at most as many steps as there are
/// waiting threads.
proof fn lemma_walk_bounded(owners: Seq<Option<usize>>, waits: Map<usize, usize>, c: usize, k: nat)
    requires
        waits.dom().finite(),
        walk(owners, waits, c, k) is Some,
    ensures
        exists|k2: nat| k2 <= waits.dom().len() && #[trigger] walk(owners, waits, c, k2) == walk(owners, waits, c, k),
    decreases k,
{
    if k > waits.dom().len() {
        lemma_walk_shorter(owners, waits, c, k);
        let k2 = choose|k2: nat| k2 < k && #[trigger] walk(owners, waits, c, k2) == walk(owners, waits, c, k);
        lemma_walk_bounded(owners, waits, c, k2);
    }
}

/// The wait-for check looks far enough: if blocking `tid` on `m` would
/// close a cycle of any length (the owner of `m` is `tid`, or leads to
/// `tid` along the wait-for chain however far), `mutex_cycle` says so.
pub proof fn lemma_mutex_cycle_complete(
    owners: Seq<Option<usize>>,
    waits: Map<usize, usize>,
    tid: usize,
    m: usize,
    fuel: nat,
)
    requires
        waits.dom().finite(),
        owner_of(owners, m) is Some,
        reaches(owners, waits, owner_of(owners, m)->0, tid, fuel),
    ensures
        mutex_cycle(owners, waits, tid, m),
{
    let o = owner_of(owners, m)->0;
    lemma_reaches_walk(owners, waits, o, tid, fuel);
    let k = choose|k: nat| k < fuel && #[trigger] walk(owners, waits, o, k) == Some(tid);
    lemma_walk_bounded(owners, waits, o, k);
    let k2 = choose|k2: nat| k2 <= waits.dom().len() && #[trigger] walk(owners, waits, o, k2) == walk(owners, waits, o, k);
    lemma_walk_reaches(owners, waits, o, tid, k2, waits.len() + 1);
}

/// The free units after the threads at positions `p[0..k]` of `threads`
/// have finished, in that order, starting from `work0`.
pub open spec fn order_work(
    allocs: Map<usize, Seq<usize>>,
    threads: Seq<usize>,
    work0: Seq<int>,
    p: Seq<int>,
    k: nat,
) -> Seq<int>
    decreases k,
{
    if k == 0 {
        work0
    } else {
        released(order_work(allocs, threads, work0, p, (k - 1) as nat), alloc_of(allocs, threads[p[k - 1]]))
    }
}

/// `p` lists every position of `threads` once, in an order in which the
/// threads can finish one after another, each with the units free once
/// those before it have given theirs back.
pub open spec fn finishing_order(
    waits: Map<usize, usize>,
    allocs: Map<usize, Seq<usize>>,
    tid: usize,
    sem: usize,
    threads: Seq<usize>,
    work0: Seq<int>,
    p: Seq<int>,
) -> bool {
    &&& p.len() == threads.len()
    &&& p.no_duplicates()
    &&& forall|k: int| 0 <= k < p.len() ==> 0 <= #[trigger] p[k] < threads.len()
    &&& forall|i: int| 0 <= i < threads.len() ==> #[trigger] p.contains(i)
    &&& forall|k: int|
        0 <= k < p.len() ==> #[trigger] can_finish(
            order_work(allocs, threads, work0, p, k as nat),
            request_of(waits, tid, sem, threads[p[k]]),
        )
}

/// The positions `p[0..k]` marked among `n`.
pub open spec fn marked(p: Seq<int>, k: nat, n: nat) -> Seq<bool>
    decreases k,
{
    if k == 0 {
        Seq::new(n, |i: int| false)
    } else {
        marked(p, (k - 1) as nat, n).update(p[k - 1], true)
    }
}

proof fn lemma_marked(p: Seq<int>, k: nat, n: nat)
    requires
        k <= p.len(),
        forall|j: int| 0 <= j < p.len() ==> 0 <= #[trigger] p[j] < n,
    ensures
        marked(p, k, n).len() == n,
        forall|i: int| 0 <= i < n && #[trigger] marked(p, k, n)[i] ==> exists|j: int| 0 <= j < k && p[j] == i,
    decreases k,
{
    if k > 0 {
        lemma_marked(p, (k - 1) as nat, n);
        let prev = marked(p, (k - 1) as nat, n);
        assert forall|i: int| 0 <= i < n && #[trigger] marked(p, k, n)[i] implies exists|j: int|
            0 <= j < k && p[j] == i by {
            if i != p[k - 1] {
                assert(prev[i]);
                let j = choose|j: int| 0 <= j < k - 1 && p[j] == i;
                assert(0 <= j < k && p[j] == i);
            } else {
                assert(p[k - 1] == i);
            }
        }
    }
}

proof fn lemma_count_none(n: nat)
    ensures
        count_true(Seq::new(n, |i: int| false)) == 0,
    decreases n,
{
    if n > 0 {
        assert(Seq::new(n, |i: int| false).drop_last() =~= Seq::new((n - 1) as nat, |i: int| false));
        lemma_count_none((n - 1) as nat);
    }
}

proof fn lemma_held_finished_mono(
    allocs: Map<usize, Seq<usize>>,
    threads: Seq<usize>,
    g: Seq<bool>,
    f: Seq<bool>,
    r: int,
    n: nat,
)
    requires
        n <= g.len(),
        n <= f.len(),
        forall|j: int| 0 <= j < n && #[trigger] g[j] ==> f[j],
    ensures
        held_finished(allocs, threads, g, r, n) <= held_finished(allocs, threads, f, r, n),
    decreases n,
{
    if n > 0 {
        lemma_held_finished_mono(allocs, threads, g, f, r, (n - 1) as nat);
    }
}

/// The units free along an order are the starting ones plus what the
/// threads finished so far hold.
proof fn lemma_order_work(
    allocs: Map<usize, Seq<usize>>,
    threads: Seq<usize>,
    work0: Seq<int>,
    p: Seq<int>,
    k: nat,
)
    requires
        k <= p.len(),
        p.no_duplicates(),
        forall|j: int| 0 <= j < p.len() ==> 0 <= #[trigger] p[j] < threads.len(),
    ensures
        order_work(allocs, threads, work0, p, k).len() == work0.len(),
        forall|r: int|
            0 <= r < work0.len() ==> #[trigger] order_work(allocs, threads, work0, p, k)[r] == work0[r]
                + held_finished(allocs, threads, marked(p, k, threads.len()), r, threads.len()),
    decreases k,
{
    let n = threads.len();
    lemma_marked(p, k, n);
    if k == 0 {
        assert forall|r: int| 0 <= r < work0.len() implies #[trigger] order_work(allocs, threads, work0, p, k)[r]
            == work0[r] + held_finished(allocs, threads, marked(p, k, n), r, n) by {
            lemma_held_finished_none(allocs, threads, marked(p, k, n), r, n);
        }
    } else {
        lemma_order_work(allocs, threads, work0, p, (k - 1) as nat);
        lemma_marked(p, (k - 1) as nat, n);
        let prev = marked(p, (k - 1) as nat, n);
        let i = p[k - 1];
        assert(!prev[i]) by {
            if prev[i] {
                let j = choose|j: int| 0 <= j < k - 1 && p[j] == i;
                assert(p[j] == p[k - 1]);
            }
        }
        assert forall|r: int| 0 <= r < work0.len() implies #[trigger] order_work(allocs, threads, work0, p, k)[r]
            == work0[r] + held_finished(allocs, threads, marked(p, k, n), r, n) by {
            lemma_held_finished_mark(allocs, threads, prev, r, n, i);
        }
    }
}

/// One pass keeps the free units equal to the starting ones plus what the
/// finished threads hold, only adds finish marks, counts each new one,
/// and when it finishes nobody, every unfinished thread it looked at
/// could not finish.
proof fn lemma_sweep(
    waits: Map<usize, usize>,
    allocs: Map<usize, Seq<usize>>,
    tid: usize,
    sem: usize,
    threads: Seq<usize>,
    work0: Seq<int>,
    work: Seq<int>,
    finish: Seq<bool>,
    idx: nat,
)
    requires
        idx <= threads.len(),
        finish.len() == threads.len(),
        work.len() == work0.len(),
        forall|r: int| 0 <= r < work0.len() ==> #[trigger] work[r] == work0[r] + held_finished(
            allocs,
            threads,
            finish,
            r,
            threads.len(),
        ),
    ensures
        ({
            let s = sweep(waits, allocs, tid, sem, threads, work, finish, idx);
            &&& s.0.len() == work0.len()
            &&& s.1.len() == threads.len()
            &&& forall|r: int| 0 <= r < work0.len() ==> #[trigger] s.0[r] == work0[r] + held_finished(
                allocs,
                threads,
                s.1,
                r,
                threads.len(),
            )
            &&& forall|j: int| 0 <= j < threads.len() && #[trigger] finish[j] ==> s.1[j]
            &&& count_true(s.1) >= count_true(finish) + if s.2 { 1int } else { 0int }
            &&& !s.2 ==> s.0 == work && s.1 == finish && forall|i: int| 0 <= i < idx ==> finish[i] || !can_finish(
                work,
                request_of(waits, tid, sem, #[trigger] threads[i]),
            )
        }),
    decreases idx,
{
    let n = threads.len();
    if idx > 0 {
        lemma_sweep(waits, allocs, tid, sem, threads, work0, work, finish, (idx - 1) as nat);
        let prev = sweep(waits, allocs, tid, sem, threads, work, finish, (idx - 1) as nat);
        let i = idx - 1;
        let t = threads[i];
        if !(prev.1[i] || !can_finish(prev.0, request_of(waits, tid, sem, t))) {
            let a = alloc_of(allocs, t);
            let s = sweep(waits, allocs, tid, sem, threads, work, finish, idx);
            assert(s == (released(prev.0, a), prev.1.update(i, true), true));
            assert forall|r: int| 0 <= r < work0.len() implies #[trigger] s.0[r] == work0[r] + held_finished(
                allocs,
                threads,
                s.1,
                r,
                n,
            ) by {
                lemma_held_finished_mark(allocs, threads, prev.1, r, n, i);
            }
            lemma_count_mark(prev.1, i);
        }
    }
}

/// Repeated passes, with enough of them, stop at a state where no
/// unfinished thread can finish with the free units, which are the
/// starting ones plus what the finished threads hold.
proof fn lemma_passes(
    waits: Map<usize, usize>,
    allocs: Map<usize, Seq<usize>>,
    tid: usize,
    sem: usize,
    threads: Seq<usize>,
    work0: Seq<int>,
    work: Seq<int>,
    finish: Seq<bool>,
    fuel: nat,
) -> (w: Seq<int>)
    requires
        finish.len() == threads.len(),
        work.len() == work0.len(),
        forall|r: int| 0 <= r < work0.len() ==> #[trigger] work[r] == work0[r] + held_finished(
            allocs,
            threads,
            finish,
            r,
            threads.len(),
        ),
        count_true(finish) + fuel > threads.len(),
    ensures
        ({
            let f = passes(waits, allocs, tid, sem, threads, work, finish, fuel);
            &&& f.len() == threads.len()
            &&& w.len() == work0.len()
            &&& forall|r: int| 0 <= r < work0.len() ==> #[trigger] w[r] == work0[r] + held_finished(
                allocs,
                threads,
                f,
                r,
                threads.len(),
            )
            &&& forall|i: int| 0 <= i < threads.len() ==> f[i] || !can_finish(
                w,
                request_of(waits, tid, sem, #[trigger] threads[i]),
            )
        }),
    decreases fuel,
{
    lemma_count_le(finish);
    let n = threads.len();
    lemma_sweep(waits, allocs, tid, sem, threads, work0, work, finish, n);
    let s = sweep(waits, allocs, tid, sem, threads, work, finish, n);
    if !s.2 {
        work
    } else {
        lemma_passes(waits, allocs, tid, sem, threads, work0, s.0, s.1, (fuel - 1) as nat)
    }
}

/// The first position in `p` whose thread is unfinished.
proof fn lemma_first_unfinished(p: Seq<int>, f: Seq<bool>, k0: int) -> (k: int)
    requires
        0 <= k0 < p.len(),
        !f[p[k0]],
    ensures
        0 <= k <= k0,
        !f[p[k]],
        forall|j: int| 0 <= j < k ==> f[#[trigger] p[j]],
    decreases k0,
{
    if exists|j: int| 0 <= j < k0 && !f[#[trigger] p[j]] {
        let j = choose|j: int| 0 <= j < k0 && !f[#[trigger] p[j]];
        lemma_first_unfinished(p, f, j)
    } else {
        k0
    }
}

/// Units only help: a thread that can finish with some units can finish
/// with at least as many of each.
proof fn lemma_can_finish_mono(w1: Seq<int>, w2: Seq<int>, req: Option<usize>)
    requires
        w1.len() == w2.len(),
        forall|r: int| 0 <= r < w1.len() ==> #[trigger] w1[r] <= w2[r],
        can_finish(w1, req),
    ensures
        can_finish(w2, req),
{
    if let Some(r) = req {
        assert(w1[r as int] <= w2[r as int]);
    }
}

/// The banker's check refuses only in need: when the threads can all
/// finish one after another in some order once the request is granted,
/// the check does not call the request unsafe. (So a refused request
/// leaves no such order.)
pub proof fn lemma_banker_complete(
    waits: Map<usize, usize>,
    allocs: Map<usize, Seq<usize>>,
    tid: usize,
    sem: usize,
    threads: Seq<usize>,
    available: Seq<usize>,
    p: Seq<int>,
)
    requires
        finishing_order(waits, allocs, tid, sem, threads, as_ints(available), p),
    ensures
        !semaphore_unsafe(waits, allocs, tid, sem, threads, available),
{
    let n = threads.len();
    let w0 = as_ints(available);
    let f0 = Seq::new(n, |i: int| false);
    assert forall|r: int| 0 <= r < w0.len() implies #[trigger] w0[r] == w0[r] + held_finished(
        allocs,
        threads,
        f0,
        r,
        n,
    ) by {
        lemma_held_finished_none(allocs, threads, f0, r, n);
    }
    lemma_count_none(n);
    let ws = lemma_passes(waits, allocs, tid, sem, threads, w0, w0, f0, n + 1);
    let fin = passes(waits, allocs, tid, sem, threads, w0, f0, n + 1);
    if exists|i: int| 0 <= i < n && !#[trigger] fin[i] {
        let i = choose|i: int| 0 <= i < n && !#[trigger] fin[i];
        assert(p.contains(i));
        let k0 = choose|k: int| 0 <= k < p.len() && p[k] == i;
        let k = lemma_first_unfinished(p, fin, k0);
        lemma_marked(p, k as nat, n);
        lemma_order_work(allocs, threads, w0, p, k as nat);
        let mk = marked(p, k as nat, n);
        assert forall|j: int| 0 <= j < n && #[trigger] mk[j] implies fin[j] by {
            let jj = choose|jj: int| 0 <= jj < k && p[jj] == j;
            assert(fin[p[jj]]);
        }
        let ow = order_work(allocs, threads, w0, p, k as nat);
        assert forall|r: int| 0 <= r < ow.len() implies #[trigger] ow[r] <= ws[r] by {
            lemma_held_finished_mono(allocs, threads, mk, fin, r, n);
        }
        assert(can_finish(ow, request_of(waits, tid, sem, threads[p[k]])));
        lemma_can_finish_mono(ow, ws, request_of(waits, tid, sem, threads[p[k]]));
        assert(fin[p[k]] || !can_finish(ws, request_of(waits, tid, sem, threads[p[k]])));
    }
}

/// The positions one pass finishes, in the order it finishes them.
pub open spec fn sweep_order(
    waits: Map<usize, usize>,
    allocs: Map<usize, Seq<usize>>,
    tid: usize,
    sem: usize,
    threads: Seq<usize>,
    work: Seq<int>,
    finish: Seq<bool>,
    idx: nat,
) -> Seq<int>
    decreases idx,
{
    if idx == 0 {
        seq![]
    } else {
        let prev = sweep(waits, allocs, tid, sem, threads, work, finish, (idx - 1) as nat);
        let ps = sweep_order(waits, allocs, tid, sem, threads, work, finish, (idx - 1) as nat);
        let i = idx - 1;
        if prev.1[i] || !can_finish(prev.0, request_of(waits, tid, sem, threads[i])) {
            ps
        } else {
            ps.push(i)
        }
    }
}

/// The positions the passes finish, in the order they finish them.
pub open spec fn passes_order(
    waits: Map<usize, usize>,
    allocs: Map<usize, Seq<usize>>,
    tid: usize,
    sem: usize,
    threads: Seq<usize>,
    work: Seq<int>,
    finish: Seq<bool>,
    fuel: nat,
) -> Seq<int>
    decreases fuel,
{
    if fuel == 0 {
        seq![]
    } else {
        let s = sweep(waits, allocs, tid, sem, threads, work, finish, threads.len());
        if !s.2 {
            seq![]
        } else {
            sweep_order(waits, allocs, tid, sem, threads, work, finish, threads.len()) + passes_order(
                waits,
                allocs,
                tid,
                sem,
                threads,
                s.0,
                s.1,
                (fuel - 1) as nat,
            )
        }
    }
}

/// `q` lists, once each, the positions marked in `finish`, in an order in
/// which they can finish one after another from `work0`.
pub open spec fn finished_in_order(
    waits: Map<usize, usize>,
    allocs: Map<usize, Seq<usize>>,
    tid: usize,
    sem: usize,
    threads: Seq<usize>,
    work0: Seq<int>,
    q: Seq<int>,
    finish: Seq<bool>,
) -> bool {
    &&& q.no_duplicates()
    &&& forall|j: int| 0 <= j < q.len() ==> 0 <= #[trigger] q[j] < threads.len()
    &&& marked(q, q.len(), threads.len()) == finish
    &&& forall|k: int|
        0 <= k < q.len() ==> #[trigger] can_finish(
            order_work(allocs, threads, work0, q, k as nat),
            request_of(waits, tid, sem, threads[q[k]]),
        )
}

proof fn lemma_marked_has(p: Seq<int>, k: nat, n: nat, j: int)
    requires
        k <= p.len(),
        0 <= j < k,
        forall|x: int| 0 <= x < p.len() ==> 0 <= #[trigger] p[x] < n,
    ensures
        marked(p, k, n)[p[j]],
    decreases k,
{
    lemma_marked(p, (k - 1) as nat, n);
    if j < k - 1 {
        lemma_marked_has(p, (k - 1) as nat, n, j);
    }
}

proof fn lemma_marked_prefix(p1: Seq<int>, p2: Seq<int>, k: nat, n: nat)
    requires
        k <= p1.len(),
        k <= p2.len(),
        forall|j: int| 0 <= j < k ==> p1[j] == p2[j],
    ensures
        marked(p1, k, n) == marked(p2, k, n),
    decreases k,
{
    if k > 0 {
        lemma_marked_prefix(p1, p2, (k - 1) as nat, n);
    }
}

proof fn lemma_order_work_prefix(
    allocs: Map<usize, Seq<usize>>,
    threads: Seq<usize>,
    work0: Seq<int>,
    p1: Seq<int>,
    p2: Seq<int>,
    k: nat,
)
    requires
        k <= p1.len(),
        k <= p2.len(),
        forall|j: int| 0 <= j < k ==> p1[j] == p2[j],
    ensures
        order_work(allocs, threads, work0, p1, k) == order_work(allocs, threads, work0, p2, k),
    decreases k,
{
    if k > 0 {
        lemma_order_work_prefix(allocs, threads, work0, p1, p2, (k - 1) as nat);
    }
}

proof fn lemma_count_marked(p: Seq<int>, k: nat, n: nat)
    requires
        k <= p.len(),
        p.no_duplicates(),
        forall|j: int| 0 <= j < p.len() ==> 0 <= #[trigger] p[j] < n,
    ensures
        count_true(marked(p, k, n)) == k,
    decreases k,
{
    if k == 0 {
        lemma_count_none(n);
    } else {
        lemma_count_marked(p, (k - 1) as nat, n);
        lemma_marked(p, (k - 1) as nat, n);
        let prev = marked(p, (k - 1) as nat, n);
        assert(!prev[p[k - 1]]) by {
            if prev[p[k - 1]] {
                let j = choose|j: int| 0 <= j < k - 1 && #[trigger] p[j] == p[k - 1];
                assert(p[j] == p[k - 1]);
            }
        }
        lemma_count_mark(prev, p[k - 1]);
    }
}

proof fn lemma_count_all(s: Seq<bool>)
    requires
        forall|i: int| 0 <= i < s.len() ==> #[trigger] s[i],
    ensures
        count_true(s) == s.len(),
    decreases s.len(),
{
    if s.len() > 0 {
        lemma_count_all(s.drop_last());
    }
}

/// A pass extends the order of finished positions with those it finishes.
proof fn lemma_sweep_order(
    waits: Map<usize, usize>,
    allocs: Map<usize, Seq<usize>>,
    tid: usize,
    sem: usize,
    threads: Seq<usize>,
    work0: Seq<int>,
    work: Seq<int>,
    finish: Seq<bool>,
    q: Seq<int>,
    idx: nat,
)
    requires
        idx <= threads.len(),
        finish.len() == threads.len(),
        work.len() == work0.len(),
        forall|r: int| 0 <= r < work0.len() ==> #[trigger] work[r] == work0[r] + held_finished(
            allocs,
            threads,
            finish,
            r,
            threads.len(),
        ),
        finished_in_order(waits, allocs, tid, sem, threads, work0, q, finish),
    ensures
        finished_in_order(
            waits,
            allocs,
            tid,
            sem,
            threads,
            work0,
            q + sweep_order(waits, allocs, tid, sem, threads, work, finish, idx),
            sweep(waits, allocs, tid, sem, threads, work, finish, idx).1,
        ),
    decreases idx,
{
    let n = threads.len();
    if idx == 0 {
        assert(q + seq![] =~= q);
    } else {
        lemma_sweep_order(waits, allocs, tid, sem, threads, work0, work, finish, q, (idx - 1) as nat);
        lemma_sweep(waits, allocs, tid, sem, threads, work0, work, finish, (idx - 1) as nat);
        let prev = sweep(waits, allocs, tid, sem, threads, work, finish, (idx - 1) as nat);
        let ps = sweep_order(waits, allocs, tid, sem, threads, work, finish, (idx - 1) as nat);
        let i = idx - 1;
        let t = threads[i];
        if !(prev.1[i] || !can_finish(prev.0, request_of(waits, tid, sem, t))) {
            let q1 = q + ps;
            let q2 = q + ps.push(i);
            assert(q2 =~= q1.push(i));
            let k = q1.len();
            // The new position was not finished before, so it is new to the order.
            assert(!q1.contains(i)) by {
                if q1.contains(i) {
                    let j = choose|j: int| 0 <= j < q1.len() && q1[j] == i;
                    lemma_marked_has(q1, k, n, j);
                }
            }
            assert forall|j: int| 0 <= j < q2.len() implies 0 <= #[trigger] q2[j] < n by {
                if j < k {
                    assert(q2[j] == q1[j]);
                }
            }
            assert(q2.no_duplicates()) by {
                assert forall|a: int, b: int| 0 <= a < q2.len() && 0 <= b < q2.len() && a != b implies q2[a] != q2[b] by {
                    if a < k && b < k {
                        assert(q2[a] == q1[a] && q2[b] == q1[b]);
                    } else if a < k {
                        assert(q2[a] == q1[a]);
                    } else if b < k {
                        assert(q2[b] == q1[b]);
                    }
                }
            }
            lemma_marked_prefix(q2, q1, k, n);
            assert(marked(q2, q2.len(), n) == marked(q1, k, n).update(i, true));
            lemma_order_work(allocs, threads, work0, q1, k);
            let ow = order_work(allocs, threads, work0, q1, k);
            assert(ow =~= prev.0);
            assert forall|kk: int| 0 <= kk < q2.len() implies #[trigger] can_finish(
                order_work(allocs, threads, work0, q2, kk as nat),
                request_of(waits, tid, sem, threads[q2[kk]]),
            ) by {
                lemma_order_work_prefix(allocs, threads, work0, q2, q1, kk as nat);
                if kk < k {
                    assert(q2[kk] == q1[kk]);
                    assert(can_finish(
                        order_work(allocs, threads, work0, q1, kk as nat),
                        request_of(waits, tid, sem, threads[q1[kk]]),
                    ));
                }
            }
        }
    }
}

/// The passes extend the order of finished positions with all they finish.
proof fn lemma_passes_order(
    waits: Map<usize, usize>,
    allocs: Map<usize, Seq<usize>>,
    tid: usize,
    sem: usize,
    threads: Seq<usize>,
    work0: Seq<int>,
    work: Seq<int>,
    finish: Seq<bool>,
    q: Seq<int>,
    fuel: nat,
)
    requires
        finish.len() == threads.len(),
        work.len() == work0.len(),
        forall|r: int| 0 <= r < work0.len() ==> #[trigger] work[r] == work0[r] + held_finished(
            allocs,
            threads,
            finish,
            r,
            threads.len(),
        ),
        finished_in_order(waits, allocs, tid, sem, threads, work0, q, finish),
    ensures
        finished_in_order(
            waits,
            allocs,
            tid,
            sem,
            threads,
            work0,
            q + passes_order(waits, allocs, tid, sem, threads, work, finish, fuel),
            passes(waits, allocs, tid, sem, threads, work, finish, fuel),
        ),
    decreases fuel,
{
    let n = threads.len();
    if fuel == 0 {
        assert(q + seq![] =~= q);
    } else {
        let s = sweep(waits, allocs, tid, sem, threads, work, finish, n);
        lemma_sweep(waits, allocs, tid, sem, threads, work0, work, finish, n);
        if !s.2 {
            assert(q + seq![] =~= q);
        } else {
            let so = sweep_order(waits, allocs, tid, sem, threads, work, finish, n);
            lemma_sweep_order(waits, allocs, tid, sem, threads, work0, work, finish, q, n);
            lemma_passes_order(waits, allocs, tid, sem, threads, work0, s.0, s.1, q + so, (fuel - 1) as nat);
            let rest = passes_order(waits, allocs, tid, sem, threads, s.0, s.1, (fuel - 1) as nat);
            assert(q + so + rest =~= q + (so + rest));
        }
    }
}

/// The banker's check is exact: it calls a request unsafe exactly when,
/// once the request is granted, there is no order in which the threads
/// can all finish one after another, each with the units given back by
/// those before it.
pub proof fn lemma_banker_exact(
    waits: Map<usize, usize>,
    allocs: Map<usize, Seq<usize>>,
    tid: usize,
    sem: usize,
    threads: Seq<usize>,
    available: Seq<usize>,
)
    ensures
        semaphore_unsafe(waits, allocs, tid, sem, threads, available) <==> !exists|p: Seq<int>|
            finishing_order(waits, allocs, tid, sem, threads, as_ints(available), p),
{
    if exists|p: Seq<int>| finishing_order(waits, allocs, tid, sem, threads, as_ints(available), p) {
        let p = choose|p: Seq<int>| finishing_order(waits, allocs, tid, sem, threads, as_ints(available), p);
        lemma_banker_complete(waits, allocs, tid, sem, threads, available, p);
    }
    if !semaphore_unsafe(waits, allocs, tid, sem, threads, available) {
        let n = threads.len();
        let w0 = as_ints(available);
        let f0 = Seq::new(n, |i: int| false);
        assert forall|r: int| 0 <= r < w0.len() implies #[trigger] w0[r] == w0[r] + held_finished(
            allocs,
            threads,
            f0,
            r,
            n,
        ) by {
            lemma_held_finished_none(allocs, threads, f0, r, n);
        }
        let q0: Seq<int> = seq![];
        assert(marked(q0, 0, n) =~= f0);
        assert(finished_in_order(waits, allocs, tid, sem, threads, w0, q0, f0));
        lemma_passes_order(waits, allocs, tid, sem, threads, w0, w0, f0, q0, n + 1);
        lemma_count_none(n);
        let _ws = lemma_passes(waits, allocs, tid, sem, threads, w0, w0, f0, n + 1);
        let fin = passes(waits, allocs, tid, sem, threads, w0, f0, n + 1);
        let q = q0 + passes_order(waits, allocs, tid, sem, threads, w0, f0, n + 1);
        assert(forall|i: int| 0 <= i < n ==> #[trigger] fin[i]);
        lemma_count_all(fin);
        lemma_count_marked(q, q.len(), n);
        lemma_marked(q, q.len(), n);
        assert forall|i: int| 0 <= i < n implies #[trigger] q.contains(i) by {
            assert(marked(q, q.len(), n)[i]);
            let j = choose|j: int| 0 <= j < q.len() && q[j] == i;
            assert(q[j] == i);
        }
        assert(finishing_order(waits, allocs, tid, sem, threads, w0, q));
    }
}

proof fn lemma_order_work_mono(
    allocs: Map<usize, Seq<usize>>,
    threads: Seq<usize>,
    w1: Seq<int>,
    w2: Seq<int>,
    p: Seq<int>,
    k: nat,
)
    requires
        w1.len() == w2.len(),
        forall|r: int| 0 <= r < w1.len() ==> #[trigger] w1[r] <= w2[r],
    ensures
        order_work(allocs, threads, w1, p, k).len() == w1.len(),
        order_work(allocs, threads, w2, p, k).len() == w1.len(),
        forall|r: int| 0 <= r < w1.len() ==> #[trigger] order_work(allocs, threads, w1, p, k)[r]
            <= order_work(allocs, threads, w2, p, k)[r],
    decreases k,
{
    if k > 0 {
        lemma_order_work_mono(allocs, threads, w1, w2, p, (k - 1) as nat);
    }
}

/// More free units never make a safe request unsafe: when the banker's
/// check lets a request through with `available` units free, it lets it
/// through with any `more` units, no fewer of each semaphore.
pub proof fn lemma_banker_monotone(
    waits: Map<usize, usize>,
    allocs: Map<usize, Seq<usize>>,
    tid: usize,
    sem: usize,
    threads: Seq<usize>,
    available: Seq<usize>,
    more: Seq<usize>,
)
    requires
        more.len() == available.len(),
        forall|r: int| 0 <= r < available.len() ==> #[trigger] available[r] <= more[r],
        !semaphore_unsafe(waits, allocs, tid, sem, threads, available),
    ensures
        !semaphore_unsafe(waits, allocs, tid, sem, threads, more),
{
    lemma_banker_exact(waits, allocs, tid, sem, threads, available);
    lemma_banker_exact(waits, allocs, tid, sem, threads, more);
    let w1 = as_ints(available);
    let w2 = as_ints(more);
    let p = choose|p: Seq<int>| finishing_order(waits, allocs, tid, sem, threads, w1, p);
    assert forall|r: int| 0 <= r < w1.len() implies #[trigger] w1[r] <= w2[r] by {
        assert(w1[r] == available[r] && w2[r] == more[r]);
    }
    assert forall|k: int| 0 <= k < p.len() implies #[trigger] can_finish(
        order_work(allocs, threads, w2, p, k as nat),
        request_of(waits, tid, sem, threads[p[k]]),
    ) by {
        lemma_order_work_mono(allocs, threads, w1, w2, p, k as nat);
        assert(can_finish(
            order_work(allocs, threads, w1, p, k as nat),
            request_of(waits, tid, sem, threads[p[k]]),
        ));
    }
    assert(finishing_order(waits, allocs, tid, sem, threads, w2, p));
}

} // verus!
