//! Who is whose child: the bookkeeping behind `wait`, kept per process,
//! and what an exiting process leaves behind (its exit code with its
//! parent, its children with process 0).
use vstd::prelude::*;
use std::collections::BTreeMap;

verus! {

broadcast use vstd::std_specs::btree::group_btree_axioms, vstd::laws_cmp::group_laws_cmp;

/// The parent id of a process that has none.
pub const NO_PARENT: usize = usize::MAX;
/// The id `wait` reports while the awaited child still runs (-2 as an id).
pub const STILL_RUNNING: usize = usize::MAX - 1;
/// The process that adopts the children of an exiting process.
pub const INIT_PID: usize = 0;

/// A process's relations as plain sequences.
pub struct RelView {
    pub parent: usize,
    pub children: Seq<usize>,
    pub dead: Seq<(usize, isize)>,
}

/// A process's parent, its running children in the order they were added,
/// and its exited children with their exit codes, oldest first.
pub struct ProcRel {
    pub parent: usize,
    pub children: Vec<usize>,
    pub dead_children: Vec<(usize, isize)>,
}

impl View for ProcRel {
    type V = RelView;

    open spec fn view(&self) -> RelView {
        RelView { parent: self.parent, children: self.children@, dead: self.dead_children@ }
    }
}

/// `i` is the first position of `c` in `cs`.
pub open spec fn first_at(cs: Seq<usize>, c: usize, i: int) -> bool {
    &&& 0 <= i < cs.len()
    &&& cs[i] == c
    &&& forall|j: int| 0 <= j < i ==> #[trigger] cs[j] != c
}

/// `i` is the first position of child `c` among the exited children `ds`.
pub open spec fn first_dead_at(ds: Seq<(usize, isize)>, c: usize, i: int) -> bool {
    &&& 0 <= i < ds.len()
    &&& ds[i].0 == c
    &&& forall|j: int| 0 <= j < i ==> #[trigger] ds[j].0 != c
}

/// The relations after child `c` exits with `code`: its first entry among
/// the running children moves to the end of the exited ones; nothing
/// changes when `c` is not a running child.
pub open spec fn child_exited(r: RelView, c: usize, code: isize) -> RelView {
    if exists|i: int| first_at(r.children, c, i) {
        let i = choose|i: int| first_at(r.children, c, i);
        RelView { parent: r.parent, children: r.children.remove(i), dead: r.dead.push((c, code)) }
    } else {
        r
    }
}

/// The relations with child `c` added at the end.
pub open spec fn child_added(r: RelView, c: usize) -> RelView {
    RelView { parent: r.parent, children: r.children.push(c), dead: r.dead }
}

/// The first position of a value in a sequence is unique.
proof fn lemma_first_at_unique(cs: Seq<usize>, c: usize, i: int, k: int)
    requires
        first_at(cs, c, i),
        first_at(cs, c, k),
    ensures
        i == k,
{
    if i < k {
        assert(cs[i] != c);
    } else if k < i {
        assert(cs[k] != c);
    }
}

/// The first position of a child among the exited ones is unique.
proof fn lemma_first_dead_at_unique(ds: Seq<(usize, isize)>, c: usize, i: int, k: int)
    requires
        first_dead_at(ds, c, i),
        first_dead_at(ds, c, k),
    ensures
        i == k,
{
    if i < k {
        assert(ds[i].0 != c);
    } else if k < i {
        assert(ds[k].0 != c);
    }
}

impl ProcRel {
    /// Relations of a new process whose parent is `parent`.
    pub fn new(parent: usize) -> (r: ProcRel)
        ensures
            r@ == (RelView { parent, children: Seq::empty(), dead: Seq::empty() }),
    {
        ProcRel { parent, children: Vec::new(), dead_children: Vec::new() }
    }

    /// Records a new child.
    pub fn add_child(&mut self, child: usize)
        ensures
            final(self)@ == child_added(old(self)@, child),
    {
        self.children.push(child);
    }

    /// Records that child `child` exited with `exit_code`, for `wait`.
    pub fn del_child(&mut self, child: usize, exit_code: isize)
        ensures
            final(self)@ == child_exited(old(self)@, child, exit_code),
    {
        let mut i: usize = 0;
        while i < self.children.len()
            invariant
                i <= self.children@.len(),
                *self == *old(self),
                forall|j: int| 0 <= j < i ==> #[trigger] self.children@[j] != child,
            decreases self.children@.len() - i,
        {
            if self.children[i] == child {
                assert(first_at(self.children@, child, i as int));
                let ghost before = self@;
                let removed = self.children.remove(i);
                self.dead_children.push((removed, exit_code));
                proof {
                    let k = choose|k: int| first_at(before.children, child, k);
                    lemma_first_at_unique(before.children, child, i as int, k);
                }
                return;
            }
            i = i + 1;
        }
    }

    /// Waits for any exited child: the most recent one, taken out; while
    /// children still run and none has exited, `(STILL_RUNNING, -1)`; with
    /// no children at all, none.
    pub fn wait_any_child(&mut self) -> (r: Option<(usize, isize)>)
        ensures
            old(self)@.dead.len() > 0 ==> r == Some(old(self)@.dead.last()) && final(self)@ == (RelView {
                dead: old(self)@.dead.drop_last(),
                ..old(self)@
            }),
            old(self)@.dead.len() == 0 ==> final(self)@ == old(self)@ && r == if old(
                self,
            )@.children.len() == 0 {
                None
            } else {
                Some((STILL_RUNNING, -1isize))
            },
    {
        if self.dead_children.len() == 0 {
            if self.children.len() == 0 {
                None
            } else {
                Some((STILL_RUNNING, -1))
            }
        } else {
            self.dead_children.pop()
        }
    }

    /// Waits for child `child`: its first exit record, taken out; while it
    /// still runs, `(STILL_RUNNING, -1)`; none when it is no child.
    pub fn wait_child(&mut self, child: usize) -> (r: Option<(usize, isize)>)
        ensures
            (exists|i: int| first_dead_at(old(self)@.dead, child, i)) ==> {
                let i = choose|i: int| first_dead_at(old(self)@.dead, child, i);
                &&& r == Some(old(self)@.dead[i])
                &&& final(self)@ == (RelView { dead: old(self)@.dead.remove(i), ..old(self)@ })
            },
            !(exists|i: int| first_dead_at(old(self)@.dead, child, i)) ==> final(self)@ == old(self)@
                && r == if old(self)@.children.contains(child) {
                Some((STILL_RUNNING, -1isize))
            } else {
                None
            },
    {
        let mut i: usize = 0;
        while i < self.dead_children.len()
            invariant
                i <= self.dead_children@.len(),
                *self == *old(self),
                forall|j: int| 0 <= j < i ==> #[trigger] self.dead_children@[j].0 != child,
            decreases self.dead_children@.len() - i,
        {
            if self.dead_children[i].0 == child {
                assert(first_dead_at(self.dead_children@, child, i as int));
                let ghost before = self@;
                let found = self.dead_children.remove(i);
                proof {
                    let k = choose|k: int| first_dead_at(before.dead, child, k);
                    lemma_first_dead_at_unique(before.dead, child, i as int, k);
                }
                return Some(found);
            }
            i = i + 1;
        }
        assert(!(exists|k: int| first_dead_at(old(self)@.dead, child, k)));
        let mut j: usize = 0;
        while j < self.children.len()
            invariant
                j <= self.children@.len(),
                *self == *old(self),
                !(exists|i: int| first_dead_at(old(self)@.dead, child, i)),
                forall|k: int| 0 <= k < j ==> #[trigger] self.children@[k] != child,
            decreases self.children@.len() - j,
        {
            if self.children[j] == child {
                assert(self.children@[j as int] == child);
                return Some((STILL_RUNNING, -1));
            }
            j = j + 1;
        }
        None
    }
}

/// The relations as plain values, process id to relations.
pub open spec fn rels_view(m: Map<usize, ProcRel>) -> Map<usize, RelView> {
    Map::new(|k: usize| m.contains_key(k), |k: usize| m[k]@)
}

/// The relations after the children `cs` of an exiting process are
/// handed, one by one in order, to `INIT_PID`: each one's parent becomes
/// `INIT_PID`, and, if that process is known, it gains the child.
pub open spec fn adopted(m: Map<usize, RelView>, cs: Seq<usize>) -> Map<usize, RelView>
    decreases cs.len(),
{
    if cs.len() == 0 {
        m
    } else {
        let m1 = adopted(m, cs.drop_last());
        let c = cs.last();
        let m2 = m1.insert(c, RelView { parent: INIT_PID, ..m1[c] });
        if m2.contains_key(INIT_PID) {
            m2.insert(INIT_PID, child_added(m2[INIT_PID], c))
        } else {
            m2
        }
    }
}

/// Handing children to `INIT_PID` keeps the set of known processes.
proof fn lemma_adopted_dom(m: Map<usize, RelView>, cs: Seq<usize>)
    requires
        forall|i: int| 0 <= i < cs.len() ==> m.contains_key(#[trigger] cs[i]),
    ensures
        adopted(m, cs).dom() == m.dom(),
    decreases cs.len(),
{
    if cs.len() > 0 {
        assert forall|i: int| 0 <= i < cs.drop_last().len() implies m.contains_key(#[trigger] cs.drop_last()[i]) by {
            assert(cs.drop_last()[i] == cs[i]);
        }
        lemma_adopted_dom(m, cs.drop_last());
        assert(m.contains_key(cs[cs.len() - 1]));
        let m1 = adopted(m, cs.drop_last());
        let c = cs.last();
        let m2 = m1.insert(c, RelView { parent: INIT_PID, ..m1[c] });
        assert(m2.dom() =~= m.dom());
        if m2.contains_key(INIT_PID) {
            assert(m2.insert(INIT_PID, child_added(m2[INIT_PID], c)).dom() =~= m.dom());
        }
    }
}

/// The relations after `pid` exits with `code`, before its children are
/// handed on: its own entry is gone and its parent, if known, records the
/// exit.
pub open spec fn exit_recorded(m: Map<usize, RelView>, pid: usize, code: isize) -> Map<usize, RelView> {
    let p = m[pid].parent;
    let rest = m.remove(pid);
    if rest.contains_key(p) {
        rest.insert(p, child_exited(rest[p], pid, code))
    } else {
        rest
    }
}

/// The relations of all processes.
pub struct ProcRelations {
    pub rels: BTreeMap<usize, ProcRel>,
}

impl ProcRelations {
    /// The relations as plain values.
    pub open spec fn view_map(&self) -> Map<usize, RelView> {
        rels_view(self.rels@)
    }

    /// No processes.
    pub fn new() -> (r: ProcRelations)
        ensures
            r.view_map() == Map::<usize, RelView>::empty(),
    {
        let r = ProcRelations { rels: BTreeMap::new() };
        assert(r.view_map() =~= Map::<usize, RelView>::empty());
        r
    }

    /// Sets the relations of `pid` to `r`.
    fn put(&mut self, pid: usize, r: ProcRel)
        ensures
            final(self).view_map() == old(self).view_map().insert(pid, r@),
    {
        self.rels.insert(pid, r);
        assert(self.view_map() =~= old(self).view_map().insert(pid, r@));
    }

    /// Takes the relations of `pid` out.
    fn take(&mut self, pid: usize) -> (r: Option<ProcRel>)
        ensures
            old(self).view_map().contains_key(pid) ==> r is Some && r->0@ == old(self).view_map()[pid],
            !old(self).view_map().contains_key(pid) ==> r is None,
            final(self).view_map() == old(self).view_map().remove(pid),
    {
        let r = self.rels.remove(&pid);
        assert(self.view_map() =~= old(self).view_map().remove(pid));
        r
    }

    /// Registers process `pid` with parent `parent` (`NO_PARENT` for
    /// none); the parent gains it as its newest child.
    pub fn add_process(&mut self, pid: usize, parent: usize)
        requires
            parent != NO_PARENT ==> old(self).view_map().contains_key(parent),
        ensures
            final(self).view_map() == if parent != NO_PARENT {
                old(self).view_map().insert(parent, child_added(old(self).view_map()[parent], pid))
            } else {
                old(self).view_map()
            }.insert(pid, RelView { parent, children: Seq::empty(), dead: Seq::empty() }),
    {
        if parent != NO_PARENT {
            let mut p = self.take(parent).unwrap();
            p.add_child(pid);
            self.put(parent, p);
        }
        self.put(pid, ProcRel::new(parent));
    }

    /// Process `pid` exits with `code`: its relations go, its parent (if
    /// known) records the exit for `wait`, and its running children are
    /// handed to `INIT_PID`.
    pub fn exit(&mut self, pid: usize, code: isize)
        requires
            old(self).view_map().contains_key(pid),
            forall|i: int| 0 <= i < old(self).view_map()[pid].children.len()
                ==> exit_recorded(old(self).view_map(), pid, code).contains_key(
                    #[trigger] old(self).view_map()[pid].children[i],
                ),
        ensures
            final(self).view_map() == adopted(
                exit_recorded(old(self).view_map(), pid, code),
                old(self).view_map()[pid].children,
            ),
    {
        let rel = self.take(pid).unwrap();
        let parent = rel.parent;
        match self.take(parent) {
            Some(mut p) => {
                p.del_child(pid, code);
                self.put(parent, p);
            },
            None => {},
        }
        let ghost base = self.view_map();
        assert(base =~= exit_recorded(old(self).view_map(), pid, code));
        let children = rel.children;
        let mut i: usize = 0;
        while i < children.len()
            invariant
                i <= children@.len(),
                children@ == old(self).view_map()[pid].children,
                forall|k: int| 0 <= k < children@.len() ==> base.contains_key(#[trigger] children@[k]),
                self.view_map() == adopted(base, children@.take(i as int)),
            decreases children@.len() - i,
        {
            let child = children[i];
            proof {
                assert(children@.take(i as int + 1).drop_last() =~= children@.take(i as int));
                assert forall|k: int| 0 <= k < children@.take(i as int).len() implies base.contains_key(
                    #[trigger] children@.take(i as int)[k],
                ) by {
                    assert(children@.take(i as int)[k] == children@[k]);
                }
                lemma_adopted_dom(base, children@.take(i as int));
                assert(base.contains_key(children@[i as int]));
            }
            let mut c = self.take(child).unwrap();
            c.parent = INIT_PID;
            self.put(child, c);
            match self.take(INIT_PID) {
                Some(mut init) => {
                    init.add_child(child);
                    self.put(INIT_PID, init);
                },
                None => {},
            }
            proof {
                let m1 = adopted(base, children@.take(i as int));
                let m2 = m1.insert(child, RelView { parent: INIT_PID, ..m1[child] });
                assert(children@.take(i as int + 1).last() == child);
                if m2.contains_key(INIT_PID) {
                    assert(self.view_map() =~= m2.insert(INIT_PID, child_added(m2[INIT_PID], child)));
                } else {
                    assert(self.view_map() =~= m2);
                }
            }
            i = i + 1;
        }
        assert(children@.take(children@.len() as int) =~= children@);
    }

    /// `wait` from process `current` for child `child` (`NO_PARENT` for
    /// any child); none when `current` is unknown.
    pub fn wait(&mut self, current: usize, child: usize) -> (r: Option<(usize, isize)>)
        ensures
            !old(self).view_map().contains_key(current) ==> r is None && final(self).view_map()
                == old(self).view_map(),
            old(self).view_map().contains_key(current) ==> exists|after: RelView|
                {
                    &&& final(self).view_map() == old(self).view_map().insert(current, after)
                    &&& child == NO_PARENT ==> waited_any(old(self).view_map()[current], after, r)
                    &&& child != NO_PARENT ==> waited_for(old(self).view_map()[current], child, after, r)
                },
    {
        match self.take(current) {
            None => None,
            Some(mut rel) => {
                let r = if child == NO_PARENT {
                    rel.wait_any_child()
                } else {
                    rel.wait_child(child)
                };
                let ghost after = rel@;
                self.put(current, rel);
                assert(self.view_map() =~= old(self).view_map().insert(current, after));
                assert(child == NO_PARENT ==> waited_any(old(self).view_map()[current], after, r));
                assert(child != NO_PARENT ==> waited_for(old(self).view_map()[current], child, after, r));
                r
            },
        }
    }
}

/// `wait` for any child took relations `before` to `after` and answered `r`.
pub open spec fn waited_any(before: RelView, after: RelView, r: Option<(usize, isize)>) -> bool {
    if before.dead.len() > 0 {
        r == Some(before.dead.last()) && after == (RelView { dead: before.dead.drop_last(), ..before })
    } else {
        after == before && r == if before.children.len() == 0 {
            None
        } else {
            Some((STILL_RUNNING, -1isize))
        }
    }
}

/// `wait` for child `c` took relations `before` to `after` and answered `r`.
pub open spec fn waited_for(before: RelView, c: usize, after: RelView, r: Option<(usize, isize)>) -> bool {
    if exists|i: int| first_dead_at(before.dead, c, i) {
        let i = choose|i: int| first_dead_at(before.dead, c, i);
        r == Some(before.dead[i]) && after == (RelView { dead: before.dead.remove(i), ..before })
    } else {
        after == before && r == if before.children.contains(c) {
            Some((STILL_RUNNING, -1isize))
        } else {
            None
        }
    }
}

/// A running child that exits can then be waited for: the wait answers
/// its id and exit code and leaves the relations as they were before the
/// child exited, less the child.
pub proof fn lemma_wait_after_exit(r: RelView, c: usize, code: isize, i: int)
    requires
        first_at(r.children, c, i),
        !(exists|k: int| first_dead_at(r.dead, c, k)),
    ensures
        waited_for(
            child_exited(r, c, code),
            c,
            RelView { parent: r.parent, children: r.children.remove(i), dead: r.dead },
            Some((c, code)),
        ),
{
    let k0 = choose|k: int| first_at(r.children, c, k);
    lemma_first_at_unique(r.children, c, i, k0);
    let e = child_exited(r, c, code);
    let n = r.dead.len() as int;
    assert forall|j: int| 0 <= j < n implies #[trigger] e.dead[j].0 != c by {
        assert(e.dead[j] == r.dead[j]);
        if r.dead[j].0 == c {
            assert(exists|k: int| first_dead_at(r.dead, c, k)) by {
                lemma_some_first_dead(r.dead, c, j);
            }
        }
    }
    assert(first_dead_at(e.dead, c, n));
    let w = choose|k: int| first_dead_at(e.dead, c, k);
    lemma_first_dead_at_unique(e.dead, c, n, w);
    assert(e.dead.remove(n) =~= r.dead);
}

/// Where an exited child appears, it has a first record.
proof fn lemma_some_first_dead(ds: Seq<(usize, isize)>, c: usize, j: int)
    requires
        0 <= j < ds.len(),
        ds[j].0 == c,
    ensures
        exists|k: int| first_dead_at(ds, c, k),
    decreases j,
{
    if forall|l: int| 0 <= l < j ==> #[trigger] ds[l].0 != c {
        assert(first_dead_at(ds, c, j));
    } else {
        let l = choose|l: int| 0 <= l < j && #[trigger] ds[l].0 == c;
        lemma_some_first_dead(ds, c, l);
    }
}

} // verus!
