//! Demand paging for one address space: lazily registered anonymous pages,
//! page faults, four replacement policies, swap slots and thrashing detection.
//!
//! The page table itself belongs to the kernel's address-space object. The
//! pager works on what it needs from it as plain values: the accessed/dirty
//! bits of its resident pages (`PteBits`, one per resident page, in the order
//! of the resident list) and, for registration, whether a page is already
//! mapped. Every change that must reach the page table or physical memory is
//! returned as a `PagerEffect`, in the order in which it has to be applied.
use vstd::prelude::*;
use crate::abi::{VmAlgo, VmStats, algo_code};
use std::collections::BTreeMap;
use vstd::std_specs::iter::IteratorSpec;

verus! {

broadcast use vstd::std_specs::btree::group_btree_axioms, vstd::laws_cmp::group_laws_cmp;

/// Page size in bits.
pub const PAGE_BITS: usize = 12;
/// Page size in bytes.
pub const PAGE_SIZE: usize = 4096;
/// Resident page quota of a new pager.
pub const DEFAULT_QUOTA: usize = 16;
/// Largest resident page quota.
pub const MAX_QUOTA: usize = 32;
/// Epochs after which an unreferenced page leaves the working set.
pub const WORKING_SET_TAU: u64 = 8;
/// Quota increase granted to the working-set policy when it thrashes.
pub const THRASH_STEP: usize = 4;

/// Page table entry flag: valid.
pub const FLAG_V: usize = 1;
/// Page table entry flag: readable.
pub const FLAG_R: usize = 2;
/// Page table entry flag: writable.
pub const FLAG_W: usize = 4;
/// Page table entry flag: executable.
pub const FLAG_X: usize = 8;
/// Page table entry flag: user accessible.
pub const FLAG_U: usize = 16;
/// Page table entry flag: accessed.
pub const FLAG_A: usize = 64;
/// Page table entry flag: dirty.
pub const FLAG_D: usize = 128;

/// The kind of access that faulted.
#[derive(Clone, Copy, Debug, PartialEq, Eq, Structural)]
pub enum FaultKind {
    /// A load.
    Load,
    /// A store.
    Store,
    /// An instruction fetch.
    Instruction,
}

/// Where the contents of a non-resident page come from.
#[derive(Clone, Copy, Debug, PartialEq, Eq, Structural)]
pub enum PageBacking {
    /// The page has never been written back: it reads as zeros.
    ZeroFill,
    /// The page's contents are in this swap slot.
    Swap(usize),
}

/// What the pager knows of one registered page.
#[derive(Clone, Copy, Debug, PartialEq, Eq, Structural)]
pub struct PageState {
    /// The page table flags the page is mapped with.
    pub flags: usize,
    /// Where its contents live while it is not resident.
    pub backing: PageBacking,
    /// Whether a frame holds it now.
    pub resident: bool,
}

/// A page that a frame holds now.
#[derive(Clone, Copy, Debug, PartialEq, Eq, Structural)]
pub struct ResidentPage {
    /// Virtual page number.
    pub vpn: usize,
    /// Physical page number of its frame.
    pub ppn: usize,
    /// Load order (larger is later).
    pub loaded_at: u64,
    /// Fault epoch of its last observed reference.
    pub last_epoch: u64,
    /// Aging counter of the LRU approximation.
    pub age: u8,
}

/// The accessed and dirty bits of a resident page's page table entry.
#[derive(Clone, Copy, Debug, PartialEq, Eq, Structural)]
pub struct PteBits {
    /// The A bit.
    pub accessed: bool,
    /// The D bit.
    pub dirty: bool,
}

/// A change to the page table, physical memory or swap that the kernel must apply.
#[derive(Clone, Copy, Debug, PartialEq, Eq, Structural)]
pub enum PagerEffect {
    /// Create swap slot `slot` holding a zeroed page.
    AllocSlot { slot: usize },
    /// Drop the contents of swap slot `slot`.
    ReleaseSlot { slot: usize },
    /// Copy the frame `ppn` into swap slot `slot`.
    WriteBack { ppn: usize, slot: usize },
    /// Remove the mapping of page `vpn`.
    UnmapPage { vpn: usize },
    /// Fill the frame `ppn` with zeros.
    ZeroFill { ppn: usize },
    /// Copy swap slot `slot` into the frame `ppn`.
    SwapIn { slot: usize, ppn: usize },
    /// Map page `vpn` to frame `ppn` with `flags`.
    MapPage { vpn: usize, ppn: usize, flags: usize },
}

/// A registered range of virtual pages, `start..end`.
#[derive(Clone, Copy, Debug, PartialEq, Eq, Structural)]
pub struct VmRegion {
    /// First page.
    pub start: usize,
    /// One past the last page.
    pub end: usize,
}

/// Fault, eviction and timing counters.
#[derive(Clone, Copy, Debug, PartialEq, Eq, Structural)]
pub struct RuntimeStats {
    /// Page faults that loaded a page.
    pub page_faults: u64,
    /// Pages evicted.
    pub evictions: u64,
    /// Dirty pages written to swap.
    pub write_backs: u64,
    /// Thrashing events detected.
    pub thrash_events: u64,
    /// Time at the last reset, in nanoseconds.
    pub start_time_ns: u64,
    /// Retired instructions at the last reset.
    pub start_instret: u64,
    /// Page faults at the start of the thrashing window.
    pub window_faults_base: u64,
    /// Evictions at the start of the thrashing window.
    pub window_evictions_base: u64,
}

/// Room left in a counter: enough for the work of one pager call.
pub open spec fn has_room(c: u64) -> bool {
    c < u64::MAX - 64
}

impl RuntimeStats {
    /// All counters zero.
    pub fn new() -> (r: RuntimeStats)
        ensures
            r == (RuntimeStats {
                page_faults: 0,
                evictions: 0,
                write_backs: 0,
                thrash_events: 0,
                start_time_ns: 0,
                start_instret: 0,
                window_faults_base: 0,
                window_evictions_base: 0,
            }),
    {
        RuntimeStats {
            page_faults: 0,
            evictions: 0,
            write_backs: 0,
            thrash_events: 0,
            start_time_ns: 0,
            start_instret: 0,
            window_faults_base: 0,
            window_evictions_base: 0,
        }
    }

    /// Starts a new statistics window at the given time and instruction count.
    pub fn reset(&mut self, now_ns: u64, now_instret: u64)
        ensures
            *final(self) == (RuntimeStats {
                page_faults: 0,
                evictions: 0,
                write_backs: 0,
                thrash_events: 0,
                start_time_ns: now_ns,
                start_instret: now_instret,
                window_faults_base: 0,
                window_evictions_base: 0,
            }),
    {
        self.page_faults = 0;
        self.evictions = 0;
        self.write_backs = 0;
        self.thrash_events = 0;
        self.start_time_ns = now_ns;
        self.start_instret = now_instret;
        self.window_faults_base = 0;
        self.window_evictions_base = 0;
    }

    /// Every counter has room for one more pager call.
    pub open spec fn roomy(self) -> bool {
        &&& has_room(self.page_faults)
        &&& has_room(self.evictions)
        &&& has_room(self.write_backs)
        &&& has_room(self.thrash_events)
    }
}

/// `a - b`, or zero where `b` is larger.
pub open spec fn saturating_diff(a: u64, b: u64) -> u64 {
    if a >= b {
        (a - b) as u64
    } else {
        0
    }
}

/// A registered page that lives in a swap slot and not in a frame.
pub open spec fn swapped_out(s: PageState) -> bool {
    !s.resident && s.backing is Swap
}

/// The registered pages that live only in swap.
pub open spec fn swapped_pages(pages: Map<usize, PageState>) -> Set<usize> {
    pages.dom().filter(|v: usize| swapped_out(pages[v]))
}

/// Whether the flags contain the bit.
pub open spec fn has_flag(flags: usize, bit: usize) -> bool {
    flags & bit == bit
}

/// Whether a page with these flags may be accessed in this way.
pub open spec fn access_allowed(flags: usize, kind: FaultKind) -> bool {
    match kind {
        FaultKind::Load => has_flag(flags, FLAG_R),
        FaultKind::Store => has_flag(flags, FLAG_W),
        FaultKind::Instruction => has_flag(flags, FLAG_X),
    }
}

/// Whether a page with these flags may be accessed in this way.
pub fn can_access(flags: usize, kind: FaultKind) -> (r: bool)
    ensures
        r == access_allowed(flags, kind),
{
    match kind {
        FaultKind::Load => flags & FLAG_R == FLAG_R,
        FaultKind::Store => flags & FLAG_W == FLAG_W,
        FaultKind::Instruction => flags & FLAG_X == FLAG_X,
    }
}

/// `a - b`, or 0 when `b > a`.
pub open spec fn sat_sub(a: u64, b: u64) -> u64 {
    if a >= b {
        (a - b) as u64
    } else {
        0
    }
}

/// The accessed bits of a sequence of page table entries.
pub open spec fn accessed_bits(hw: Seq<PteBits>) -> Seq<bool> {
    Seq::new(hw.len(), |i: int| hw[i].accessed)
}

/// `hw` with every accessed bit replaced by the one in `acc`.
pub open spec fn with_accessed(hw: Seq<PteBits>, acc: Seq<bool>) -> Seq<PteBits> {
    Seq::new(hw.len(), |i: int| PteBits { accessed: acc[i], dirty: hw[i].dirty })
}

/// `i` is the first index whose load order is the smallest.
pub open spec fn first_min_loaded(s: Seq<ResidentPage>, i: int) -> bool {
    &&& 0 <= i < s.len()
    &&& forall|j: int| 0 <= j < s.len() ==> s[i].loaded_at <= #[trigger] s[j].loaded_at
    &&& forall|j: int| 0 <= j < i ==> s[i].loaded_at < #[trigger] s[j].loaded_at
}

/// `i` is the first index whose age is the smallest.
pub open spec fn first_min_age(s: Seq<ResidentPage>, i: int) -> bool {
    &&& 0 <= i < s.len()
    &&& forall|j: int| 0 <= j < s.len() ==> s[i].age <= #[trigger] s[j].age
    &&& forall|j: int| 0 <= j < i ==> s[i].age < #[trigger] s[j].age
}

/// The second-chance scan: starting at `hand`, pages whose accessed bit is
/// set lose it and are passed over; the first page without it is the victim.
/// Gives the victim, the accessed bits afterwards and the new hand.
pub open spec fn clock_scan(acc: Seq<bool>, hand: int, fuel: nat) -> (int, Seq<bool>, int)
    decreases fuel,
{
    let len = acc.len() as int;
    let idx = hand % len;
    if fuel == 0 {
        (hand % len, acc, hand)
    } else if acc[idx] {
        clock_scan(acc.update(idx, false), (idx + 1) % len, (fuel - 1) as nat)
    } else {
        (idx, acc, (idx + 1) % len)
    }
}

/// A page after one aging step of the LRU approximation.
pub open spec fn aged(p: ResidentPage, accessed: bool) -> ResidentPage {
    ResidentPage { age: (p.age / 2 + if accessed { 128int } else { 0int }) as u8, ..p }
}

/// A page after the working-set scan looked at it.
pub open spec fn ws_touched(p: ResidentPage, accessed: bool, epoch: u64) -> ResidentPage {
    if accessed {
        ResidentPage { last_epoch: epoch, ..p }
    } else {
        p
    }
}

/// A page outside the working set: not referenced for more than the window.
pub open spec fn ws_idle(p: ResidentPage, accessed: bool, epoch: u64) -> bool {
    !accessed && sat_sub(epoch, p.last_epoch) > WORKING_SET_TAU
}

/// The LRU approximation never evicts a page referenced since the last
/// scan while an unreferenced one is resident: aging puts a referenced
/// page's age at 128 or more and an unreferenced one's below 128, shifts
/// the rest of its history down one bit, and the victim is a page of the
/// smallest age.
pub proof fn lemma_lru_spares_referenced(res: Seq<ResidentPage>, acc: Seq<bool>, k: int)
    requires
        acc.len() == res.len(),
        first_min_age(Seq::new(res.len(), |i: int| aged(res[i], acc[i])), k),
    ensures
        forall|i: int|
            0 <= i < res.len() ==> (#[trigger] aged(res[i], acc[i]).age >= 128 <==> acc[i]),
        forall|i: int|
            0 <= i < res.len() ==> #[trigger] aged(res[i], acc[i]).age % 128 == res[i].age / 2,
        (exists|i: int| 0 <= i < res.len() && !#[trigger] acc[i]) ==> !acc[k],
{
    let s = Seq::new(res.len(), |i: int| aged(res[i], acc[i]));
    assert forall|i: int| 0 <= i < res.len() implies (#[trigger] aged(res[i], acc[i]).age >= 128 <==> acc[i]) by {
        assert(res[i].age / 2 <= 127);
    }
    if exists|i: int| 0 <= i < res.len() && !#[trigger] acc[i] {
        let i = choose|i: int| 0 <= i < res.len() && !#[trigger] acc[i];
        assert(s[i] == aged(res[i], acc[i]));
        assert(s[k] == aged(res[k], acc[k]));
        assert(s[k].age <= s[i].age);
        assert(res[i].age / 2 <= 127);
        assert(aged(res[i], acc[i]).age < 128);
    }
}

/// The working-set policy never evicts a page referenced since the last
/// scan while some unreferenced page has been idle for longer than the
/// window: the victim is then unreferenced and idle for longer than the
/// window. Every referenced page has its last reference moved to the
/// current epoch; the others are left as they were.
pub proof fn lemma_working_set_spares_referenced(
    res: Seq<ResidentPage>,
    hw: Seq<PteBits>,
    hand: usize,
    epoch: u64,
)
    requires
        hw.len() == res.len(),
        exists|i: int| 0 <= i < hw.len() && !#[trigger] hw[i].accessed && sat_sub(epoch, res[i].last_epoch)
            > WORKING_SET_TAU,
    ensures
        pick_outcome(VmAlgo::WorkingSet, res, hw, hand, epoch).0 matches Some(k) && !hw[k].accessed
            && sat_sub(epoch, res[k].last_epoch) > WORKING_SET_TAU,
        forall|i: int|
            0 <= i < res.len() && hw[i].accessed ==> (#[trigger] pick_outcome(
                VmAlgo::WorkingSet,
                res,
                hw,
                hand,
                epoch,
            ).1[i]).last_epoch == epoch,
        forall|i: int|
            0 <= i < res.len() && !hw[i].accessed ==> #[trigger] pick_outcome(
                VmAlgo::WorkingSet,
                res,
                hw,
                hand,
                epoch,
            ).1[i] == res[i],
{
    let acc = accessed_bits(hw);
    let i = choose|i: int| 0 <= i < hw.len() && !#[trigger] hw[i].accessed && sat_sub(epoch, res[i].last_epoch)
        > WORKING_SET_TAU;
    assert(ws_idle(res[i], acc[i], epoch));
    lemma_first_ws_idle_exists(res, acc, epoch, i);
    let k = choose|k: int| first_ws_idle(res, acc, epoch, k);
    assert(ws_idle(res[k], acc[k], epoch));
}

proof fn lemma_first_ws_idle_exists(s: Seq<ResidentPage>, acc: Seq<bool>, epoch: u64, i: int)
    requires
        0 <= i < s.len(),
        ws_idle(s[i], acc[i], epoch),
    ensures
        exists|k: int| first_ws_idle(s, acc, epoch, k),
    decreases i,
{
    if exists|j: int| 0 <= j < i && ws_idle(#[trigger] s[j], acc[j], epoch) {
        let j = choose|j: int| 0 <= j < i && ws_idle(#[trigger] s[j], acc[j], epoch);
        lemma_first_ws_idle_exists(s, acc, epoch, j);
    } else {
        assert(first_ws_idle(s, acc, epoch, i));
    }
}

/// `i` is the first page outside the working set.
pub open spec fn first_ws_idle(s: Seq<ResidentPage>, acc: Seq<bool>, epoch: u64, i: int) -> bool {
    &&& 0 <= i < s.len()
    &&& ws_idle(s[i], acc[i], epoch)
    &&& forall|j: int| 0 <= j < i ==> !ws_idle(#[trigger] s[j], acc[j], epoch)
}

/// Removing element `i` by moving the last element into its place.
pub open spec fn swap_remove_seq<T>(s: Seq<T>, i: int) -> Seq<T> {
    s.update(i, s.last()).drop_last()
}

/// The clock hand after the resident page at `index` is removed from a list of `len`.
pub open spec fn hand_after_remove(hand: usize, index: usize, len: usize) -> usize {
    let last = (len - 1) as usize;
    let bound: usize = if last >= 1 { (last - 1) as usize } else { 0 };
    if hand > bound {
        0
    } else if index < hand && hand > 0 {
        (hand - 1) as usize
    } else {
        hand
    }
}

/// The index of the first unused swap slot, or the number of slots.
pub open spec fn first_free_slot(slots: Seq<bool>, i: int) -> bool {
    &&& 0 <= i <= slots.len()
    &&& i < slots.len() ==> !slots[i]
    &&& forall|j: int| 0 <= j < i ==> #[trigger] slots[j]
}

/// Two pagers hold the same state.
pub open spec fn same_state(a: Pager, b: Pager) -> bool {
    &&& a.regions@ == b.regions@
    &&& a.pages@ == b.pages@
    &&& a.resident@ == b.resident@
    &&& a.free_frames@ == b.free_frames@
    &&& a.swap_slots@ == b.swap_slots@
    &&& a.quota == b.quota
    &&& a.algo == b.algo
    &&& a.next_loaded_at == b.next_loaded_at
    &&& a.epoch == b.epoch
    &&& a.clock_hand == b.clock_hand
    &&& a.stats == b.stats
}

/// The pager of one address space.
pub struct Pager {
    pub regions: Vec<VmRegion>,
    pub pages: BTreeMap<usize, PageState>,
    pub resident: Vec<ResidentPage>,
    pub free_frames: Vec<usize>,
    pub swap_slots: Vec<bool>,
    pub quota: usize,
    pub algo: VmAlgo,
    pub next_loaded_at: u64,
    pub epoch: u64,
    pub clock_hand: usize,
    pub stats: RuntimeStats,
}

impl Pager {
    /// The registered pages.
    pub open spec fn pages_view(&self) -> Map<usize, PageState> {
        self.pages@
    }

    /// The resident pages, in list order.
    pub open spec fn resident_view(&self) -> Seq<ResidentPage> {
        self.resident@
    }

    /// The resident list and the page map agree, and swap slots are owned by one page each.
    pub open spec fn wf(&self) -> bool {
        &&& 1 <= self.quota <= MAX_QUOTA
        &&& forall|i: int|
            0 <= i < self.resident@.len() ==> {
                &&& self.pages@.contains_key(#[trigger] self.resident@[i].vpn)
                &&& self.pages@[self.resident@[i].vpn].resident
            }
        &&& forall|i: int, j: int|
            0 <= i < j < self.resident@.len() ==> #[trigger] self.resident@[i].vpn
                != #[trigger] self.resident@[j].vpn
        &&& forall|v: usize|
            #[trigger] self.pages@.contains_key(v) && self.pages@[v].resident ==> exists|i: int|
                0 <= i < self.resident@.len() && #[trigger] self.resident@[i].vpn == v
        &&& forall|v: usize|
            #[trigger] self.pages@.contains_key(v) && self.pages@[v].backing is Swap ==> {
                let s = self.pages@[v].backing->Swap_0;
                s < self.swap_slots@.len() && self.swap_slots@[s as int]
            }
        &&& forall|v: usize, w: usize|
            #[trigger] self.pages@.contains_key(v) && #[trigger] self.pages@.contains_key(w) && v
                != w && self.pages@[v].backing is Swap && self.pages@[w].backing is Swap
                ==> self.pages@[v].backing->Swap_0 != self.pages@[w].backing->Swap_0
    }

    /// A new pager with the default quota, FIFO replacement and nothing registered.
    pub fn new(now_ns: u64, now_instret: u64) -> (r: Pager)
        ensures
            r.wf(),
            r.pages@ == Map::<usize, PageState>::empty(),
            r.resident@.len() == 0,
            r.free_frames@.len() == 0,
            r.swap_slots@.len() == 0,
            r.regions@.len() == 0,
            r.quota == DEFAULT_QUOTA,
            r.algo == VmAlgo::Fifo,
            r.next_loaded_at == 0 && r.epoch == 0 && r.clock_hand == 0,
            r.stats.start_time_ns == now_ns && r.stats.start_instret == now_instret,
            r.stats.page_faults == 0 && r.stats.evictions == 0,
            r.stats.write_backs == 0 && r.stats.thrash_events == 0,
            r.stats.window_faults_base == 0 && r.stats.window_evictions_base == 0,
    {
        let mut stats = RuntimeStats::new();
        stats.reset(now_ns, now_instret);
        Pager {
            regions: Vec::new(),
            pages: BTreeMap::new(),
            resident: Vec::new(),
            free_frames: Vec::new(),
            swap_slots: Vec::new(),
            quota: DEFAULT_QUOTA,
            algo: VmAlgo::Fifo,
            next_loaded_at: 0,
            epoch: 0,
            clock_hand: 0,
            stats,
        }
    }

    /// Takes the first unused swap slot, or a new one at the end.
    fn allocate_slot(&mut self, effects: &mut Vec<PagerEffect>) -> (slot: usize)
        ensures
            first_free_slot(old(self).swap_slots@, slot as int),
            final(self).swap_slots@ == if slot < old(self).swap_slots@.len() {
                old(self).swap_slots@.update(slot as int, true)
            } else {
                old(self).swap_slots@.push(true)
            },
            final(effects)@ == old(effects)@.push(PagerEffect::AllocSlot { slot }),
            final(self).pages@ == old(self).pages@,
            final(self).resident@ == old(self).resident@,
            final(self).free_frames@ == old(self).free_frames@,
            final(self).regions@ == old(self).regions@,
            final(self).quota == old(self).quota,
            final(self).algo == old(self).algo,
            final(self).next_loaded_at == old(self).next_loaded_at,
            final(self).epoch == old(self).epoch,
            final(self).clock_hand == old(self).clock_hand,
            final(self).stats == old(self).stats,
    {
        let mut i: usize = 0;
        while i < self.swap_slots.len()
            invariant
                0 <= i <= self.swap_slots@.len(),
                forall|j: int| 0 <= j < i ==> #[trigger] self.swap_slots@[j],
                *self == *old(self),
                effects@ == old(effects)@,
            decreases self.swap_slots@.len() - i,
        {
            if !self.swap_slots[i] {
                self.swap_slots.set(i, true);
                effects.push(PagerEffect::AllocSlot { slot: i });
                return i;
            }
            i = i + 1;
        }
        let slot = self.swap_slots.len();
        self.swap_slots.push(true);
        effects.push(PagerEffect::AllocSlot { slot });
        slot
    }

    /// Frees a swap slot; a slot number past the end is ignored.
    fn release_slot(&mut self, slot: usize, effects: &mut Vec<PagerEffect>)
        ensures
            slot < old(self).swap_slots@.len() ==> {
                &&& final(self).swap_slots@ == old(self).swap_slots@.update(slot as int, false)
                &&& final(effects)@ == old(effects)@.push(PagerEffect::ReleaseSlot { slot })
            },
            slot >= old(self).swap_slots@.len() ==> {
                &&& final(self).swap_slots@ == old(self).swap_slots@
                &&& final(effects)@ == old(effects)@
            },
            final(self).pages@ == old(self).pages@,
            final(self).resident@ == old(self).resident@,
            final(self).free_frames@ == old(self).free_frames@,
            final(self).regions@ == old(self).regions@,
            final(self).quota == old(self).quota,
            final(self).algo == old(self).algo,
            final(self).next_loaded_at == old(self).next_loaded_at,
            final(self).epoch == old(self).epoch,
            final(self).clock_hand == old(self).clock_hand,
            final(self).stats == old(self).stats,
    {
        if slot < self.swap_slots.len() {
            self.swap_slots.set(slot, false);
            effects.push(PagerEffect::ReleaseSlot { slot });
        }
    }
}


/// The choice a replacement policy makes on the resident list: the victim's
/// index (none when nothing is resident), the resident list and page table
/// bits after the scan, and the clock hand afterwards.
pub open spec fn pick_outcome(
    algo: VmAlgo,
    res: Seq<ResidentPage>,
    hw: Seq<PteBits>,
    hand: usize,
    epoch: u64,
) -> (Option<int>, Seq<ResidentPage>, Seq<PteBits>, usize) {
    let len = res.len();
    let acc = accessed_bits(hw);
    let cleared = with_accessed(hw, Seq::new(len, |i: int| false));
    if len == 0 {
        (None, res, hw, hand)
    } else {
        match algo {
            VmAlgo::Fifo => (Some(choose|i: int| first_min_loaded(res, i)), res, hw, hand),
            VmAlgo::Clock => {
                let (idx, acc2, hand2) = clock_scan(acc, hand as int, 2 * len);
                (Some(idx), res, with_accessed(hw, acc2), hand2 as usize)
            },
            VmAlgo::LruApprox => {
                let res2 = Seq::new(len, |i: int| aged(res[i], acc[i]));
                (Some(choose|i: int| first_min_age(res2, i)), res2, cleared, hand)
            },
            VmAlgo::WorkingSet => {
                let res2 = Seq::new(len, |i: int| ws_touched(res[i], acc[i], epoch));
                if exists|i: int| first_ws_idle(res, acc, epoch, i) {
                    (Some(choose|i: int| first_ws_idle(res, acc, epoch, i)), res2, cleared, hand)
                } else {
                    let idx = hand as int % len as int;
                    (Some(idx), res2, cleared, ((idx + 1) % len as int) as usize)
                }
            },
        }
    }
}

/// At most one index is the first minimum.
pub proof fn lemma_first_min_loaded_unique(s: Seq<ResidentPage>, i: int, j: int)
    requires
        first_min_loaded(s, i),
        first_min_loaded(s, j),
    ensures
        i == j,
{
    if i < j {
        assert(s[j].loaded_at < s[i].loaded_at);
    } else if j < i {
        assert(s[i].loaded_at < s[j].loaded_at);
    }
}

/// At most one index is the first minimum.
pub proof fn lemma_first_min_age_unique(s: Seq<ResidentPage>, i: int, j: int)
    requires
        first_min_age(s, i),
        first_min_age(s, j),
    ensures
        i == j,
{
    if i < j {
        assert(s[j].age < s[i].age);
    } else if j < i {
        assert(s[i].age < s[j].age);
    }
}

/// At most one index is the first page outside the working set.
pub proof fn lemma_first_ws_idle_unique(
    s: Seq<ResidentPage>,
    acc: Seq<bool>,
    epoch: u64,
    i: int,
    j: int,
)
    requires
        first_ws_idle(s, acc, epoch, i),
        first_ws_idle(s, acc, epoch, j),
    ensures
        i == j,
{
}

/// With no accessed bit set, the clock takes the page under the hand.
pub proof fn lemma_clock_scan_all_clear(acc: Seq<bool>, hand: int, fuel: nat)
    requires
        acc.len() > 0,
        fuel > 0,
        forall|i: int| 0 <= i < acc.len() ==> !acc[i],
        hand >= 0,
    ensures
        clock_scan(acc, hand, fuel) == (hand % acc.len() as int, acc, (hand % acc.len() as int + 1)
            % acc.len() as int),
{
    let len = acc.len() as int;
    assert(0 <= hand % len < len);
}

impl Pager {
    /// Takes a resident page out of the list by moving the last one into its place.
    fn remove_resident(&mut self, hw: &mut Vec<PteBits>, index: usize) -> (r: ResidentPage)
        requires
            index < old(self).resident@.len(),
            old(hw)@.len() == old(self).resident@.len(),
        ensures
            r == old(self).resident@[index as int],
            final(self).resident@ == swap_remove_seq(old(self).resident@, index as int),
            final(hw)@ == swap_remove_seq(old(hw)@, index as int),
            final(self).clock_hand == hand_after_remove(
                old(self).clock_hand,
                index,
                old(self).resident@.len() as usize,
            ),
            final(self).pages@ == old(self).pages@,
            final(self).free_frames@ == old(self).free_frames@,
            final(self).swap_slots@ == old(self).swap_slots@,
            final(self).regions@ == old(self).regions@,
            final(self).quota == old(self).quota,
            final(self).algo == old(self).algo,
            final(self).next_loaded_at == old(self).next_loaded_at,
            final(self).epoch == old(self).epoch,
            final(self).stats == old(self).stats,
    {
        let last = self.resident.len() - 1;
        let victim = self.resident.swap_remove(index);
        hw.swap_remove(index);
        if self.clock_hand > last.saturating_sub(1) {
            self.clock_hand = 0;
        } else if index < self.clock_hand && self.clock_hand > 0 {
            self.clock_hand = self.clock_hand - 1;
        }
        victim
    }

    /// FIFO: the first of the earliest loaded resident pages.
    fn pick_fifo_index(&self) -> (r: Option<usize>)
        ensures
            r is None <==> self.resident@.len() == 0,
            r matches Some(i) ==> first_min_loaded(self.resident@, i as int),
    {
        if self.resident.len() == 0 {
            return None;
        }
        let mut best: usize = 0;
        let mut i: usize = 1;
        while i < self.resident.len()
            invariant
                1 <= i <= self.resident@.len(),
                best < i,
                forall|j: int|
                    0 <= j < i ==> self.resident@[best as int].loaded_at
                        <= #[trigger] self.resident@[j].loaded_at,
                forall|j: int|
                    0 <= j < best ==> self.resident@[best as int].loaded_at
                        < #[trigger] self.resident@[j].loaded_at,
            decreases self.resident@.len() - i,
        {
            if self.resident[i].loaded_at < self.resident[best].loaded_at {
                best = i;
            }
            i = i + 1;
        }
        Some(best)
    }

    /// Clock (second chance): starting at the hand, clears set accessed bits
    /// and takes the first page whose bit is clear; at most two sweeps.
    fn pick_clock_index(&mut self, hw: &mut Vec<PteBits>) -> (r: Option<usize>)
        requires
            old(hw)@.len() == old(self).resident@.len(),
        ensures
            old(self).resident@.len() == 0 ==> r is None && same_state(*final(self), *old(self))
                && final(hw)@ == old(hw)@,
            old(self).resident@.len() > 0 ==> {
                let out = clock_scan(
                    accessed_bits(old(hw)@),
                    old(self).clock_hand as int,
                    2 * old(self).resident@.len(),
                );
                &&& r == Some(out.0 as usize)
                &&& 0 <= out.0 < old(self).resident@.len()
                &&& final(hw)@ == with_accessed(old(hw)@, out.1)
                &&& final(self).clock_hand == out.2
            },
            final(self).resident@ == old(self).resident@,
            final(self).pages@ == old(self).pages@,
            final(self).free_frames@ == old(self).free_frames@,
            final(self).swap_slots@ == old(self).swap_slots@,
            final(self).regions@ == old(self).regions@,
            final(self).quota == old(self).quota,
            final(self).algo == old(self).algo,
            final(self).next_loaded_at == old(self).next_loaded_at,
            final(self).epoch == old(self).epoch,
            final(self).stats == old(self).stats,
    {
        let len = self.resident.len();
        if len == 0 {
            return None;
        }
        let ghost target = clock_scan(
            accessed_bits(old(hw)@),
            old(self).clock_hand as int,
            2 * len as nat,
        );
        let ghost mut steps: nat = 0;
        let mut pass: usize = 0;
        while pass < 2
            invariant
                len == self.resident@.len(),
                len > 0,
                pass <= 2,
                steps == pass * len,
                hw@.len() == len,
                hw@ == with_accessed(old(hw)@, accessed_bits(hw@)),
                clock_scan(accessed_bits(hw@), self.clock_hand as int, (2 * len - steps) as nat)
                    == target,
                target == clock_scan(
                    accessed_bits(old(hw)@),
                    old(self).clock_hand as int,
                    2 * old(self).resident@.len(),
                ),
                self.resident@ == old(self).resident@,
                self.pages@ == old(self).pages@,
                self.free_frames@ == old(self).free_frames@,
                self.swap_slots@ == old(self).swap_slots@,
                self.regions@ == old(self).regions@,
                self.quota == old(self).quota,
                self.algo == old(self).algo,
                self.next_loaded_at == old(self).next_loaded_at,
                self.epoch == old(self).epoch,
                self.stats == old(self).stats,
            decreases 2 - pass,
        {
            let mut k: usize = 0;
            while k < len
                invariant
                    len == self.resident@.len(),
                    len > 0,
                    pass < 2,
                    k <= len,
                    steps == pass * len + k,
                    hw@.len() == len,
                    hw@ == with_accessed(old(hw)@, accessed_bits(hw@)),
                    clock_scan(accessed_bits(hw@), self.clock_hand as int, (2 * len - steps) as nat)
                        == target,
                    target == clock_scan(
                        accessed_bits(old(hw)@),
                        old(self).clock_hand as int,
                        2 * old(self).resident@.len(),
                    ),
                    self.resident@ == old(self).resident@,
                    self.pages@ == old(self).pages@,
                    self.free_frames@ == old(self).free_frames@,
                    self.swap_slots@ == old(self).swap_slots@,
                    self.regions@ == old(self).regions@,
                    self.quota == old(self).quota,
                    self.algo == old(self).algo,
                    self.next_loaded_at == old(self).next_loaded_at,
                    self.epoch == old(self).epoch,
                    self.stats == old(self).stats,
                decreases len - k,
            {
                assert(steps < 2 * len) by (nonlinear_arith)
                    requires
                        steps == pass * len + k,
                        pass < 2,
                        k < len,
                ;
                let index = self.clock_hand % len;
                let bits = hw[index];
                let ghost acc = accessed_bits(hw@);
                if bits.accessed {
                    hw.set(index, PteBits { accessed: false, dirty: bits.dirty });
                    assert(accessed_bits(hw@) =~= acc.update(index as int, false));
                    assert(hw@ =~= with_accessed(old(hw)@, accessed_bits(hw@)));
                    self.clock_hand = (index + 1) % len;
                } else {
                    assert(!acc[index as int]);
                    assert(clock_scan(acc, self.clock_hand as int, (2 * len - steps) as nat) == (
                        index as int,
                        acc,
                        (index as int + 1) % len as int,
                    ));
                    self.clock_hand = (index + 1) % len;
                    return Some(index);
                }
                k = k + 1;
                proof {
                    steps = steps + 1;
                }
            }
            assert((pass + 1) * len == pass * len + len) by (nonlinear_arith);
            pass = pass + 1;
        }
        Some(self.clock_hand % len)
    }
}

/// Two resident lists hold the same pages and frames in the same order.
pub open spec fn same_frames(a: Seq<ResidentPage>, b: Seq<ResidentPage>) -> bool {
    &&& a.len() == b.len()
    &&& forall|i: int| 0 <= i < a.len() ==> #[trigger] a[i].vpn == b[i].vpn && a[i].ppn == b[i].ppn
}

/// At most one index is the first unused swap slot.
pub proof fn lemma_first_free_slot_unique(slots: Seq<bool>, i: int, j: int)
    requires
        first_free_slot(slots, i),
        first_free_slot(slots, j),
    ensures
        i == j,
{
    if i < j {
        assert(slots[i]);
    } else if j < i {
        assert(slots[j]);
    }
}

/// The slot that `allocate_slot` takes.
pub open spec fn free_slot_of(slots: Seq<bool>) -> int {
    choose|i: int| first_free_slot(slots, i)
}

/// The swap slots after `slot` is taken.
pub open spec fn slots_after_alloc(slots: Seq<bool>, slot: int) -> Seq<bool> {
    if slot < slots.len() {
        slots.update(slot, true)
    } else {
        slots.push(true)
    }
}

/// What evicting the page chosen by the policy does: the victim leaves the
/// resident list (its frame is the result), a dirty victim is written to its
/// swap slot (a zero-fill page gets a new slot first), and it is unmapped.
pub open spec fn eviction(
    old: Pager,
    hw: Seq<PteBits>,
    effects: Seq<PagerEffect>,
    new: Pager,
    hw2: Seq<PteBits>,
    effects2: Seq<PagerEffect>,
    r: Option<usize>,
) -> bool {
    let out = pick_outcome(old.algo, old.resident@, hw, old.clock_hand, old.epoch);
    let i = out.0->Some_0;
    let res1 = out.1;
    let hw1 = out.2;
    let victim = res1[i];
    let dirty = hw1[i].dirty;
    let st = old.pages@[victim.vpn];
    let slot = free_slot_of(old.swap_slots@);
    let backing2 = if !dirty {
        st.backing
    } else {
        match st.backing {
            PageBacking::ZeroFill => PageBacking::Swap(slot as usize),
            PageBacking::Swap(s) => PageBacking::Swap(s),
        }
    };
    let fx = if !dirty {
        seq![PagerEffect::UnmapPage { vpn: victim.vpn }]
    } else {
        match st.backing {
            PageBacking::ZeroFill => seq![
                PagerEffect::AllocSlot { slot: slot as usize },
                PagerEffect::WriteBack { ppn: victim.ppn, slot: slot as usize },
                PagerEffect::UnmapPage { vpn: victim.vpn },
            ],
            PageBacking::Swap(s) => seq![
                PagerEffect::WriteBack { ppn: victim.ppn, slot: s },
                PagerEffect::UnmapPage { vpn: victim.vpn },
            ],
        }
    };
    &&& out.0 is Some
    &&& 0 <= i < res1.len()
    &&& same_frames(res1, old.resident@)
    &&& r == Some(victim.ppn)
    &&& new.resident@ == swap_remove_seq(res1, i)
    &&& hw2 == swap_remove_seq(hw1, i)
    &&& new.clock_hand == hand_after_remove(out.3, i as usize, res1.len() as usize)
    &&& new.pages@ == old.pages@.insert(
        victim.vpn,
        PageState { flags: st.flags, backing: backing2, resident: false },
    )
    &&& effects2 == effects + fx
    &&& new.swap_slots@ == if dirty && st.backing is ZeroFill {
        slots_after_alloc(old.swap_slots@, slot)
    } else {
        old.swap_slots@
    }
    &&& new.stats == RuntimeStats {
        evictions: (old.stats.evictions + 1) as u64,
        write_backs: (old.stats.write_backs + if dirty { 1int } else { 0int }) as u64,
        ..old.stats
    }
    &&& new.free_frames@ == old.free_frames@
    &&& new.regions@ == old.regions@
    &&& new.quota == old.quota
    &&& new.algo == old.algo
    &&& new.next_loaded_at == old.next_loaded_at
    &&& new.epoch == old.epoch
}

impl Pager {
    /// LRU approximation: ages every resident page (shifting in its accessed
    /// bit, which is cleared) and takes the first page of the smallest age.
    fn pick_lru_index(&mut self, hw: &mut Vec<PteBits>) -> (r: Option<usize>)
        requires
            old(hw)@.len() == old(self).resident@.len(),
        ensures
            final(self).resident@ == Seq::new(
                old(self).resident@.len(),
                |i: int| aged(old(self).resident@[i], accessed_bits(old(hw)@)[i]),
            ),
            final(hw)@ == with_accessed(
                old(hw)@,
                Seq::new(old(hw)@.len(), |i: int| false),
            ),
            r is None <==> old(self).resident@.len() == 0,
            r matches Some(i) ==> first_min_age(final(self).resident@, i as int),
            forall|i: int|
                0 <= i < old(self).resident@.len() ==> (#[trigger] final(self).resident@[i].age >= 128
                    <==> old(hw)@[i].accessed) && final(self).resident@[i].age % 128 == old(
                    self,
                ).resident@[i].age / 2,
            r matches Some(k) ==> (exists|i: int| 0 <= i < old(hw)@.len() && !#[trigger] old(hw)@[i].accessed)
                ==> !old(hw)@[k as int].accessed,
            final(self).pages@ == old(self).pages@,
            final(self).free_frames@ == old(self).free_frames@,
            final(self).swap_slots@ == old(self).swap_slots@,
            final(self).regions@ == old(self).regions@,
            final(self).quota == old(self).quota,
            final(self).algo == old(self).algo,
            final(self).next_loaded_at == old(self).next_loaded_at,
            final(self).epoch == old(self).epoch,
            final(self).clock_hand == old(self).clock_hand,
            final(self).stats == old(self).stats,
    {
        let len = self.resident.len();
        let mut i: usize = 0;
        while i < len
            invariant
                len == self.resident@.len(),
                hw@.len() == len,
                0 <= i <= len,
                forall|j: int|
                    0 <= j < i ==> #[trigger] self.resident@[j] == aged(
                        old(self).resident@[j],
                        old(hw)@[j].accessed,
                    ),
                forall|j: int| i <= j < len ==> #[trigger] self.resident@[j] == old(self).resident@[j],
                forall|j: int|
                    0 <= j < i ==> #[trigger] hw@[j] == (PteBits {
                        accessed: false,
                        dirty: old(hw)@[j].dirty,
                    }),
                forall|j: int| i <= j < len ==> #[trigger] hw@[j] == old(hw)@[j],
                old(hw)@.len() == old(self).resident@.len(),
                self.pages@ == old(self).pages@,
                self.free_frames@ == old(self).free_frames@,
                self.swap_slots@ == old(self).swap_slots@,
                self.regions@ == old(self).regions@,
                self.quota == old(self).quota,
                self.algo == old(self).algo,
                self.next_loaded_at == old(self).next_loaded_at,
                self.epoch == old(self).epoch,
                self.clock_hand == old(self).clock_hand,
                self.stats == old(self).stats,
            decreases len - i,
        {
            let page = self.resident[i];
            let bits = hw[i];
            let new_age: u8 = if bits.accessed {
                page.age / 2 + 128
            } else {
                page.age / 2
            };
            self.resident.set(i, ResidentPage { age: new_age, ..page });
            if bits.accessed {
                hw.set(i, PteBits { accessed: false, dirty: bits.dirty });
            }
            i = i + 1;
        }
        assert(self.resident@ =~= Seq::new(
            old(self).resident@.len(),
            |i: int| aged(old(self).resident@[i], accessed_bits(old(hw)@)[i]),
        ));
        assert(hw@ =~= with_accessed(old(hw)@, Seq::new(old(hw)@.len(), |i: int| false)));
        if len == 0 {
            return None;
        }
        let mut best: usize = 0;
        let mut k: usize = 1;
        while k < len
            invariant
                len == self.resident@.len(),
                1 <= k <= len,
                best < k,
                forall|j: int|
                    0 <= j < k ==> self.resident@[best as int].age <= #[trigger] self.resident@[j].age,
                forall|j: int|
                    0 <= j < best ==> self.resident@[best as int].age < #[trigger] self.resident@[j].age,
            decreases len - k,
        {
            if self.resident[k].age < self.resident[best].age {
                best = k;
            }
            k = k + 1;
        }
        proof {
            let acc = accessed_bits(old(hw)@);
            assert(self.resident@ =~= Seq::new(old(self).resident@.len(), |i: int| aged(old(self).resident@[i], acc[i])));
            lemma_lru_spares_referenced(old(self).resident@, acc, best as int);
            if exists|i: int| 0 <= i < old(hw)@.len() && !#[trigger] old(hw)@[i].accessed {
                let i = choose|i: int| 0 <= i < old(hw)@.len() && !#[trigger] old(hw)@[i].accessed;
                assert(!acc[i]);
                assert(acc[best as int] == old(hw)@[best as int].accessed);
            }
        }
        Some(best)
    }

    /// Simplified working set: refreshes the epoch of referenced pages
    /// (clearing their accessed bits) and takes the first unreferenced page
    /// idle for more than the window; when there is none, falls back to the clock.
    fn pick_working_set_index(&mut self, hw: &mut Vec<PteBits>) -> (r: Option<usize>)
        requires
            old(hw)@.len() == old(self).resident@.len(),
        ensures
            ({
                let out = pick_outcome(
                    VmAlgo::WorkingSet,
                    old(self).resident@,
                    old(hw)@,
                    old(self).clock_hand,
                    old(self).epoch,
                );
                &&& r is None <==> out.0 is None
                &&& r matches Some(i) ==> out.0 == Some(i as int)
                &&& r matches Some(k) ==> (exists|i: int|
                    0 <= i < old(hw)@.len() && !#[trigger] old(hw)@[i].accessed && sat_sub(
                        old(self).epoch,
                        old(self).resident@[i].last_epoch,
                    ) > WORKING_SET_TAU) ==> !old(hw)@[k as int].accessed && sat_sub(
                    old(self).epoch,
                    old(self).resident@[k as int].last_epoch,
                ) > WORKING_SET_TAU
                &&& final(self).resident@ == out.1
                &&& final(hw)@ == out.2
                &&& final(self).clock_hand == out.3
            }),
            final(self).pages@ == old(self).pages@,
            final(self).free_frames@ == old(self).free_frames@,
            final(self).swap_slots@ == old(self).swap_slots@,
            final(self).regions@ == old(self).regions@,
            final(self).quota == old(self).quota,
            final(self).algo == old(self).algo,
            final(self).next_loaded_at == old(self).next_loaded_at,
            final(self).epoch == old(self).epoch,
            final(self).stats == old(self).stats,
    {
        let len = self.resident.len();
        let epoch = self.epoch;
        let ghost acc = accessed_bits(old(hw)@);
        let mut victim: Option<usize> = None;
        let mut i: usize = 0;
        while i < len
            invariant
                len == self.resident@.len(),
                hw@.len() == len,
                0 <= i <= len,
                epoch == self.epoch,
                acc == accessed_bits(old(hw)@),
                old(hw)@.len() == len,
                old(self).resident@.len() == len,
                forall|j: int|
                    0 <= j < i ==> #[trigger] self.resident@[j] == ws_touched(
                        old(self).resident@[j],
                        acc[j],
                        epoch,
                    ),
                forall|j: int| i <= j < len ==> #[trigger] self.resident@[j] == old(self).resident@[j],
                forall|j: int|
                    0 <= j < i ==> #[trigger] hw@[j] == (PteBits {
                        accessed: false,
                        dirty: old(hw)@[j].dirty,
                    }),
                forall|j: int| i <= j < len ==> #[trigger] hw@[j] == old(hw)@[j],
                victim matches Some(v) ==> v < i && first_ws_idle(
                    old(self).resident@,
                    acc,
                    epoch,
                    v as int,
                ),
                victim is None ==> forall|j: int|
                    0 <= j < i ==> !ws_idle(#[trigger] old(self).resident@[j], acc[j], epoch),
                self.pages@ == old(self).pages@,
                self.free_frames@ == old(self).free_frames@,
                self.swap_slots@ == old(self).swap_slots@,
                self.regions@ == old(self).regions@,
                self.quota == old(self).quota,
                self.algo == old(self).algo,
                self.next_loaded_at == old(self).next_loaded_at,
                self.epoch == old(self).epoch,
                self.clock_hand == old(self).clock_hand,
                self.stats == old(self).stats,
            decreases len - i,
        {
            let page = self.resident[i];
            let bits = hw[i];
            if bits.accessed {
                self.resident.set(i, ResidentPage { last_epoch: epoch, ..page });
                hw.set(i, PteBits { accessed: false, dirty: bits.dirty });
            } else if epoch.saturating_sub(page.last_epoch) > WORKING_SET_TAU && victim.is_none() {
                victim = Some(i);
            }
            i = i + 1;
        }
        let ghost res2 = Seq::new(len as nat, |i: int| ws_touched(old(self).resident@[i], acc[i], epoch));
        let ghost cleared = with_accessed(old(hw)@, Seq::new(len as nat, |i: int| false));
        assert(self.resident@ =~= res2);
        assert(hw@ =~= cleared);
        match victim {
            Some(v) => {
                proof {
                    let c = choose|i: int| first_ws_idle(old(self).resident@, acc, epoch, i);
                    lemma_first_ws_idle_unique(old(self).resident@, acc, epoch, c, v as int);
                    if exists|i: int|
                        0 <= i < old(hw)@.len() && !#[trigger] old(hw)@[i].accessed && sat_sub(
                            epoch,
                            old(self).resident@[i].last_epoch,
                        ) > WORKING_SET_TAU {
                        lemma_working_set_spares_referenced(old(self).resident@, old(hw)@, old(self).clock_hand, epoch);
                    }
                }
                Some(v)
            },
            None => {
                assert(!exists|i: int| first_ws_idle(old(self).resident@, acc, epoch, i));
                proof {
                    if exists|i: int|
                        0 <= i < old(hw)@.len() && !#[trigger] old(hw)@[i].accessed && sat_sub(
                            epoch,
                            old(self).resident@[i].last_epoch,
                        ) > WORKING_SET_TAU {
                        let i = choose|i: int|
                            0 <= i < old(hw)@.len() && !#[trigger] old(hw)@[i].accessed && sat_sub(
                                epoch,
                                old(self).resident@[i].last_epoch,
                            ) > WORKING_SET_TAU;
                        assert(ws_idle(old(self).resident@[i], acc[i], epoch));
                        lemma_first_ws_idle_exists(old(self).resident@, acc, epoch, i);
                    }
                }
                if len == 0 {
                    return None;
                }
                assert(accessed_bits(hw@) =~= Seq::new(len as nat, |i: int| false));
                proof {
                    lemma_clock_scan_all_clear(
                        accessed_bits(hw@),
                        self.clock_hand as int,
                        2 * len as nat,
                    );
                }
                assert(with_accessed(hw@, accessed_bits(hw@)) =~= hw@);
                self.pick_clock_index(hw)
            },
        }
    }

    /// Picks a victim with the current policy.
    fn pick_victim(&mut self, hw: &mut Vec<PteBits>) -> (r: Option<usize>)
        requires
            old(hw)@.len() == old(self).resident@.len(),
            old(self).wf(),
        ensures
            ({
                let out = pick_outcome(
                    old(self).algo,
                    old(self).resident@,
                    old(hw)@,
                    old(self).clock_hand,
                    old(self).epoch,
                );
                &&& r is None <==> out.0 is None
                &&& r matches Some(i) ==> out.0 == Some(i as int) && i < old(self).resident@.len()
                &&& final(self).resident@ == out.1
                &&& final(hw)@ == out.2
                &&& final(self).clock_hand == out.3
            }),
            r is None <==> old(self).resident@.len() == 0,
            same_frames(final(self).resident@, old(self).resident@),
            final(hw)@.len() == old(hw)@.len(),
            forall|j: int| 0 <= j < old(hw)@.len() ==> #[trigger] final(hw)@[j].dirty == old(hw)@[j].dirty,
            final(self).wf(),
            final(self).pages@ == old(self).pages@,
            final(self).free_frames@ == old(self).free_frames@,
            final(self).swap_slots@ == old(self).swap_slots@,
            final(self).regions@ == old(self).regions@,
            final(self).quota == old(self).quota,
            final(self).algo == old(self).algo,
            final(self).next_loaded_at == old(self).next_loaded_at,
            final(self).epoch == old(self).epoch,
            final(self).stats == old(self).stats,
    {
        let ghost out = pick_outcome(
            old(self).algo,
            old(self).resident@,
            old(hw)@,
            old(self).clock_hand,
            old(self).epoch,
        );
        let r = match self.algo {
            VmAlgo::Fifo => {
                let r = self.pick_fifo_index();
                proof {
                    if let Some(i) = r {
                        let c = choose|j: int| first_min_loaded(old(self).resident@, j);
                        lemma_first_min_loaded_unique(old(self).resident@, c, i as int);
                        assert(out.0 == Some(i as int));
                    }
                }
                r
            },
            VmAlgo::Clock => {
                let r = self.pick_clock_index(hw);
                proof {
                    if old(self).resident@.len() > 0 {
                        let cs = clock_scan(
                            accessed_bits(old(hw)@),
                            old(self).clock_hand as int,
                            2 * old(self).resident@.len(),
                        );
                        assert(old(self).algo == VmAlgo::Clock);
                        assert(out.0 == Some(cs.0));
                        assert(old(self).resident.len() == old(self).resident@.len());
                    }
                }
                assert(r matches Some(i) ==> out.0 == Some(i as int));
                r
            },
            VmAlgo::LruApprox => {
                let r = self.pick_lru_index(hw);
                proof {
                    let out = pick_outcome(
                        old(self).algo,
                        old(self).resident@,
                        old(hw)@,
                        old(self).clock_hand,
                        old(self).epoch,
                    );
                    assert(self.resident@ =~= out.1);
                    if let Some(i) = r {
                        let c = choose|j: int| first_min_age(self.resident@, j);
                        lemma_first_min_age_unique(self.resident@, c, i as int);
                        assert(out.0 == Some(i as int));
                    }
                }
                r
            },
            VmAlgo::WorkingSet => self.pick_working_set_index(hw),
        };
        assert(same_frames(self.resident@, old(self).resident@));
        assert forall|v: usize|
            #[trigger] self.pages@.contains_key(v) && self.pages@[v].resident implies exists|i: int|
                0 <= i < self.resident@.len() && #[trigger] self.resident@[i].vpn == v by {
            let i = choose|i: int|
                0 <= i < old(self).resident@.len() && #[trigger] old(self).resident@[i].vpn == v;
            assert(self.resident@[i].vpn == v);
        }
        r
    }
}

impl Pager {
    /// Evicts one resident page chosen by the current policy and gives back its frame.
    fn evict_one(&mut self, hw: &mut Vec<PteBits>, effects: &mut Vec<PagerEffect>) -> (r: Option<usize>)
        requires
            old(self).wf(),
            old(hw)@.len() == old(self).resident@.len(),
            has_room(old(self).stats.evictions),
            has_room(old(self).stats.write_backs),
        ensures
            final(self).wf(),
            final(hw)@.len() == final(self).resident@.len(),
            old(self).resident@.len() == 0 ==> r is None && same_state(*final(self), *old(self))
                && final(hw)@ == old(hw)@ && final(effects)@ == old(effects)@,
            old(self).resident@.len() > 0 ==> eviction(
                *old(self),
                old(hw)@,
                old(effects)@,
                *final(self),
                final(hw)@,
                final(effects)@,
                r,
            ),
    {
        let index = match self.pick_victim(hw) {
            Some(i) => i,
            None => {
                return None;
            },
        };
        let ghost mid = *self;
        let ghost mid_hw = hw@;
        let dirty = hw[index].dirty;
        let victim = self.remove_resident(hw, index);
        assert(mid.pages@.contains_key(victim.vpn));
        let st = *self.pages.get(&victim.vpn).unwrap();
        let mut new_backing = st.backing;
        let ghost slot_spec = free_slot_of(old(self).swap_slots@);
        if dirty {
            let slot = match st.backing {
                PageBacking::ZeroFill => {
                    let slot = self.allocate_slot(effects);
                    proof {
                        lemma_first_free_slot_unique(old(self).swap_slots@, slot_spec, slot as int);
                    }
                    new_backing = PageBacking::Swap(slot);
                    slot
                },
                PageBacking::Swap(s) => s,
            };
            effects.push(PagerEffect::WriteBack { ppn: victim.ppn, slot });
            self.stats.write_backs = self.stats.write_backs + 1;
        }
        self.pages.insert(
            victim.vpn,
            PageState { flags: st.flags, backing: new_backing, resident: false },
        );
        effects.push(PagerEffect::UnmapPage { vpn: victim.vpn });
        self.stats.evictions = self.stats.evictions + 1;
        proof {
            let res1 = mid.resident@;
            let i = index as int;
            assert forall|a: int|
                0 <= a < self.resident@.len() implies #[trigger] self.resident@[a].vpn
                != victim.vpn by {
                if a == i {
                    assert(self.resident@[a] == res1[res1.len() - 1]);
                } else {
                    assert(self.resident@[a] == res1[a]);
                }
            }
            assert forall|v: usize|
                #[trigger] self.pages@.contains_key(v) && self.pages@[v].resident implies exists|
                    a: int,
                | 0 <= a < self.resident@.len() && #[trigger] self.resident@[a].vpn == v by {
                assert(v != victim.vpn);
                let b = choose|b: int| 0 <= b < res1.len() && #[trigger] res1[b].vpn == v;
                if b == res1.len() - 1 {
                    assert(self.resident@[i].vpn == v);
                } else {
                    assert(self.resident@[b].vpn == v);
                }
            }
            assert forall|a: int, b: int|
                0 <= a < b < self.resident@.len() implies #[trigger] self.resident@[a].vpn
                != #[trigger] self.resident@[b].vpn by {
                let last = res1.len() - 1;
                let aa = if a == i { last } else { a };
                let bb = if b == i { last } else { b };
                assert(self.resident@[a] == res1[aa]);
                assert(self.resident@[b] == res1[bb]);
            }
            assert forall|a: int|
                0 <= a < self.resident@.len() implies {
                    &&& self.pages@.contains_key(#[trigger] self.resident@[a].vpn)
                    &&& self.pages@[self.resident@[a].vpn].resident
                } by {
                let last = res1.len() - 1;
                let aa = if a == i { last } else { a };
                assert(self.resident@[a] == res1[aa]);
            }
            let effs = if !dirty {
                seq![PagerEffect::UnmapPage { vpn: victim.vpn }]
            } else {
                match st.backing {
                    PageBacking::ZeroFill => seq![
                        PagerEffect::AllocSlot { slot: slot_spec as usize },
                        PagerEffect::WriteBack { ppn: victim.ppn, slot: slot_spec as usize },
                        PagerEffect::UnmapPage { vpn: victim.vpn },
                    ],
                    PageBacking::Swap(s) => seq![
                        PagerEffect::WriteBack { ppn: victim.ppn, slot: s },
                        PagerEffect::UnmapPage { vpn: victim.vpn },
                    ],
                }
            };
            assert(effects@ =~= old(effects)@ + effs);
        }
        Some(victim.ppn)
    }
}

/// The virtual page number of an address (the address is first cut to the 39 bits of Sv39).
pub open spec fn vpn_of(addr: usize) -> usize {
    ((addr as int % 0x80_0000_0000) / 4096) as usize
}

/// The virtual page number of an address (the address is first cut to the 39 bits of Sv39).
pub fn vpn_floor(addr: usize) -> (r: usize)
    ensures
        r == vpn_of(addr),
        r < 0x800_0000,
{
    let a = addr as u64;
    let m = a & 0x7F_FFFF_FFFF;
    assert(m == a % 0x80_0000_0000) by (bit_vector)
        requires
            m == a & 0x7F_FFFF_FFFF,
    ;
    (m / 4096) as usize
}

/// The first virtual page number after an address, rounding up (after the 39-bit cut).
pub open spec fn vpn_ceil_of(addr: usize) -> usize {
    ((addr as int % 0x80_0000_0000 + 4095) / 4096) as usize
}

/// The first virtual page number after an address, rounding up (after the 39-bit cut).
pub fn vpn_ceil(addr: usize) -> (r: usize)
    ensures
        r == vpn_ceil_of(addr),
        r <= 0x800_0000,
{
    let a = addr as u64;
    let m = a & 0x7F_FFFF_FFFF;
    assert(m == a % 0x80_0000_0000) by (bit_vector)
        requires
            m == a & 0x7F_FFFF_FFFF,
    ;
    ((m + 4095) / 4096) as usize
}

/// `2 * x`, or the largest value when that overflows.
pub open spec fn sat_double(x: u64) -> u64 {
    if 2 * x > u64::MAX {
        u64::MAX
    } else {
        (2 * x) as u64
    }
}

/// Whether the window since the last thrashing event shows thrashing: at
/// least a quota's worth of faults, at least half of them with an eviction.
pub open spec fn thrashing(stats: RuntimeStats, quota: usize) -> bool {
    let faults = sat_sub(stats.page_faults, stats.window_faults_base);
    let evictions = sat_sub(stats.evictions, stats.window_evictions_base);
    faults >= quota && sat_double(evictions) >= faults
}

/// Statistics and quota after the thrashing check: a detected event is
/// counted, opens a new window, and raises the working-set policy's quota.
pub open spec fn after_thrash_check(stats: RuntimeStats, quota: usize, algo: VmAlgo) -> (
    RuntimeStats,
    usize,
) {
    if thrashing(stats, quota) {
        let q = if algo == VmAlgo::WorkingSet && quota < MAX_QUOTA {
            if quota + THRASH_STEP > MAX_QUOTA {
                MAX_QUOTA
            } else {
                (quota + THRASH_STEP) as usize
            }
        } else {
            quota
        };
        (
            RuntimeStats {
                thrash_events: (stats.thrash_events + 1) as u64,
                window_faults_base: stats.page_faults,
                window_evictions_base: stats.evictions,
                ..stats
            },
            q,
        )
    } else {
        (stats, quota)
    }
}

/// The pager after a fault was counted: one more fault, one more epoch.
pub open spec fn bumped(p: Pager) -> Pager {
    Pager {
        epoch: (p.epoch + 1) as u64,
        stats: RuntimeStats { page_faults: (p.stats.page_faults + 1) as u64, ..p.stats },
        ..p
    }
}

/// Where the frame for a faulting page comes from: the free list, a new
/// allocation while under quota, or the eviction of a resident page.
pub open spec fn frame_source<F: FnOnce() -> usize>(
    b: Pager,
    hw: Seq<PteBits>,
    eff: Seq<PagerEffect>,
    mid: Pager,
    mid_hw: Seq<PteBits>,
    mid_eff: Seq<PagerEffect>,
    ppn: usize,
    alloc_frame: F,
) -> bool {
    if b.free_frames@.len() > 0 {
        &&& ppn == b.free_frames@.last()
        &&& mid.free_frames@ == b.free_frames@.drop_last()
        &&& mid.regions@ == b.regions@
        &&& mid.pages@ == b.pages@
        &&& mid.resident@ == b.resident@
        &&& mid.swap_slots@ == b.swap_slots@
        &&& mid.quota == b.quota
        &&& mid.algo == b.algo
        &&& mid.next_loaded_at == b.next_loaded_at
        &&& mid.epoch == b.epoch
        &&& mid.clock_hand == b.clock_hand
        &&& mid.stats == b.stats
        &&& mid_hw == hw
        &&& mid_eff == eff
    } else if b.resident@.len() < b.quota {
        &&& call_ensures(alloc_frame, (), ppn)
        &&& same_state(mid, b)
        &&& mid_hw == hw
        &&& mid_eff == eff
    } else {
        eviction(b, hw, eff, mid, mid_hw, mid_eff, Some(ppn))
    }
}

/// Eviction keeps a page's contents: a dirty victim is written to the swap
/// slot its entry names afterwards, then unmapped; a clean victim is only
/// unmapped and keeps its backing (whose contents it still matches).
pub proof fn lemma_eviction_keeps_contents(
    old: Pager,
    hw: Seq<PteBits>,
    effects: Seq<PagerEffect>,
    new: Pager,
    hw2: Seq<PteBits>,
    effects2: Seq<PagerEffect>,
    r: Option<usize>,
)
    requires
        eviction(old, hw, effects, new, hw2, effects2, r),
    ensures
        ({
            let out = pick_outcome(old.algo, old.resident@, hw, old.clock_hand, old.epoch);
            let victim = out.1[out.0->Some_0];
            let dirty = out.2[out.0->Some_0].dirty;
            &&& effects2.last() == (PagerEffect::UnmapPage { vpn: victim.vpn })
            &&& !new.pages@[victim.vpn].resident
            &&& dirty ==> new.pages@[victim.vpn].backing is Swap && effects2[effects2.len() - 2] == (
            PagerEffect::WriteBack { ppn: victim.ppn, slot: new.pages@[victim.vpn].backing->Swap_0 })
            &&& !dirty ==> effects2 == effects.push(PagerEffect::UnmapPage { vpn: victim.vpn })
                && new.pages@[victim.vpn].backing == old.pages@[victim.vpn].backing
        }),
{
}

/// A page comes back from the slot it was saved to: loading a page whose
/// entry names swap slot `slot` copies that slot into its frame; a page
/// never saved is zero-filled.
pub proof fn lemma_load_restores_contents(
    mid: Pager,
    mid_hw: Seq<PteBits>,
    mid_eff: Seq<PagerEffect>,
    new: Pager,
    new_hw: Seq<PteBits>,
    new_eff: Seq<PagerEffect>,
    vpn: usize,
    ppn: usize,
    st: PageState,
)
    requires
        loaded(mid, mid_hw, mid_eff, new, new_hw, new_eff, vpn, ppn, st),
    ensures
        st.backing matches PageBacking::Swap(slot) ==> new_eff[mid_eff.len() as int] == (PagerEffect::SwapIn { slot, ppn }),
        st.backing is ZeroFill ==> new_eff[mid_eff.len() as int] == (PagerEffect::ZeroFill { ppn }),
        new_eff[mid_eff.len() + 1int] == (PagerEffect::MapPage { vpn, ppn, flags: st.flags }),
        new.pages@[vpn].resident && new.pages@[vpn].backing == st.backing,
{
}

/// The page is loaded into frame `ppn`: filled from its backing, mapped with
/// its flags, appended to the resident list, then the thrashing check runs.
pub open spec fn loaded(
    mid: Pager,
    mid_hw: Seq<PteBits>,
    mid_eff: Seq<PagerEffect>,
    new: Pager,
    new_hw: Seq<PteBits>,
    new_eff: Seq<PagerEffect>,
    vpn: usize,
    ppn: usize,
    st: PageState,
) -> bool {
    let fill = match st.backing {
        PageBacking::ZeroFill => PagerEffect::ZeroFill { ppn },
        PageBacking::Swap(slot) => PagerEffect::SwapIn { slot, ppn },
    };
    &&& new.resident@ == mid.resident@.push(
        ResidentPage {
            vpn,
            ppn,
            loaded_at: (mid.next_loaded_at + 1) as u64,
            last_epoch: mid.epoch,
            age: 255,
        },
    )
    &&& new_hw == mid_hw.push(PteBits { accessed: false, dirty: false })
    &&& new.pages@ == mid.pages@.insert(
        vpn,
        PageState { flags: st.flags, backing: st.backing, resident: true },
    )
    &&& new_eff == mid_eff + seq![fill, PagerEffect::MapPage { vpn, ppn, flags: st.flags }]
    &&& new.next_loaded_at == mid.next_loaded_at + 1
    &&& (new.stats, new.quota) == after_thrash_check(mid.stats, mid.quota, mid.algo)
    &&& new.free_frames@ == mid.free_frames@
    &&& new.swap_slots@ == mid.swap_slots@
    &&& new.regions@ == mid.regions@
    &&& new.algo == mid.algo
    &&& new.epoch == mid.epoch
    &&& new.clock_hand == mid.clock_hand
}

impl Pager {
    /// The index of a resident page in the resident list.
    fn position_of(&self, vpn: usize) -> (r: Option<usize>)
        ensures
            r matches Some(i) ==> i < self.resident@.len() && self.resident@[i as int].vpn == vpn,
            r is None ==> forall|i: int|
                0 <= i < self.resident@.len() ==> #[trigger] self.resident@[i].vpn != vpn,
    {
        let mut i: usize = 0;
        while i < self.resident.len()
            invariant
                0 <= i <= self.resident@.len(),
                forall|j: int| 0 <= j < i ==> #[trigger] self.resident@[j].vpn != vpn,
            decreases self.resident@.len() - i,
        {
            if self.resident[i].vpn == vpn {
                return Some(i);
            }
            i = i + 1;
        }
        None
    }

    /// Runs the thrashing check on the current window.
    fn check_thrashing(&mut self)
        requires
            has_room(old(self).stats.thrash_events),
            1 <= old(self).quota <= MAX_QUOTA,
        ensures
            (final(self).stats, final(self).quota) == after_thrash_check(
                old(self).stats,
                old(self).quota,
                old(self).algo,
            ),
            1 <= final(self).quota <= MAX_QUOTA,
            final(self).regions@ == old(self).regions@,
            final(self).pages@ == old(self).pages@,
            final(self).resident@ == old(self).resident@,
            final(self).free_frames@ == old(self).free_frames@,
            final(self).swap_slots@ == old(self).swap_slots@,
            final(self).algo == old(self).algo,
            final(self).next_loaded_at == old(self).next_loaded_at,
            final(self).epoch == old(self).epoch,
            final(self).clock_hand == old(self).clock_hand,
    {
        let faults = self.stats.page_faults.saturating_sub(self.stats.window_faults_base);
        let evictions = self.stats.evictions.saturating_sub(self.stats.window_evictions_base);
        let doubled = if evictions > u64::MAX / 2 {
            u64::MAX
        } else {
            evictions * 2
        };
        if faults >= self.quota as u64 && doubled >= faults {
            self.stats.thrash_events = self.stats.thrash_events + 1;
            let boosted = self.algo == VmAlgo::WorkingSet && self.quota < MAX_QUOTA;
            if boosted {
                self.quota = if self.quota + THRASH_STEP > MAX_QUOTA {
                    MAX_QUOTA
                } else {
                    self.quota + THRASH_STEP
                };
            }
            self.stats.window_faults_base = self.stats.page_faults;
            self.stats.window_evictions_base = self.stats.evictions;
        }
    }

    /// Handles a page fault at `addr`. A page that is not registered, or whose
    /// flags forbid this kind of access, is refused (`false`). A resident page
    /// only gets its accessed bit (and, for a store, its dirty bit) set.
    /// Otherwise the page is loaded into a frame taken from the free list, or
    /// newly allocated with `alloc_frame` while under quota, or freed by
    /// evicting a page chosen by the current policy.
    pub fn handle_page_fault<F: FnOnce() -> usize>(
        &mut self,
        hw: &mut Vec<PteBits>,
        kind: FaultKind,
        addr: usize,
        alloc_frame: F,
        effects: &mut Vec<PagerEffect>,
    ) -> (ok: bool)
        requires
            old(self).wf(),
            old(hw)@.len() == old(self).resident@.len(),
            old(self).stats.roomy(),
            has_room(old(self).epoch),
            has_room(old(self).next_loaded_at),
            call_requires(alloc_frame, ()),
        ensures
            final(self).wf(),
            final(hw)@.len() == final(self).resident@.len(),
            ok == (old(self).pages@.contains_key(vpn_of(addr)) && access_allowed(
                old(self).pages@[vpn_of(addr)].flags,
                kind,
            )),
            !ok ==> same_state(*final(self), *old(self)) && final(hw)@ == old(hw)@
                && final(effects)@ == old(effects)@,
            ok ==> final(self).pages@.contains_key(vpn_of(addr)) && final(self).pages@[vpn_of(
                addr,
            )].resident,
            ok && old(self).pages@[vpn_of(addr)].resident ==> {
                &&& same_state(*final(self), *old(self))
                &&& final(effects)@ == old(effects)@
                &&& exists|i: int|
                    0 <= i < old(self).resident@.len() && old(self).resident@[i].vpn == vpn_of(
                        addr,
                    ) && final(hw)@ == old(hw)@.update(
                        i,
                        PteBits {
                            accessed: true,
                            dirty: old(hw)@[i].dirty || kind == FaultKind::Store,
                        },
                    )
            },
            ok && !old(self).pages@[vpn_of(addr)].resident ==> exists|
                mid: Pager,
                mid_hw: Seq<PteBits>,
                mid_eff: Seq<PagerEffect>,
                ppn: usize,
            |
                {
                    &&& frame_source(
                        bumped(*old(self)),
                        old(hw)@,
                        old(effects)@,
                        mid,
                        mid_hw,
                        mid_eff,
                        ppn,
                        alloc_frame,
                    )
                    &&& loaded(
                        mid,
                        mid_hw,
                        mid_eff,
                        *final(self),
                        final(hw)@,
                        final(effects)@,
                        vpn_of(addr),
                        ppn,
                        old(self).pages@[vpn_of(addr)],
                    )
                },
            forall|v: usize, k: usize|
                #[trigger] swapped_to(*old(self), v, k) && v != vpn_of(addr) ==> swapped_to(*final(self), v, k)
                    && final(effects)@.len() >= old(effects)@.len() && leaves_slot(
                    final(effects)@.subrange(old(effects)@.len() as int, final(effects)@.len() as int),
                    k,
                ),
            forall|k: usize|
                #[trigger] swapped_to(*old(self), vpn_of(addr), k) && ok ==> exists|j: int|
                    old(effects)@.len() <= j < final(effects)@.len() && #[trigger] final(effects)@[j] is SwapIn
                        && final(effects)@[j]->SwapIn_slot == k,
    {
        let slots_len = self.swap_slots.len();
        let vpn = vpn_floor(addr);
        let st = match self.pages.get(&vpn) {
            Some(s) => *s,
            None => {
                return false;
            },
        };
        if !can_access(st.flags, kind) {
            return false;
        }
        if st.resident {
            let idx = self.position_of(vpn);
            match idx {
                Some(i) => {
                    let bits = hw[i];
                    let store = match kind {
                        FaultKind::Store => true,
                        _ => false,
                    };
                    hw.set(i, PteBits { accessed: true, dirty: bits.dirty || store });
                },
                None => {},
            }
            return true;
        }
        self.stats.page_faults = self.stats.page_faults + 1;
        self.epoch = self.epoch + 1;
        let ghost b = *self;
        let ppn = match self.free_frames.pop() {
            Some(p) => p,
            None => {
                if self.resident.len() < self.quota {
                    alloc_frame()
                } else {
                    match self.evict_one(hw, effects) {
                        Some(p) => p,
                        None => {
                            return false;
                        },
                    }
                }
            },
        };
        let ghost mid = *self;
        let ghost mid_hw = hw@;
        let ghost mid_eff = effects@;
        match st.backing {
            PageBacking::ZeroFill => effects.push(PagerEffect::ZeroFill { ppn }),
            PageBacking::Swap(slot) => effects.push(PagerEffect::SwapIn { slot, ppn }),
        }
        effects.push(PagerEffect::MapPage { vpn, ppn, flags: st.flags });
        self.pages.insert(vpn, PageState { flags: st.flags, backing: st.backing, resident: true });
        self.next_loaded_at = self.next_loaded_at + 1;
        self.resident.push(
            ResidentPage {
                vpn,
                ppn,
                loaded_at: self.next_loaded_at,
                last_epoch: self.epoch,
                age: 255,
            },
        );
        hw.push(PteBits { accessed: false, dirty: false });
        self.check_thrashing();
        proof {
            assert(b == bumped(*old(self)));
            assert(mid.wf());
            assert(mid.pages@.contains_key(vpn) && !mid.pages@[vpn].resident);
            assert forall|i: int| 0 <= i < mid.resident@.len() implies #[trigger] mid.resident@[i].vpn
                != vpn by {
                assert(mid.pages@[mid.resident@[i].vpn].resident);
            }
            let n = mid.resident@.len() as int;
            assert forall|i: int|
                0 <= i < self.resident@.len() implies {
                    &&& self.pages@.contains_key(#[trigger] self.resident@[i].vpn)
                    &&& self.pages@[self.resident@[i].vpn].resident
                } by {
                if i < n {
                    assert(self.resident@[i] == mid.resident@[i]);
                }
            }
            assert forall|i: int, j: int|
                0 <= i < j < self.resident@.len() implies #[trigger] self.resident@[i].vpn
                != #[trigger] self.resident@[j].vpn by {
                if j < n {
                    assert(self.resident@[i] == mid.resident@[i]);
                    assert(self.resident@[j] == mid.resident@[j]);
                } else {
                    assert(self.resident@[i] == mid.resident@[i]);
                }
            }
            assert forall|v: usize|
                #[trigger] self.pages@.contains_key(v) && self.pages@[v].resident implies exists|
                    i: int,
                | 0 <= i < self.resident@.len() && #[trigger] self.resident@[i].vpn == v by {
                if v == vpn {
                    assert(self.resident@[n].vpn == v);
                } else {
                    let i = choose|i: int|
                        0 <= i < mid.resident@.len() && #[trigger] mid.resident@[i].vpn == v;
                    assert(self.resident@[i] == mid.resident@[i]);
                }
            }
            let fill = match st.backing {
                PageBacking::ZeroFill => PagerEffect::ZeroFill { ppn },
                PageBacking::Swap(slot) => PagerEffect::SwapIn { slot, ppn },
            };
            assert(effects@ =~= mid_eff + seq![fill, PagerEffect::MapPage { vpn, ppn, flags: st.flags }]);
            assert(frame_source(b, old(hw)@, old(effects)@, mid, mid_hw, mid_eff, ppn, alloc_frame));
            assert(loaded(mid, mid_hw, mid_eff, *self, hw@, effects@, vpn, ppn, st));
            assert(slots_len == old(self).swap_slots@.len());
            assert forall|v: usize, k: usize|
                #[trigger] swapped_to(*old(self), v, k) && v != vpn_of(addr) implies swapped_to(*self, v, k)
                    && effects@.len() >= old(effects)@.len() && leaves_slot(
                    effects@.subrange(old(effects)@.len() as int, effects@.len() as int),
                    k,
                ) by {
                lemma_fault_keeps_swapped(*old(self), old(hw)@, old(effects)@, mid, mid_hw, mid_eff, *self, hw@,
                    effects@, vpn, ppn, alloc_frame, v, k);
            }
            assert forall|k: usize| #[trigger] swapped_to(*old(self), vpn_of(addr), k) && true implies exists|j: int|
                old(effects)@.len() <= j < effects@.len() && #[trigger] effects@[j] is SwapIn
                    && effects@[j]->SwapIn_slot == k by {
                lemma_fault_keeps_swapped(*old(self), old(hw)@, old(effects)@, mid, mid_hw, mid_eff, *self, hw@,
                    effects@, vpn, ppn, alloc_frame, vpn, k);
                assert(effects@[mid_eff.len() as int] == (PagerEffect::SwapIn { slot: k, ppn }));
            }
        }
        true
    }
}

/// Some page of `b` is `vpn` held in frame `ppn`.
pub open spec fn has_frame(b: Seq<ResidentPage>, vpn: usize, ppn: usize) -> bool {
    exists|j: int| 0 <= j < b.len() && #[trigger] b[j] == b[j] && b[j].vpn == vpn && b[j].ppn == ppn
}

/// Every page of `a` (with its frame) was in `b`.
pub open spec fn frames_within(a: Seq<ResidentPage>, b: Seq<ResidentPage>) -> bool {
    forall|i: int| 0 <= i < a.len() ==> #[trigger] has_frame(b, a[i].vpn, a[i].ppn)
}

/// A resident list's pages are all within itself.
pub proof fn lemma_frames_within_refl(s: Seq<ResidentPage>)
    ensures
        frames_within(s, s),
{
    assert forall|i: int| 0 <= i < s.len() implies #[trigger] has_frame(s, s[i].vpn, s[i].ppn) by {
        assert(s[i] == s[i]);
    }
}

/// A pager state together with the accessed/dirty bits of its resident
/// pages and the effects emitted so far.
pub type PagerStep = (Pager, Seq<PteBits>, Seq<PagerEffect>);

/// State `i + 1` of `chain` follows from state `i` by one eviction.
pub open spec fn evicts_next(chain: Seq<PagerStep>, i: int) -> bool {
    exists|r: Option<usize>|
        #[trigger] eviction(chain[i].0, chain[i].1, chain[i].2, chain[i + 1].0, chain[i + 1].1, chain[i + 1].2, r)
}

/// Each state of `chain` follows from the one before by one eviction.
pub open spec fn eviction_chain(chain: Seq<PagerStep>) -> bool {
    forall|i: int| 0 <= i < chain.len() - 1 ==> #[trigger] evicts_next(chain, i)
}

impl Pager {
    /// Selects the replacement policy by its raw number; an unknown number is refused.
    pub fn set_algo(&mut self, algo_raw: usize) -> (ok: bool)
        requires
            old(self).wf(),
        ensures
            final(self).wf(),
            ok == (algo_raw < 4),
            ok ==> algo_code(final(self).algo) == algo_raw,
            !ok ==> final(self).algo == old(self).algo,
            final(self).regions@ == old(self).regions@,
            final(self).pages@ == old(self).pages@,
            final(self).resident@ == old(self).resident@,
            final(self).free_frames@ == old(self).free_frames@,
            final(self).swap_slots@ == old(self).swap_slots@,
            final(self).quota == old(self).quota,
            final(self).next_loaded_at == old(self).next_loaded_at,
            final(self).epoch == old(self).epoch,
            final(self).clock_hand == old(self).clock_hand,
            final(self).stats == old(self).stats,
    {
        match VmAlgo::from_raw(algo_raw) {
            Some(algo) => {
                self.algo = algo;
                true
            },
            None => false,
        }
    }

    /// Sets the resident quota (1 to `MAX_QUOTA`) and evicts pages, with the
    /// current policy, until the resident pages fit; other quotas are refused.
    pub fn set_quota(
        &mut self,
        hw: &mut Vec<PteBits>,
        quota: usize,
        effects: &mut Vec<PagerEffect>,
    ) -> (ok: bool)
        requires
            old(self).wf(),
            old(hw)@.len() == old(self).resident@.len(),
            old(self).stats.evictions + old(self).resident@.len() < u64::MAX - 64,
            old(self).stats.write_backs + old(self).resident@.len() < u64::MAX - 64,
        ensures
            final(self).wf(),
            final(hw)@.len() == final(self).resident@.len(),
            ok == (1 <= quota <= MAX_QUOTA),
            !ok ==> same_state(*final(self), *old(self)) && final(hw)@ == old(hw)@
                && final(effects)@ == old(effects)@,
            ok ==> {
                &&& final(self).quota == quota
                &&& final(self).resident@.len() == if old(self).resident@.len() > quota {
                    quota as nat
                } else {
                    old(self).resident@.len()
                }
                &&& frames_within(final(self).resident@, old(self).resident@)
                &&& final(self).pages@.dom() == old(self).pages@.dom()
                &&& final(self).stats.evictions == old(self).stats.evictions + (
                old(self).resident@.len() - final(self).resident@.len())
                &&& final(self).free_frames@ == old(self).free_frames@
                &&& final(self).algo == old(self).algo
                &&& exists|chain: Seq<PagerStep>|
                    {
                        &&& eviction_chain(chain)
                        &&& chain.len() == old(self).resident@.len() - final(self).resident@.len() + 1
                        &&& #[trigger] chain[0] == (Pager { quota: quota, ..*old(self) }, old(hw)@, old(
                            effects,
                        )@)
                        &&& chain.last() == (*final(self), final(hw)@, final(effects)@)
                    }
            },
    {
        if quota == 0 || quota > MAX_QUOTA {
            return false;
        }
        self.quota = quota;
        let ghost start = *self;
        let ghost mut chain: Seq<PagerStep> = seq![(start, hw@, effects@)];
        proof {
            lemma_frames_within_refl(self.resident@);
        }
        assert(frames_within(self.resident@, old(self).resident@));
        while self.resident.len() > self.quota
            invariant
                old(self).resident@.len() > quota ==> self.resident@.len() >= quota,
                old(self).resident@.len() <= quota ==> self.resident@.len()
                    == old(self).resident@.len(),
                self.wf(),
                self.quota == quota,
                hw@.len() == self.resident@.len(),
                self.resident@.len() <= old(self).resident@.len(),
                self.stats.evictions == old(self).stats.evictions + (old(self).resident@.len()
                    - self.resident@.len()),
                self.stats.write_backs <= old(self).stats.write_backs + (
                old(self).resident@.len() - self.resident@.len()),
                old(self).stats.evictions + old(self).resident@.len() < u64::MAX - 64,
                old(self).stats.write_backs + old(self).resident@.len() < u64::MAX - 64,
                frames_within(self.resident@, old(self).resident@),
                self.pages@.dom() == old(self).pages@.dom(),
                self.free_frames@ == old(self).free_frames@,
                self.algo == old(self).algo,
                start == (Pager { quota: quota, ..*old(self) }),
                eviction_chain(chain),
                chain.len() == old(self).resident@.len() - self.resident@.len() + 1,
                chain[0] == (start, old(hw)@, old(effects)@),
                chain.last() == (*self, hw@, effects@),
            decreases self.resident@.len(),
        {
            let ghost pre = *self;
            let ghost pre_hw = hw@;
            let ghost pre_eff = effects@;
            let r = self.evict_one(hw, effects);
            if r.is_none() {
                return false;
            }
            proof {
                let prev = chain;
                chain = prev.push((*self, hw@, effects@));
                assert(eviction(pre, pre_hw, pre_eff, *self, hw@, effects@, r));
                assert forall|i: int| 0 <= i < chain.len() - 1 implies #[trigger] evicts_next(chain, i) by {
                    if i < prev.len() - 1 {
                        assert(evicts_next(prev, i));
                        assert(chain[i] == prev[i] && chain[i + 1] == prev[i + 1]);
                        let w = choose|w: Option<usize>|
                            #[trigger] eviction(prev[i].0, prev[i].1, prev[i].2, prev[i + 1].0, prev[i + 1].1, prev[i + 1].2, w);
                        assert(eviction(chain[i].0, chain[i].1, chain[i].2, chain[i + 1].0, chain[i + 1].1, chain[i + 1].2, w));
                    } else {
                        assert(chain[i] == (pre, pre_hw, pre_eff));
                        assert(chain[i + 1] == (*self, hw@, effects@));
                        assert(eviction(chain[i].0, chain[i].1, chain[i].2, chain[i + 1].0, chain[i + 1].1, chain[i + 1].2, r));
                    }
                }
            }
            proof {
                let out = pick_outcome(pre.algo, pre.resident@, pre_hw, pre.clock_hand, pre.epoch);
                let i = out.0->Some_0;
                let res1 = out.1;
                assert forall|a: int| 0 <= a < self.resident@.len() implies #[trigger] has_frame(
                    old(self).resident@,
                    self.resident@[a].vpn,
                    self.resident@[a].ppn,
                ) by {
                    let k = if a == i {
                        res1.len() - 1
                    } else {
                        a
                    };
                    assert(self.resident@[a] == res1[k]);
                    assert(res1[k].vpn == pre.resident@[k].vpn);
                    assert(has_frame(old(self).resident@, pre.resident@[k].vpn, pre.resident@[k].ppn));
                }
            }
        }
        true
    }
}

/// The page map without the pages `start..end`.
pub open spec fn without_range(m: Map<usize, PageState>, start: int, end: int) -> Map<usize, PageState> {
    m.restrict(m.dom().filter(|v: usize| !(start <= v && v < end)))
}

/// The effects of removing pages `start..end`, in page order: a resident page
/// is unmapped, then a swapped page's slot is released.
pub open spec fn removal_effects(pages: Map<usize, PageState>, start: int, end: int) -> Seq<PagerEffect>
    decreases end - start,
{
    if end <= start {
        seq![]
    } else {
        let v = (end - 1) as usize;
        let st = pages[v];
        removal_effects(pages, start, end - 1) + (if st.resident {
            seq![PagerEffect::UnmapPage { vpn: v }]
        } else {
            seq![]
        }) + (match st.backing {
            PageBacking::Swap(s) => seq![PagerEffect::ReleaseSlot { slot: s }],
            PageBacking::ZeroFill => seq![],
        })
    }
}

/// The regions after the pages `start..end` are cut out of them, in order.
pub open spec fn cut_regions(rs: Seq<VmRegion>, start: usize, end: usize) -> Seq<VmRegion>
    decreases rs.len(),
{
    if rs.len() == 0 {
        seq![]
    } else {
        let a = rs.last();
        let rest = cut_regions(rs.drop_last(), start, end);
        if a.end <= start || a.start >= end {
            rest.push(a)
        } else {
            rest + (if a.start < start {
                seq![VmRegion { start: a.start, end: start }]
            } else {
                seq![]
            }) + (if a.end > end {
                seq![VmRegion { start: end, end: a.end }]
            } else {
                seq![]
            })
        }
    }
}

/// The page is neither registered nor mapped outside the pager.
pub open spec fn page_free(pages: Map<usize, PageState>, mapped: Seq<VmRegion>, v: usize) -> bool {
    !pages.contains_key(v) && !in_regions(mapped, v)
}

/// Whether some region contains the page.
pub open spec fn in_regions(rs: Seq<VmRegion>, v: usize) -> bool {
    exists|i: int| 0 <= i < rs.len() && #[trigger] rs[i].start <= v < rs[i].end
}

/// Whether some region contains the page.
pub fn regions_contain(rs: &Vec<VmRegion>, v: usize) -> (r: bool)
    ensures
        r == in_regions(rs@, v),
{
    let mut i: usize = 0;
    while i < rs.len()
        invariant
            0 <= i <= rs@.len(),
            forall|j: int| 0 <= j < i ==> !(#[trigger] rs@[j].start <= v < rs@[j].end),
        decreases rs@.len() - i,
    {
        if rs[i].start <= v && v < rs[i].end {
            return true;
        }
        i = i + 1;
    }
    false
}

/// The page map with the pages `start..end` registered as fresh zero-fill pages.
pub open spec fn with_range(m: Map<usize, PageState>, start: int, end: int, flags: usize) -> Map<
    usize,
    PageState,
> {
    Map::new(
        |v: usize| m.contains_key(v) || (start <= v && v < end),
        |v: usize|
            if start <= v && v < end {
                PageState { flags, backing: PageBacking::ZeroFill, resident: false }
            } else {
                m[v]
            },
    )
}

impl Pager {
    /// Starts a new statistics window.
    pub fn reset_stats(&mut self, now_ns: u64, now_instret: u64)
        requires
            old(self).wf(),
        ensures
            final(self).wf(),
            final(self).stats == (RuntimeStats {
                page_faults: 0,
                evictions: 0,
                write_backs: 0,
                thrash_events: 0,
                start_time_ns: now_ns,
                start_instret: now_instret,
                window_faults_base: 0,
                window_evictions_base: 0,
            }),
            final(self).regions@ == old(self).regions@,
            final(self).pages@ == old(self).pages@,
            final(self).resident@ == old(self).resident@,
            final(self).free_frames@ == old(self).free_frames@,
            final(self).swap_slots@ == old(self).swap_slots@,
            final(self).quota == old(self).quota,
            final(self).algo == old(self).algo,
            final(self).next_loaded_at == old(self).next_loaded_at,
            final(self).epoch == old(self).epoch,
            final(self).clock_hand == old(self).clock_hand,
    {
        self.stats.reset(now_ns, now_instret);
    }

    /// The statistics of the current window, read at time `now_ns` after
    /// `now_instret` retired instructions.
    pub fn snapshot_stats(&self, now_ns: u64, now_instret: u64) -> (r: VmStats)
        ensures
            r.algo == algo_code(self.algo),
            r.quota == self.quota as u32,
            r.resident_pages == self.resident@.len() as u32,
            r.swap_pages == swapped_pages(self.pages@).len() as u32,
            r.page_faults == self.stats.page_faults,
            r.evictions == self.stats.evictions,
            r.write_backs == self.stats.write_backs,
            r.thrash_events == self.stats.thrash_events,
            r.elapsed_ns == saturating_diff(now_ns, self.stats.start_time_ns),
            r.instret_delta == saturating_diff(now_instret, self.stats.start_instret),
    {
        broadcast use vstd::std_specs::btree::axiom_spec_keys_iter;
        let total: usize = self.pages.len();
        let mut count: usize = 0;
        let ghost mut seen: Set<usize> = Set::empty();
        let ghost p = |v: usize| swapped_out(self.pages@[v]);
        proof {
            assert(seen.filter(p) =~= Set::<usize>::empty());
        }
        for k in it: self.pages.keys()
            invariant
                total == self.pages@.dom().len(),
                p == (|v: usize| swapped_out(self.pages@[v])),
                it.seq() == vstd::std_specs::btree::spec_keys_iter(&self.pages).remaining(),
                it.seq().len() == self.pages@.dom().len(),
                it.seq().no_duplicates(),
                it.seq().unref().to_set() == self.pages@.dom(),
                seen.finite(),
                seen.subset_of(self.pages@.dom()),
                seen.len() == it.index(),
                forall|v: usize|
                    #[trigger] seen.contains(v) ==> exists|i: int|
                        0 <= i < it.index() && *it.seq()[i] == v,
                count as nat == seen.filter(p).len(),
                count <= it.index(),
        {
            let ghost before = seen;
            proof {
                let idx = it.index();
                assert(!before.contains(*k)) by {
                    if before.contains(*k) {
                        let i = choose|i: int| 0 <= i < idx && *it.seq()[i] == *k;
                        assert(it.seq()[i] == it.seq()[idx]);
                    }
                }
                assert(it.seq().unref()[idx] == *k);
                assert(it.seq().unref().to_set().contains(*k));
                seen = before.insert(*k);
                if p(*k) {
                    assert(seen.filter(p) =~= before.filter(p).insert(*k));
                } else {
                    assert(seen.filter(p) =~= before.filter(p));
                }
                assert forall|v: usize| #[trigger] seen.contains(v) implies exists|i: int|
                    0 <= i < idx + 1 && *it.seq()[i] == v by {
                    if v != *k {
                        let i = choose|i: int| 0 <= i < idx && *it.seq()[i] == v;
                        assert(0 <= i < idx + 1 && *it.seq()[i] == v);
                    } else {
                        assert(*it.seq()[idx] == v);
                    }
                }
            }
            let state = self.pages.get(k).unwrap();
            if !state.resident && matches!(state.backing, PageBacking::Swap(_)) {
                count = count + 1;
            }
        }
        proof {
            vstd::set_lib::lemma_subset_equality(seen, self.pages@.dom());
        }
        VmStats {
            algo: self.algo.as_raw(),
            quota: self.quota as u32,
            resident_pages: self.resident.len() as u32,
            swap_pages: count as u32,
            page_faults: self.stats.page_faults,
            evictions: self.stats.evictions,
            write_backs: self.stats.write_backs,
            thrash_events: self.stats.thrash_events,
            elapsed_ns: now_ns.saturating_sub(self.stats.start_time_ns),
            instret_delta: now_instret.saturating_sub(self.stats.start_instret),
        }
    }

    /// Whether the pages `start..end` may be registered: none is registered
    /// already, and none lies in a range that the address space maps outside
    /// the pager (`mapped`).
    pub fn can_register(&self, start: usize, end: usize, mapped: &Vec<VmRegion>) -> (r: bool)
        ensures
            r == forall|v: usize| start <= v < end ==> #[trigger] page_free(self.pages@, mapped@, v),
    {
        let mut vpn = start;
        while vpn < end
            invariant
                start <= vpn,
                start < end ==> vpn <= end,
                forall|v: usize| start <= v < vpn ==> #[trigger] page_free(self.pages@, mapped@, v),
            decreases end - vpn,
        {
            let has = self.pages.contains_key(&vpn);
            let here = regions_contain(mapped, vpn);
            if has || here {
                assert(!page_free(self.pages@, mapped@, vpn));
                return false;
            }
            assert(page_free(self.pages@, mapped@, vpn));
            vpn = vpn + 1;
        }
        true
    }

    /// Registers the pages `start..end` as zero-fill pages with `flags`.
    pub(crate) fn register_range(&mut self, start: usize, end: usize, flags: usize)
        requires
            old(self).wf(),
            forall|v: usize| start <= v < end ==> !old(self).pages@.contains_key(v),
        ensures
            final(self).wf(),
            final(self).regions@ == old(self).regions@.push(VmRegion { start, end }),
            final(self).pages@ == with_range(old(self).pages@, start as int, end as int, flags),
            final(self).resident@ == old(self).resident@,
            final(self).free_frames@ == old(self).free_frames@,
            final(self).swap_slots@ == old(self).swap_slots@,
            final(self).quota == old(self).quota,
            final(self).algo == old(self).algo,
            final(self).next_loaded_at == old(self).next_loaded_at,
            final(self).epoch == old(self).epoch,
            final(self).clock_hand == old(self).clock_hand,
            final(self).stats == old(self).stats,
    {
        self.regions.push(VmRegion { start, end });
        let mut vpn = start;
        while vpn < end
            invariant
                start <= vpn,
                start < end ==> vpn <= end,
                self.pages@ == with_range(old(self).pages@, start as int, vpn as int, flags),
                start >= end ==> vpn == start,
                forall|v: usize| start <= v < end ==> !old(self).pages@.contains_key(v),
                self.regions@ == old(self).regions@.push(VmRegion { start, end }),
                self.resident@ == old(self).resident@,
                self.free_frames@ == old(self).free_frames@,
                self.swap_slots@ == old(self).swap_slots@,
                self.quota == old(self).quota,
                self.algo == old(self).algo,
                self.next_loaded_at == old(self).next_loaded_at,
                self.epoch == old(self).epoch,
                self.clock_hand == old(self).clock_hand,
                self.stats == old(self).stats,
                old(self).wf(),
            decreases end - vpn,
        {
            self.pages.insert(
                vpn,
                PageState { flags, backing: PageBacking::ZeroFill, resident: false },
            );
            assert(self.pages@ =~= with_range(old(self).pages@, start as int, vpn + 1, flags));
            vpn = vpn + 1;
        }
        assert(self.pages@ == with_range(old(self).pages@, start as int, vpn as int, flags));
        if start < end {
            assert(vpn == end);
        } else {
            assert(self.pages@ =~= with_range(old(self).pages@, start as int, end as int, flags));
        }
        let ghost m = self.pages@;
        assert forall|v: usize| #[trigger] m.contains_key(v) && m[v].resident implies old(
            self,
        ).pages@.contains_key(v) && old(self).pages@[v].resident by {}
    }
}

/// Some resident entry of `res`, with its page table bits in `hw`, is `r` with bits `b`.
pub open spec fn has_pair(res: Seq<ResidentPage>, hw: Seq<PteBits>, r: ResidentPage, b: PteBits) -> bool {
    exists|j: int| 0 <= j < res.len() && #[trigger] res[j] == r && hw[j] == b
}

/// Pages `start..end` are removed: gone from the map and the regions, their
/// frames unmapped and freed, their swap slots released, the other
/// resident pages kept with their bits.
/// Some page of `start..end` in `pages` is swapped out to slot `s`.
pub open spec fn slot_in_range(pages: Map<usize, PageState>, start: int, end: int, s: int) -> bool {
    exists|v: usize|
        start <= v < end && #[trigger] pages.contains_key(v) && pages[v].backing == PageBacking::Swap(
            s as usize,
        )
}

pub open spec fn range_removed(
    pre: Pager,
    pre_hw: Seq<PteBits>,
    pre_eff: Seq<PagerEffect>,
    post: Pager,
    post_hw: Seq<PteBits>,
    post_eff: Seq<PagerEffect>,
    start: usize,
    end: usize,
) -> bool {
    &&& post.pages@ == without_range(pre.pages@, start as int, end as int)
    &&& post_eff == pre_eff + removal_effects(
        pre.pages@,
        start as int,
        end as int,
    )
    &&& post.regions@ == cut_regions(pre.regions@, start, end)
    &&& forall|i: int|
        0 <= i < post.resident@.len() ==> #[trigger] has_pair(
            pre.resident@,
            pre_hw,
            post.resident@[i],
            post_hw[i],
        ) && !(start <= post.resident@[i].vpn < end)
    &&& forall|j: int|
        0 <= j < pre.resident@.len() && !(start <= pre.resident@[j].vpn
            < end) ==> #[trigger] has_pair(
            post.resident@,
            post_hw,
            pre.resident@[j],
            pre_hw[j],
        )
    &&& post.free_frames@.subrange(0, pre.free_frames@.len() as int)
        == pre.free_frames@
    &&& post.free_frames@.len() + post.resident@.len()
        == pre.free_frames@.len() + pre.resident@.len()
    &&& forall|j: int|
        0 <= j < pre.resident@.len() && start <= #[trigger] pre.resident@[j].vpn < end ==> post.free_frames@.contains(
            pre.resident@[j].ppn,
        )
    &&& post.swap_slots@.len() == pre.swap_slots@.len()
    &&& forall|s: int|
        0 <= s < pre.swap_slots@.len() ==> #[trigger] post.swap_slots@[s] == (pre.swap_slots@[s]
            && !slot_in_range(pre.pages@, start as int, end as int, s))
    &&& post.quota == pre.quota
    &&& post.algo == pre.algo
    &&& post.next_loaded_at == pre.next_loaded_at
    &&& post.epoch == pre.epoch
    &&& post.stats == pre.stats
}

impl Pager {
    /// Unregisters the pages `start..end`, which must all be registered
    /// (otherwise nothing changes and the result is `false`). Resident pages
    /// are unmapped and their frames go to the free list; swap slots are
    /// released; the registered regions are cut.
    pub fn remove_range(
        &mut self,
        hw: &mut Vec<PteBits>,
        start: usize,
        end: usize,
        effects: &mut Vec<PagerEffect>,
    ) -> (ok: bool)
        requires
            old(self).wf(),
            old(hw)@.len() == old(self).resident@.len(),
        ensures
            final(self).wf(),
            final(hw)@.len() == final(self).resident@.len(),
            ok == forall|v: usize| start <= v < end ==> old(self).pages@.contains_key(v),
            !ok ==> same_state(*final(self), *old(self)) && final(hw)@ == old(hw)@
                && final(effects)@ == old(effects)@,
            ok ==> range_removed(
                *old(self),
                old(hw)@,
                old(effects)@,
                *final(self),
                final(hw)@,
                final(effects)@,
                start,
                end,
            ),
    {
        let mut vpn = start;
        while vpn < end
            invariant
                start <= vpn,
                start < end ==> vpn <= end,
                forall|v: usize| start <= v < vpn ==> old(self).pages@.contains_key(v),
                same_state(*self, *old(self)),
                self.wf(),
                hw@ == old(hw)@,
                hw@.len() == self.resident@.len(),
                effects@ == old(effects)@,
            decreases end - vpn,
        {
            if !self.pages.contains_key(&vpn) {
                return false;
            }
            vpn = vpn + 1;
        }
        let mut vpn = start;
        assert(self.pages@ =~= without_range(old(self).pages@, start as int, start as int));
        assert forall|s: int| 0 <= s < old(self).swap_slots@.len() implies #[trigger] self.swap_slots@[s] == (
            old(self).swap_slots@[s] && !slot_in_range(old(self).pages@, start as int, start as int, s)) by {}
        assert(effects@ =~= old(effects)@ + removal_effects(old(self).pages@, start as int, start as int));
        assert forall|i: int| 0 <= i < self.resident@.len() implies #[trigger] has_pair(
            old(self).resident@,
            old(hw)@,
            self.resident@[i],
            hw@[i],
        ) by {
            assert(old(self).resident@[i] == self.resident@[i]);
        }
        assert forall|j: int| 0 <= j < old(self).resident@.len() implies #[trigger] has_pair(
            self.resident@,
            hw@,
            old(self).resident@[j],
            old(hw)@[j],
        ) by {
            assert(self.resident@[j] == old(self).resident@[j]);
        }
        assert(self.free_frames@.subrange(0, old(self).free_frames@.len() as int)
            =~= old(self).free_frames@);
        while vpn < end
            invariant
                start <= vpn,
                start < end ==> vpn <= end,
                start >= end ==> vpn == start,
                self.wf(),
                old(self).wf(),
                hw@.len() == self.resident@.len(),
                old(hw)@.len() == old(self).resident@.len(),
                forall|v: usize| start <= v < end ==> old(self).pages@.contains_key(v),
                self.pages@ == without_range(old(self).pages@, start as int, vpn as int),
                effects@ == old(effects)@ + removal_effects(
                    old(self).pages@,
                    start as int,
                    vpn as int,
                ),
                forall|i: int|
                    0 <= i < self.resident@.len() ==> #[trigger] has_pair(
                        old(self).resident@,
                        old(hw)@,
                        self.resident@[i],
                        hw@[i],
                    ) && !(start <= self.resident@[i].vpn < vpn),
                forall|j: int|
                    0 <= j < old(self).resident@.len() && !(start <= old(self).resident@[j].vpn
                        < vpn) ==> #[trigger] has_pair(
                        self.resident@,
                        hw@,
                        old(self).resident@[j],
                        old(hw)@[j],
                    ),
                self.free_frames@.len() >= old(self).free_frames@.len(),
                self.free_frames@.subrange(0, old(self).free_frames@.len() as int)
                    == old(self).free_frames@,
                self.free_frames@.len() + self.resident@.len() == old(self).free_frames@.len()
                    + old(self).resident@.len(),
                forall|j: int|
                    0 <= j < old(self).resident@.len() && start <= #[trigger] old(self).resident@[j].vpn < vpn ==> self.free_frames@.contains(
                        old(self).resident@[j].ppn,
                    ),
                self.regions@ == old(self).regions@,
                self.swap_slots@.len() == old(self).swap_slots@.len(),
                forall|s: int|
                    0 <= s < old(self).swap_slots@.len() ==> #[trigger] self.swap_slots@[s] == (
                    old(self).swap_slots@[s] && !slot_in_range(old(self).pages@, start as int, vpn as int, s)),
                self.quota == old(self).quota,
                self.algo == old(self).algo,
                self.next_loaded_at == old(self).next_loaded_at,
                self.epoch == old(self).epoch,
                self.stats == old(self).stats,
            decreases end - vpn,
        {
            let ghost pre = *self;
            let ghost pre_hw = hw@;
            let ghost pre_eff = effects@;
            assert(pre.pages@.contains_key(vpn));
            let ghost st0 = pre.pages@[vpn];
            assert(st0 == old(self).pages@[vpn]);
            let pos = self.position_of(vpn);
            let ghost idx: int = match pos {
                Some(i) => i as int,
                None => -1,
            };
            proof {
                if pos is Some {
                    assert(pre.pages@[pre.resident@[idx].vpn].resident);
                } else if st0.resident {
                    let i = choose|i: int|
                        0 <= i < pre.resident@.len() && #[trigger] pre.resident@[i].vpn == vpn;
                    assert(pre.resident@[i].vpn != vpn);
                }
            }
            match pos {
                Some(index) => {
                    let victim = self.remove_resident(hw, index);
                    effects.push(PagerEffect::UnmapPage { vpn });
                    self.free_frames.push(victim.ppn);
                },
                None => {},
            }
            let ghost mid = *self;
            let removed = self.pages.remove(&vpn);
            match removed {
                Some(st) => {
                    match st.backing {
                        PageBacking::Swap(slot) => self.release_slot(slot, effects),
                        PageBacking::ZeroFill => {},
                    }
                },
                None => {},
            }
            let slots_len = self.swap_slots.len();
            proof {
                assert(slots_len == old(self).swap_slots@.len());
                assert(removed == Some(st0));
                assert(mid.swap_slots@ == pre.swap_slots@);
                if st0.backing is Swap {
                    let sl = st0.backing->Swap_0;
                    assert(pre.pages@.contains_key(vpn) && pre.pages@[vpn].backing is Swap);
                    assert(sl < pre.swap_slots@.len());
                    assert(self.swap_slots@ == pre.swap_slots@.update(sl as int, false));
                } else {
                    assert(self.swap_slots@ == pre.swap_slots@);
                }
                assert forall|s: int| 0 <= s < old(self).swap_slots@.len() implies #[trigger] self.swap_slots@[s] == (
                    old(self).swap_slots@[s] && !slot_in_range(old(self).pages@, start as int, vpn + 1, s)) by {
                    assert(pre.swap_slots@[s] == (old(self).swap_slots@[s] && !slot_in_range(old(self).pages@, start as int, vpn as int, s)));
                    if st0.backing == PageBacking::Swap(s as usize) {
                        assert(old(self).pages@.contains_key(vpn));
                        assert(slot_in_range(old(self).pages@, start as int, vpn + 1, s));
                        assert(st0.backing->Swap_0 == s as usize);
                        assert((s as usize) as int == s);
                        assert(self.swap_slots@ == pre.swap_slots@.update(s, false));
                        assert(self.swap_slots@[s] == false);
                    } else {
                        assert(self.swap_slots@[s] == pre.swap_slots@[s]);
                    }
                    if slot_in_range(old(self).pages@, start as int, vpn + 1, s) {
                        let w = choose|w: usize|
                            start <= w < vpn + 1 && #[trigger] old(self).pages@.contains_key(w)
                                && old(self).pages@[w].backing == PageBacking::Swap(s as usize);
                        if w != vpn {
                            assert(slot_in_range(old(self).pages@, start as int, vpn as int, s));
                        }
                    } else {
                        assert(!slot_in_range(old(self).pages@, start as int, vpn as int, s));
                        if st0.backing is Swap {
                            assert(st0.backing != PageBacking::Swap(s as usize));
                        }
                    }
                }
                let n = pre.resident@.len() as int;
                // where each surviving entry came from
                assert forall|i: int| 0 <= i < self.resident@.len() implies {
                    let k = if i == idx { n - 1 } else { i };
                    &&& 0 <= k < n
                    &&& k != idx
                    &&& #[trigger] self.resident@[i] == pre.resident@[k]
                    &&& hw@[i] == pre_hw[k]
                } by {
                    if idx >= 0 {
                        if i == idx {
                            assert(self.resident@[i] == pre.resident@[n - 1]);
                        }
                    }
                }
                assert forall|i: int| 0 <= i < self.resident@.len() implies #[trigger] self.resident@[i].vpn != vpn by {
                    let k = if i == idx { n - 1 } else { i };
                    assert(self.resident@[i] == pre.resident@[k]);
                    if idx < 0 {
                        assert(pre.resident@[i].vpn != vpn);
                    } else {
                        assert(pre.resident@[idx].vpn == vpn);
                    }
                }
                // the page map
                assert(self.pages@ =~= without_range(old(self).pages@, start as int, vpn + 1));
                // effects
                assert(effects@ =~= old(effects)@ + removal_effects(
                    old(self).pages@,
                    start as int,
                    vpn + 1,
                ));
                // well-formedness
                assert forall|i: int| 0 <= i < self.resident@.len() implies {
                    &&& self.pages@.contains_key(#[trigger] self.resident@[i].vpn)
                    &&& self.pages@[self.resident@[i].vpn].resident
                } by {
                    let k = if i == idx { n - 1 } else { i };
                    assert(self.resident@[i] == pre.resident@[k]);
                }
                assert forall|a: int, b: int|
                    0 <= a < b < self.resident@.len() implies #[trigger] self.resident@[a].vpn
                    != #[trigger] self.resident@[b].vpn by {
                    let ka = if a == idx { n - 1 } else { a };
                    let kb = if b == idx { n - 1 } else { b };
                    assert(self.resident@[a] == pre.resident@[ka]);
                    assert(self.resident@[b] == pre.resident@[kb]);
                }
                assert forall|v: usize|
                    #[trigger] self.pages@.contains_key(v) && self.pages@[v].resident implies exists|
                        i: int,
                    | 0 <= i < self.resident@.len() && #[trigger] self.resident@[i].vpn == v by {
                    let i = choose|i: int|
                        0 <= i < pre.resident@.len() && #[trigger] pre.resident@[i].vpn == v;
                    if idx >= 0 && i == n - 1 {
                        assert(self.resident@[idx].vpn == v);
                    } else {
                        assert(self.resident@[i].vpn == v);
                    }
                }
                assert forall|v: usize|
                    #[trigger] self.pages@.contains_key(v) && self.pages@[v].backing is Swap implies {
                        let s = self.pages@[v].backing->Swap_0;
                        s < self.swap_slots@.len() && self.swap_slots@[s as int]
                    } by {
                    assert(pre.pages@.contains_key(v) && v != vpn);
                    if st0.backing is Swap {
                        assert(pre.pages@[v].backing->Swap_0 != st0.backing->Swap_0);
                    }
                }
                assert(self.wf());
                // surviving pairs
                assert forall|i: int| 0 <= i < self.resident@.len() implies #[trigger] has_pair(
                    old(self).resident@,
                    old(hw)@,
                    self.resident@[i],
                    hw@[i],
                ) && !(start <= self.resident@[i].vpn < vpn + 1) by {
                    let k = if i == idx { n - 1 } else { i };
                    assert(has_pair(old(self).resident@, old(hw)@, pre.resident@[k], pre_hw[k]));
                }
                assert forall|j: int|
                    0 <= j < old(self).resident@.len() && !(start <= old(self).resident@[j].vpn
                        < vpn + 1) implies #[trigger] has_pair(
                    self.resident@,
                    hw@,
                    old(self).resident@[j],
                    old(hw)@[j],
                ) by {
                    assert(has_pair(pre.resident@, pre_hw, old(self).resident@[j], old(hw)@[j]));
                    let i = choose|i: int|
                        0 <= i < pre.resident@.len() && #[trigger] pre.resident@[i]
                            == old(self).resident@[j] && pre_hw[i] == old(hw)@[j];
                    if idx >= 0 && i == n - 1 {
                        assert(self.resident@[idx] == old(self).resident@[j]);
                    } else {
                        assert(i != idx);
                        assert(self.resident@[i] == old(self).resident@[j]);
                    }
                }
                // freed frames
                assert(self.free_frames@.subrange(0, old(self).free_frames@.len() as int)
                    =~= old(self).free_frames@);
                assert forall|j: int|
                    0 <= j < old(self).resident@.len() && start <= #[trigger] old(self).resident@[j].vpn
                        < vpn + 1 implies self.free_frames@.contains(old(self).resident@[j].ppn) by {
                    if old(self).resident@[j].vpn == vpn {
                        assert(has_pair(pre.resident@, pre_hw, old(self).resident@[j], old(hw)@[j]));
                        let i = choose|i: int|
                            0 <= i < pre.resident@.len() && #[trigger] pre.resident@[i]
                                == old(self).resident@[j] && pre_hw[i] == old(hw)@[j];
                        assert(pre.resident@[i].vpn == vpn);
                        assert(idx >= 0);
                        assert(i == idx);
                        assert(self.free_frames@[self.free_frames@.len() - 1] == pre.resident@[idx].ppn);
                    } else {
                        assert(pre.free_frames@.contains(old(self).resident@[j].ppn));
                        let t = choose|t: int| 0 <= t < pre.free_frames@.len() && pre.free_frames@[t] == old(self).resident@[j].ppn;
                        assert(self.free_frames@[t] == pre.free_frames@[t]);
                    }
                }
            }
            vpn = vpn + 1;
        }
        let mut new_regions: Vec<VmRegion> = Vec::new();
        let mut k: usize = 0;
        while k < self.regions.len()
            invariant
                0 <= k <= self.regions@.len(),
                new_regions@ == cut_regions(self.regions@.take(k as int), start, end),
            decreases self.regions@.len() - k,
        {
            let area = self.regions[k];
            assert(self.regions@.take(k + 1).drop_last() =~= self.regions@.take(k as int));
            if area.end <= start || area.start >= end {
                new_regions.push(area);
            } else {
                if area.start < start {
                    new_regions.push(VmRegion { start: area.start, end: start });
                }
                if area.end > end {
                    new_regions.push(VmRegion { start: end, end: area.end });
                }
            }
            assert(new_regions@ =~= cut_regions(self.regions@.take(k + 1), start, end));
            k = k + 1;
        }
        assert(self.regions@.take(k as int) =~= self.regions@);
        self.regions = new_regions;
        assert(self.pages@ =~= without_range(old(self).pages@, start as int, end as int));
        true
    }
}
/// Page `v` is out of memory in swap slot `k`: its entry names slot `k`,
/// the slot is taken, and no other page names it.
pub open spec fn swapped_to(p: Pager, v: usize, k: usize) -> bool {
    &&& p.pages@.contains_key(v)
    &&& !p.pages@[v].resident
    &&& p.pages@[v].backing == PageBacking::Swap(k)
    &&& k < p.swap_slots@.len()
    &&& p.swap_slots@[k as int]
    &&& forall|u: usize|
        u != v && #[trigger] p.pages@.contains_key(u) ==> p.pages@[u].backing != PageBacking::Swap(k)
}

/// No effect of `fx` writes to swap slot `k` or gives it back.
pub open spec fn leaves_slot(fx: Seq<PagerEffect>, k: usize) -> bool {
    forall|j: int|
        0 <= j < fx.len() ==> #[trigger] fx[j] != (PagerEffect::ReleaseSlot { slot: k }) && !(
        fx[j] is WriteBack && fx[j]->WriteBack_slot == k)
}

/// An eviction leaves a swapped-out page alone: the page evicted is
/// resident, so `v` keeps slot `k`, and what the eviction writes goes to
/// another slot.
pub proof fn lemma_swapped_survives_eviction(
    old: Pager,
    hw: Seq<PteBits>,
    effects: Seq<PagerEffect>,
    new: Pager,
    hw2: Seq<PteBits>,
    effects2: Seq<PagerEffect>,
    r: Option<usize>,
    v: usize,
    k: usize,
)
    requires
        old.wf(),
        old.swap_slots@.len() <= usize::MAX,
        eviction(old, hw, effects, new, hw2, effects2, r),
        swapped_to(old, v, k),
    ensures
        swapped_to(new, v, k),
        effects2.len() >= effects.len(),
        leaves_slot(effects2.subrange(effects.len() as int, effects2.len() as int), k),
{
    let out = pick_outcome(old.algo, old.resident@, hw, old.clock_hand, old.epoch);
    let i = out.0->Some_0;
    let res1 = out.1;
    let victim = res1[i];
    let st = old.pages@[victim.vpn];
    let slot = free_slot_of(old.swap_slots@);
    assert(victim.vpn == old.resident@[i].vpn);
    assert(old.pages@.contains_key(victim.vpn) && old.pages@[victim.vpn].resident);
    assert(victim.vpn != v);
    assert(st.backing != PageBacking::Swap(k));
    assert(exists|x: int| first_free_slot(old.swap_slots@, x)) by {
        let mut x: int = 0;
        let n = old.swap_slots@.len() as int;
        lemma_first_free_exists(old.swap_slots@, 0);
    }
    let sl = slot;
    assert(first_free_slot(old.swap_slots@, sl));
    assert(sl != k);
    assert((sl as usize) as int == sl);
    assert((sl as usize) != k);
    let dirty = out.2[i].dirty;
    let fx = effects2.subrange(effects.len() as int, effects2.len() as int);
    let fxs = if !dirty {
        seq![PagerEffect::UnmapPage { vpn: victim.vpn }]
    } else {
        match st.backing {
            PageBacking::ZeroFill => seq![
                PagerEffect::AllocSlot { slot: sl as usize },
                PagerEffect::WriteBack { ppn: victim.ppn, slot: sl as usize },
                PagerEffect::UnmapPage { vpn: victim.vpn },
            ],
            PageBacking::Swap(s) => seq![
                PagerEffect::WriteBack { ppn: victim.ppn, slot: s },
                PagerEffect::UnmapPage { vpn: victim.vpn },
            ],
        }
    };
    assert(fx =~= fxs);
    assert forall|j: int| 0 <= j < fx.len() implies #[trigger] fx[j] != (PagerEffect::ReleaseSlot { slot: k })
        && !(fx[j] is WriteBack && fx[j]->WriteBack_slot == k) by {
        if dirty {
            match st.backing {
                PageBacking::ZeroFill => {},
                PageBacking::Swap(s) => {
                    assert(s != k);
                },
            }
        }
    }
    assert forall|u: usize| u != v && #[trigger] new.pages@.contains_key(u) implies new.pages@[u].backing
        != PageBacking::Swap(k) by {
        if u != victim.vpn {
            assert(old.pages@.contains_key(u));
        } else {
            assert(old.pages@.contains_key(u));
            if dirty {
                match st.backing {
                    PageBacking::ZeroFill => {},
                    PageBacking::Swap(s) => {},
                }
            }
        }
    }
}

proof fn lemma_first_free_exists(slots: Seq<bool>, from: int)
    requires
        0 <= from <= slots.len(),
        forall|j: int| 0 <= j < from ==> #[trigger] slots[j],
    ensures
        exists|x: int| first_free_slot(slots, x),
    decreases slots.len() - from,
{
    if from == slots.len() {
        assert(first_free_slot(slots, from));
    } else if !slots[from] {
        assert(first_free_slot(slots, from));
    } else {
        lemma_first_free_exists(slots, from + 1);
    }
}

/// Loading another page leaves a swapped-out page alone, and writes to
/// no slot.
pub proof fn lemma_swapped_survives_load(
    mid: Pager,
    mid_hw: Seq<PteBits>,
    mid_eff: Seq<PagerEffect>,
    new: Pager,
    new_hw: Seq<PteBits>,
    new_eff: Seq<PagerEffect>,
    vpn: usize,
    ppn: usize,
    st: PageState,
    v: usize,
    k: usize,
)
    requires
        loaded(mid, mid_hw, mid_eff, new, new_hw, new_eff, vpn, ppn, st),
        swapped_to(mid, v, k),
        vpn != v,
        mid.pages@.contains_key(vpn),
        mid.pages@[vpn].backing == st.backing,
    ensures
        swapped_to(new, v, k),
        new_eff.len() >= mid_eff.len(),
        leaves_slot(new_eff.subrange(mid_eff.len() as int, new_eff.len() as int), k),
{
    assert(st.backing != PageBacking::Swap(k));
    let fx = new_eff.subrange(mid_eff.len() as int, new_eff.len() as int);
    assert forall|u: usize| u != v && #[trigger] new.pages@.contains_key(u) implies new.pages@[u].backing
        != PageBacking::Swap(k) by {
        if u != vpn {
            assert(mid.pages@.contains_key(u));
        }
    }
    assert(fx[0] == new_eff[mid_eff.len() as int]);
    assert(fx[1] == new_eff[mid_eff.len() + 1int]);
}

proof fn lemma_removal_leaves_slot(pages: Map<usize, PageState>, start: int, end: int, v: usize, k: usize)
    requires
        0 <= start,
        end <= usize::MAX + 1,
        forall|w: usize| start <= w < end ==> #[trigger] pages.contains_key(w),
        !(start <= v < end),
        forall|u: usize| u != v && #[trigger] pages.contains_key(u) ==> pages[u].backing != PageBacking::Swap(k),
    ensures
        leaves_slot(removal_effects(pages, start, end), k),
    decreases end - start,
{
    if end > start {
        let w = (end - 1) as usize;
        lemma_removal_leaves_slot(pages, start, end - 1, v, k);
        assert(pages.contains_key(w));
        let a = removal_effects(pages, start, end - 1);
        let b = (if pages[w].resident {
            seq![PagerEffect::UnmapPage { vpn: w }]
        } else {
            seq![]
        });
        let c = (match pages[w].backing {
            PageBacking::Swap(s) => seq![PagerEffect::ReleaseSlot { slot: s }],
            PageBacking::ZeroFill => seq![],
        });
        let all = removal_effects(pages, start, end);
        assert(all == a + b + c);
        assert forall|j: int| 0 <= j < all.len() implies #[trigger] all[j] != (PagerEffect::ReleaseSlot { slot: k })
            && !(all[j] is WriteBack && all[j]->WriteBack_slot == k) by {
            if j < a.len() {
                assert(all[j] == a[j]);
            } else if j < a.len() + b.len() {
                assert(all[j] == b[j - a.len()]);
            } else {
                assert(all[j] == c[j - a.len() - b.len()]);
            }
        }
    }
}

/// Removing pages that do not include a swapped-out page leaves it alone:
/// its slot is neither freed nor written.
pub proof fn lemma_swapped_survives_removal(
    pre: Pager,
    pre_hw: Seq<PteBits>,
    pre_eff: Seq<PagerEffect>,
    post: Pager,
    post_hw: Seq<PteBits>,
    post_eff: Seq<PagerEffect>,
    start: usize,
    end: usize,
    v: usize,
    k: usize,
)
    requires
        forall|w: usize| start <= w < end ==> #[trigger] pre.pages@.contains_key(w),
        range_removed(pre, pre_hw, pre_eff, post, post_hw, post_eff, start, end),
        swapped_to(pre, v, k),
        !(start <= v < end),
    ensures
        swapped_to(post, v, k),
        leaves_slot(post_eff.subrange(pre_eff.len() as int, post_eff.len() as int), k),
{
    lemma_removal_leaves_slot(pre.pages@, start as int, end as int, v, k);
    assert(post_eff.subrange(pre_eff.len() as int, post_eff.len() as int) =~= removal_effects(
        pre.pages@,
        start as int,
        end as int,
    ));
    assert(post.pages@.contains_key(v));
    assert(post.pages@[v] == pre.pages@[v]);
    if slot_in_range(pre.pages@, start as int, end as int, k as int) {
        let w = choose|w: usize|
            start <= w < end && #[trigger] pre.pages@.contains_key(w) && pre.pages@[w].backing
                == PageBacking::Swap((k as int) as usize);
        assert(w != v);
    }
    assert(post.swap_slots@[k as int]);
    assert forall|u: usize| u != v && #[trigger] post.pages@.contains_key(u) implies post.pages@[u].backing
        != PageBacking::Swap(k) by {
        assert(pre.pages@.contains_key(u));
    }
}

/// A page fault keeps every swapped-out page but the faulting one where
/// it is: its slot is neither freed nor written. The faulting page, when
/// it was swapped out to slot `k`, is filled from slot `k`.
pub proof fn lemma_fault_keeps_swapped<F: FnOnce() -> usize>(
    old: Pager,
    hw: Seq<PteBits>,
    eff: Seq<PagerEffect>,
    mid: Pager,
    mid_hw: Seq<PteBits>,
    mid_eff: Seq<PagerEffect>,
    new: Pager,
    new_hw: Seq<PteBits>,
    new_eff: Seq<PagerEffect>,
    vpn: usize,
    ppn: usize,
    alloc_frame: F,
    v: usize,
    k: usize,
)
    requires
        old.wf(),
        old.swap_slots@.len() <= usize::MAX,
        old.pages@.contains_key(vpn),
        !old.pages@[vpn].resident,
        frame_source(bumped(old), hw, eff, mid, mid_hw, mid_eff, ppn, alloc_frame),
        loaded(mid, mid_hw, mid_eff, new, new_hw, new_eff, vpn, ppn, old.pages@[vpn]),
        swapped_to(old, v, k),
    ensures
        v != vpn ==> swapped_to(new, v, k) && new_eff.len() >= eff.len() && leaves_slot(
            new_eff.subrange(eff.len() as int, new_eff.len() as int),
            k,
        ),
        v == vpn ==> new_eff.len() > mid_eff.len() >= eff.len() && new_eff[mid_eff.len() as int]
            == (PagerEffect::SwapIn { slot: k, ppn }),
{
    let b = bumped(old);
    assert(b.wf());
    assert(swapped_to(b, v, k));
    // the faulting page is untouched until it is loaded
    if b.free_frames@.len() == 0 && b.resident@.len() >= b.quota {
        let out = pick_outcome(b.algo, b.resident@, hw, b.clock_hand, b.epoch);
        let i = out.0->Some_0;
        let victim = out.1[i];
        assert(victim.vpn == b.resident@[i].vpn);
        assert(b.pages@[victim.vpn].resident);
        assert(victim.vpn != vpn);
        assert(mid.pages@[vpn] == old.pages@[vpn]);
    }
    assert(mid.pages@.contains_key(vpn) && mid.pages@[vpn] == old.pages@[vpn]);
    assert(mid_eff.len() >= eff.len());
    if v != vpn {
        let fx1 = mid_eff.subrange(eff.len() as int, mid_eff.len() as int);
        if b.free_frames@.len() == 0 && b.resident@.len() >= b.quota {
            lemma_swapped_survives_eviction(b, hw, eff, mid, mid_hw, mid_eff, Some(ppn), v, k);
        } else {
            assert(fx1.len() == 0);
            assert(swapped_to(mid, v, k));
        }
        lemma_swapped_survives_load(mid, mid_hw, mid_eff, new, new_hw, new_eff, vpn, ppn, old.pages@[vpn], v, k);
        let fx2 = new_eff.subrange(mid_eff.len() as int, new_eff.len() as int);
        let all = new_eff.subrange(eff.len() as int, new_eff.len() as int);
        assert(all =~= fx1 + fx2);
        assert forall|j: int| 0 <= j < all.len() implies #[trigger] all[j] != (PagerEffect::ReleaseSlot { slot: k })
            && !(all[j] is WriteBack && all[j]->WriteBack_slot == k) by {
            if j < fx1.len() {
                assert(all[j] == fx1[j]);
            } else {
                assert(all[j] == fx2[j - fx1.len()]);
            }
        }
    } else {
        lemma_load_restores_contents(mid, mid_hw, mid_eff, new, new_hw, new_eff, vpn, ppn, old.pages@[vpn]);
    }
}

} // verus!
