//! The paging side of a process: heap growth (`sbrk`), anonymous `mmap`
//! and `munmap`, all registered lazily with the process's pager.
use vstd::prelude::*;
use crate::abi::{VmStats, VMCTL_SET_ALGO, VMCTL_SET_QUOTA, VMCTL_RESET_STATS, VMCTL_GET_STATS};
use crate::pager::{
    Pager, PageState, PagerEffect, PteBits, FaultKind, VmRegion, page_free, with_range, without_range,
    vpn_of, vpn_ceil_of, vpn_floor, vpn_ceil, FLAG_U, FLAG_V, FLAG_X, FLAG_W, FLAG_R, DEFAULT_QUOTA,
    MAX_QUOTA, has_room, access_allowed, same_state, RuntimeStats, swapped_pages, saturating_diff, PagerStep, eviction_chain, frame_source, loaded, bumped, range_removed,
};
use crate::abi::algo_code;

verus! {

/// Bytes below this mask are the offset within a page.
pub const PAGE_MASK: usize = 4095;

/// Everything of two pagers but the page map and the regions agrees.
pub open spec fn pager_rest_same(a: Pager, b: Pager) -> bool {
    &&& a.resident@ == b.resident@
    &&& a.free_frames@ == b.free_frames@
    &&& a.swap_slots@ == b.swap_slots@
    &&& a.quota == b.quota
    &&& a.algo == b.algo
    &&& a.next_loaded_at == b.next_loaded_at
    &&& a.epoch == b.epoch
    &&& a.clock_hand == b.clock_hand
    &&& a.stats == b.stats
}

/// Page table flags of heap pages: user, writable, readable, valid.
pub const HEAP_FLAGS: usize = 0x17;

/// Whether `prot` names a protection: some of read (1), write (2) and execute (4), nothing else.
pub open spec fn valid_prot(prot: i32) -> bool {
    1 <= prot <= 7
}

/// The page table flags for a protection: user and valid, plus execute,
/// write and read as `prot` asks.
pub open spec fn prot_flags(prot: i32) -> usize {
    (FLAG_U + FLAG_V + (if (prot / 4) % 2 == 1 {
        FLAG_X as int
    } else {
        0
    }) + (if (prot / 2) % 2 == 1 {
        FLAG_W as int
    } else {
        0
    }) + (if prot % 2 == 1 {
        FLAG_R as int
    } else {
        0
    })) as usize
}

/// The page table flags for a protection: user and valid, plus execute,
/// write and read as `prot` asks.
pub fn prot_to_flags(prot: i32) -> (r: usize)
    requires
        valid_prot(prot),
    ensures
        r == prot_flags(prot),
{
    let mut flags: usize = FLAG_U + FLAG_V;
    if prot & 0b100 != 0 {
        flags = flags + FLAG_X;
    }
    if prot & 0b010 != 0 {
        flags = flags + FLAG_W;
    }
    if prot & 0b001 != 0 {
        flags = flags + FLAG_R;
    }
    assert((prot & 0b100 != 0) == ((prot / 4) % 2 == 1)) by (bit_vector)
        requires
            1 <= prot <= 7,
    ;
    assert((prot & 0b010 != 0) == ((prot / 2) % 2 == 1)) by (bit_vector)
        requires
            1 <= prot <= 7,
    ;
    assert((prot & 0b001 != 0) == (prot % 2 == 1)) by (bit_vector)
        requires
            1 <= prot <= 7,
    ;
    flags
}

/// The pages spanned by `len` bytes at the page-aligned address `addr`:
/// none when `addr` is not page aligned or `addr + len` overflows.
pub fn checked_vpn_range(addr: usize, len: usize) -> (r: Option<(usize, usize)>)
    ensures
        r is Some <==> addr % 4096 == 0 && addr + len <= usize::MAX,
        r matches Some((s, e)) ==> s == vpn_of(addr) && e == vpn_ceil_of((addr + len) as usize),
{
    if addr & PAGE_MASK != 0 {
        assert(addr & 4095 != 0 ==> addr % 4096 != 0) by (bit_vector);
        return None;
    }
    assert(addr & 4095 == 0 ==> addr % 4096 == 0) by (bit_vector);
    let end = match addr.checked_add(len) {
        Some(e) => e,
        None => {
            return None;
        },
    };
    Some((vpn_floor(addr), vpn_ceil(end)))
}

/// The paging state of a process: what its address space maps outside the
/// pager (program segments, stack), its heap and its pager.
pub struct VmProcess {
    /// Page ranges mapped outside the pager.
    pub mapped: Vec<VmRegion>,
    /// Lowest heap address.
    pub heap_bottom: usize,
    /// Current program break.
    pub program_brk: usize,
    /// The pager of the address space.
    pub pager: Pager,
}

impl VmProcess {
    /// The pager is well formed and the break lies between the heap bottom and `isize::MAX`.
    pub open spec fn wf(&self) -> bool {
        &&& self.pager.wf()
        &&& self.heap_bottom <= self.program_brk <= isize::MAX
    }

    /// A process whose heap starts (empty) at `heap_bottom`.
    pub fn new(mapped: Vec<VmRegion>, heap_bottom: usize, now_ns: u64, now_instret: u64) -> (r:
        VmProcess)
        requires
            heap_bottom <= isize::MAX,
        ensures
            r.wf(),
            r.mapped@ == mapped@,
            r.heap_bottom == heap_bottom,
            r.program_brk == heap_bottom,
            r.pager.wf(),
            r.pager.pages@ == Map::<usize, PageState>::empty(),
            r.pager.resident@.len() == 0,
            r.pager.free_frames@.len() == 0,
            r.pager.swap_slots@.len() == 0,
            r.pager.regions@.len() == 0,
            r.pager.quota == DEFAULT_QUOTA,
            r.pager.algo == crate::abi::VmAlgo::Fifo,
            r.pager.next_loaded_at == 0 && r.pager.epoch == 0 && r.pager.clock_hand == 0,
            r.pager.stats.start_time_ns == now_ns && r.pager.stats.start_instret == now_instret,
            r.pager.stats.page_faults == 0 && r.pager.stats.evictions == 0,
            r.pager.stats.write_backs == 0 && r.pager.stats.thrash_events == 0,
            r.pager.stats.window_faults_base == 0 && r.pager.stats.window_evictions_base == 0,
    {
        VmProcess {
            mapped,
            heap_bottom,
            program_brk: heap_bottom,
            pager: Pager::new(now_ns, now_instret),
        }
    }

    /// Registers `start..end` as pageable with `flags`, when no page of it is
    /// registered or mapped already.
    pub fn register_pageable_range(&mut self, start: usize, end: usize, flags: usize) -> (r:
        Option<()>)
        requires
            old(self).wf(),
        ensures
            final(self).wf(),
            r is Some <==> forall|v: usize|
                start <= v < end ==> #[trigger] page_free(
                    old(self).pager.pages@,
                    old(self).mapped@,
                    v,
                ),
            r is Some ==> final(self).pager.pages@ == with_range(
                old(self).pager.pages@,
                start as int,
                end as int,
                flags,
            ) && final(self).pager.regions@ == old(self).pager.regions@.push(
                VmRegion { start, end },
            ),
            r is None ==> same_state(final(self).pager, old(self).pager),
            pager_rest_same(old(self).pager, final(self).pager),
            final(self).mapped@ == old(self).mapped@,
            final(self).heap_bottom == old(self).heap_bottom,
            final(self).program_brk == old(self).program_brk,
    {
        if !self.pager.can_register(start, end, &self.mapped) {
            return None;
        }
        assert forall|v: usize| start <= v < end implies !self.pager.pages@.contains_key(v) by {
            assert(page_free(self.pager.pages@, self.mapped@, v));
        }
        self.pager.register_range(start, end, flags);
        Some(())
    }

    /// Moves the program break by `size` bytes and gives the old break. Growing
    /// registers the new heap pages (user, writable, readable); shrinking
    /// unregisters the pages no longer covered. Refused (`None`, nothing
    /// changes) when the new break would overflow or fall below the heap
    /// bottom, or the pages cannot be registered or unregistered.
    pub fn change_program_brk(
        &mut self,
        hw: &mut Vec<PteBits>,
        size: isize,
        effects: &mut Vec<PagerEffect>,
    ) -> (r: Option<usize>)
        requires
            old(self).wf(),
            old(hw)@.len() == old(self).pager.resident@.len(),
        ensures
            final(self).wf(),
            final(hw)@.len() == final(self).pager.resident@.len(),
            ({
                let nb = old(self).program_brk + size;
                let old_c = vpn_ceil_of(old(self).program_brk);
                let new_c = vpn_ceil_of(nb as usize);
                let grow = size > 0 && new_c > old_c;
                let shrink = size < 0 && old_c > new_c;
                &&& r is Some <==> {
                    &&& nb <= isize::MAX
                    &&& nb >= old(self).heap_bottom
                    &&& grow ==> forall|v: usize|
                        old_c <= v < new_c ==> #[trigger] page_free(
                            old(self).pager.pages@,
                            old(self).mapped@,
                            v,
                        )
                    &&& shrink ==> forall|v: usize|
                        new_c <= v < old_c ==> #[trigger] old(self).pager.pages@.contains_key(v)
                }
                &&& r is Some ==> {
                    &&& r == Some(old(self).program_brk)
                    &&& final(self).program_brk == nb
                    &&& grow ==> final(self).pager.pages@ == with_range(
                        old(self).pager.pages@,
                        old_c as int,
                        new_c as int,
                        HEAP_FLAGS,
                    )
                    &&& shrink ==> final(self).pager.pages@ == without_range(
                        old(self).pager.pages@,
                        new_c as int,
                        old_c as int,
                    )
                    &&& !grow && !shrink ==> final(self).pager.pages@ == old(self).pager.pages@
                }
                &&& r is None ==> final(self).program_brk == old(self).program_brk
                    && same_state(final(self).pager, old(self).pager)
                &&& r is Some && grow ==> pager_rest_same(old(self).pager, final(self).pager)
                    && final(self).pager.regions@ == old(self).pager.regions@.push(
                    VmRegion { start: old_c, end: new_c },
                )
                &&& r is Some && !grow && !shrink ==> same_state(final(self).pager, old(self).pager)
                &&& r is Some && shrink ==> range_removed(
                    old(self).pager,
                    old(hw)@,
                    old(effects)@,
                    final(self).pager,
                    final(hw)@,
                    final(effects)@,
                    new_c,
                    old_c,
                )
                &&& (r is None || !shrink) ==> final(hw)@ == old(hw)@ && final(effects)@ == old(effects)@
                    && final(self).pager.resident@ == old(self).pager.resident@
            }),
            final(self).heap_bottom == old(self).heap_bottom,
            final(self).mapped@ == old(self).mapped@,
    {
        let old_brk = self.program_brk;
        let new_brk = match (self.program_brk as isize).checked_add(size) {
            Some(b) => b,
            None => {
                return None;
            },
        };
        if new_brk < self.heap_bottom as isize {
            return None;
        }
        let new_brk = new_brk as usize;
        let old_ceil = vpn_ceil(old_brk);
        let new_ceil = vpn_ceil(new_brk);
        if size > 0 && new_ceil > old_ceil {
            match self.register_pageable_range(old_ceil, new_ceil, HEAP_FLAGS) {
                Some(()) => {},
                None => {
                    return None;
                },
            }
        } else if size < 0 && old_ceil > new_ceil {
            if !self.pager.remove_range(hw, new_ceil, old_ceil, effects) {
                return None;
            }
        }
        self.program_brk = new_brk;
        Some(old_brk)
    }

    /// Registers an anonymous mapping of `len` bytes at `addr` with protection
    /// `prot`. Refused when `addr` is not page aligned, `prot` is not 1 to 7,
    /// `addr + len` overflows, or a page is registered or mapped already.
    pub fn mmap_anonymous(&mut self, addr: usize, len: usize, prot: i32) -> (r: Option<()>)
        requires
            old(self).wf(),
        ensures
            final(self).wf(),
            ({
                let s = vpn_of(addr);
                let e = vpn_ceil_of((addr + len) as usize);
                &&& r is Some <==> {
                    &&& addr % 4096 == 0
                    &&& valid_prot(prot)
                    &&& addr + len <= usize::MAX
                    &&& s != e ==> forall|v: usize|
                        s <= v < e ==> #[trigger] page_free(
                            old(self).pager.pages@,
                            old(self).mapped@,
                            v,
                        )
                }
                &&& r is Some && s != e ==> final(self).pager.pages@ == with_range(
                    old(self).pager.pages@,
                    s as int,
                    e as int,
                    prot_flags(prot),
                )
                &&& (r is None || s == e) ==> same_state(final(self).pager, old(self).pager)
                &&& r is Some && s != e ==> final(self).pager.regions@ == old(self).pager.regions@.push(
                    VmRegion { start: s, end: e },
                )
            }),
            pager_rest_same(old(self).pager, final(self).pager),
            final(self).program_brk == old(self).program_brk,
            final(self).heap_bottom == old(self).heap_bottom,
            final(self).mapped@ == old(self).mapped@,
    {
        let bad_prot = prot & !0x7 != 0 || prot & 0x7 == 0;
        assert(bad_prot == !valid_prot(prot)) by (bit_vector)
            requires
                bad_prot == (prot & !0x7 != 0 || prot & 0x7 == 0),
        ;
        if addr & PAGE_MASK != 0 || bad_prot {
            assert(addr & 4095 != 0 ==> addr % 4096 != 0) by (bit_vector);
            return None;
        }
        let (start, end) = match checked_vpn_range(addr, len) {
            Some(r) => r,
            None => {
                return None;
            },
        };
        if start == end {
            return Some(());
        }
        self.register_pageable_range(start, end, prot_to_flags(prot))
    }

    /// Unregisters the pages spanned by `len` bytes at `addr`. Refused when
    /// `addr` is not page aligned, `addr + len` overflows, or some page is not registered.
    pub fn munmap_anonymous(
        &mut self,
        hw: &mut Vec<PteBits>,
        addr: usize,
        len: usize,
        effects: &mut Vec<PagerEffect>,
    ) -> (r: Option<()>)
        requires
            old(self).wf(),
            old(hw)@.len() == old(self).pager.resident@.len(),
        ensures
            final(self).wf(),
            final(hw)@.len() == final(self).pager.resident@.len(),
            ({
                let s = vpn_of(addr);
                let e = vpn_ceil_of((addr + len) as usize);
                &&& r is Some <==> {
                    &&& addr % 4096 == 0
                    &&& addr + len <= usize::MAX
                    &&& s != e ==> forall|v: usize|
                        s <= v < e ==> #[trigger] old(self).pager.pages@.contains_key(v)
                }
                &&& r is Some && s != e ==> final(self).pager.pages@ == without_range(
                    old(self).pager.pages@,
                    s as int,
                    e as int,
                )
                &&& (r is None || s == e) ==> final(self).pager.pages@ == old(self).pager.pages@
                &&& r is Some && s != e ==> range_removed(
                    old(self).pager,
                    old(hw)@,
                    old(effects)@,
                    final(self).pager,
                    final(hw)@,
                    final(effects)@,
                    s,
                    e,
                )
                &&& (r is None || s == e) ==> same_state(final(self).pager, old(self).pager)
                    && final(hw)@ == old(hw)@ && final(effects)@ == old(effects)@
            }),
            final(self).program_brk == old(self).program_brk,
            final(self).heap_bottom == old(self).heap_bottom,
            final(self).mapped@ == old(self).mapped@,
    {
        let (start, end) = match checked_vpn_range(addr, len) {
            Some(r) => r,
            None => {
                return None;
            },
        };
        if start == end {
            return Some(());
        }
        if self.pager.remove_range(hw, start, end, effects) {
            Some(())
        } else {
            None
        }
    }

    /// Hands a page fault to the pager (see `Pager::handle_page_fault`).
    pub fn handle_page_fault<F: FnOnce() -> usize>(
        &mut self,
        hw: &mut Vec<PteBits>,
        kind: FaultKind,
        addr: usize,
        alloc_frame: F,
        effects: &mut Vec<PagerEffect>,
    ) -> (ok: bool)
        requires
            old(self).wf(),
            old(hw)@.len() == old(self).pager.resident@.len(),
            old(self).pager.stats.roomy(),
            has_room(old(self).pager.epoch),
            has_room(old(self).pager.next_loaded_at),
            call_requires(alloc_frame, ()),
        ensures
            final(self).wf(),
            final(hw)@.len() == final(self).pager.resident@.len(),
            ok == (old(self).pager.pages@.contains_key(vpn_of(addr)) && access_allowed(
                old(self).pager.pages@[vpn_of(addr)].flags,
                kind,
            )),
            !ok ==> same_state(final(self).pager, old(self).pager) && final(hw)@ == old(hw)@
                && final(effects)@ == old(effects)@,
            ok ==> final(self).pager.pages@.contains_key(vpn_of(addr)) && final(self).pager.pages@[vpn_of(
                addr,
            )].resident,
            ok && old(self).pager.pages@[vpn_of(addr)].resident ==> {
                &&& same_state(final(self).pager, old(self).pager)
                &&& final(effects)@ == old(effects)@
                &&& exists|i: int|
                    0 <= i < old(self).pager.resident@.len() && old(self).pager.resident@[i].vpn == vpn_of(
                        addr,
                    ) && final(hw)@ == old(hw)@.update(
                        i,
                        PteBits {
                            accessed: true,
                            dirty: old(hw)@[i].dirty || kind == FaultKind::Store,
                        },
                    )
            },
            ok && !old(self).pager.pages@[vpn_of(addr)].resident ==> exists|
                mid: Pager,
                mid_hw: Seq<PteBits>,
                mid_eff: Seq<PagerEffect>,
                ppn: usize,
            |
                {
                    &&& frame_source(
                        bumped(old(self).pager),
                        old(hw)@,
                        old(effects)@,
                        mid,
                        mid_hw,
                        mid_eff,
                        ppn,
                        alloc_frame,
                    )
                    &&& loaded(
                        mid,
                        mid_hw,
                        mid_eff,
                        final(self).pager,
                        final(hw)@,
                        final(effects)@,
                        vpn_of(addr),
                        ppn,
                        old(self).pager.pages@[vpn_of(addr)],
                    )
                },
            final(self).program_brk == old(self).program_brk,
            final(self).heap_bottom == old(self).heap_bottom,
            final(self).mapped@ == old(self).mapped@,
    {
        let ghost old_hw = hw@;
        let ok = self.pager.handle_page_fault(hw, kind, addr, alloc_frame, effects);
        proof {
            if ok && old(self).pager.pages@[vpn_of(addr)].resident {
                let i = choose|i: int|
                    0 <= i < old(self).pager.resident@.len() && #[trigger] old(self).pager.resident@[i].vpn
                        == vpn_of(addr) && hw@ == old_hw.update(
                        i,
                        PteBits { accessed: true, dirty: old_hw[i].dirty || kind == FaultKind::Store },
                    );
                assert(same_state(self.pager, old(self).pager));
                assert(effects@ == old(effects)@);
                assert(0 <= i < old(self).pager.resident@.len() && old(self).pager.resident@[i].vpn == vpn_of(addr)
                    && hw@ == old(hw)@.update(
                    i,
                    PteBits { accessed: true, dirty: old(hw)@[i].dirty || kind == FaultKind::Store },
                ));
            }
        }
        ok
    }

    /// Selects the replacement policy (see `Pager::set_algo`).
    pub fn vm_set_algo(&mut self, raw: usize) -> (ok: bool)
        requires
            old(self).wf(),
        ensures
            final(self).wf(),
            ok == (raw < 4),
            ok ==> algo_code(final(self).pager.algo) == raw,
            !ok ==> final(self).pager.algo == old(self).pager.algo,
            final(self).pager.pages@ == old(self).pager.pages@,
            final(self).pager.resident@ == old(self).pager.resident@,
            final(self).pager.quota == old(self).pager.quota,
            final(self).pager.stats == old(self).pager.stats,
            final(self).mapped@ == old(self).mapped@,
            final(self).heap_bottom == old(self).heap_bottom,
            final(self).program_brk == old(self).program_brk,
    {
        self.pager.set_algo(raw)
    }

    /// Sets the resident quota (see `Pager::set_quota`).
    pub fn vm_set_quota(
        &mut self,
        hw: &mut Vec<PteBits>,
        quota: usize,
        effects: &mut Vec<PagerEffect>,
    ) -> (ok: bool)
        requires
            old(self).wf(),
            old(hw)@.len() == old(self).pager.resident@.len(),
            old(self).pager.stats.evictions + old(self).pager.resident@.len() < u64::MAX - 64,
            old(self).pager.stats.write_backs + old(self).pager.resident@.len() < u64::MAX - 64,
        ensures
            final(self).wf(),
            final(hw)@.len() == final(self).pager.resident@.len(),
            ok == (1 <= quota <= MAX_QUOTA),
            !ok ==> same_state(final(self).pager, old(self).pager) && final(hw)@ == old(hw)@
                && final(effects)@ == old(effects)@,
            ok ==> {
                &&& final(self).pager.quota == quota
                &&& final(self).pager.resident@.len() == if old(self).pager.resident@.len() > quota {
                    quota as nat
                } else {
                    old(self).pager.resident@.len()
                }
                &&& exists|chain: Seq<PagerStep>|
                    {
                        &&& eviction_chain(chain)
                        &&& chain.len() == old(self).pager.resident@.len() - final(self).pager.resident@.len() + 1
                        &&& #[trigger] chain[0] == (Pager { quota: quota, ..old(self).pager }, old(hw)@, old(
                            effects,
                        )@)
                        &&& chain.last() == (final(self).pager, final(hw)@, final(effects)@)
                    }
            },
            final(self).mapped@ == old(self).mapped@,
            final(self).heap_bottom == old(self).heap_bottom,
            final(self).program_brk == old(self).program_brk,
    {
        self.pager.set_quota(hw, quota, effects)
    }

    /// Starts a new statistics window.
    pub fn vm_reset_stats(&mut self, now_ns: u64, now_instret: u64)
        requires
            old(self).wf(),
        ensures
            final(self).wf(),
            final(self).pager.stats == (RuntimeStats {
                page_faults: 0,
                evictions: 0,
                write_backs: 0,
                thrash_events: 0,
                start_time_ns: now_ns,
                start_instret: now_instret,
                window_faults_base: 0,
                window_evictions_base: 0,
            }),
            final(self).pager.pages@ == old(self).pager.pages@,
            final(self).pager.resident@ == old(self).pager.resident@,
            final(self).pager.quota == old(self).pager.quota,
            final(self).pager.algo == old(self).pager.algo,
            final(self).mapped@ == old(self).mapped@,
            final(self).heap_bottom == old(self).heap_bottom,
            final(self).program_brk == old(self).program_brk,
    {
        self.pager.reset_stats(now_ns, now_instret);
    }

    /// The statistics of the current window, read at time `now_ns` after
    /// `now_instret` retired instructions.
    pub fn vm_snapshot_stats(&self, now_ns: u64, now_instret: u64) -> (r: VmStats)
        ensures
            r.algo == algo_code(self.pager.algo),
            r.quota == self.pager.quota as u32,
            r.resident_pages == self.pager.resident@.len() as u32,
            r.swap_pages == swapped_pages(self.pager.pages@).len() as u32,
            r.page_faults == self.pager.stats.page_faults,
            r.evictions == self.pager.stats.evictions,
            r.write_backs == self.pager.stats.write_backs,
            r.thrash_events == self.pager.stats.thrash_events,
            r.elapsed_ns == saturating_diff(now_ns, self.pager.stats.start_time_ns),
            r.instret_delta == saturating_diff(now_instret, self.pager.stats.start_instret),
    {
        self.pager.snapshot_stats(now_ns, now_instret)
    }

    /// The `vmctl` system call without its last step: sets the algorithm or
    /// the quota, resets the statistics, or reads them. Gives the call's
    /// value and, for a read, the statistics for the caller to copy out
    /// (the call gives -1 if that copy fails). Unknown commands give -1.
    pub fn vmctl(
        &mut self,
        hw: &mut Vec<PteBits>,
        effects: &mut Vec<PagerEffect>,
        cmd: usize,
        arg0: usize,
        now_ns: u64,
        now_instret: u64,
    ) -> (r: (isize, Option<VmStats>))
        requires
            old(self).wf(),
            old(hw)@.len() == old(self).pager.resident@.len(),
            old(self).pager.stats.evictions + old(self).pager.resident@.len() < u64::MAX - 64,
            old(self).pager.stats.write_backs + old(self).pager.resident@.len() < u64::MAX - 64,
        ensures
            final(self).wf(),
            final(hw)@.len() == final(self).pager.resident@.len(),
            cmd == VMCTL_SET_ALGO ==> r.1 is None && r.0 == (if arg0 < 4 { 0isize } else { -1isize })
                && (arg0 < 4 ==> algo_code(final(self).pager.algo) == arg0)
                && (arg0 >= 4 ==> final(self).pager.algo == old(self).pager.algo),
            cmd == VMCTL_SET_QUOTA ==> r.1 is None && r.0 == (if 1 <= arg0 <= MAX_QUOTA { 0isize } else { -1isize })
                && (1 <= arg0 <= MAX_QUOTA ==> final(self).pager.quota == arg0)
                && (!(1 <= arg0 <= MAX_QUOTA) ==> same_state(final(self).pager, old(self).pager)),
            cmd == VMCTL_RESET_STATS ==> r == (0isize, None::<VmStats>) && final(self).pager.stats == (
            RuntimeStats {
                page_faults: 0,
                evictions: 0,
                write_backs: 0,
                thrash_events: 0,
                start_time_ns: now_ns,
                start_instret: now_instret,
                window_faults_base: 0,
                window_evictions_base: 0,
            }) && final(self).pager.pages@ == old(self).pager.pages@
                && final(self).pager.resident@ == old(self).pager.resident@,
            cmd == VMCTL_GET_STATS ==> r.0 == 0 && r.1 is Some && *final(self) == *old(self) && ({
                let st = r.1->0;
                &&& st.algo == algo_code(old(self).pager.algo)
                &&& st.quota == old(self).pager.quota as u32
                &&& st.resident_pages == old(self).pager.resident@.len() as u32
                &&& st.swap_pages == swapped_pages(old(self).pager.pages@).len() as u32
                &&& st.page_faults == old(self).pager.stats.page_faults
                &&& st.evictions == old(self).pager.stats.evictions
                &&& st.write_backs == old(self).pager.stats.write_backs
                &&& st.thrash_events == old(self).pager.stats.thrash_events
                &&& st.elapsed_ns == saturating_diff(now_ns, old(self).pager.stats.start_time_ns)
                &&& st.instret_delta == saturating_diff(now_instret, old(self).pager.stats.start_instret)
            }),
            cmd > VMCTL_GET_STATS ==> r == (-1isize, None::<VmStats>) && *final(self) == *old(self),
    {
        if cmd == VMCTL_SET_ALGO {
            let ok = self.vm_set_algo(arg0);
            (if ok { 0 } else { -1 }, None)
        } else if cmd == VMCTL_SET_QUOTA {
            let ok = self.vm_set_quota(hw, arg0, effects);
            (if ok { 0 } else { -1 }, None)
        } else if cmd == VMCTL_RESET_STATS {
            self.vm_reset_stats(now_ns, now_instret);
            (0, None)
        } else if cmd == VMCTL_GET_STATS {
            (0, Some(self.vm_snapshot_stats(now_ns, now_instret)))
        } else {
            (-1, None)
        }
    }
}

} // verus!
