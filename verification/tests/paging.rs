use tg_rcore::abi::{VmAlgo, VMCTL_GET_STATS, VMCTL_RESET_STATS, VMCTL_SET_ALGO, VMCTL_SET_QUOTA};
use tg_rcore::pager::{
    can_access, vpn_ceil, vpn_floor, FaultKind, Pager, PagerEffect, PteBits, FLAG_R, FLAG_U, FLAG_V,
    FLAG_W, FLAG_X, DEFAULT_QUOTA,
};
use tg_rcore::vm_process::{checked_vpn_range, prot_to_flags, VmProcess};

const BASE: usize = 0x4000_0000;
const RW: usize = FLAG_U | FLAG_V | FLAG_R | FLAG_W;

fn process() -> VmProcess {
    VmProcess::new(Vec::new(), 0x10000, 0, 0)
}

#[test]
fn page_numbers_round_down_and_up() {
    assert_eq!(vpn_floor(0x4000_0fff), 0x40000);
    assert_eq!(vpn_ceil(0x4000_0001), 0x40001);
    assert_eq!(vpn_ceil(0x4000_0000), 0x40000);
    assert_eq!(checked_vpn_range(0x1000, 0x1800), Some((1, 3)));
    assert_eq!(checked_vpn_range(0x1001, 0x10), None);
    assert_eq!(checked_vpn_range(usize::MAX & !0xfff, 0x2000), None);
}

#[test]
fn protections_become_page_flags() {
    assert_eq!(prot_to_flags(1), FLAG_U | FLAG_V | FLAG_R);
    assert_eq!(prot_to_flags(3), RW);
    assert_eq!(prot_to_flags(5), FLAG_U | FLAG_V | FLAG_R | FLAG_X);
    assert!(can_access(RW, FaultKind::Store));
    assert!(!can_access(FLAG_U | FLAG_V | FLAG_R, FaultKind::Store));
    assert!(!can_access(RW, FaultKind::Instruction));
}

#[test]
fn new_pager_is_empty_fifo() {
    let p = Pager::new(5, 7);
    assert_eq!(p.quota, DEFAULT_QUOTA);
    assert_eq!(p.algo, VmAlgo::Fifo);
    assert!(p.pages.is_empty());
    let s = p.snapshot_stats(15, 10);
    assert_eq!(s.elapsed_ns, 10);
    assert_eq!(s.instret_delta, 3);
    assert_eq!(s.resident_pages, 0);
    assert_eq!(s.swap_pages, 0);
    assert_eq!(s.quota, 16);
}

#[test]
fn elapsed_time_never_goes_negative() {
    let p = Pager::new(100, 100);
    let s = p.snapshot_stats(50, 40);
    assert_eq!(s.elapsed_ns, 0);
    assert_eq!(s.instret_delta, 0);
}

#[test]
fn mmap_registers_lazily_and_fault_loads_zero_page() {
    let mut p = process();
    assert_eq!(p.mmap_anonymous(BASE, 0x2000, 3), Some(()));
    assert_eq!(p.pager.pages.len(), 2);
    assert!(p.pager.resident.is_empty());
    let mut hw: Vec<PteBits> = Vec::new();
    let mut eff: Vec<PagerEffect> = Vec::new();
    assert!(p.handle_page_fault(&mut hw, FaultKind::Store, BASE + 8, || 100usize, &mut eff));
    assert_eq!(
        eff,
        vec![
            PagerEffect::ZeroFill { ppn: 100 },
            PagerEffect::MapPage { vpn: BASE >> 12, ppn: 100, flags: RW },
        ]
    );
    assert_eq!(hw.len(), 1);
    assert!(p.pager.pages.get(&(BASE >> 12)).unwrap().resident);
}

#[test]
fn fault_outside_any_region_is_refused() {
    let mut p = process();
    let mut hw: Vec<PteBits> = Vec::new();
    let mut eff: Vec<PagerEffect> = Vec::new();
    assert!(!p.handle_page_fault(&mut hw, FaultKind::Load, 0x9000_0000, || 1usize, &mut eff));
    assert!(eff.is_empty());
    assert_eq!(p.pager.stats.page_faults, 0);
}

#[test]
fn fault_against_protection_is_refused() {
    let mut p = process();
    assert_eq!(p.mmap_anonymous(BASE, 0x1000, 1), Some(()));
    let mut hw: Vec<PteBits> = Vec::new();
    let mut eff: Vec<PagerEffect> = Vec::new();
    assert!(!p.handle_page_fault(&mut hw, FaultKind::Store, BASE, || 1usize, &mut eff));
    assert!(p.handle_page_fault(&mut hw, FaultKind::Load, BASE, || 1usize, &mut eff));
}

#[test]
fn mmap_rejects_unaligned_bad_prot_and_overlap() {
    let mut p = process();
    assert_eq!(p.mmap_anonymous(BASE + 1, 0x1000, 3), None);
    assert_eq!(p.mmap_anonymous(BASE, 0x1000, 0), None);
    assert_eq!(p.mmap_anonymous(BASE, 0x1000, 8), None);
    assert_eq!(p.mmap_anonymous(BASE, 0x1000, 3), Some(()));
    assert_eq!(p.mmap_anonymous(BASE, 0x1000, 3), None);
}

#[test]
fn resident_page_fault_only_sets_bits() {
    let mut p = process();
    p.mmap_anonymous(BASE, 0x1000, 3).unwrap();
    let mut hw: Vec<PteBits> = Vec::new();
    let mut eff: Vec<PagerEffect> = Vec::new();
    assert!(p.handle_page_fault(&mut hw, FaultKind::Load, BASE, || 7usize, &mut eff));
    eff.clear();
    assert!(p.handle_page_fault(&mut hw, FaultKind::Store, BASE, || 8usize, &mut eff));
    assert!(eff.is_empty());
    assert_eq!(hw[0], PteBits { accessed: true, dirty: true });
    assert_eq!(p.pager.stats.page_faults, 1);
}

#[test]
fn dirty_victim_goes_to_swap_and_comes_back() {
    let mut p = process();
    p.mmap_anonymous(BASE, 0x2000, 3).unwrap();
    let mut hw: Vec<PteBits> = Vec::new();
    let mut eff: Vec<PagerEffect> = Vec::new();
    assert!(p.vm_set_quota(&mut hw, 1, &mut eff));
    assert!(p.handle_page_fault(&mut hw, FaultKind::Store, BASE, || 100usize, &mut eff));
    hw[0].dirty = true;
    eff.clear();
    let a = BASE >> 12;
    let b = a + 1;
    assert!(p.handle_page_fault(&mut hw, FaultKind::Load, BASE + 0x1000, || 200usize, &mut eff));
    assert_eq!(
        eff,
        vec![
            PagerEffect::AllocSlot { slot: 0 },
            PagerEffect::WriteBack { ppn: 100, slot: 0 },
            PagerEffect::UnmapPage { vpn: a },
            PagerEffect::ZeroFill { ppn: 100 },
            PagerEffect::MapPage { vpn: b, ppn: 100, flags: RW },
        ]
    );
    let s = p.vm_snapshot_stats(0, 0);
    assert_eq!(s.page_faults, 2);
    assert_eq!(s.evictions, 1);
    assert_eq!(s.write_backs, 1);
    assert_eq!(s.swap_pages, 1);
    assert_eq!(s.resident_pages, 1);
    assert_eq!(s.thrash_events, 1);
    eff.clear();
    assert!(p.handle_page_fault(&mut hw, FaultKind::Load, BASE, || 300usize, &mut eff));
    assert_eq!(
        eff,
        vec![
            PagerEffect::UnmapPage { vpn: b },
            PagerEffect::SwapIn { slot: 0, ppn: 100 },
            PagerEffect::MapPage { vpn: a, ppn: 100, flags: RW },
        ]
    );
    assert_eq!(p.vm_snapshot_stats(0, 0).swap_pages, 0);
}

#[test]
fn quota_outside_range_is_refused() {
    let mut p = process();
    let mut hw: Vec<PteBits> = Vec::new();
    let mut eff: Vec<PagerEffect> = Vec::new();
    assert!(!p.vm_set_quota(&mut hw, 0, &mut eff));
    assert!(!p.vm_set_quota(&mut hw, 33, &mut eff));
    assert!(p.vm_set_quota(&mut hw, 32, &mut eff));
    assert_eq!(p.pager.quota, 32);
}

#[test]
fn algorithm_numbers_select_policies() {
    let mut p = process();
    assert!(p.vm_set_algo(1));
    assert_eq!(p.pager.algo, VmAlgo::Clock);
    assert!(p.vm_set_algo(3));
    assert_eq!(p.pager.algo, VmAlgo::WorkingSet);
    assert!(!p.vm_set_algo(4));
    assert_eq!(p.pager.algo, VmAlgo::WorkingSet);
}

#[test]
fn vmctl_commands() {
    let mut p = process();
    let mut hw: Vec<PteBits> = Vec::new();
    let mut eff: Vec<PagerEffect> = Vec::new();
    assert_eq!(p.vmctl(&mut hw, &mut eff, VMCTL_SET_ALGO, 2, 0, 0).0, 0);
    assert_eq!(p.pager.algo, VmAlgo::LruApprox);
    assert_eq!(p.vmctl(&mut hw, &mut eff, VMCTL_SET_ALGO, 9, 0, 0).0, -1);
    assert_eq!(p.vmctl(&mut hw, &mut eff, VMCTL_SET_QUOTA, 4, 0, 0).0, 0);
    assert_eq!(p.pager.quota, 4);
    assert_eq!(p.vmctl(&mut hw, &mut eff, VMCTL_RESET_STATS, 0, 50, 60), (0, None));
    let (r, s) = p.vmctl(&mut hw, &mut eff, VMCTL_GET_STATS, 0, 80, 65);
    assert_eq!(r, 0);
    let s = s.unwrap();
    assert_eq!(s.algo, 2);
    assert_eq!(s.quota, 4);
    assert_eq!(s.elapsed_ns, 30);
    assert_eq!(s.instret_delta, 5);
    assert_eq!(p.vmctl(&mut hw, &mut eff, 7, 0, 0, 0), (-1, None));
}

#[test]
fn munmap_releases_resident_frames() {
    let mut p = process();
    p.mmap_anonymous(BASE, 0x1000, 3).unwrap();
    let mut hw: Vec<PteBits> = Vec::new();
    let mut eff: Vec<PagerEffect> = Vec::new();
    assert!(p.handle_page_fault(&mut hw, FaultKind::Load, BASE, || 42usize, &mut eff));
    eff.clear();
    assert_eq!(p.munmap_anonymous(&mut hw, BASE, 0x1000, &mut eff), Some(()));
    assert!(eff.contains(&PagerEffect::UnmapPage { vpn: BASE >> 12 }));
    assert!(p.pager.pages.is_empty());
    assert_eq!(p.pager.free_frames, vec![42]);
    assert_eq!(p.munmap_anonymous(&mut hw, BASE, 0x1000, &mut eff), None);
}

#[test]
fn program_break_grows_and_shrinks() {
    let mut p = process();
    let mut hw: Vec<PteBits> = Vec::new();
    let mut eff: Vec<PagerEffect> = Vec::new();
    assert_eq!(p.change_program_brk(&mut hw, 0x1800, &mut eff), Some(0x10000));
    assert_eq!(p.program_brk, 0x11800);
    assert_eq!(p.pager.pages.len(), 2);
    assert_eq!(p.change_program_brk(&mut hw, -0x1800, &mut eff), Some(0x11800));
    assert_eq!(p.program_brk, 0x10000);
    assert!(p.pager.pages.is_empty());
    assert_eq!(p.change_program_brk(&mut hw, -1, &mut eff), None);
}

/// Carries out the pager's effects on a small simulated memory: frames,
/// swap slots and the page mapping.
struct Memory {
    frames: std::collections::HashMap<usize, u8>,
    swap: std::collections::HashMap<usize, u8>,
    mapping: std::collections::HashMap<usize, usize>,
    next_ppn: usize,
}

impl Memory {
    fn apply(&mut self, eff: &mut Vec<PagerEffect>) {
        for e in eff.drain(..) {
            match e {
                PagerEffect::AllocSlot { .. } | PagerEffect::ReleaseSlot { .. } => {}
                PagerEffect::WriteBack { ppn, slot } => {
                    self.swap.insert(slot, self.frames[&ppn]);
                }
                PagerEffect::UnmapPage { vpn } => {
                    self.mapping.remove(&vpn);
                }
                PagerEffect::ZeroFill { ppn } => {
                    self.frames.insert(ppn, 0);
                }
                PagerEffect::SwapIn { slot, ppn } => {
                    self.frames.insert(ppn, self.swap[&slot]);
                }
                PagerEffect::MapPage { vpn, ppn, .. } => {
                    self.mapping.insert(vpn, ppn);
                }
            }
        }
    }

    fn access(&mut self, p: &mut VmProcess, hw: &mut Vec<PteBits>, page: usize, store: Option<u8>) -> u8 {
        let vpn = (BASE >> 12) + page;
        if !self.mapping.contains_key(&vpn) {
            let mut eff = Vec::new();
            let next = &mut self.next_ppn;
            let kind = if store.is_some() { FaultKind::Store } else { FaultKind::Load };
            assert!(p.handle_page_fault(hw, kind, vpn << 12, || {
                *next += 1;
                *next
            }, &mut eff));
            self.apply(&mut eff);
        }
        let i = p.pager.resident.iter().position(|r| r.vpn == vpn).unwrap();
        hw[i].accessed = true;
        let ppn = self.mapping[&vpn];
        if let Some(b) = store {
            hw[i].dirty = true;
            self.frames.insert(ppn, b);
        }
        self.frames[&ppn]
    }
}

#[test]
fn every_page_reads_back_after_swapping() {
    let mut p = process();
    p.mmap_anonymous(BASE, 32 * 0x1000, 3).unwrap();
    let mut hw: Vec<PteBits> = Vec::new();
    let mut eff: Vec<PagerEffect> = Vec::new();
    assert!(p.vm_set_quota(&mut hw, 4, &mut eff));
    let mut m = Memory {
        frames: Default::default(),
        swap: Default::default(),
        mapping: Default::default(),
        next_ppn: 0,
    };
    for page in 0..32 {
        m.access(&mut p, &mut hw, page, Some((page * 3) as u8));
    }
    for page in 0..32 {
        assert_eq!(m.access(&mut p, &mut hw, page, None), (page * 3) as u8);
    }
}
