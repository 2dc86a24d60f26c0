//! The paging benchmark: which pages each access pattern touches, in what
//! order and whether it writes, and the rates its report prints.
use vstd::prelude::*;
use crate::abi::{VmAlgo, VmStats};

verus! {

pub const PAGE_SIZE: usize = 0x1000;
/// Pages the benchmark maps.
pub const PAGES: usize = 64;
/// Resident pages the benchmark allows.
pub const QUOTA: usize = 16;
/// Where the first run's mapping starts.
pub const BASE: usize = 0x3000_0000;
/// How far apart the runs' mappings are.
pub const STRIDE: usize = 0x0010_0000;
/// Pages of the hot set.
pub const HOT: usize = 8;
/// Accesses of each random pattern.
pub const STEPS: usize = 32768;

/// An access pattern.
#[derive(Clone, Copy, PartialEq, Eq, Structural, Debug)]
pub enum Pattern {
    /// Every page in order, 32 times.
    SeqScan,
    /// Uniformly random pages.
    RandUniform,
    /// Mostly the hot set.
    LocalityStrong,
    /// Mostly a window sliding over the pages.
    LocalityWeak,
}

/// The generator's next state.
#[verifier::opaque]
pub open spec fn lcg_step(state: u32) -> u32 {
    state.wrapping_mul(1103515245).wrapping_add(12345)
}

/// The state after `k` steps from `seed`.
pub open spec fn lcg_iter(seed: u32, k: nat) -> u32
    decreases k,
{
    if k == 0 {
        seed
    } else {
        lcg_step(lcg_iter(seed, (k - 1) as nat))
    }
}

/// Steps the generator and gives its new state.
pub fn lcg(state: &mut u32) -> (r: u32)
    ensures
        r == lcg_step(*old(state)),
        *final(state) == r,
{
    proof {
        reveal(lcg_step);
    }
    *state = state.wrapping_mul(1103515245).wrapping_add(12345);
    *state
}

/// The seed each random pattern starts from.
pub open spec fn seed_of(p: Pattern) -> u32 {
    match p {
        Pattern::SeqScan => 0,
        Pattern::RandUniform => 1,
        Pattern::LocalityStrong => 7,
        Pattern::LocalityWeak => 11,
    }
}

/// Accesses the pattern makes.
pub open spec fn access_count(p: Pattern) -> int {
    match p {
        Pattern::SeqScan => 2048int,
        _ => STEPS as int,
    }
}

/// The page access `step` of a random pattern touches, given the random
/// number drawn for it.
pub open spec fn random_page(p: Pattern, step: int, raw: int) -> int {
    match p {
        Pattern::LocalityStrong => if raw % 10 < 8 {
            raw % (HOT as int)
        } else {
            HOT + raw % ((PAGES - HOT) as int)
        },
        Pattern::LocalityWeak => {
            let window = (QUOTA * 2) as int;
            let base = (step / 64) % ((PAGES as int) - window);
            if raw % 10 < 6 {
                base + raw % window
            } else {
                raw % (PAGES as int)
            }
        },
        _ => raw % (PAGES as int),
    }
}

/// The page access `i` of a pattern touches, and whether it writes.
pub open spec fn access(p: Pattern, i: int) -> (int, bool) {
    match p {
        Pattern::SeqScan => {
            let round = i / 64;
            let page = i % 64;
            (page, (round + page) % 4 == 0)
        },
        _ => (random_page(p, i, lcg_iter(seed_of(p), (i + 1) as nat) as int), i % 4 == 0),
    }
}

/// The address of page `page` of a mapping at `start`.
pub open spec fn page_addr(start: int, page: int) -> int {
    start + page * PAGE_SIZE
}

/// The accesses of a pattern run on a mapping at `start`, in order: the
/// address touched and whether it is written.
pub open spec fn trace(p: Pattern, start: int) -> Seq<(usize, bool)> {
    Seq::new(
        access_count(p) as nat,
        |i: int| (page_addr(start, access(p, i).0) as usize, access(p, i).1),
    )
}

/// The page a random pattern's access `step` touches.
fn pick_page(pattern: Pattern, step: usize, raw: usize) -> (r: usize)
    requires
        step < STEPS,
        pattern != Pattern::SeqScan,
    ensures
        r == random_page(pattern, step as int, raw as int),
        r < PAGES,
{
    match pattern {
        Pattern::LocalityStrong => {
            if raw % 10 < 8 {
                raw % HOT
            } else {
                HOT + raw % (PAGES - HOT)
            }
        },
        Pattern::LocalityWeak => {
            let window = QUOTA * 2;
            let base = (step / 64) % (PAGES - window);
            if raw % 10 < 6 {
                base + raw % window
            } else {
                raw % PAGES
            }
        },
        _ => raw % PAGES,
    }
}

/// The accesses a pattern makes on a mapping at `start`.
pub fn run_pattern(pattern: Pattern, start: usize) -> (r: Vec<(usize, bool)>)
    requires
        start + PAGES * PAGE_SIZE <= usize::MAX,
    ensures
        r@ == trace(pattern, start as int),
{
    let mut v: Vec<(usize, bool)> = Vec::new();
    match pattern {
        Pattern::SeqScan => {
            let mut i: usize = 0;
            while i < 32 * 64
                invariant
                    i <= 32 * 64,
                    pattern == Pattern::SeqScan,
                    start + PAGES * PAGE_SIZE <= usize::MAX,
                    v@ == trace(pattern, start as int).take(i as int),
                decreases 32 * 64 - i,
            {
                let round = i / 64;
                let page = i % 64;
                let sum: usize = round + page;
                v.push((start + page * PAGE_SIZE, sum & 0x3 == 0));
                proof {
                    assert((sum & 0x3 == 0) == (sum % 4 == 0)) by (bit_vector);
                }
                i = i + 1;
                assert(v@ =~= trace(pattern, start as int).take(i as int));
            }
        },
        _ => {
            let mut state: u32 = if pattern == Pattern::RandUniform {
                1
            } else if pattern == Pattern::LocalityStrong {
                7
            } else {
                11
            };
            let mut step: usize = 0;
            while step < STEPS
                invariant
                    step <= STEPS,
                    pattern != Pattern::SeqScan,
                    start + PAGES * PAGE_SIZE <= usize::MAX,
                    state == lcg_iter(seed_of(pattern), step as nat),
                    v@ == trace(pattern, start as int).take(step as int),
                decreases STEPS - step,
            {
                let raw = lcg(&mut state) as usize;
                let page = pick_page(pattern, step, raw);
                v.push((start + page * PAGE_SIZE, step & 0x3 == 0));
                proof {
                    assert((step & 0x3 == 0) == (step % 4 == 0)) by (bit_vector);
                }
                step = step + 1;
                assert(v@ =~= trace(pattern, start as int).take(step as int));
            }
        },
    }
    assert(v@ =~= trace(pattern, start as int));
    v
}

/// Faults per second and per thousand instructions (0 when nothing was
/// measured), each product saturating.
pub open spec fn rates(stats: VmStats) -> (u64, u64) {
    let per_sec = if stats.elapsed_ns == 0 {
        0
    } else {
        (if stats.page_faults * 1_000_000_000 > u64::MAX {
            u64::MAX as int
        } else {
            stats.page_faults * 1_000_000_000
        }) / stats.elapsed_ns as int
    };
    let per_kinst = if stats.instret_delta == 0 {
        0
    } else {
        (if stats.page_faults * 1000 > u64::MAX {
            u64::MAX as int
        } else {
            stats.page_faults * 1000
        }) / stats.instret_delta as int
    };
    (per_sec as u64, per_kinst as u64)
}

/// `a * b`, or the largest `u64` when that overflows.
fn saturating_mul_u64(a: u64, b: u64) -> (r: u64)
    ensures
        r == if a * b > u64::MAX { u64::MAX as int } else { a * b },
{
    match a.checked_mul(b) {
        Some(v) => v,
        None => u64::MAX,
    }
}

/// The rates the report prints for one run.
pub fn fault_rates(stats: &VmStats) -> (r: (u64, u64))
    ensures
        r == rates(*stats),
{
    let faults_per_sec = if stats.elapsed_ns == 0 {
        0
    } else {
        saturating_mul_u64(stats.page_faults, 1_000_000_000) / stats.elapsed_ns
    };
    let faults_per_kinst = if stats.instret_delta == 0 {
        0
    } else {
        saturating_mul_u64(stats.page_faults, 1000) / stats.instret_delta
    };
    (faults_per_sec, faults_per_kinst)
}

/// The short name the report gives an algorithm.
pub fn algo_name(algo: VmAlgo) -> (r: &'static str)
    ensures
        r@ == match algo {
            VmAlgo::Fifo => "fifo"@,
            VmAlgo::Clock => "clock"@,
            VmAlgo::LruApprox => "lru"@,
            VmAlgo::WorkingSet => "ws"@,
        },
{
    match algo {
        VmAlgo::Fifo => "fifo",
        VmAlgo::Clock => "clock",
        VmAlgo::LruApprox => "lru",
        VmAlgo::WorkingSet => "ws",
    }
}

/// The name the report gives a pattern.
pub fn pattern_name(pattern: Pattern) -> (r: &'static str)
    ensures
        r@ == match pattern {
            Pattern::SeqScan => "seq_scan"@,
            Pattern::RandUniform => "rand_uniform"@,
            Pattern::LocalityStrong => "locality_strong"@,
            Pattern::LocalityWeak => "locality_weak"@,
        },
{
    match pattern {
        Pattern::SeqScan => "seq_scan",
        Pattern::RandUniform => "rand_uniform",
        Pattern::LocalityStrong => "locality_strong",
        Pattern::LocalityWeak => "locality_weak",
    }
}

/// Where run `run` maps its pages.
pub fn run_start(run: usize) -> (r: usize)
    requires
        run < 16,
    ensures
        r == BASE + run * STRIDE,
{
    BASE + run * STRIDE
}

} // verus!
