//! Plain values shared between the kernel and user programs.
use vstd::prelude::*;

verus! {

/// `vmctl` command: select the replacement algorithm of the current process.
pub const VMCTL_SET_ALGO: usize = 0;
/// `vmctl` command: set the resident page quota of the current process.
pub const VMCTL_SET_QUOTA: usize = 1;
/// `vmctl` command: reset the statistics baseline.
pub const VMCTL_RESET_STATS: usize = 2;
/// `vmctl` command: read the statistics of the current process.
pub const VMCTL_GET_STATS: usize = 3;

/// Page replacement algorithms offered by the pager.
#[derive(Clone, Copy, Debug, PartialEq, Eq, Structural)]
pub enum VmAlgo {
    /// First in, first out.
    Fifo,
    /// Second-chance clock.
    Clock,
    /// Aging approximation of LRU.
    LruApprox,
    /// Simplified working set.
    WorkingSet,
}

/// The raw number that encodes an algorithm on the syscall boundary.
pub open spec fn algo_code(a: VmAlgo) -> nat {
    match a {
        VmAlgo::Fifo => 0,
        VmAlgo::Clock => 1,
        VmAlgo::LruApprox => 2,
        VmAlgo::WorkingSet => 3,
    }
}

impl VmAlgo {
    /// Decodes a raw algorithm number; numbers above 3 name no algorithm.
    pub fn from_raw(raw: usize) -> (r: Option<VmAlgo>)
        ensures
            r is Some <==> raw < 4,
            r matches Some(a) ==> algo_code(a) == raw,
    {
        match raw {
            0 => Some(VmAlgo::Fifo),
            1 => Some(VmAlgo::Clock),
            2 => Some(VmAlgo::LruApprox),
            3 => Some(VmAlgo::WorkingSet),
            _ => None,
        }
    }

    /// The raw number of this algorithm.
    pub fn as_raw(self) -> (r: u32)
        ensures
            r == algo_code(self),
    {
        match self {
            VmAlgo::Fifo => 0,
            VmAlgo::Clock => 1,
            VmAlgo::LruApprox => 2,
            VmAlgo::WorkingSet => 3,
        }
    }
}

/// Decoding the number of an algorithm gives the algorithm back.
pub proof fn lemma_algo_code_round_trip(a: VmAlgo)
    ensures
        algo_code(a) < 4,
        forall|b: VmAlgo| algo_code(b) == algo_code(a) ==> b == a,
{
}

/// Statistics of the virtual memory experiment of one process.
#[derive(Clone, Copy, Debug, PartialEq, Eq, Structural)]
pub struct VmStats {
    /// Current algorithm.
    pub algo: u32,
    /// Current quota.
    pub quota: u32,
    /// Pages resident now.
    pub resident_pages: u32,
    /// Pages swapped out now.
    pub swap_pages: u32,
    /// Page faults so far.
    pub page_faults: u64,
    /// Evictions so far.
    pub evictions: u64,
    /// Dirty pages written back so far.
    pub write_backs: u64,
    /// Thrashing events so far.
    pub thrash_events: u64,
    /// Nanoseconds in the statistics window.
    pub elapsed_ns: u64,
    /// Retired instructions in the statistics window.
    pub instret_delta: u64,
}

impl VmStats {
    /// All-zero statistics (the algorithm field names FIFO).
    pub fn zero() -> (r: VmStats)
        ensures
            r.algo == 0 && r.quota == 0 && r.resident_pages == 0 && r.swap_pages == 0,
            r.page_faults == 0 && r.evictions == 0 && r.write_backs == 0,
            r.thrash_events == 0 && r.elapsed_ns == 0 && r.instret_delta == 0,
    {
        VmStats {
            algo: 0,
            quota: 0,
            resident_pages: 0,
            swap_pages: 0,
            page_faults: 0,
            evictions: 0,
            write_backs: 0,
            thrash_events: 0,
            elapsed_ns: 0,
            instret_delta: 0,
        }
    }
}

/// Standard input file descriptor.
pub const STDIN: usize = 0;
/// Standard output file descriptor.
pub const STDOUT: usize = 1;
/// Debug output file descriptor.
pub const STDDEBUG: usize = 2;

/// Frame buffer size in pixels.
#[derive(Clone, Copy, Debug, Default, PartialEq, Eq, Structural)]
pub struct FrameBufferInfo {
    /// Width in pixels.
    pub width: u32,
    /// Height in pixels.
    pub height: u32,
}

impl FrameBufferInfo {
    /// The all-zero value.
    pub fn zero() -> (r: FrameBufferInfo)
        ensures
            r.width == 0 && r.height == 0,
    {
        FrameBufferInfo { width: 0, height: 0 }
    }
}

/// Frame buffer description handed to the DOOM program.
#[derive(Clone, Copy, Debug, Default, PartialEq, Eq, Structural)]
pub struct FramebufferInfo {
    /// Logical width in pixels.
    pub width: u32,
    /// Logical height in pixels.
    pub height: u32,
    /// Bytes per row.
    pub stride: u32,
    /// Bits per pixel.
    pub bpp: u32,
}

impl FramebufferInfo {
    /// The all-zero value.
    pub fn zero() -> (r: FramebufferInfo)
        ensures
            r.width == 0 && r.height == 0 && r.stride == 0 && r.bpp == 0,
    {
        FramebufferInfo { width: 0, height: 0, stride: 0, bpp: 0 }
    }
}

/// An input event in the evdev style.
#[derive(Clone, Copy, Debug, Default, PartialEq, Eq, Structural)]
pub struct InputEventUser {
    /// Event type (1 is a key event).
    pub event_type: u16,
    /// Key code (1 is ESC).
    pub code: u16,
    /// 1 pressed, 0 released, 2 repeated.
    pub value: u32,
}

} // verus!
