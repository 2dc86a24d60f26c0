//! Decisions of the kernel's system calls that do not touch the machine:
//! handing out ids for synchronisation objects, the deadlock-detection
//! switch, when a semaphore request needs the banker's check, the pixel
//! work of the frame-buffer calls, and what `open`, `read` (of input
//! events), `lseek`, `ioctl`, `mmap` and `clock_gettime` compute.
use vstd::prelude::*;
use vstd::arithmetic::div_mod::{lemma_fundamental_div_mod, lemma_fundamental_div_mod_converse};
use crate::abi::{FramebufferInfo, InputEventUser};

verus! {

/// What a refused lock or `down` returns.
pub const DEADLOCK_CODE: isize = -0xdead;
/// Width of the DOOM frame.
pub const DOOM_WIDTH: usize = 320;
/// Height of the DOOM frame.
pub const DOOM_HEIGHT: usize = 200;
/// Bytes per DOOM pixel.
pub const DOOM_BPP: usize = 4;
/// Bytes of a DOOM frame.
pub const DOOM_FRAME_BYTES: usize = 256000;
/// `ioctl` request: flush the frame buffer.
pub const FB_FLUSH: usize = 1;
/// `ioctl` request: read the resolution.
pub const FB_GET_RESOLUTION: usize = 2;
/// Opaque alpha.
pub const ALPHA: u32 = 0xff00_0000;

/// The first empty slot of `list`, if any.
pub open spec fn first_empty<T>(list: Seq<Option<T>>, i: int) -> bool {
    &&& 0 <= i < list.len()
    &&& list[i] is None
    &&& forall|j: int| 0 <= j < i ==> #[trigger] list[j] is Some
}

/// Puts `item` in the first empty slot of `list`, or at the end when none
/// is empty; gives the slot's index (the id of a new semaphore, mutex or
/// condition variable).
pub fn alloc_slot<T>(list: &mut Vec<Option<T>>, item: Option<T>) -> (id: usize)
    requires
        old(list)@.len() < usize::MAX,
    ensures
        (exists|i: int| first_empty(old(list)@, i)) ==> first_empty(old(list)@, id as int)
            && final(list)@ == old(list)@.update(id as int, item),
        !(exists|i: int| first_empty(old(list)@, i)) ==> id == old(list)@.len()
            && final(list)@ == old(list)@.push(item),
{
    let mut i: usize = 0;
    while i < list.len()
        invariant
            i <= list@.len(),
            list@ == old(list)@,
            forall|j: int| 0 <= j < i ==> #[trigger] list@[j] is Some,
        decreases list.len() - i,
    {
        if list[i].is_none() {
            list.set(i, item);
            assert(first_empty(old(list)@, i as int));
            return i;
        }
        i = i + 1;
    }
    proof {
        assert forall|k: int| !first_empty(old(list)@, k) by {
            if 0 <= k < old(list)@.len() {
                assert(old(list)@[k] is Some);
            }
        }
    }
    list.push(item);
    list.len() - 1
}

/// What `enable_deadlock_detect` does with its argument: 0 turns detection
/// off, 1 on; anything else is refused.
pub fn deadlock_switch(is_enable: i32) -> (r: Option<bool>)
    ensures
        r == if is_enable == 0 {
            Some(false)
        } else if is_enable == 1 {
            Some(true)
        } else {
            None
        },
{
    match is_enable {
        0 => Some(false),
        1 => Some(true),
        _ => None,
    }
}

/// Free units a semaphore's count stands for (none when it is negative).
pub fn available_units(count: isize) -> (r: usize)
    ensures
        r == if count < 0 { 0 } else { count as int },
{
    if count < 0 {
        0
    } else {
        count as usize
    }
}

/// Whether a `down` on semaphore `sem_id` must pass the banker's check
/// first: detection is on and no unit of it is free.
pub fn needs_banker_check(deadlock_enabled: bool, available: &[usize], sem_id: usize) -> (r: bool)
    ensures
        r == (deadlock_enabled && (sem_id >= available@.len() || available@[sem_id as int] == 0)),
{
    if !deadlock_enabled {
        return false;
    }
    if sem_id < available.len() {
        available[sem_id] == 0
    } else {
        true
    }
}

/// What the DOOM program is told of the frame buffer: 320 by 200 pixels
/// of 32 bits.
pub fn doom_framebuffer_info() -> (r: FramebufferInfo)
    ensures
        r.width == 320,
        r.height == 200,
        r.stride == 1280,
        r.bpp == 32,
{
    FramebufferInfo { width: 320, height: 200, stride: 1280, bpp: 32 }
}

/// Sets every pixel opaque.
pub fn make_opaque(pixels: &mut [u32])
    ensures
        final(pixels)@.len() == old(pixels)@.len(),
        forall|i: int| 0 <= i < old(pixels)@.len() ==> #[trigger] final(pixels)@[i] == old(pixels)@[i] | ALPHA,
{
    let mut i: usize = 0;
    while i < pixels.len()
        invariant
            i <= pixels@.len(),
            pixels@.len() == old(pixels)@.len(),
            forall|j: int| 0 <= j < i ==> #[trigger] pixels@[j] == old(pixels)@[j] | ALPHA,
            forall|j: int| i <= j < pixels@.len() ==> #[trigger] pixels@[j] == old(pixels)@[j],
        decreases pixels.len() - i,
    {
        let p = pixels[i];
        pixels[i] = p | ALPHA;
        i = i + 1;
    }
}

/// Pixel `i` of a frame buffer `w` pixels wide after a DOOM frame is
/// drawn twice as large into its top left corner: each frame pixel, made
/// opaque, fills a 2 by 2 square; the rest is as it was.
pub open spec fn upscaled(src: Seq<u32>, old: Seq<u32>, w: int, i: int) -> u32 {
    let r = i / w;
    let c = i % w;
    if r < 2 * DOOM_HEIGHT && c < 2 * DOOM_WIDTH {
        src[(r / 2) * 320 + c / 2] | ALPHA
    } else {
        old[i]
    }
}

/// Draws a DOOM frame twice as large into a `fb_width` by `fb_height`
/// frame buffer; gives 0, or -1 (drawing nothing) when the buffer is too
/// small for it.
pub fn upscale_frame(src: &[u32], dst: &mut [u32], fb_width: usize, fb_height: usize) -> (r: isize)
    requires
        src@.len() >= DOOM_WIDTH * DOOM_HEIGHT,
        fb_width * fb_height <= old(dst)@.len(),
    ensures
        final(dst)@.len() == old(dst)@.len(),
        r == if fb_width < 2 * DOOM_WIDTH || fb_height < 2 * DOOM_HEIGHT { -1isize } else { 0isize },
        r == -1 ==> final(dst)@ == old(dst)@,
        r == 0 ==> forall|i: int| 0 <= i < old(dst)@.len() ==> #[trigger] final(dst)@[i] == upscaled(
            src@,
            old(dst)@,
            fb_width as int,
            i,
        ),
{
    if fb_width < DOOM_WIDTH * 2 || fb_height < DOOM_HEIGHT * 2 {
        return -1;
    }
    let w = fb_width;
    let ghost orig = dst@;
    let mut y: usize = 0;
    while y < DOOM_HEIGHT
        invariant
            y <= DOOM_HEIGHT,
            w >= 640,
            fb_height >= 400,
            w * fb_height <= orig.len(),
            dst@.len() == orig.len(),
            src@.len() >= 64000,
            forall|i: int|
                0 <= i < orig.len() ==> #[trigger] dst@[i] == if i / (w as int) < 2 * y && i % (w as int) < 640 {
                    upscaled(src@, orig, w as int, i)
                } else {
                    orig[i]
                },
        decreases DOOM_HEIGHT - y,
    {
        proof {
            assert((2 * y + 1) * w + 640 <= w * 400) by (nonlinear_arith)
                requires
                    y < 200,
                    w >= 640,
            ;
            assert(w * 400 <= w * fb_height) by (nonlinear_arith)
                requires
                    fb_height >= 400,
            ;
            assert((y * 2) * w == 2 * y * w) by (nonlinear_arith);
            assert((2 * y + 1) * w == 2 * y * w + w) by (nonlinear_arith);
        }
        let total = dst.len();
        assert(total == orig.len());
        let row0 = (y * 2) * w;
        let row1 = row0 + w;
        let mut x: usize = 0;
        while x < DOOM_WIDTH
            invariant
                x <= DOOM_WIDTH,
                y < DOOM_HEIGHT,
                w >= 640,
                row0 == 2 * y * w,
                row1 == row0 + w,
                row1 + 640 <= orig.len(),
                dst@.len() == orig.len(),
                src@.len() >= 64000,
                forall|i: int|
                    0 <= i < orig.len() ==> #[trigger] dst@[i] == if (i / (w as int) < 2 * y || ((i / (w as int)
                        == 2 * y || i / (w as int) == 2 * y + 1) && i % (w as int) < 2 * x)) && i % (w as int)
                        < 640 {
                        upscaled(src@, orig, w as int, i)
                    } else {
                        orig[i]
                    },
            decreases DOOM_WIDTH - x,
        {
            let pixel = src[y * DOOM_WIDTH + x] | ALPHA;
            let dx = x * 2;
            dst[row0 + dx] = pixel;
            dst[row0 + dx + 1] = pixel;
            dst[row1 + dx] = pixel;
            dst[row1 + dx + 1] = pixel;
            proof {
                let wi = w as int;
                assert((2 * y + 1) * wi == 2 * y * wi + wi) by (nonlinear_arith);
                lemma_fundamental_div_mod_converse((row0 + dx) as int, wi, 2 * y, dx as int);
                lemma_fundamental_div_mod_converse((row0 + dx + 1) as int, wi, 2 * y, dx + 1);
                lemma_fundamental_div_mod_converse((row1 + dx) as int, wi, 2 * y + 1, dx as int);
                lemma_fundamental_div_mod_converse((row1 + dx + 1) as int, wi, 2 * y + 1, dx + 1);
                assert forall|i: int| 0 <= i < orig.len() implies #[trigger] dst@[i] == if (i / wi < 2 * y || ((i / wi
                    == 2 * y || i / wi == 2 * y + 1) && i % wi < 2 * (x + 1))) && i % wi < 640 {
                    upscaled(src@, orig, wi, i)
                } else {
                    orig[i]
                } by {
                    lemma_fundamental_div_mod(i, wi);
                    if (i / wi == 2 * y || i / wi == 2 * y + 1) && (i % wi == 2 * x || i % wi == 2 * x + 1) {
                        assert(i == row0 + dx || i == row0 + dx + 1 || i == row1 + dx || i == row1 + dx + 1) by (nonlinear_arith)
                            requires
                                i == wi * (i / wi) + i % wi,
                                i / wi == 2 * y || i / wi == 2 * y + 1,
                                i % wi == 2 * x || i % wi == 2 * x + 1,
                                row0 == 2 * y * wi,
                                row1 == row0 + wi,
                                dx == 2 * x,
                        ;
                    }
                }
            }
            x = x + 1;
        }
        y = y + 1;
    }
    0
}

/// Whether a frame handed to `framebuffer_flush` is long enough.
pub fn frame_len_ok(len: usize) -> (r: bool)
    ensures
        r == (len >= DOOM_FRAME_BYTES),
{
    len >= DOOM_FRAME_BYTES
}

/// Where `lseek` measures from: the start of the file.
pub const SEEK_SET: usize = 0;
/// Where `lseek` measures from: the current offset.
pub const SEEK_CUR: usize = 1;
/// Where `lseek` measures from: the end of the file.
pub const SEEK_END: usize = 2;

/// The offset `whence` names before `offset` is added, if `whence` is known.
pub open spec fn seek_base(whence: usize, current: usize, file_len: usize) -> Option<int> {
    if whence == SEEK_SET {
        Some(0)
    } else if whence == SEEK_CUR {
        Some(current as int)
    } else if whence == SEEK_END {
        Some(file_len as int)
    } else {
        None
    }
}

/// The file offset `lseek` moves to: `offset` past the start, the current
/// offset or the end of the file, as `whence` says; none for an unknown
/// `whence` or an offset before the start of the file.
pub fn seek_offset(whence: usize, current: usize, file_len: usize, offset: isize) -> (r: Option<usize>)
    requires
        current <= isize::MAX,
        file_len <= isize::MAX,
        seek_base(whence, current, file_len) matches Some(b) ==> b + offset <= isize::MAX,
    ensures
        r == match seek_base(whence, current, file_len) {
            None => None,
            Some(b) => if b + offset < 0 {
                None
            } else {
                Some((b + offset) as usize)
            },
        },
{
    let base: isize = if whence == SEEK_SET {
        0
    } else if whence == SEEK_CUR {
        current as isize
    } else if whence == SEEK_END {
        file_len as isize
    } else {
        return None;
    };
    let target = base + offset;
    if target < 0 {
        None
    } else {
        Some(target as usize)
    }
}

/// Nanoseconds since boot after `ticks` of the 12.5 MHz timer.
pub open spec fn ticks_to_ns(ticks: u64) -> int {
    ticks * 10000 / 125
}

/// The time `clock_gettime` reports after `ticks` timer ticks, as whole
/// seconds and the nanoseconds beyond them.
pub fn timespec_of_ticks(ticks: u64) -> (r: (u64, u64))
    requires
        ticks * 10000 <= u64::MAX,
    ensures
        r.0 == ticks_to_ns(ticks) / 1_000_000_000,
        r.1 == ticks_to_ns(ticks) % 1_000_000_000,
{
    let time = ticks * 10000 / 125;
    (time / 1_000_000_000, time % 1_000_000_000)
}

/// Width the frame buffer reports to `ioctl`.
pub const FB_REPORTED_WIDTH: u32 = 640;
/// Height the frame buffer reports to `ioctl`.
pub const FB_REPORTED_HEIGHT: u32 = 400;

/// Where `mmap` maps when the caller leaves the address to the kernel.
pub const MMAP_DEFAULT_BASE: usize = 0x4000_0000;

/// The address an `mmap` maps at: the one asked for, or the default for 0.
pub fn mmap_base(addr: usize) -> (r: usize)
    ensures
        r == if addr == 0 {
            MMAP_DEFAULT_BASE
        } else {
            addr
        },
{
    if addr == 0 {
        MMAP_DEFAULT_BASE
    } else {
        addr
    }
}

/// How much of the frame buffer an `mmap` of `length` bytes maps: none
/// when the buffer does not start on a page boundary, else the smaller of
/// the two lengths.
pub fn framebuffer_map_len(fb_addr: usize, fb_len: usize, length: usize) -> (r: Option<usize>)
    ensures
        r == if fb_addr % 4096 != 0 {
            None::<usize>
        } else if length < fb_len {
            Some(length)
        } else {
            Some(fb_len)
        },
{
    if fb_addr % 4096 != 0 {
        None
    } else if length < fb_len {
        Some(length)
    } else {
        Some(fb_len)
    }
}

/// Bytes of one input event as `read` hands it out: a timestamp in
/// microseconds, the type, the code and the value.
pub const INPUT_EVENT_BYTES: usize = 16;

/// An input event as `read` copies it out: microseconds since boot, then
/// the event.
#[derive(Clone, Copy, PartialEq, Eq, Structural, Debug)]
pub struct InputRecord {
    pub timestamp_usec: u64,
    pub event_type: u16,
    pub code: u16,
    pub value: u32,
}

/// A `read` of `count` bytes from the input device: -1 when the buffer
/// cannot hold an event or no event is pending; else the size of an
/// event, and the record to copy out, stamped at `ticks` timer ticks.
pub fn input_read(count: usize, event: Option<InputEventUser>, ticks: u64) -> (r: (isize, Option<InputRecord>))
    requires
        ticks * 10000 <= u64::MAX,
    ensures
        count < INPUT_EVENT_BYTES ==> r == (-1isize, None::<InputRecord>),
        count >= INPUT_EVENT_BYTES && event is None ==> r == (-1isize, None::<InputRecord>),
        count >= INPUT_EVENT_BYTES && event is Some ==> r == (16isize, Some(InputRecord {
            timestamp_usec: (ticks_to_ns(ticks) / 1000) as u64,
            event_type: event->0.event_type,
            code: event->0.code,
            value: event->0.value,
        })),
{
    if count < INPUT_EVENT_BYTES {
        return (-1, None);
    }
    match event {
        None => (-1, None),
        Some(e) => {
            let now_ns = ticks * 10000 / 125;
            (16, Some(InputRecord { timestamp_usec: now_ns / 1000, event_type: e.event_type, code: e.code, value: e.value }))
        },
    }
}

/// What an `ioctl` on a file does.
#[derive(Clone, Copy, PartialEq, Eq, Structural, Debug)]
pub enum IoctlAction {
    /// Write the reported resolution to the caller.
    Resolution,
    /// Make every pixel opaque and show the frame.
    Flush,
    /// Answer -1.
    Refuse,
}

/// The `ioctl` request `request` on a file that is the frame buffer or not.
pub fn ioctl_action(is_framebuffer: bool, request: usize) -> (r: IoctlAction)
    ensures
        r == if is_framebuffer && request == FB_GET_RESOLUTION {
            IoctlAction::Resolution
        } else if is_framebuffer && request == FB_FLUSH {
            IoctlAction::Flush
        } else {
            IoctlAction::Refuse
        },
{
    if !is_framebuffer {
        IoctlAction::Refuse
    } else if request == FB_GET_RESOLUTION {
        IoctlAction::Resolution
    } else if request == FB_FLUSH {
        IoctlAction::Flush
    } else {
        IoctlAction::Refuse
    }
}

/// What `open` opens.
#[derive(Clone, Copy, PartialEq, Eq, Structural, Debug)]
pub enum OpenTarget {
    /// The frame buffer device.
    Framebuffer,
    /// The input device.
    Input,
    /// A file of the file system.
    File,
}

/// The path of the frame buffer device, `/dev/fb0`.
pub open spec fn fb_path() -> Seq<u8> {
    seq![0x2fu8, 0x64, 0x65, 0x76, 0x2f, 0x66, 0x62, 0x30]
}

/// The path of the input device, `/dev/input0`.
pub open spec fn input_path() -> Seq<u8> {
    seq![0x2fu8, 0x64, 0x65, 0x76, 0x2f, 0x69, 0x6e, 0x70, 0x75, 0x74, 0x30]
}

/// Whether two byte strings are equal.
fn same_bytes(a: &[u8], b: &[u8]) -> (r: bool)
    ensures
        r == (a@ == b@),
{
    if a.len() != b.len() {
        return false;
    }
    let mut i: usize = 0;
    while i < a.len()
        invariant
            i <= a@.len(),
            a@.len() == b@.len(),
            forall|k: int| 0 <= k < i ==> a@[k] == b@[k],
        decreases a.len() - i,
    {
        if a[i] != b[i] {
            return false;
        }
        i = i + 1;
    }
    assert(a@ =~= b@);
    true
}

/// What `open` opens for `path`: the two device paths name the devices,
/// anything else a file.
pub fn open_target(path: &[u8]) -> (r: OpenTarget)
    ensures
        r == if path@ == fb_path() {
            OpenTarget::Framebuffer
        } else if path@ == input_path() {
            OpenTarget::Input
        } else {
            OpenTarget::File
        },
{
    let fb: [u8; 8] = [0x2f, 0x64, 0x65, 0x76, 0x2f, 0x66, 0x62, 0x30];
    let input: [u8; 11] = [0x2f, 0x64, 0x65, 0x76, 0x2f, 0x69, 0x6e, 0x70, 0x75, 0x74, 0x30];
    assert(fb@ =~= fb_path());
    assert(input@ =~= input_path());
    if same_bytes(path, &fb) {
        OpenTarget::Framebuffer
    } else if same_bytes(path, &input) {
        OpenTarget::Input
    } else {
        OpenTarget::File
    }
}

} // verus!
