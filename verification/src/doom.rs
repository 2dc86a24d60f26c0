//! The frame-buffer demo that stands in for DOOM: a moving test pattern of
//! 320 by 200 pixels, and leaving on ESC.
use vstd::prelude::*;
use crate::abi::InputEventUser;

verus! {

pub const WIDTH: usize = 320;
pub const HEIGHT: usize = 200;
/// Bytes per pixel.
pub const BPP: usize = 4;
/// Bytes of a frame.
pub const FRAME_BYTES: usize = 256000;
/// The event type of a key.
pub const EV_KEY: u16 = 1;
/// The code of the ESC key.
pub const KEY_ESC: u16 = 1;

/// Byte `i` of the test pattern at tick `tick`: pixel `i / 4` (row by
/// row) in blue, green, red, alpha order, red and green drifting with the
/// tick, blue the XOR of column, row and tick.
pub open spec fn pattern_byte(tick: u32, i: int) -> u8 {
    let p = i / 4;
    let x = (p % 320) as u32;
    let y = (p / 320) as u32;
    let k = i % 4;
    if k == 0 {
        ((x ^ y ^ tick) & 0xff) as u8
    } else if k == 1 {
        ((y + tick * 2) as u32 & 0xff) as u8
    } else if k == 2 {
        ((x + tick) as u32 & 0xff) as u8
    } else {
        0xff
    }
}

/// Draws the test pattern for tick `tick` into the first `FRAME_BYTES`
/// bytes of `frame`.
pub fn fill_frame(frame: &mut [u8], tick: u32)
    requires
        old(frame)@.len() >= FRAME_BYTES,
        tick * 2 + HEIGHT <= u32::MAX,
    ensures
        final(frame)@.len() == old(frame)@.len(),
        forall|i: int| 0 <= i < FRAME_BYTES ==> #[trigger] final(frame)@[i] == pattern_byte(tick, i),
        forall|i: int| FRAME_BYTES <= i < old(frame)@.len() ==> #[trigger] final(frame)@[i] == old(frame)@[i],
{
    let mut p: usize = 0;
    while p < WIDTH * HEIGHT
        invariant
            p <= WIDTH * HEIGHT,
            tick * 2 + HEIGHT <= u32::MAX,
            frame@.len() == old(frame)@.len(),
            frame@.len() >= FRAME_BYTES,
            forall|i: int| 0 <= i < 4 * p ==> #[trigger] frame@[i] == pattern_byte(tick, i),
            forall|i: int| 4 * p <= i < old(frame)@.len() ==> #[trigger] frame@[i] == old(frame)@[i],
        decreases WIDTH * HEIGHT - p,
    {
        let x = (p % WIDTH) as u32;
        let y = (p / WIDTH) as u32;
        let offset = p * BPP;
        let r = ((x + tick) & 0xff) as u8;
        let g = ((y + tick * 2) & 0xff) as u8;
        let b = ((x ^ y ^ tick) & 0xff) as u8;
        frame[offset] = b;
        frame[offset + 1] = g;
        frame[offset + 2] = r;
        frame[offset + 3] = 0xff;
        proof {
            assert((4 * p) / 4 == p && (4 * p) % 4 == 0 && (4 * p + 1) / 4 == p && (4 * p + 1) % 4 == 1
                && (4 * p + 2) / 4 == p && (4 * p + 2) % 4 == 2 && (4 * p + 3) / 4 == p && (4 * p + 3) % 4
                == 3) by (nonlinear_arith);
            assert(frame@[offset as int] == pattern_byte(tick, offset as int));
            assert(frame@[offset + 1] == pattern_byte(tick, offset + 1));
            assert(frame@[offset + 2] == pattern_byte(tick, offset + 2));
            assert(frame@[offset + 3] == pattern_byte(tick, offset + 3));
        }
        p = p + 1;
    }
}

/// Whether a polled input event asks to leave: ESC pressed (or held).
pub fn is_exit_event(got: bool, event: &InputEventUser) -> (r: bool)
    ensures
        r == (got && event.event_type == EV_KEY && event.code == KEY_ESC && event.value != 0),
{
    got && event.event_type == EV_KEY && event.code == KEY_ESC && event.value != 0
}

} // verus!
