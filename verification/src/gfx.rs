//! Pixels: colours, the rectangles the demo programs draw, and a frame
//! buffer that fills them clipped to its edges.
use vstd::prelude::*;

verus! {

/// An opaque pixel with the given red, green and blue parts, laid out as
/// the display reads it: alpha in the top byte, then red, green, blue.
pub open spec fn rgb_spec(r: u8, g: u8, b: u8) -> u32 {
    (0xff00_0000 + r * 0x1_0000 + g * 0x100 + b) as u32
}

/// An opaque pixel with the given red, green and blue parts.
pub fn rgb(r: u8, g: u8, b: u8) -> (c: u32)
    ensures
        c == rgb_spec(r, g, b),
{
    let c: u32 = 0xff00_0000 | ((r as u32) << 16) | ((g as u32) << 8) | b as u32;
    assert(c == 0xff00_0000 + r * 0x1_0000 + g * 0x100 + b) by (bit_vector)
        requires
            c == 0xff00_0000u32 | ((r as u32) << 16u32) | ((g as u32) << 8u32) | b as u32,
    ;
    c
}

/// A filled rectangle: left, top, width, height, colour.
#[derive(Clone, Copy, PartialEq, Eq, Structural, Debug)]
pub struct Rect {
    pub x: usize,
    pub y: usize,
    pub w: usize,
    pub h: usize,
    pub color: u32,
}

/// A rectangle.
pub open spec fn rect(x: int, y: int, w: int, h: int, color: u32) -> Rect {
    Rect { x: x as usize, y: y as usize, w: w as usize, h: h as usize, color }
}

/// Pixels of a `width` by `height` frame, row by row.
pub struct FrameBuffer {
    pub pixels: Vec<u32>,
    pub width: usize,
    pub height: usize,
}

/// Whether pixel `(px, py)` lies in the rectangle (clipped to the frame).
pub open spec fn covers(x: int, y: int, w: int, h: int, px: int, py: int) -> bool {
    x <= px < x + w && y <= py < y + h
}

/// The pixels after filling a rectangle: inside it (and the frame) the
/// colour, elsewhere as before.
pub open spec fn filled(
    pixels: Seq<u32>,
    width: int,
    height: int,
    x: int,
    y: int,
    w: int,
    h: int,
    color: u32,
) -> Seq<u32> {
    Seq::new(
        pixels.len(),
        |i: int|
            if covers(x, y, w, h, i % (width as int), i / (width as int)) && i / (width as int) < height {
                color
            } else {
                pixels[i]
            },
    )
}

impl FrameBuffer {
    pub open spec fn wf(&self) -> bool {
        &&& self.width > 0
        &&& self.pixels@.len() == self.width * self.height
    }

    /// A `width` by `height` frame of colour `color`.
    pub fn new(width: usize, height: usize, color: u32) -> (r: FrameBuffer)
        requires
            width > 0,
            width * height <= usize::MAX,
        ensures
            r.wf(),
            r.width == width,
            r.height == height,
            forall|i: int| 0 <= i < r.pixels@.len() ==> #[trigger] r.pixels@[i] == color,
    {
        let n = width * height;
        let mut pixels: Vec<u32> = Vec::new();
        let mut i: usize = 0;
        while i < n
            invariant
                i <= n,
                pixels@.len() == i,
                forall|k: int| 0 <= k < i ==> #[trigger] pixels@[k] == color,
            decreases n - i,
        {
            pixels.push(color);
            i = i + 1;
        }
        FrameBuffer { pixels, width, height }
    }
}


/// Fills a rectangle, clipped to the frame: nothing when it is empty or
/// starts past the right or bottom edge.
pub fn fill_rect(fb: &mut FrameBuffer, x: usize, y: usize, w: usize, h: usize, color: u32)
    requires
        old(fb).wf(),
    ensures
        final(fb).wf(),
        final(fb).width == old(fb).width,
        final(fb).height == old(fb).height,
        final(fb).pixels@ == filled(
            old(fb).pixels@,
            old(fb).width as int,
            old(fb).height as int,
            x as int,
            y as int,
            w as int,
            h as int,
            color,
        ),
{
    let ghost orig = fb.pixels@;
    let width = fb.width;
    let height = fb.height;
    if w == 0 || h == 0 || x >= width || y >= height {
        proof {
            assert forall|i: int| 0 <= i < orig.len() implies !(#[trigger] covers(x as int, y as int, w as int, h as int, i % width as int, i / width as int) && i / (width as int) < height) by {
                if i / (width as int) < height {
                    assert(0 <= i % (width as int) < width);
                }
            }
        }
        assert(fb.pixels@ =~= filled(orig, width as int, height as int, x as int, y as int, w as int, h as int, color));
        return;
    }
    let x_end = if x.saturating_add(w) < width {
        x.saturating_add(w)
    } else {
        width
    };
    let y_end = if y.saturating_add(h) < height {
        y.saturating_add(h)
    } else {
        height
    };
    let mut row = y;
    while row < y_end
        invariant
            y <= row <= y_end <= height,
            x < x_end <= width,
            width == fb.width,
            height == fb.height,
            fb.wf(),
            x_end == (if x + w < width { x + w } else { width as int }),
            y_end == (if y + h < height { y + h } else { height as int }),
            orig.len() == width * height,
            forall|i: int|
                0 <= i < orig.len() ==> #[trigger] fb.pixels@[i] == if covers(
                    x as int,
                    y as int,
                    w as int,
                    h as int,
                    i % width as int,
                    i / width as int,
                ) && i / (width as int) < row {
                    color
                } else {
                    orig[i]
                },
        decreases y_end - row,
    {
        assert(row * width + x_end <= width * height) by (nonlinear_arith)
            requires
                row + 1 <= height,
                x_end <= width,
                width > 0,
        ;
        let total = fb.pixels.len();
        assert(total == width * height);
        let start = row * width + x;
        let end = row * width + x_end;
        let mut col = start;
        while col < end
            invariant
                start <= col <= end,
                start == row * width + x,
                end == row * width + x_end,
                y <= row < y_end <= height,
                x < x_end <= width,
                width == fb.width,
                height == fb.height,
                fb.wf(),
                x_end == (if x + w < width { x + w } else { width as int }),
                orig.len() == width * height,
                end <= width * height,
                forall|i: int|
                    0 <= i < orig.len() ==> #[trigger] fb.pixels@[i] == if (covers(
                        x as int,
                        y as int,
                        w as int,
                        h as int,
                        i % width as int,
                        i / width as int,
                    ) && i / (width as int) < row) || (start <= i < col) {
                        color
                    } else {
                        orig[i]
                    },
            decreases end - col,
        {
            fb.pixels.set(col, color);
            col = col + 1;
        }
        proof {
            assert forall|i: int| 0 <= i < orig.len() implies #[trigger] fb.pixels@[i] == if covers(
                x as int,
                y as int,
                w as int,
                h as int,
                i % width as int,
                i / width as int,
            ) && i / (width as int) < row + 1 {
                color
            } else {
                orig[i]
            } by {
                vstd::arithmetic::div_mod::lemma_fundamental_div_mod(i, width as int);
                if start <= i < end {
                    vstd::arithmetic::div_mod::lemma_div_pos_is_pos(i, width as int);
                    assert(i / (width as int) == row) by (nonlinear_arith)
                        requires
                            start <= i < end,
                            start == row * width + x,
                            end == row * width + x_end,
                            x_end <= width,
                            width > 0,
                            i == (width as int) * (i / (width as int)) + i % (width as int),
                            0 <= i % (width as int) < width,
                    ;
                    assert(i % (width as int) == i - row * width) by (nonlinear_arith)
                        requires
                            i == (width as int) * (i / (width as int)) + i % (width as int),
                            i / (width as int) == row,
                    ;
                } else if i / (width as int) == row {
                    assert(i == row * width + i % (width as int)) by (nonlinear_arith)
                        requires
                            i == (width as int) * (i / (width as int)) + i % (width as int),
                            i / (width as int) == row,
                    ;
                }
            }
        }
        row = row + 1;
    }
    proof {
        assert forall|i: int| 0 <= i < orig.len() implies #[trigger] fb.pixels@[i] == filled(orig, width as int, height as int, x as int, y as int, w as int, h as int, color)[i] by {
            if covers(x as int, y as int, w as int, h as int, i % width as int, i / width as int) && i / (width as int) < height {
                assert(i / (width as int) < y_end);
            }
        }
    }
    assert(fb.pixels@ =~= filled(orig, width as int, height as int, x as int, y as int, w as int, h as int, color));
}

/// Fills the whole frame with `color`.
pub fn clear(fb: &mut FrameBuffer, color: u32)
    requires
        old(fb).wf(),
    ensures
        final(fb).wf(),
        final(fb).width == old(fb).width,
        final(fb).height == old(fb).height,
        final(fb).pixels@ == filled(
            old(fb).pixels@,
            old(fb).width as int,
            old(fb).height as int,
            0,
            0,
            old(fb).width as int,
            old(fb).height as int,
            color,
        ),
{
    let width = fb.width;
    let height = fb.height;
    fill_rect(fb, 0, 0, width, height, color);
}
/// Bytes in the DMA pool the GPU driver allocates from.
pub const DMA_POOL_SIZE: usize = 0x40_0000;

/// `n` rounded up to a whole page.
pub open spec fn page_round_up(n: int) -> int {
    ((n + 4095) / 4096) * 4096
}

/// Takes `pages` pages from the DMA pool at `pool_base`, bump-allocated
/// from the page-aligned `next`; gives their address, or 0 (taking
/// nothing) when the pool has no room.
pub fn dma_alloc(next: &mut usize, pool_base: usize, pages: usize) -> (addr: usize)
    requires
        *old(next) <= DMA_POOL_SIZE,
        pages * 4096 <= usize::MAX,
        pool_base + DMA_POOL_SIZE <= usize::MAX,
    ensures
        *final(next) <= DMA_POOL_SIZE,
        page_round_up(*old(next) as int) + pages * 4096 > DMA_POOL_SIZE ==> addr == 0 && *final(next) == *old(next),
        page_round_up(*old(next) as int) + pages * 4096 <= DMA_POOL_SIZE ==> addr == pool_base + page_round_up(*old(next) as int)
            && *final(next) == page_round_up(*old(next) as int) + pages * 4096,
{
    let size = pages * 4096;
    let cur = *next;
    let bumped: usize = cur + 4095;
    let aligned = bumped & !4095usize;
    assert(aligned == (bumped / 4096) * 4096) by (bit_vector)
        requires
            aligned == bumped & !4095usize,
    ;
    if aligned > DMA_POOL_SIZE || size > DMA_POOL_SIZE - aligned {
        return 0;
    }
    let end = aligned + size;
    *next = end;
    pool_base + aligned
}

} // verus!
