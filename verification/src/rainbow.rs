//! The color sweep: a seven-color spectrum marching across the screen.
//!
//! The sweep is the one stateful effect: most cells repeat between
//! ticks, so it draws into the double buffer and lets the differ emit
//! only what moved.

use vstd::prelude::*;
use vstd::string::StrSliceExecFns;
use crate::buffer::FrameBuffer;
use crate::caption::caption_start_spec;
use crate::color::{spectrum, spectrum_spec, Rgb};
use crate::terminal::Cell;

verus! {

/// The spectrum index of a column at a time bucket: the column plus
/// the bucket, wrapped around the seven entries.
pub open spec fn sweep_index(x: int, k: int) -> int {
    (x + k) % 7
}

/// The time bucket: the sweep advances one column every tenth of a
/// second.
pub open spec fn sweep_offset(elapsed_ms: int) -> int {
    elapsed_ms / 100
}

/// The sweep wraps: seven columns apart, the same spectrum entry.
pub proof fn lemma_sweep_cyclic(x: int, k: int)
    ensures
        sweep_index(x + 7, k) == sweep_index(x, k),
{
    vstd::arithmetic::div_mod::lemma_mod_add_multiples_vanish(x + k, 7);
}

/// What the sweep puts at a (0-based) buffer position: the caption's
/// glyph in white on its centered row, and the marching spectrum
/// marker everywhere else. The spectrum index depends on the column
/// and the time bucket alone, never on the row.
pub open spec fn rainbow_cell(
    text: Seq<char>,
    w: int,
    h: int,
    elapsed_ms: int,
    x: int,
    y: int,
) -> Cell {
    let row = h / 2 - 1;
    let start = caption_start_spec(w / 2, text.len() as int);
    if y == row && start <= x < start + text.len() {
        Cell { glyph: text[x - start], color: Rgb { r: 255, g: 255, b: 255 } }
    } else {
        Cell { glyph: '*', color: spectrum_spec(sweep_index(x, sweep_offset(elapsed_ms))) }
    }
}

/// Draws one sweep frame into the buffer: every cell takes its
/// per-column spectrum color for this time bucket, except the caption,
/// which sits in white one row above the vertical center.
pub fn rainbow_frame(buf: &mut FrameBuffer, text: &str, elapsed_ms: u64)
    requires
        old(buf).wf(),
        old(buf).height >= 2,
        text@.len() <= old(buf).width,
    ensures
        final(buf).wf(),
        final(buf).width == old(buf).width,
        final(buf).height == old(buf).height,
        forall|x: int, y: int|
            0 <= x < final(buf).width && 0 <= y < final(buf).height ==> final(buf).cell_at(x, y)
                == rainbow_cell(
                text@,
                final(buf).width as int,
                final(buf).height as int,
                elapsed_ms as int,
                x,
                y,
            ),
{
    let w = buf.width;
    let h = buf.height;
    let len: u16 = text.unicode_len() as u16;
    let row: u16 = h / 2 - 1;
    let start: u16 = w / 2 - len / 2;
    let offset: u64 = elapsed_ms / 100;
    let mut y: u16 = 0;
    while y < h
        invariant
            buf.wf(),
            buf.width == w,
            buf.height == h,
            h >= 2,
            text@.len() == len <= w,
            row == h / 2 - 1,
            start == caption_start_spec(w as int / 2, len as int),
            offset == sweep_offset(elapsed_ms as int),
            y <= h,
            forall|xi: int, yi: int|
                0 <= xi < w && 0 <= yi < y ==> buf.cell_at(xi, yi) == rainbow_cell(
                    text@, w as int, h as int, elapsed_ms as int, xi, yi),
        decreases h - y,
    {
        let mut x: u16 = 0;
        while x < w
            invariant
                buf.wf(),
                buf.width == w,
                buf.height == h,
                h >= 2,
                text@.len() == len <= w,
                row == h / 2 - 1,
                start == caption_start_spec(w as int / 2, len as int),
                offset == sweep_offset(elapsed_ms as int),
                y < h,
                x <= w,
                forall|xi: int, yi: int|
                    0 <= xi < w && 0 <= yi < y ==> buf.cell_at(xi, yi) == rainbow_cell(
                        text@, w as int, h as int, elapsed_ms as int, xi, yi),
                forall|xi: int|
                    0 <= xi < x ==> buf.cell_at(xi, y as int) == rainbow_cell(
                        text@, w as int, h as int, elapsed_ms as int, xi, y as int),
            decreases w - x,
        {
            let cell: Cell = if y == row && start <= x && x < start + len {
                let i: usize = (x - start) as usize;
                Cell { glyph: text.get_char(i), color: Rgb { r: 255, g: 255, b: 255 } }
            } else {
                let idx: u64 = ((x as u64) + offset) % 7;
                Cell { glyph: '*', color: spectrum(idx) }
            };
            assert(cell == rainbow_cell(
                text@, w as int, h as int, elapsed_ms as int, x as int, y as int));
            let ghost pre = *buf;
            buf.write(x, y, cell);
            proof {
                lemma_cell_at_update(pre, *buf, w as int, h as int, x as int, y as int, cell);
            }
            x = x + 1;
        }
        y = y + 1;
    }
}

/// After one in-bounds write, the written position holds the new cell
/// and every other position is unchanged.
proof fn lemma_cell_at_update(
    pre: FrameBuffer,
    post: FrameBuffer,
    w: int,
    h: int,
    x: int,
    y: int,
    cell: Cell,
)
    requires
        pre.wf(),
        pre.width == w,
        pre.height == h,
        post.width == w,
        post.height == h,
        0 <= x < w,
        0 <= y < h,
        post.cells@ == pre.cells@.update(y * w + x, cell),
    ensures
        post.cell_at(x, y) == cell,
        forall|xi: int, yi: int|
            0 <= xi < w && 0 <= yi < h && !(xi == x && yi == y) ==> post.cell_at(xi, yi)
                == pre.cell_at(xi, yi),
{
    assert(0 <= y * w + x < w * h) by (nonlinear_arith)
        requires
            0 <= x < w,
            0 <= y < h,
    ;
    assert forall|xi: int, yi: int|
        0 <= xi < w && 0 <= yi < h && !(xi == x && yi == y) implies post.cell_at(xi, yi)
        == pre.cell_at(xi, yi) by {
        assert(yi * w + xi != y * w + x) by {
            vstd::arithmetic::div_mod::lemma_fundamental_div_mod_converse(yi * w + xi, w, yi, xi);
            vstd::arithmetic::div_mod::lemma_fundamental_div_mod_converse(y * w + x, w, y, x);
        }
        assert(0 <= yi * w + xi < w * h) by (nonlinear_arith)
            requires
                0 <= xi < w,
                0 <= yi < h,
        ;
    }
}

} // verus!
