//! The wave fields: a blue interference pattern, and its rainbow
//! gradient variant. Both redraw the whole screen every tick and skip
//! the caption's span, so the caption never flickers.

use vstd::prelude::*;
use vstd::string::StrSliceExecFns;
use crate::caption::{caption_covers, caption_start_spec};
use crate::color::{hsv_rgb_spec, hsv_to_rgb, Rgb};
use crate::fixed::{cos_fp, cos_fp_spec, lemma_sin_fp_bounds, sin_fp, sin_fp_spec, FP_SCALE};
use crate::render::DrawCmd;
use crate::terminal::Terminal;

verus! {

/// The largest elapsed time the wave effects accept, in milliseconds:
/// far beyond any real run, and small enough that no fixed-point angle
/// overflows.
pub const ELAPSED_MAX_MS: u64 = 1_000_000_000;

/// The angle the column feeds the sine: `x * 0.1 + t * 2.0`, with the
/// time in seconds.
pub open spec fn wave_angle_x(x: int, ms: int) -> int {
    x * (FP_SCALE as int / 10) + ms * (FP_SCALE as int / 500)
}

/// The angle the row feeds the cosine: `y * 0.1 + t * 1.5`.
pub open spec fn wave_angle_y(y: int, ms: int) -> int {
    y * (FP_SCALE as int / 10) + ms * (3 * FP_SCALE as int / 2000)
}

/// The combined wave: the column's sine plus the row's cosine.
pub open spec fn combined_spec(x: int, y: int, ms: int) -> int {
    sin_fp_spec(wave_angle_x(x, ms)) + cos_fp_spec(wave_angle_y(y, ms))
}

/// The sum of a sine and a cosine stays within two units.
pub proof fn lemma_combined_bounded(x: int, y: int, ms: int)
    requires
        x >= 0,
        y >= 0,
        ms >= 0,
    ensures
        -2 * FP_SCALE <= combined_spec(x, y, ms) <= 2 * FP_SCALE,
{
    lemma_sin_fp_bounds(wave_angle_x(x, ms));
    lemma_sin_fp_bounds(wave_angle_y(y, ms) + crate::fixed::HALF_PI_FP);
}

/// The blue channel of a wave cell: the combined wave moved up into
/// `[0, 4]` units, scaled to 8 bits and truncated.
pub open spec fn wave_blue(x: int, y: int, ms: int) -> int {
    (combined_spec(x, y, ms) + 2 * FP_SCALE) * 255 / (4 * FP_SCALE as int)
}

/// The blue channel always fits in 8 bits.
pub proof fn lemma_wave_blue_in_range(x: int, y: int, ms: int)
    requires
        x >= 0,
        y >= 0,
        ms >= 0,
    ensures
        0 <= wave_blue(x, y, ms) <= 255,
{
    lemma_combined_bounded(x, y, ms);
    let shifted = combined_spec(x, y, ms) + 2 * FP_SCALE;
    assert(0 <= shifted * 255 <= 4 * FP_SCALE * 255) by (nonlinear_arith)
        requires
            0 <= shifted <= 4 * FP_SCALE,
    ;
    vstd::arithmetic::div_mod::lemma_div_is_ordered(0, shifted * 255, 4 * FP_SCALE as int);
    vstd::arithmetic::div_mod::lemma_div_is_ordered(
        shifted * 255,
        4 * FP_SCALE * 255,
        4 * FP_SCALE as int,
    );
    vstd::arithmetic::div_mod::lemma_div_multiples_vanish(255, 4 * FP_SCALE as int);
}

/// What the blue wave field puts at a (1-based) screen position: the
/// wave's blue shade, or nothing where the caption's span sits.
pub open spec fn waves_cell(w: int, h: int, len: int, ms: int, x: int, y: int) -> Option<DrawCmd> {
    if caption_covers(w / 2, h / 2, len, x, y) {
        None
    } else {
        Some(
            DrawCmd {
                x: x as u16,
                y: y as u16,
                color: Rgb { r: 0, g: 0, b: wave_blue(x, y, ms) as u8 },
                glyph: '\u{2593}',
            },
        )
    }
}

/// The draw commands of one full pass over the first `n` cells of a
/// `w`-wide grid, in row-major order with 1-based coordinates; `cell`
/// says what each position gets, and `None` skips it.
pub open spec fn grid_cmds(cell: spec_fn(int, int) -> Option<DrawCmd>, w: int, n: nat) -> Seq<
    DrawCmd,
>
    decreases n,
{
    if n == 0 {
        Seq::empty()
    } else {
        let i = (n - 1) as int;
        let prev = grid_cmds(cell, w, (n - 1) as nat);
        match cell(i % w + 1, i / w + 1) {
            Some(c) => prev.push(c),
            None => prev,
        }
    }
}

/// The caption's draw commands: its glyphs in white, left to right on
/// the caption row.
pub open spec fn caption_cmds(text: Seq<char>, start: int, row: int) -> Seq<DrawCmd>
    decreases text.len(),
{
    if text.len() == 0 {
        Seq::empty()
    } else {
        caption_cmds(text.drop_last(), start, row).push(
            DrawCmd {
                x: (start + text.len() - 1) as u16,
                y: row as u16,
                color: Rgb { r: 255, g: 255, b: 255 },
                glyph: text.last(),
            },
        )
    }
}

/// Pushes the caption's commands: the text in white, starting at
/// `start` on row `row` (both 1-based).
pub fn push_caption_cmds(cmds: &mut Vec<DrawCmd>, text: &str, start: u16, row: u16)
    requires
        start + text@.len() <= 0xffff,
    ensures
        final(cmds)@ == old(cmds)@ + caption_cmds(text@, start as int, row as int),
        final(cmds)@.len() == old(cmds)@.len() + text@.len(),
{
    let len = text.unicode_len();
    proof {
        assert(text@.take(0) =~= Seq::<char>::empty());
        assert(old(cmds)@ + caption_cmds(text@.take(0), start as int, row as int) =~= old(cmds)@);
    }
    let mut i: usize = 0;
    while i < len
        invariant
            len == text@.len(),
            start + len <= 0xffff,
            i <= len,
            cmds@ == old(cmds)@ + caption_cmds(text@.take(i as int), start as int, row as int),
            cmds@.len() == old(cmds)@.len() + i,
        decreases len - i,
    {
        let c = text.get_char(i);
        let cmd = DrawCmd {
            x: start + i as u16,
            y: row,
            color: Rgb { r: 255, g: 255, b: 255 },
            glyph: c,
        };
        cmds.push(cmd);
        proof {
            let t1 = text@.take(i as int + 1);
            assert(t1.drop_last() =~= text@.take(i as int));
            assert(t1.last() == text@[i as int]);
            assert(caption_cmds(t1, start as int, row as int) == caption_cmds(
                text@.take(i as int),
                start as int,
                row as int,
            ).push(cmd));
            assert(cmds@ =~= old(cmds)@ + caption_cmds(t1, start as int, row as int));
        }
        i = i + 1;
    }
    proof {
        assert(text@.take(len as int) =~= text@);
    }
}

/// The blue wave field's commands for the first `n` cells.
pub open spec fn waves_cmds(w: int, h: int, len: int, ms: int, n: nat) -> Seq<DrawCmd> {
    grid_cmds(|x: int, y: int| waves_cell(w, h, len, ms, x, y), w, n)
}

/// The wave's blue shade at a (1-based) screen position.
pub fn wave_shade(x: u32, y: u32, elapsed_ms: u64) -> (b: u8)
    requires
        1 <= x <= 0xffff,
        1 <= y <= 0xffff,
        elapsed_ms <= ELAPSED_MAX_MS,
    ensures
        b == wave_blue(x as int, y as int, elapsed_ms as int),
{
    let ax: i64 = (x as i64) * (FP_SCALE / 10) + (elapsed_ms as i64) * (FP_SCALE / 500);
    let ay: i64 = (y as i64) * (FP_SCALE / 10) + (elapsed_ms as i64) * (3 * FP_SCALE / 2000);
    let s = sin_fp(ax);
    let c = cos_fp(ay);
    let combined: i64 = s + c;
    proof {
        lemma_wave_blue_in_range(x as int, y as int, elapsed_ms as int);
        vstd::arithmetic::div_mod::lemma_div_is_ordered(
            0,
            (combined + 2 * FP_SCALE) * 255,
            4 * FP_SCALE as int,
        );
        assert(0 <= (combined + 2 * FP_SCALE) * 255 <= 4 * FP_SCALE * 255) by (nonlinear_arith)
            requires
                0 <= combined + 2 * FP_SCALE <= 4 * FP_SCALE,
        ;
    }
    (((combined + 2 * FP_SCALE) as u64) * 255 / ((4 * FP_SCALE) as u64)) as u8
}

/// One tick of the blue wave field: every cell outside the caption's
/// span gets its wave shade, then the caption is drawn last, so it
/// always stays legible.
pub fn waves_frame(term: &Terminal, text: &str, elapsed_ms: u64) -> (cmds: Vec<DrawCmd>)
    requires
        term.wf(),
        term.height >= 2,
        text@.len() / 2 < term.width / 2,
        text@.len() <= term.width,
        elapsed_ms <= ELAPSED_MAX_MS,
    ensures
        cmds@ == waves_cmds(
            term.width as int,
            term.height as int,
            text@.len() as int,
            elapsed_ms as int,
            (term.width * term.height) as nat,
        ) + caption_cmds(
            text@,
            caption_start_spec(term.width as int / 2, text@.len() as int),
            term.height as int / 2,
        ),
{
    let w = term.width;
    let h = term.height;
    let len: u16 = text.unicode_len() as u16;
    let cx: u16 = w / 2;
    let cy: u16 = h / 2;
    let start: u16 = cx - len / 2;
    let mut cmds: Vec<DrawCmd> = Vec::new();
    let mut y: u32 = 1;
    while y <= h as u32
        invariant
            w == term.width,
            h == term.height,
            w >= 1,
            h >= 2,
            len == text@.len(),
            len <= w,
            cx == w / 2,
            cy == h / 2,
            start == caption_start_spec(w as int / 2, len as int),
            elapsed_ms <= ELAPSED_MAX_MS,
            1 <= y <= h as u32 + 1,
            cmds@ == waves_cmds(
                w as int,
                h as int,
                len as int,
                elapsed_ms as int,
                ((y - 1) * (w as u32)) as nat,
            ),
        decreases h as u32 + 1 - y,
    {
        let mut x: u32 = 1;
        while x <= w as u32
            invariant
                w == term.width,
                h == term.height,
                w >= 1,
                h >= 2,
                len == text@.len(),
                len <= w,
                cx == w / 2,
                cy == h / 2,
                start == caption_start_spec(w as int / 2, len as int),
                elapsed_ms <= ELAPSED_MAX_MS,
                1 <= y <= h as u32,
                1 <= x <= w as u32 + 1,
                cmds@ == waves_cmds(
                    w as int,
                    h as int,
                    len as int,
                    elapsed_ms as int,
                    ((y - 1) * (w as u32) + (x - 1)) as nat,
                ),
            decreases w as u32 + 1 - x,
        {
            proof {
                lemma_grid_step(w as int, h as int, x as int, y as int);
            }
            let ghost n: nat = ((y - 1) * (w as u32) + (x - 1)) as nat;
            if !(y == cy as u32 && start as u32 <= x && x <= start as u32 + len as u32) {
                let blue: u8 = wave_shade(x, y, elapsed_ms);
                let cmd = DrawCmd {
                    x: x as u16,
                    y: y as u16,
                    color: Rgb { r: 0, g: 0, b: blue },
                    glyph: '\u{2593}',
                };
                proof {
                    assert(waves_cell(
                        w as int,
                        h as int,
                        len as int,
                        elapsed_ms as int,
                        x as int,
                        y as int,
                    ) == Some(cmd));
                    assert(waves_cmds(w as int, h as int, len as int, elapsed_ms as int, n + 1)
                        == waves_cmds(w as int, h as int, len as int, elapsed_ms as int, n).push(
                        cmd,
                    ));
                }
                cmds.push(cmd);
            } else {
                proof {
                    assert(waves_cell(
                        w as int,
                        h as int,
                        len as int,
                        elapsed_ms as int,
                        x as int,
                        y as int,
                    ) is None);
                    assert(waves_cmds(w as int, h as int, len as int, elapsed_ms as int, n + 1)
                        == waves_cmds(w as int, h as int, len as int, elapsed_ms as int, n));
                }
            }
            x = x + 1;
        }
        proof {
            assert((y - 1) * (w as u32) + (w as u32) == y * (w as u32)) by (nonlinear_arith);
        }
        y = y + 1;
    }
    proof {
        assert((h as int) * (w as int) == (w as int) * (h as int)) by (nonlinear_arith);
    }
    push_caption_cmds(&mut cmds, text, start, cy);
    cmds
}


/// The gradient variant's hue: the time and both coordinates drift it,
/// wrapped into the unit.
pub open spec fn gradient_hue(x: int, y: int, ms: int) -> int {
    (ms * (FP_SCALE as int / 5000) + x * (FP_SCALE as int / 50) + y * (FP_SCALE as int / 50))
        % (FP_SCALE as int)
}

/// The gradient variant's value: the combined wave scaled into
/// `[0, 0.8]` with a floor brightness of `0.2`, so no cell goes fully
/// black.
pub open spec fn gradient_value(x: int, y: int, ms: int) -> int {
    (combined_spec(x, y, ms) + 2 * FP_SCALE) / 5 + FP_SCALE as int / 5
}

/// The gradient's value keeps its floor brightness and stays a unit.
pub proof fn lemma_gradient_value_range(x: int, y: int, ms: int)
    requires
        x >= 0,
        y >= 0,
        ms >= 0,
    ensures
        FP_SCALE as int / 5 <= gradient_value(x, y, ms) <= FP_SCALE,
{
    lemma_combined_bounded(x, y, ms);
    let shifted = combined_spec(x, y, ms) + 2 * FP_SCALE;
    vstd::arithmetic::div_mod::lemma_div_is_ordered(0, shifted, 5);
    vstd::arithmetic::div_mod::lemma_div_is_ordered(shifted, 4 * FP_SCALE as int, 5);
}

/// What the gradient wave field puts at a (1-based) screen position:
/// the drifting hue at fixed saturation `0.8`, brightened by the wave.
pub open spec fn gradient_cell(w: int, h: int, len: int, ms: int, x: int, y: int) -> Option<
    DrawCmd,
> {
    if caption_covers(w / 2, h / 2, len, x, y) {
        None
    } else {
        Some(
            DrawCmd {
                x: x as u16,
                y: y as u16,
                color: hsv_rgb_spec(
                    gradient_hue(x, y, ms),
                    4 * FP_SCALE as int / 5,
                    gradient_value(x, y, ms),
                ),
                glyph: '\u{2593}',
            },
        )
    }
}

/// The gradient wave field's commands for the first `n` cells.
pub open spec fn gradient_cmds(w: int, h: int, len: int, ms: int, n: nat) -> Seq<DrawCmd> {
    grid_cmds(|x: int, y: int| gradient_cell(w, h, len, ms, x, y), w, n)
}

/// The gradient's color at a (1-based) screen position.
pub fn gradient_shade(x: u32, y: u32, elapsed_ms: u64) -> (c: Rgb)
    requires
        1 <= x <= 0xffff,
        1 <= y <= 0xffff,
        elapsed_ms <= ELAPSED_MAX_MS,
    ensures
        c == hsv_rgb_spec(
            gradient_hue(x as int, y as int, elapsed_ms as int),
            4 * FP_SCALE as int / 5,
            gradient_value(x as int, y as int, elapsed_ms as int),
        ),
{
    let hraw: i64 = (elapsed_ms as i64) * (FP_SCALE / 5000) + (x as i64) * (FP_SCALE / 50) + (
    y as i64) * (FP_SCALE / 50);
    let hue: i64 = ((hraw as u64) % (FP_SCALE as u64)) as i64;
    let ax: i64 = (x as i64) * (FP_SCALE / 10) + (elapsed_ms as i64) * (FP_SCALE / 500);
    let ay: i64 = (y as i64) * (FP_SCALE / 10) + (elapsed_ms as i64) * (3 * FP_SCALE / 2000);
    let s = sin_fp(ax);
    let c = cos_fp(ay);
    let combined: i64 = s + c;
    proof {
        lemma_gradient_value_range(x as int, y as int, elapsed_ms as int);
    }
    let value: i64 = (combined + 2 * FP_SCALE) / 5 + FP_SCALE / 5;
    hsv_to_rgb(hue, 4 * FP_SCALE / 5, value)
}

/// One tick of the gradient wave field: every cell outside the
/// caption's span gets its drifting rainbow shade, then the caption is
/// drawn last.
pub fn waves_gradient_frame(term: &Terminal, text: &str, elapsed_ms: u64) -> (cmds: Vec<DrawCmd>)
    requires
        term.wf(),
        term.height >= 2,
        text@.len() / 2 < term.width / 2,
        text@.len() <= term.width,
        elapsed_ms <= ELAPSED_MAX_MS,
    ensures
        cmds@ == gradient_cmds(
            term.width as int,
            term.height as int,
            text@.len() as int,
            elapsed_ms as int,
            (term.width * term.height) as nat,
        ) + caption_cmds(
            text@,
            caption_start_spec(term.width as int / 2, text@.len() as int),
            term.height as int / 2,
        ),
{
    let w = term.width;
    let h = term.height;
    let len: u16 = text.unicode_len() as u16;
    let cx: u16 = w / 2;
    let cy: u16 = h / 2;
    let start: u16 = cx - len / 2;
    let mut cmds: Vec<DrawCmd> = Vec::new();
    let mut y: u32 = 1;
    while y <= h as u32
        invariant
            w == term.width,
            h == term.height,
            w >= 1,
            h >= 2,
            len == text@.len(),
            len <= w,
            cx == w / 2,
            cy == h / 2,
            start == caption_start_spec(w as int / 2, len as int),
            elapsed_ms <= ELAPSED_MAX_MS,
            1 <= y <= h as u32 + 1,
            cmds@ == gradient_cmds(
                w as int,
                h as int,
                len as int,
                elapsed_ms as int,
                ((y - 1) * (w as u32)) as nat,
            ),
        decreases h as u32 + 1 - y,
    {
        let mut x: u32 = 1;
        while x <= w as u32
            invariant
                w == term.width,
                h == term.height,
                w >= 1,
                h >= 2,
                len == text@.len(),
                len <= w,
                cx == w / 2,
                cy == h / 2,
                start == caption_start_spec(w as int / 2, len as int),
                elapsed_ms <= ELAPSED_MAX_MS,
                1 <= y <= h as u32,
                1 <= x <= w as u32 + 1,
                cmds@ == gradient_cmds(
                    w as int,
                    h as int,
                    len as int,
                    elapsed_ms as int,
                    ((y - 1) * (w as u32) + (x - 1)) as nat,
                ),
            decreases w as u32 + 1 - x,
        {
            proof {
                lemma_grid_step(w as int, h as int, x as int, y as int);
            }
            let ghost n: nat = ((y - 1) * (w as u32) + (x - 1)) as nat;
            if !(y == cy as u32 && start as u32 <= x && x <= start as u32 + len as u32) {
                let color = gradient_shade(x, y, elapsed_ms);
                let cmd = DrawCmd { x: x as u16, y: y as u16, color, glyph: '\u{2593}' };
                proof {
                    assert(gradient_cell(
                        w as int,
                        h as int,
                        len as int,
                        elapsed_ms as int,
                        x as int,
                        y as int,
                    ) == Some(cmd));
                    assert(gradient_cmds(w as int, h as int, len as int, elapsed_ms as int, n + 1)
                        == gradient_cmds(w as int, h as int, len as int, elapsed_ms as int, n).push(
                        cmd,
                    ));
                }
                cmds.push(cmd);
            } else {
                proof {
                    assert(gradient_cell(
                        w as int,
                        h as int,
                        len as int,
                        elapsed_ms as int,
                        x as int,
                        y as int,
                    ) is None);
                    assert(gradient_cmds(w as int, h as int, len as int, elapsed_ms as int, n + 1)
                        == gradient_cmds(w as int, h as int, len as int, elapsed_ms as int, n));
                }
            }
            x = x + 1;
        }
        proof {
            assert((y - 1) * (w as u32) + (w as u32) == y * (w as u32)) by (nonlinear_arith);
        }
        y = y + 1;
    }
    proof {
        assert((h as int) * (w as int) == (w as int) * (h as int)) by (nonlinear_arith);
    }
    push_caption_cmds(&mut cmds, text, start, cy);
    cmds
}

/// Row-major position arithmetic for a 1-based grid scan: the linear
/// index of `(x, y)` decomposes back into its column and row.
pub(crate) proof fn lemma_grid_step(w: int, h: int, x: int, y: int)
    requires
        0 < w,
        0 < h,
        1 <= x <= w,
        1 <= y <= h,
    ensures
        ((y - 1) * w + (x - 1)) % w == x - 1,
        ((y - 1) * w + (x - 1)) / w == y - 1,
        0 <= (y - 1) * w + (x - 1) < w * h,
{
    assert(0 <= (y - 1) * w + (x - 1) < w * h) by (nonlinear_arith)
        requires
            0 < w,
            0 < h,
            1 <= x <= w,
            1 <= y <= h,
    ;
    vstd::arithmetic::div_mod::lemma_fundamental_div_mod_converse(
        (y - 1) * w + (x - 1),
        w,
        y - 1,
        x - 1,
    );
}


/// The wave generator never writes inside the caption's span: no
/// command of a wave frame lands on a covered position.
pub proof fn lemma_waves_skip_caption(w: int, h: int, len: int, ms: int, n: nat)
    requires
        0 < w <= 0xffff,
        0 < h <= 0xffff,
        n <= w * h,
    ensures
        forall|k: int|
            0 <= k < waves_cmds(w, h, len, ms, n).len() ==> !caption_covers(
                w / 2,
                h / 2,
                len,
                (#[trigger] waves_cmds(w, h, len, ms, n)[k]).x as int,
                waves_cmds(w, h, len, ms, n)[k].y as int,
            ),
    decreases n,
{
    if n > 0 {
        let m = (n - 1) as nat;
        lemma_waves_skip_caption(w, h, len, ms, m);
        let i = n - 1;
        vstd::arithmetic::div_mod::lemma_mod_bound(i, w);
        vstd::arithmetic::div_mod::lemma_div_is_ordered(0, i, w);
        vstd::arithmetic::div_mod::lemma_multiply_divide_lt(i, w, h);
        let x = i % w + 1;
        let y = i / w + 1;
        match waves_cell(w, h, len, ms, x, y) {
            Some(c) => {
                assert(c.x as int == x && c.y as int == y);
                let d = waves_cmds(w, h, len, ms, n);
                assert(d == waves_cmds(w, h, len, ms, m).push(c));
                assert forall|k: int|
                    0 <= k < d.len() implies !caption_covers(
                    w / 2,
                    h / 2,
                    len,
                    (#[trigger] d[k]).x as int,
                    d[k].y as int,
                ) by {
                    if k < d.len() - 1 {
                        assert(d[k] == waves_cmds(w, h, len, ms, m)[k]);
                    } else {
                        assert(d[k] == c);
                    }
                }
            },
            None => {
                assert(waves_cmds(w, h, len, ms, n) == waves_cmds(w, h, len, ms, m));
            },
        }
    }
}

} // verus!
