//! The fractal zoom: the quadratic-recurrence escape count shades each
//! cell, while a time-varying zoom factor rescales the window onto the
//! complex plane. Three variants share the frame and differ only in
//! the zoom-time law: a monotonic zoom-in that resets past a
//! threshold, an oscillation between two extremes, and a fast
//! sinusoidal wobble.

use vstd::prelude::*;
use vstd::string::StrSliceExecFns;
use crate::caption::{caption_covers, caption_start_spec};
use crate::color::{hsv_rgb_spec, hsv_to_rgb, Rgb};
use crate::fixed::{
    abs_i, div_trunc, emod, fp_div, fp_mul, fp_mul_spec, lemma_fp_mul_bound, sin_fp, sin_fp_spec,
    FP_SCALE,
};
use crate::render::DrawCmd;
use crate::terminal::Terminal;
use crate::waves::{caption_cmds, grid_cmds, push_caption_cmds, ELAPSED_MAX_MS};

verus! {

/// The iteration cap: a point still bounded after this many steps
/// counts as inside the set.
pub const MAX_ITER: u32 = 100;

/// The largest magnitude the plane mapping hands the iteration, per
/// component.
pub const MANDEL_C_MAX: i64 = 16 * FP_SCALE;

/// The band the iteration keeps its state in: four units from the
/// escape test plus the coordinate the mapping admits, with slack for
/// truncation.
pub const MANDEL_Z_MAX: i64 = 22 * FP_SCALE;

/// The zoom factors the mapping accepts: the oscillating variant dips
/// just below a fifth, and the resetting variant tops out just past
/// its fifty-fold threshold.
pub const ZOOM_MIN: i64 = 100_000;

pub const ZOOM_MAX: i64 = 51 * FP_SCALE;

/// How many recurrence steps the point takes before its squared
/// magnitude reaches four units, out of the `fuel` still allowed.
pub open spec fn escape_steps(cr: int, ci: int, zr: int, zi: int, fuel: nat) -> nat
    decreases fuel,
{
    if fuel == 0 {
        0
    } else if fp_mul_spec(zr, zr) + fp_mul_spec(zi, zi) >= 4 * FP_SCALE {
        0
    } else {
        1 + escape_steps(
            cr,
            ci,
            fp_mul_spec(zr, zr) - fp_mul_spec(zi, zi) + cr,
            fp_mul_spec(2 * zr, zi) + ci,
            (fuel - 1) as nat,
        )
    }
}

/// The escape iteration count of a point, from the zero state with the
/// full iteration budget.
pub open spec fn escape_count_spec(cr: int, ci: int) -> nat {
    escape_steps(cr, ci, 0, 0, MAX_ITER as nat)
}

/// A square never shrinks below zero under the fixed-point product.
proof fn lemma_fp_square_nonneg(z: int)
    ensures
        0 <= fp_mul_spec(z, z),
{
    assert(0 <= z * z) by (nonlinear_arith);
    vstd::arithmetic::div_mod::lemma_div_is_ordered(0, z * z, FP_SCALE as int);
}

/// One recurrence step keeps the state inside its band: before the
/// step the squared magnitude is below four units, so both new
/// components stay within four units plus the coordinate.
proof fn lemma_step_bounds(cr: int, ci: int, zr: int, zi: int)
    requires
        abs_i(cr) <= MANDEL_C_MAX,
        abs_i(ci) <= MANDEL_C_MAX,
        abs_i(zr) <= MANDEL_Z_MAX,
        abs_i(zi) <= MANDEL_Z_MAX,
        fp_mul_spec(zr, zr) + fp_mul_spec(zi, zi) < 4 * FP_SCALE,
    ensures
        abs_i(fp_mul_spec(zr, zr) - fp_mul_spec(zi, zi) + cr) <= MANDEL_Z_MAX,
        abs_i(fp_mul_spec(2 * zr, zi) + ci) <= MANDEL_Z_MAX,
{
    let s = FP_SCALE as int;
    let zr2 = fp_mul_spec(zr, zr);
    let zi2 = fp_mul_spec(zi, zi);
    lemma_fp_square_nonneg(zr);
    lemma_fp_square_nonneg(zi);
    // the squares of the components, scaled down, sit just above the
    // truncated products
    assert(0 <= zr * zr && 0 <= zi * zi) by (nonlinear_arith);
    assert(zr2 == (zr * zr) / s);
    assert(zi2 == (zi * zi) / s);
    vstd::arithmetic::div_mod::lemma_fundamental_div_mod(zr * zr, s);
    vstd::arithmetic::div_mod::lemma_fundamental_div_mod(zi * zi, s);
    vstd::arithmetic::div_mod::lemma_mod_bound(zr * zr, s);
    vstd::arithmetic::div_mod::lemma_mod_bound(zi * zi, s);
    assert(zr * zr + zi * zi < s * (zr2 + zi2 + 2)) by (nonlinear_arith)
        requires
            zr * zr == s * zr2 + (zr * zr) % s,
            zi * zi == s * zi2 + (zi * zi) % s,
            0 <= (zr * zr) % s < s,
            0 <= (zi * zi) % s < s,
    ;
    // the doubled cross product is bounded by the sum of squares
    assert(abs_i(2 * zr * zi) <= zr * zr + zi * zi) by (nonlinear_arith);
    lemma_fp_mul_bound(2 * zr, zi, abs_i(2 * zr), abs_i(zi));
    assert(abs_i(2 * zr) * abs_i(zi) == abs_i(2 * zr * zi)) by (nonlinear_arith);
    assert(abs_i(2 * zr * zi) / s < zr2 + zi2 + 2) by {
        vstd::arithmetic::div_mod::lemma_multiply_divide_lt(abs_i(2 * zr * zi), s, zr2 + zi2 + 2);
    }
}

/// Computes the escape iteration count of a point in fixed-point
/// coordinates: iterate the quadratic recurrence until the squared
/// magnitude reaches four units or the iteration cap falls.
pub fn escape_count(cr: i64, ci: i64) -> (n: u32)
    requires
        -MANDEL_C_MAX <= cr <= MANDEL_C_MAX,
        -MANDEL_C_MAX <= ci <= MANDEL_C_MAX,
    ensures
        n == escape_count_spec(cr as int, ci as int),
        n <= MAX_ITER,
{
    let mut zr: i64 = 0;
    let mut zi: i64 = 0;
    let mut iter: u32 = 0;
    proof {
        lemma_fp_square_nonneg(0);
    }
    while iter < MAX_ITER
        invariant
            -MANDEL_C_MAX <= cr <= MANDEL_C_MAX,
            -MANDEL_C_MAX <= ci <= MANDEL_C_MAX,
            iter <= MAX_ITER,
            abs_i(zr as int) <= MANDEL_Z_MAX,
            abs_i(zi as int) <= MANDEL_Z_MAX,
            escape_count_spec(cr as int, ci as int) == iter + escape_steps(
                cr as int,
                ci as int,
                zr as int,
                zi as int,
                (MAX_ITER - iter) as nat,
            ),
        ensures
            escape_count_spec(cr as int, ci as int) == iter,
        decreases MAX_ITER - iter,
    {
        let zr2 = fp_mul(zr, zr);
        let zi2 = fp_mul(zi, zi);
        proof {
            lemma_fp_square_nonneg(zr as int);
            lemma_fp_square_nonneg(zi as int);
            lemma_fp_mul_bound(zr as int, zr as int, MANDEL_Z_MAX as int, MANDEL_Z_MAX as int);
            lemma_fp_mul_bound(zi as int, zi as int, MANDEL_Z_MAX as int, MANDEL_Z_MAX as int);
        }
        if zr2 + zi2 >= 4 * FP_SCALE {
            break ;
        }
        proof {
            lemma_step_bounds(cr as int, ci as int, zr as int, zi as int);
        }
        let nr: i64 = zr2 - zi2 + cr;
        let ni: i64 = fp_mul(2 * zr, zi) + ci;
        zr = nr;
        zi = ni;
        iter = iter + 1;
    }
    iter
}

/// Maps a (1-based) screen coordinate onto the complex plane: the
/// distance from the screen center, scaled by four units over the
/// dimension times the zoom factor.
pub open spec fn map_coord_spec(p: int, dim: int, zoom: int) -> int {
    div_trunc((2 * p - dim) * (2 * FP_SCALE * FP_SCALE), dim * zoom)
}

/// Maps a screen coordinate onto the complex plane.
pub fn map_coord(p: u32, dim: u16, zoom: i64) -> (r: i64)
    requires
        1 <= p <= dim,
        dim >= 1,
        ZOOM_MIN <= zoom <= ZOOM_MAX,
    ensures
        r == map_coord_spec(p as int, dim as int, zoom as int),
        abs_i(r as int) <= 12 * FP_SCALE,
{
    assert((dim as int) * (zoom as int) <= 0xffff * (51 * FP_SCALE) && 1 * 1 <= (dim as int) * (
    zoom as int)) by (nonlinear_arith)
        requires
            1 <= dim <= 0xffff,
            1 <= zoom <= 51 * FP_SCALE,
    ;
    let num: i64 = (2 * (p as i64) - (dim as i64)) * (2 * FP_SCALE * FP_SCALE);
    let den: i64 = (dim as i64) * zoom;
    assert(abs_i(num as int) <= (dim as i64) * (2 * FP_SCALE * FP_SCALE) && den >= (dim as i64) * (
    FP_SCALE / 6) && den <= (dim as i64) * (51 * FP_SCALE)) by (nonlinear_arith)
        requires
            1 <= p <= dim,
            ZOOM_MIN <= zoom <= ZOOM_MAX,
            num == (2 * (p as i64) - (dim as i64)) * (2 * FP_SCALE * FP_SCALE),
            den == (dim as i64) * zoom,
            ZOOM_MIN == FP_SCALE / 6,
            ZOOM_MAX == 51 * FP_SCALE,
            dim <= 0xffff,
    ;
    let r = fp_div(num, den);
    proof {
        let dmin = (dim as int) * (ZOOM_MIN as int);
        assert(dmin >= 1) by (nonlinear_arith)
            requires
                dmin == (dim as int) * (ZOOM_MIN as int),
                dim >= 1,
                ZOOM_MIN == 100_000,
        ;
        vstd::arithmetic::div_mod::lemma_div_is_ordered_by_denominator(
            abs_i(num as int),
            dmin,
            den as int,
        );
        vstd::arithmetic::div_mod::lemma_div_is_ordered(
            abs_i(num as int),
            (dim as int) * (2 * FP_SCALE * FP_SCALE),
            dmin,
        );
        assert((dim as int) * (2 * FP_SCALE * FP_SCALE) == dmin * (12 * FP_SCALE))
            by (nonlinear_arith)
            requires
                dmin == (dim as int) * (ZOOM_MIN as int),
                ZOOM_MIN == 100_000,
                FP_SCALE == 600_000,
        ;
        vstd::arithmetic::div_mod::lemma_div_multiples_vanish(12 * FP_SCALE as int, dmin);
    }
    r
}

/// The hue of an escaped point: its share of the iteration budget,
/// drifted by a tenth of the time, wrapped into the unit.
pub open spec fn mandel_hue(iter: int, time_fp: int) -> int {
    (iter * (FP_SCALE as int / 100) + div_trunc(time_fp, 10)) % (FP_SCALE as int)
}

/// The shade of a cell with the given escape count: points that never
/// escape get the fixed dark in-set marker, the rest their hue at
/// saturation `0.8` and full value.
pub open spec fn mandel_shade_spec(iter: int, time_fp: int) -> Rgb {
    if iter >= MAX_ITER {
        Rgb { r: 0, g: 0, b: 0 }
    } else {
        hsv_rgb_spec(mandel_hue(iter, time_fp), 4 * FP_SCALE as int / 5, FP_SCALE as int)
    }
}

/// The shade of a cell with the given escape count.
pub fn mandel_shade(iter: u32, time_fp: i64) -> (c: Rgb)
    requires
        iter <= MAX_ITER,
        -1_000_000_000_000 <= time_fp <= 1_000_000_000_000,
    ensures
        c == mandel_shade_spec(iter as int, time_fp as int),
{
    if iter >= MAX_ITER {
        Rgb { r: 0, g: 0, b: 0 }
    } else {
        let drift = fp_div(time_fp, 10);
        let hue = emod((iter as i64) * (FP_SCALE / 100) + drift, FP_SCALE);
        proof {
            vstd::arithmetic::div_mod::lemma_mod_bound(
                iter * (FP_SCALE as int / 100) + div_trunc(time_fp as int, 10),
                FP_SCALE as int,
            );
        }
        hsv_to_rgb(hue, 4 * FP_SCALE / 5, FP_SCALE)
    }
}

/// What the fractal puts at a (1-based) screen position: nothing over
/// the caption's span; elsewhere, the shade of the escape count of the
/// cell's point, around the plane center half a unit left of the
/// origin.
pub open spec fn mandel_cell(
    w: int,
    h: int,
    len: int,
    zoom: int,
    time_fp: int,
    x: int,
    y: int,
) -> Option<DrawCmd> {
    if caption_covers(w / 2, h / 2, len, x, y) {
        None
    } else {
        let cr = map_coord_spec(x, w, zoom) - FP_SCALE as int / 2;
        let ci = map_coord_spec(y, h, zoom);
        Some(
            DrawCmd {
                x: x as u16,
                y: y as u16,
                color: mandel_shade_spec(escape_count_spec(cr, ci) as int, time_fp),
                glyph: '\u{2593}',
            },
        )
    }
}

/// The fractal's commands for the first `n` cells.
pub open spec fn mandel_cmds(w: int, h: int, len: int, zoom: int, time_fp: int, n: nat) -> Seq<
    DrawCmd,
> {
    grid_cmds(|x: int, y: int| mandel_cell(w, h, len, zoom, time_fp, x, y), w, n)
}

/// The fractal's color at a (1-based) screen position outside the
/// caption.
pub fn mandel_color(x: u32, y: u32, w: u16, h: u16, zoom: i64, time_fp: i64) -> (c: Rgb)
    requires
        1 <= x <= w,
        1 <= y <= h,
        w >= 1,
        h >= 1,
        ZOOM_MIN <= zoom <= ZOOM_MAX,
        -1_000_000_000_000 <= time_fp <= 1_000_000_000_000,
    ensures
        c == mandel_shade_spec(
            escape_count_spec(
                map_coord_spec(x as int, w as int, zoom as int) - FP_SCALE as int / 2,
                map_coord_spec(y as int, h as int, zoom as int),
            ) as int,
            time_fp as int,
        ),
{
    let cr = map_coord(x, w, zoom) - FP_SCALE / 2;
    let ci = map_coord(y, h, zoom);
    let iter = escape_count(cr, ci);
    mandel_shade(iter, time_fp)
}

/// One tick of the fractal: every cell outside the caption's span gets
/// its escape-count shade at the given zoom, then the caption is drawn
/// last.
pub fn mandelbrot_frame(term: &Terminal, text: &str, zoom: i64, time_fp: i64) -> (cmds: Vec<
    DrawCmd,
>)
    requires
        term.wf(),
        term.height >= 2,
        text@.len() / 2 < term.width / 2,
        text@.len() <= term.width,
        ZOOM_MIN <= zoom <= ZOOM_MAX,
        -1_000_000_000_000 <= time_fp <= 1_000_000_000_000,
    ensures
        cmds@ == mandel_cmds(
            term.width as int,
            term.height as int,
            text@.len() as int,
            zoom as int,
            time_fp as int,
            (term.width * term.height) as nat,
        ) + caption_cmds(
            text@,
            caption_start_spec(term.width as int / 2, text@.len() as int),
            term.height as int / 2,
        ),
{
    let w = term.width;
    let h = term.height;
    let len: u16 = text.unicode_len() as u16;
    let cx: u16 = w / 2;
    let cy: u16 = h / 2;
    let start: u16 = cx - len / 2;
    let mut cmds: Vec<DrawCmd> = Vec::new();
    let mut y: u32 = 1;
    while y <= h as u32
        invariant
            w == term.width,
            h == term.height,
            w >= 1,
            h >= 2,
            len == text@.len(),
            len <= w,
            cx == w / 2,
            cy == h / 2,
            start == caption_start_spec(w as int / 2, len as int),
            ZOOM_MIN <= zoom <= ZOOM_MAX,
            -1_000_000_000_000 <= time_fp <= 1_000_000_000_000,
            1 <= y <= h as u32 + 1,
            cmds@ == mandel_cmds(
                w as int,
                h as int,
                len as int,
                zoom as int,
                time_fp as int,
                ((y - 1) * (w as u32)) as nat,
            ),
        decreases h as u32 + 1 - y,
    {
        let mut x: u32 = 1;
        while x <= w as u32
            invariant
                w == term.width,
                h == term.height,
                w >= 1,
                h >= 2,
                len == text@.len(),
                len <= w,
                cx == w / 2,
                cy == h / 2,
                start == caption_start_spec(w as int / 2, len as int),
                ZOOM_MIN <= zoom <= ZOOM_MAX,
                -1_000_000_000_000 <= time_fp <= 1_000_000_000_000,
                1 <= y <= h as u32,
                1 <= x <= w as u32 + 1,
                cmds@ == mandel_cmds(
                    w as int,
                    h as int,
                    len as int,
                    zoom as int,
                    time_fp as int,
                    ((y - 1) * (w as u32) + (x - 1)) as nat,
                ),
            decreases w as u32 + 1 - x,
        {
            proof {
                crate::waves::lemma_grid_step(w as int, h as int, x as int, y as int);
            }
            let ghost n: nat = ((y - 1) * (w as u32) + (x - 1)) as nat;
            if !(y == cy as u32 && start as u32 <= x && x <= start as u32 + len as u32) {
                let color = mandel_color(x, y, w, h, zoom, time_fp);
                let cmd = DrawCmd { x: x as u16, y: y as u16, color, glyph: '\u{2593}' };
                proof {
                    assert(mandel_cell(
                        w as int,
                        h as int,
                        len as int,
                        zoom as int,
                        time_fp as int,
                        x as int,
                        y as int,
                    ) == Some(cmd));
                    assert(mandel_cmds(
                        w as int,
                        h as int,
                        len as int,
                        zoom as int,
                        time_fp as int,
                        n + 1,
                    ) == mandel_cmds(
                        w as int,
                        h as int,
                        len as int,
                        zoom as int,
                        time_fp as int,
                        n,
                    ).push(cmd));
                }
                cmds.push(cmd);
            } else {
                proof {
                    assert(mandel_cell(
                        w as int,
                        h as int,
                        len as int,
                        zoom as int,
                        time_fp as int,
                        x as int,
                        y as int,
                    ) is None);
                    assert(mandel_cmds(
                        w as int,
                        h as int,
                        len as int,
                        zoom as int,
                        time_fp as int,
                        n + 1,
                    ) == mandel_cmds(w as int, h as int, len as int, zoom as int, time_fp as int, n));
                }
            }
            x = x + 1;
        }
        proof {
            assert((y - 1) * (w as u32) + (w as u32) == y * (w as u32)) by (nonlinear_arith);
        }
        y = y + 1;
    }
    proof {
        assert((h as int) * (w as int) == (w as int) * (h as int)) by (nonlinear_arith);
    }
    push_caption_cmds(&mut cmds, text, start, cy);
    cmds
}


/// One tick's worth of fractal time: sixteen milliseconds.
pub const TICK_FP: i64 = 9_600;

/// The per-tick zoom growth factor, `exp` of the tick times the zoom
/// speed: the discrete form of the exponential zoom law.
pub const GROWTH_FP: i64 = 601_923;

/// The zoom the resetting variant starts from, `exp` of the zoom
/// law's small initial offset.
pub const ZOOM_START: i64 = 630_763;

/// The threshold past which the resetting variant starts over:
/// fifty-fold magnification.
pub const ZOOM_RESET: i64 = 30_000_000;

/// The oscillating variant's turning points.
pub const OSC_HIGH: i64 = 1_500_000;

pub const OSC_LOW: i64 = 120_000;

/// Where the fractal time saturates: far beyond any drift the zoom
/// laws reach, so the per-tick additions cannot overflow.
pub const TIME_SAT: i64 = 1_000_000_000_000;

/// Fractal time moved one tick forward (saturating at the far bound).
pub open spec fn time_forward(t: int) -> int {
    if t + TICK_FP <= TIME_SAT {
        t + TICK_FP
    } else {
        t
    }
}

/// Fractal time moved one tick backward (saturating at the far bound).
pub open spec fn time_backward(t: int) -> int {
    if t - TICK_FP >= -TIME_SAT {
        t - TICK_FP
    } else {
        t
    }
}

/// The growing zoom keeps growing: one growth step never shrinks it.
proof fn lemma_growth_monotone(z: int)
    requires
        0 <= z,
    ensures
        z <= fp_mul_spec(z, GROWTH_FP as int),
{
    let s = FP_SCALE as int;
    assert(0 <= z * GROWTH_FP && z * s <= z * GROWTH_FP) by (nonlinear_arith)
        requires
            0 <= z,
            s == FP_SCALE,
            FP_SCALE <= GROWTH_FP,
            0 < FP_SCALE,
    ;
    vstd::arithmetic::div_mod::lemma_div_is_ordered(z * s, z * (GROWTH_FP as int), s);
    assert(z * s == s * z) by (nonlinear_arith);
    vstd::arithmetic::div_mod::lemma_div_multiples_vanish(z, s);
}

/// The zoom law of the first fractal variant: a monotonic exponential
/// zoom-in that starts over once it passes the fifty-fold threshold.
pub struct ZoomCycle {
    pub zoom: i64,
    pub time_fp: i64,
}

impl ZoomCycle {
    /// The zoom stays between its starting point and the reset
    /// threshold, and the time within its saturation band.
    pub open spec fn wf(&self) -> bool {
        ZOOM_START <= self.zoom <= ZOOM_RESET && 0 <= self.time_fp <= TIME_SAT
    }

    /// The state a run starts from.
    pub fn start() -> (z: ZoomCycle)
        ensures
            z.wf(),
            z.zoom == ZOOM_START,
            z.time_fp == 0,
    {
        ZoomCycle { zoom: ZOOM_START, time_fp: 0 }
    }

    /// One tick: the zoom grows by the fixed factor; past the
    /// threshold, zoom and time start over.
    pub fn step(&mut self)
        requires
            old(self).wf(),
        ensures
            final(self).wf(),
            ({
                let grown = fp_mul_spec(old(self).zoom as int, GROWTH_FP as int);
                if grown > ZOOM_RESET {
                    final(self).zoom == ZOOM_START && final(self).time_fp == 0
                } else {
                    final(self).zoom == grown && final(self).time_fp == time_forward(
                        old(self).time_fp as int,
                    )
                }
            }),
    {
        let grown = fp_mul(self.zoom, GROWTH_FP);
        proof {
            lemma_growth_monotone(self.zoom as int);
        }
        if grown > ZOOM_RESET {
            self.zoom = ZOOM_START;
            self.time_fp = 0;
        } else {
            self.zoom = grown;
            self.time_fp = if self.time_fp + TICK_FP <= TIME_SAT {
                self.time_fp + TICK_FP
            } else {
                self.time_fp
            };
        }
    }
}

/// The zoom law of the second fractal variant: the same exponential
/// step, run forward and backward between two extremes, the fractal
/// time flowing with it.
pub struct ZoomOscillate {
    pub zoom: i64,
    pub time_fp: i64,
    pub zooming_in: bool,
}

impl ZoomOscillate {
    /// The zoom stays within one shrink step below the low turning
    /// point and one growth step above the high one; while zooming in
    /// it has not passed the high point, while zooming out not yet
    /// reached the low one.
    pub open spec fn wf(&self) -> bool {
        &&& 119_616 <= self.zoom <= 1_504_808
        &&& (self.zooming_in ==> self.zoom <= OSC_HIGH)
        &&& (!self.zooming_in ==> OSC_LOW <= self.zoom)
        &&& -TIME_SAT <= self.time_fp <= TIME_SAT
    }

    /// The state a run starts from: zooming in from the starting zoom.
    pub fn start() -> (z: ZoomOscillate)
        ensures
            z.wf(),
            z.zoom == ZOOM_START,
            z.time_fp == 0,
            z.zooming_in,
    {
        ZoomOscillate { zoom: ZOOM_START, time_fp: 0, zooming_in: true }
    }

    /// One tick: the zoom grows or shrinks by the fixed factor with
    /// the time flowing the same way, and the direction reverses at
    /// either extreme.
    pub fn step(&mut self)
        requires
            old(self).wf(),
        ensures
            final(self).wf(),
            ({
                let moved = if old(self).zooming_in {
                    fp_mul_spec(old(self).zoom as int, GROWTH_FP as int)
                } else {
                    div_trunc(old(self).zoom * FP_SCALE, GROWTH_FP as int)
                };
                &&& final(self).zoom == moved
                &&& final(self).time_fp == (if old(self).zooming_in {
                    time_forward(old(self).time_fp as int)
                } else {
                    time_backward(old(self).time_fp as int)
                })
                &&& final(self).zooming_in == (if old(self).zooming_in && moved > OSC_HIGH {
                    false
                } else if !old(self).zooming_in && moved < OSC_LOW {
                    true
                } else {
                    old(self).zooming_in
                })
            }),
    {
        if self.zooming_in {
            let moved = fp_mul(self.zoom, GROWTH_FP);
            proof {
                lemma_growth_monotone(self.zoom as int);
                assert(self.zoom * GROWTH_FP < FP_SCALE * 1_504_808) by (nonlinear_arith)
                    requires
                        self.zoom <= OSC_HIGH,
                        0 <= self.zoom,
                        OSC_HIGH == 1_500_000,
                        GROWTH_FP == 601_923,
                        FP_SCALE == 600_000,
                ;
                vstd::arithmetic::div_mod::lemma_multiply_divide_lt(
                    self.zoom * GROWTH_FP,
                    FP_SCALE as int,
                    1_504_808,
                );
            }
            self.zoom = moved;
            self.time_fp = if self.time_fp + TICK_FP <= TIME_SAT {
                self.time_fp + TICK_FP
            } else {
                self.time_fp
            };
            if self.zoom > OSC_HIGH {
                self.zooming_in = false;
            }
        } else {
            let num = self.zoom * FP_SCALE;
            let moved = fp_div(num, GROWTH_FP);
            proof {
                let g = GROWTH_FP as int;
                assert(num == self.zoom * FP_SCALE);
                assert(g * 119_616 <= OSC_LOW * FP_SCALE <= num && num <= self.zoom * g)
                    by (nonlinear_arith)
                    requires
                        num == self.zoom * FP_SCALE,
                        OSC_LOW <= self.zoom <= 1_504_808,
                        OSC_LOW == 120_000,
                        g == 601_923,
                        FP_SCALE == 600_000,
                ;
                vstd::arithmetic::div_mod::lemma_div_is_ordered(g * 119_616, num as int, g);
                vstd::arithmetic::div_mod::lemma_div_multiples_vanish(119_616, g);
                vstd::arithmetic::div_mod::lemma_div_is_ordered(num as int, self.zoom * g, g);
                assert(self.zoom * g == g * (self.zoom as int)) by (nonlinear_arith);
                vstd::arithmetic::div_mod::lemma_div_multiples_vanish(self.zoom as int, g);
            }
            self.zoom = moved;
            self.time_fp = if self.time_fp - TICK_FP >= -TIME_SAT {
                self.time_fp - TICK_FP
            } else {
                self.time_fp
            };
            if self.zoom < OSC_LOW {
                self.zooming_in = true;
            }
        }
    }
}

/// The zoom law of the third fractal variant: a fast sinusoidal wobble
/// between half and one-and-a-half magnification, straight from the
/// elapsed time.
pub fn zoom_fast(elapsed_ms: u64) -> (z: i64)
    requires
        elapsed_ms <= ELAPSED_MAX_MS,
    ensures
        z == FP_SCALE + div_trunc(
            sin_fp_spec((elapsed_ms * (FP_SCALE as int / 1000)) as int),
            2,
        ),
        FP_SCALE / 2 <= z <= FP_SCALE + FP_SCALE / 2,
{
    let t: i64 = (elapsed_ms as i64) * (FP_SCALE / 1000);
    let s = sin_fp(t);
    let half = fp_div(s, 2);
    FP_SCALE + half
}

} // verus!
