//! The particle burst: points on a growing circle around the screen
//! center, each in a randomly sampled red-biased color. The effect
//! keeps no buffer; every tick redraws from blank, so the caller
//! clears the screen first.

use vstd::prelude::*;
use vstd::string::StrSliceExecFns;
use crate::caption::caption_start_spec;
use crate::color::Rgb;
use crate::fixed::{cos_fp, cos_fp_spec, sin_fp, sin_fp_spec, FP_SCALE, PI_FP};
use crate::render::DrawCmd;
use crate::terminal::Terminal;
use crate::waves::{caption_cmds, push_caption_cmds, ELAPSED_MAX_MS};

verus! {

/// How many points the burst plots: one every five degrees.
pub const BURST_POINTS: u32 = 72;

/// The burst's radius in cells: it grows by ten cells a second, and
/// sticks at the largest cell coordinate once past it.
pub open spec fn burst_radius(ms: int) -> int {
    if ms / 100 > 0xffff {
        0xffff
    } else {
        ms / 100
    }
}

/// The angle of the `k`-th point, in fixed-point radians: five degrees
/// a step.
pub open spec fn burst_angle(k: int) -> int {
    5 * k * PI_FP / 180
}

/// The scaled horizontal position of the `k`-th point: the center
/// column moved by the cosine times the radius.
pub open spec fn burst_x(cx: int, radius: int, k: int) -> int {
    cx * FP_SCALE + cos_fp_spec(burst_angle(k)) * radius
}

/// The scaled vertical position of the `k`-th point.
pub open spec fn burst_y(cy: int, radius: int, k: int) -> int {
    cy * FP_SCALE + sin_fp_spec(burst_angle(k)) * radius
}

/// Whether the `k`-th point lands on the screen; points outside are
/// skipped, never clipped.
pub open spec fn burst_visible(w: int, h: int, cx: int, cy: int, radius: int, k: int) -> bool {
    &&& 0 <= burst_x(cx, radius, k) < w * FP_SCALE
    &&& 0 <= burst_y(cy, radius, k) < h * FP_SCALE
}

/// The 1-based screen positions of the first `n` burst points that
/// land on screen, in angle order.
pub open spec fn burst_points(w: int, h: int, cx: int, cy: int, radius: int, n: nat) -> Seq<
    (u16, u16),
>
    decreases n,
{
    if n == 0 {
        Seq::empty()
    } else {
        let k = n - 1;
        let prev = burst_points(w, h, cx, cy, radius, (n - 1) as nat);
        if burst_visible(w, h, cx, cy, radius, k) {
            prev.push(
                (
                    (burst_x(cx, radius, k) / (FP_SCALE as int) + 1) as u16,
                    (burst_y(cy, radius, k) / (FP_SCALE as int) + 1) as u16,
                ),
            )
        } else {
            prev
        }
    }
}

/// Relies on rand's `random_range` on the thread's generator: a
/// sample within the given inclusive range; the range is nonempty, so
/// the call cannot panic. Nothing more is promised of a random value.
#[verifier::external_body]
fn random_channel(lo: u8, hi: u8) -> (r: u8)
    requires
        lo <= hi,
    ensures
        lo <= r <= hi,
{
    rand::random_range(lo..=hi)
}

/// One tick of the particle burst: every point of the circle that
/// lands on screen gets a marker in a random red-biased color (red in
/// `[200, 255]`, green in `[0, 100]`, no blue), then the caption is
/// drawn last. Only the colors are random: how many commands come
/// back, where each points and its glyph are pinned.
pub fn explosion_frame(term: &Terminal, text: &str, elapsed_ms: u64) -> (cmds: Vec<DrawCmd>)
    requires
        term.wf(),
        term.height >= 2,
        text@.len() / 2 < term.width / 2,
        text@.len() <= term.width,
        elapsed_ms <= ELAPSED_MAX_MS,
    ensures
        ({
            let pts = burst_points(
                term.width as int,
                term.height as int,
                term.width as int / 2,
                term.height as int / 2,
                burst_radius(elapsed_ms as int),
                BURST_POINTS as nat,
            );
            &&& cmds@.len() == pts.len() + text@.len()
            &&& forall|j: int|
                0 <= j < pts.len() ==> (#[trigger] cmds@[j]).x == pts[j].0 && cmds@[j].y == pts[j].1
                    && cmds@[j].glyph == '*' && 200 <= cmds@[j].color.r && cmds@[j].color.g <= 100
                    && cmds@[j].color.b == 0
            &&& cmds@.skip(pts.len() as int) == caption_cmds(
                text@,
                caption_start_spec(term.width as int / 2, text@.len() as int),
                term.height as int / 2,
            )
        }),
{
    let w = term.width;
    let h = term.height;
    let (cx, cy) = term.center_pos();
    let len: u16 = text.unicode_len() as u16;
    let start: u16 = cx - len / 2;
    let r64: u64 = elapsed_ms / 100;
    let radius: i64 = if r64 > 0xffff {
        0xffff
    } else {
        r64 as i64
    };
    let mut cmds: Vec<DrawCmd> = Vec::new();
    let mut k: u32 = 0;
    while k < BURST_POINTS
        invariant
            w == term.width,
            h == term.height,
            w >= 1,
            h >= 2,
            cx == w / 2,
            cy == h / 2,
            radius == burst_radius(elapsed_ms as int),
            0 <= radius <= 0xffff,
            k <= BURST_POINTS,
            cmds@.len() == burst_points(
                w as int,
                h as int,
                cx as int,
                cy as int,
                radius as int,
                k as nat,
            ).len(),
            forall|j: int|
                0 <= j < cmds@.len() ==> (#[trigger] cmds@[j]).x == burst_points(
                    w as int,
                    h as int,
                    cx as int,
                    cy as int,
                    radius as int,
                    k as nat,
                )[j].0 && cmds@[j].y == burst_points(
                    w as int,
                    h as int,
                    cx as int,
                    cy as int,
                    radius as int,
                    k as nat,
                )[j].1 && cmds@[j].glyph == '*' && 200 <= cmds@[j].color.r && cmds@[j].color.g
                    <= 100 && cmds@[j].color.b == 0,
        decreases BURST_POINTS - k,
    {
        let angle: i64 = 5 * (k as i64) * PI_FP / 180;
        assert(angle == burst_angle(k as int) && 0 <= angle <= 36 * PI_FP) by {
            assert(0 <= 5 * (k as int) * PI_FP <= 360 * PI_FP) by (nonlinear_arith)
                requires
                    0 <= k < 72,
            ;
            vstd::arithmetic::div_mod::lemma_div_is_ordered(0, 5 * (k as int) * PI_FP, 180);
            vstd::arithmetic::div_mod::lemma_div_is_ordered(
                5 * (k as int) * PI_FP,
                360 * PI_FP,
                180,
            );
            assert(360 * PI_FP == 180 * (2 * PI_FP)) by (nonlinear_arith);
            vstd::arithmetic::div_mod::lemma_div_multiples_vanish(2 * PI_FP as int, 180);
        }
        let c = cos_fp(angle);
        let s = sin_fp(angle);
        proof {
            assert(-FP_SCALE * 0xffff <= (c as int) * radius <= FP_SCALE * 0xffff && -FP_SCALE
                * 0xffff <= (s as int) * radius <= FP_SCALE * 0xffff) by (nonlinear_arith)
                requires
                    -FP_SCALE <= c <= FP_SCALE,
                    -FP_SCALE <= s <= FP_SCALE,
                    0 <= radius <= 0xffff,
            ;
        }
        let bx: i64 = (cx as i64) * FP_SCALE + c * radius;
        let by: i64 = (cy as i64) * FP_SCALE + s * radius;
        let ghost pts_pre = burst_points(
            w as int,
            h as int,
            cx as int,
            cy as int,
            radius as int,
            k as nat,
        );
        if 0 <= bx && bx < (w as i64) * FP_SCALE && 0 <= by && by < (h as i64) * FP_SCALE {
            let px: u16 = ((bx as u64) / (FP_SCALE as u64)) as u16 + 1;
            let py: u16 = ((by as u64) / (FP_SCALE as u64)) as u16 + 1;
            proof {
                vstd::arithmetic::div_mod::lemma_div_is_ordered(0, bx as int, FP_SCALE as int);
                vstd::arithmetic::div_mod::lemma_multiply_divide_lt(
                    bx as int,
                    FP_SCALE as int,
                    w as int,
                );
                vstd::arithmetic::div_mod::lemma_div_is_ordered(0, by as int, FP_SCALE as int);
                vstd::arithmetic::div_mod::lemma_multiply_divide_lt(
                    by as int,
                    FP_SCALE as int,
                    h as int,
                );
                assert(bx < FP_SCALE * (w as int) && by < FP_SCALE * (h as int))
                    by (nonlinear_arith)
                    requires
                        bx < (w as int) * FP_SCALE,
                        by < (h as int) * FP_SCALE,
                ;
            }
            let color = Rgb { r: random_channel(200, 255), g: random_channel(0, 100), b: 0 };
            let cmd = DrawCmd { x: px, y: py, color, glyph: '*' };
            cmds.push(cmd);
            proof {
                let pts_post = burst_points(
                    w as int,
                    h as int,
                    cx as int,
                    cy as int,
                    radius as int,
                    k as nat + 1,
                );
                assert(pts_post == pts_pre.push((px, py)));
            }
        } else {
            proof {
                assert(burst_points(
                    w as int,
                    h as int,
                    cx as int,
                    cy as int,
                    radius as int,
                    k as nat + 1,
                ) == pts_pre);
            }
        }
        k = k + 1;
    }
    let ghost pts = burst_points(
        w as int,
        h as int,
        cx as int,
        cy as int,
        radius as int,
        BURST_POINTS as nat,
    );
    let ghost front = cmds@;
    push_caption_cmds(&mut cmds, text, start, cy);
    proof {
        assert(cmds@.skip(pts.len() as int) =~= caption_cmds(
            text@,
            caption_start_spec(w as int / 2, len as int),
            cy as int,
        ));
        assert forall|j: int|
            0 <= j < pts.len() implies (#[trigger] cmds@[j]).x == pts[j].0 && cmds@[j].y
            == pts[j].1 && cmds@[j].glyph == '*' && 200 <= cmds@[j].color.r && cmds@[j].color.g
            <= 100 && cmds@[j].color.b == 0 by {
            assert(cmds@[j] == front[j]);
        }
    }
    cmds
}

} // verus!
