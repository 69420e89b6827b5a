//! The animation driver's decisions: when a run stops and how it paces.
//!
//! The loop itself performs I/O (it sleeps, reads the clock and writes
//! frames), so it lives with the caller; each tick it asks these
//! functions what to do next.

use vstd::prelude::*;
use crate::cli::AnimationStyle;

verus! {

/// What a tick does: keep drawing, or stop for one of the two terminal
/// reasons.
#[derive(Clone, Copy, Debug, PartialEq, Eq, Structural)]
pub enum TickDecision {
    Continue,
    StopCancelled,
    StopExpired,
}

/// Decides one tick: cancellation wins over everything, then a nonzero
/// duration that has elapsed stops the run; a duration of zero means
/// "run forever" and never expires.
pub fn tick_decision(cancelled: bool, duration_ms: u64, elapsed_ms: u64) -> (d: TickDecision)
    ensures
        d is StopCancelled <==> cancelled,
        d is StopExpired <==> !cancelled && duration_ms != 0 && elapsed_ms >= duration_ms,
        d is Continue <==> !cancelled && (duration_ms == 0 || elapsed_ms < duration_ms),
{
    if cancelled {
        TickDecision::StopCancelled
    } else if duration_ms != 0 && elapsed_ms >= duration_ms {
        TickDecision::StopExpired
    } else {
        TickDecision::Continue
    }
}

/// The fixed frame interval of a style: the cell-buffer sweep repaints
/// fastest, the particle burst slowest, the full-redraw effects sit in
/// between.
pub fn frame_interval_ms(style: AnimationStyle) -> (ms: u64)
    ensures
        style is Rainbow ==> ms == 16,
        style is Explosion ==> ms == 50,
        !(style is Rainbow) && !(style is Explosion) ==> ms == 32,
        0 < ms <= 50,
{
    match style {
        AnimationStyle::Rainbow => 16,
        AnimationStyle::Explosion => 50,
        _ => 32,
    }
}

/// How many frames a run of the given duration draws when each tick
/// advances the clock by exactly one interval: the ticks strictly
/// before the duration continue, and the next one expires. `None` for
/// a zero duration, which runs until cancelled.
pub fn frames_before_expiry(duration_ms: u64, interval_ms: u64) -> (n: Option<u64>)
    requires
        interval_ms > 0,
    ensures
        duration_ms == 0 <==> n is None,
        n matches Some(c) ==> c == (duration_ms + interval_ms - 1) / (interval_ms as int),
        n matches Some(c) ==> forall|k: int|
            0 <= k < c ==> #[trigger] (k * interval_ms) < duration_ms,
        n matches Some(c) ==> c * interval_ms >= duration_ms,
{
    if duration_ms == 0 {
        return None;
    }
    let q = duration_ms / interval_ms;
    let r = duration_ms % interval_ms;
    let c = if r == 0 {
        q
    } else {
        proof {
            vstd::arithmetic::div_mod::lemma_fundamental_div_mod(
                duration_ms as int,
                interval_ms as int,
            );
            assert(q <= (interval_ms as int) * q) by (nonlinear_arith)
                requires
                    interval_ms >= 1,
                    q >= 0,
            ;
        }
        q + 1
    };
    proof {
        let d = duration_ms as int;
        let i = interval_ms as int;
        vstd::arithmetic::div_mod::lemma_fundamental_div_mod(d, i);
        vstd::arithmetic::div_mod::lemma_mod_bound(d, i);
        vstd::arithmetic::div_mod::lemma_div_is_ordered(1, d, i);
        vstd::arithmetic::div_mod::lemma_div_pos_is_pos(d, i);
        assert(c == (d + i - 1) / i) by {
            if r == 0 {
                vstd::arithmetic::div_mod::lemma_hoist_over_denominator(d - 1, 1, i as nat);
                assert((d + i - 1) / i == (d - 1) / i + 1);
                vstd::arithmetic::div_mod::lemma_div_multiples_vanish(q as int, i);
                assert(d == q * i);
                assert(d - 1 == (q - 1) * i + (i - 1)) by (nonlinear_arith)
                    requires
                        d == q * i,
                ;
                vstd::arithmetic::div_mod::lemma_fundamental_div_mod_converse(
                    d - 1,
                    i,
                    q as int - 1,
                    i - 1,
                );
            } else {
                vstd::arithmetic::div_mod::lemma_hoist_over_denominator(d - 1, 1, i as nat);
                assert(d - 1 == q * i + (r - 1)) by (nonlinear_arith)
                    requires
                        d == i * q + r,
                ;
                vstd::arithmetic::div_mod::lemma_fundamental_div_mod_converse(
                    d - 1,
                    i,
                    q as int,
                    r - 1,
                );
            }
        }
        assert(c * i >= d) by {
            if r == 0 {
                assert(c * i == i * q);
                vstd::arithmetic::mul::lemma_mul_is_commutative(c as int, i);
            } else {
                assert((q + 1) * i == i * q + i) by (nonlinear_arith);
            }
        }
        assert forall|k: int| 0 <= k < c implies #[trigger] (k * interval_ms) < duration_ms by {
            assert(k <= c - 1);
            vstd::arithmetic::mul::lemma_mul_inequality(k, c - 1, i);
            if r == 0 {
                assert((c - 1) * i == i * q - i) by (nonlinear_arith)
                    requires
                        c == q,
                ;
            } else {
                assert((c - 1) * i == i * q) by (nonlinear_arith)
                    requires
                        c == q + 1,
                ;
            }
        }
    }
    Some(c)
}

} // verus!
