use termfx::buffer::FrameBuffer;
use termfx::cli::AnimationStyle;
use termfx::driver::{frame_interval_ms, frames_before_expiry, tick_decision, TickDecision};
use termfx::explosion::explosion_frame;
use termfx::rainbow::rainbow_frame;
use termfx::render::render_diff;
use termfx::terminal::Terminal;

// Cancellation wins over everything, including an infinite duration.
#[test]
fn cancellation_is_checked_first() {
    assert_eq!(tick_decision(true, 0, 0), TickDecision::StopCancelled);
    assert_eq!(tick_decision(true, 5_000, 10_000), TickDecision::StopCancelled);
}

// A zero duration runs forever; a nonzero one expires when reached.
#[test]
fn duration_gating() {
    assert_eq!(tick_decision(false, 0, u64::MAX), TickDecision::Continue);
    assert_eq!(tick_decision(false, 100, 99), TickDecision::Continue);
    assert_eq!(tick_decision(false, 100, 100), TickDecision::StopExpired);
    assert_eq!(tick_decision(false, 100, 101), TickDecision::StopExpired);
}

// Each style paces its frames at its own fixed interval.
#[test]
fn per_style_frame_intervals() {
    assert_eq!(frame_interval_ms(AnimationStyle::Rainbow), 16);
    assert_eq!(frame_interval_ms(AnimationStyle::Explosion), 50);
    assert_eq!(frame_interval_ms(AnimationStyle::Waves), 32);
    assert_eq!(frame_interval_ms(AnimationStyle::WavesGradient), 32);
    assert_eq!(frame_interval_ms(AnimationStyle::Mandelbrot), 32);
    assert_eq!(frame_interval_ms(AnimationStyle::MandelbrotMatrix), 32);
    assert_eq!(frame_interval_ms(AnimationStyle::MandelbrotFast), 32);
}

// Invoking the sweep with the cancellation flag pre-set renders zero
// frames and returns at once: the very first tick decides to stop
// before any buffer is touched.
#[test]
fn preset_cancellation_renders_no_frame() {
    let term = Terminal::new(10, 4).unwrap();
    let cancelled = true;
    let duration_ms: u64 = 0;
    let mut buf = FrameBuffer::allocate(term.width, term.height);
    let mut prev = FrameBuffer::allocate(term.width, term.height);
    let mut frames: u32 = 0;
    let mut elapsed: u64 = 0;
    let interval = frame_interval_ms(AnimationStyle::Rainbow);
    while tick_decision(cancelled, duration_ms, elapsed) == TickDecision::Continue {
        rainbow_frame(&mut buf, "HI", elapsed);
        let _out = render_diff(&buf, &prev);
        std::mem::swap(&mut prev, &mut buf);
        frames += 1;
        elapsed += interval;
    }
    assert_eq!(frames, 0);
    assert_eq!(
        tick_decision(cancelled, duration_ms, 0),
        TickDecision::StopCancelled
    );
}

// The particle burst at its 50 ms interval draws four frames in a
// 200 ms run: within one in-flight frame of duration over interval.
#[test]
fn burst_frame_count_over_duration() {
    let term = Terminal::new(50, 20).unwrap();
    let duration_ms: u64 = 200;
    let interval = frame_interval_ms(AnimationStyle::Explosion);
    assert_eq!(interval, 50);
    let mut frames: u64 = 0;
    let mut elapsed: u64 = 0;
    while tick_decision(false, duration_ms, elapsed) == TickDecision::Continue {
        let cmds = explosion_frame(&term, "", elapsed);
        assert!(!cmds.is_empty());
        frames += 1;
        elapsed += interval;
    }
    assert!((3..=5).contains(&frames));
    assert_eq!(frames, 4);
    assert_eq!(frames_before_expiry(duration_ms, interval), Some(4));
}

// The pacing model agrees with the tick decisions it summarizes.
#[test]
fn frames_before_expiry_matches_the_gate() {
    assert_eq!(frames_before_expiry(0, 16), None);
    assert_eq!(frames_before_expiry(1, 16), Some(1));
    assert_eq!(frames_before_expiry(16, 16), Some(1));
    assert_eq!(frames_before_expiry(17, 16), Some(2));
    assert_eq!(frames_before_expiry(5_000, 32), Some(157));
}
