use termfx::color::Rgb;
use termfx::fixed::FP_SCALE;
use termfx::mandelbrot::{
    escape_count, mandel_shade, mandelbrot_frame, map_coord, zoom_fast, ZoomCycle, ZoomOscillate,
    MAX_ITER, OSC_HIGH, ZOOM_RESET, ZOOM_START,
};
use termfx::terminal::Terminal;

// The plane center `(-0.5, 0)` lies in the set's main cardioid: its
// escape iteration count is the full cap.
#[test]
fn plane_center_never_escapes() {
    assert_eq!(escape_count(-FP_SCALE / 2, 0), MAX_ITER);
}

// The origin never escapes either; a point well outside escapes
// almost at once.
#[test]
fn escape_counts_at_known_points() {
    assert_eq!(escape_count(0, 0), MAX_ITER);
    assert_eq!(escape_count(FP_SCALE, FP_SCALE), 2);
}

// At zoom one, the center column of the screen maps onto the plane
// center.
#[test]
fn screen_center_maps_to_plane_center() {
    assert_eq!(map_coord(5, 10, FP_SCALE), 0);
}

// Points that stay in the set get the fixed dark marker; escaped
// points their hue at fixed saturation and full value.
#[test]
fn shade_of_in_set_and_escaped_points() {
    assert_eq!(mandel_shade(MAX_ITER, 0), Rgb { r: 0, g: 0, b: 0 });
    assert_eq!(mandel_shade(0, 0), Rgb { r: 255, g: 51, b: 51 });
}

// The resetting zoom grows each tick by the fixed factor.
#[test]
fn zoom_cycle_grows_exponentially() {
    let mut z = ZoomCycle::start();
    assert_eq!(z.zoom, ZOOM_START);
    z.step();
    assert_eq!(z.zoom, 632_784);
    assert_eq!(z.time_fp, 9_600);
}

// Past the fifty-fold threshold, the resetting zoom starts over.
#[test]
fn zoom_cycle_resets_past_threshold() {
    let mut z = ZoomCycle { zoom: ZOOM_RESET - 1_000, time_fp: 4_800_000 };
    z.step();
    assert_eq!(z.zoom, ZOOM_START);
    assert_eq!(z.time_fp, 0);
}

// The oscillating zoom reverses direction once it passes the high
// turning point.
#[test]
fn zoom_oscillation_reverses_at_the_top() {
    let mut z = ZoomOscillate { zoom: 1_499_000, time_fp: 0, zooming_in: true };
    z.step();
    assert!(z.zoom > OSC_HIGH);
    assert!(!z.zooming_in);
    let before = z.zoom;
    z.step();
    assert!(z.zoom < before);
    assert_eq!(z.time_fp, 9_600 - 9_600);
}

// The fast variant's zoom follows the sine of the elapsed seconds.
#[test]
fn fast_zoom_wobbles_around_one() {
    assert_eq!(zoom_fast(0), FP_SCALE);
    assert_eq!(zoom_fast(1_000), 860_386);
    let z = zoom_fast(4_700);
    assert!(FP_SCALE / 2 <= z && z <= FP_SCALE + FP_SCALE / 2);
}

// A frame skips the caption span and shades everything else.
#[test]
fn fractal_frame_skips_caption_span() {
    let term = Terminal::new(10, 4).unwrap();
    let cmds = mandelbrot_frame(&term, "HI", FP_SCALE, 0);
    let mut field = 0;
    for cmd in &cmds {
        if cmd.glyph == '\u{2593}' {
            assert!(!(cmd.y == 2 && 4 <= cmd.x && cmd.x <= 6));
            field += 1;
        }
    }
    // ten columns by four rows, minus the three-cell caption span
    assert_eq!(field, 40 - 3);
}
