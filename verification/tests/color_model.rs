use termfx::color::{hsv_to_rgb, spectrum, Rgb};
use termfx::fixed::FP_SCALE;

// The canonical hue wheel corners at full saturation and value,
// accounting for truncation: every sixth of the hue circle lands
// exactly on a primary or secondary color.
#[test]
fn hue_wheel_corners() {
    let sixth = FP_SCALE / 6;
    let expected = [
        (255u8, 0u8, 0u8),
        (255, 255, 0),
        (0, 255, 0),
        (0, 255, 255),
        (0, 0, 255),
        (255, 0, 255),
    ];
    let mut k: i64 = 0;
    while k < 6 {
        let c = hsv_to_rgb(k * sixth, FP_SCALE, FP_SCALE);
        let want = expected[k as usize];
        assert_eq!((c.r, c.g, c.b), want);
        k += 1;
    }
}

// A full hue wraps back to the first sector: red again.
#[test]
fn full_hue_wraps() {
    let c = hsv_to_rgb(FP_SCALE, FP_SCALE, FP_SCALE);
    assert_eq!((c.r, c.g, c.b), (255, 0, 0));
}

// Zero value is black whatever the hue and saturation.
#[test]
fn zero_value_is_black() {
    let c = hsv_to_rgb(250_000, 400_000, 0);
    assert_eq!((c.r, c.g, c.b), (0, 0, 0));
}

// Channels stay within 8 bits across a sweep of inputs.
#[test]
fn channels_in_range() {
    let mut h: i64 = 0;
    while h <= FP_SCALE {
        let c = hsv_to_rgb(h, 480_000, 350_000);
        assert!(c.r <= 255 && c.g <= 255 && c.b <= 255);
        h += 37_000;
    }
}

// The seven-entry sweep spectrum, in order.
#[test]
fn spectrum_entries() {
    assert_eq!(spectrum(0), Rgb { r: 255, g: 0, b: 0 });
    assert_eq!(spectrum(1), Rgb { r: 255, g: 127, b: 0 });
    assert_eq!(spectrum(2), Rgb { r: 255, g: 255, b: 0 });
    assert_eq!(spectrum(3), Rgb { r: 0, g: 255, b: 0 });
    assert_eq!(spectrum(4), Rgb { r: 0, g: 0, b: 255 });
    assert_eq!(spectrum(5), Rgb { r: 75, g: 0, b: 130 });
    assert_eq!(spectrum(6), Rgb { r: 148, g: 0, b: 211 });
}
