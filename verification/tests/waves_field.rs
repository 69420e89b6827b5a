use termfx::color::Rgb;
use termfx::terminal::Terminal;
use termfx::waves::{gradient_shade, wave_shade, waves_frame, waves_gradient_frame};

// One exact wave shade: the fixed-point interference sum at the
// top-left cell at time zero.
#[test]
fn wave_shade_exact_values() {
    assert_eq!(wave_shade(1, 1, 0), 198);
    assert_eq!(wave_shade(3, 2, 100), 222);
}

// The blue channel stays within 8 bits over a spread of cells and
// times, and the wave writes no other channel.
#[test]
fn wave_cells_are_blue_only() {
    let term = Terminal::new(10, 4).unwrap();
    let cmds = waves_frame(&term, "", 12_345);
    assert!(!cmds.is_empty());
    for cmd in &cmds {
        if cmd.glyph == '\u{2593}' {
            assert_eq!(cmd.color.r, 0);
            assert_eq!(cmd.color.g, 0);
        }
    }
}

// No wave cell is ever written inside the caption's row-and-column
// span; the caption itself is drawn last, in white.
#[test]
fn wave_skips_caption_span() {
    let term = Terminal::new(10, 4).unwrap();
    let cmds = waves_frame(&term, "HI", 0);
    let white = Rgb { r: 255, g: 255, b: 255 };
    let mut caption_seen = 0;
    for cmd in &cmds {
        if cmd.glyph == '\u{2593}' {
            // span: caption row 2, columns 4 through 6 inclusive
            assert!(!(cmd.y == 2 && 4 <= cmd.x && cmd.x <= 6));
        } else {
            caption_seen += 1;
            assert_eq!(cmd.color, white);
        }
    }
    assert_eq!(caption_seen, 2);
    let h = &cmds[cmds.len() - 2];
    let i = &cmds[cmds.len() - 1];
    assert_eq!((h.x, h.y, h.glyph), (4, 2, 'H'));
    assert_eq!((i.x, i.y, i.glyph), (5, 2, 'I'));
}

// One exact gradient shade, through the verified HSV conversion.
#[test]
fn gradient_shade_exact_value() {
    assert_eq!(gradient_shade(1, 1, 0), Rgb { r: 210, g: 82, b: 42 });
}

// The gradient keeps its floor brightness: no cell is fully black.
#[test]
fn gradient_never_fully_black() {
    let term = Terminal::new(12, 5).unwrap();
    let cmds = waves_gradient_frame(&term, "", 777);
    for cmd in &cmds {
        if cmd.glyph == '\u{2593}' {
            assert!(cmd.color.r > 0 || cmd.color.g > 0 || cmd.color.b > 0);
        }
    }
}

// The gradient skips the same caption span as the blue wave.
#[test]
fn gradient_skips_caption_span() {
    let term = Terminal::new(10, 4).unwrap();
    let cmds = waves_gradient_frame(&term, "HI", 0);
    for cmd in &cmds {
        if cmd.glyph == '\u{2593}' {
            assert!(!(cmd.y == 2 && 4 <= cmd.x && cmd.x <= 6));
        }
    }
}
