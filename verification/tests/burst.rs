use termfx::color::Rgb;
use termfx::explosion::explosion_frame;
use termfx::terminal::Terminal;

// At time zero the radius is zero: all seventy-two points land on the
// screen center, followed by the caption.
#[test]
fn burst_starts_at_the_center() {
    let term = Terminal::new(10, 4).unwrap();
    let cmds = explosion_frame(&term, "HI", 0);
    assert_eq!(cmds.len(), 72 + 2);
    let mut k = 0;
    while k < 72 {
        assert_eq!((cmds[k].x, cmds[k].y), (6, 3));
        assert_eq!(cmds[k].glyph, '*');
        k += 1;
    }
    let white = Rgb { r: 255, g: 255, b: 255 };
    assert_eq!((cmds[72].x, cmds[72].y, cmds[72].glyph), (4, 2, 'H'));
    assert_eq!(cmds[72].color, white);
    assert_eq!((cmds[73].x, cmds[73].y, cmds[73].glyph), (5, 2, 'I'));
}

// Every point's color is sampled red-biased: red in `[200, 255]`,
// green in `[0, 100]`, no blue. Only the colors vary between runs.
#[test]
fn burst_colors_are_red_biased() {
    let term = Terminal::new(30, 12).unwrap();
    let cmds = explosion_frame(&term, "", 300);
    for cmd in &cmds {
        if cmd.glyph == '*' {
            assert!(200 <= cmd.color.r);
            assert!(cmd.color.g <= 100);
            assert_eq!(cmd.color.b, 0);
        }
    }
}

// The radius grows with time, and points past the edge are skipped,
// never clipped: once the circle outgrows the screen, fewer points
// come back.
#[test]
fn burst_skips_offscreen_points() {
    let term = Terminal::new(10, 4).unwrap();
    let early = explosion_frame(&term, "", 0);
    let late = explosion_frame(&term, "", 3_000);
    assert_eq!(early.len(), 72);
    assert!(late.len() < early.len());
    for cmd in &late {
        assert!(1 <= cmd.x && cmd.x <= 10);
        assert!(1 <= cmd.y && cmd.y <= 4);
    }
}

// Two runs at the same instant draw the same points in the same
// order; only the sampled colors may differ.
#[test]
fn burst_positions_are_deterministic() {
    let term = Terminal::new(20, 10).unwrap();
    let a = explosion_frame(&term, "GO", 450);
    let b = explosion_frame(&term, "GO", 450);
    assert_eq!(a.len(), b.len());
    let mut k = 0;
    while k < a.len() {
        assert_eq!((a[k].x, a[k].y, a[k].glyph), (b[k].x, b[k].y, b[k].glyph));
        k += 1;
    }
}
