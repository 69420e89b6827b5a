use termfx::buffer::FrameBuffer;
use termfx::color::{spectrum, Rgb};
use termfx::rainbow::rainbow_frame;
use termfx::render::{clear_all_sequence, render_cmds, render_diff, DrawCmd};

// The sweep's color index at column `x` and time bucket `k` is
// `(x + k) mod 7`, independent of the row.
#[test]
fn sweep_color_index_formula() {
    let mut buf = FrameBuffer::allocate(10, 4);
    rainbow_frame(&mut buf, "", 0);
    let mut x: u16 = 0;
    while x < 10 {
        let mut y: u16 = 0;
        while y < 4 {
            assert_eq!(buf.cell(x, y).color, spectrum(u64::from(x) % 7));
            assert_eq!(buf.cell(x, y).glyph, '*');
            y += 1;
        }
        x += 1;
    }
}

// A tenth of a second shifts every column by one spectrum entry.
#[test]
fn sweep_advances_every_hundred_millis() {
    let mut buf = FrameBuffer::allocate(10, 4);
    rainbow_frame(&mut buf, "", 250);
    assert_eq!(buf.cell(0, 0).color, spectrum(2));
    assert_eq!(buf.cell(1, 0).color, spectrum(3));
}

// Seven columns apart, the same color: the sweep is cyclic.
#[test]
fn sweep_is_cyclic() {
    let mut buf = FrameBuffer::allocate(10, 4);
    rainbow_frame(&mut buf, "", 1600);
    assert_eq!(buf.cell(0, 0).color, buf.cell(7, 0).color);
    assert_eq!(buf.cell(2, 3).color, buf.cell(9, 3).color);
}

// The caption sits in white one row above the vertical center.
#[test]
fn sweep_caption_overlay() {
    let mut buf = FrameBuffer::allocate(10, 4);
    rainbow_frame(&mut buf, "HI", 0);
    let white = Rgb { r: 255, g: 255, b: 255 };
    assert_eq!(buf.cell(4, 1).glyph, 'H');
    assert_eq!(buf.cell(4, 1).color, white);
    assert_eq!(buf.cell(5, 1).glyph, 'I');
    assert_eq!(buf.cell(5, 1).color, white);
    assert_eq!(buf.cell(3, 1).glyph, '*');
    assert_eq!(buf.cell(6, 1).glyph, '*');
}

// One changed cell renders as one cursor move, one color and one
// glyph, at the 1-based position.
#[test]
fn render_diff_emits_the_exact_escape_text() {
    let prev = FrameBuffer::allocate(1, 1);
    let mut cur = FrameBuffer::allocate(1, 1);
    cur.write(
        0,
        0,
        termfx::terminal::Cell { glyph: '*', color: Rgb { r: 255, g: 0, b: 0 } },
    );
    let out = render_diff(&cur, &prev);
    assert_eq!(out, "\u{1b}[1;1H\u{1b}[38;2;255;0;0m*");
}

// An unchanged frame renders as nothing at all.
#[test]
fn render_diff_of_identical_buffers_is_empty() {
    let buf = FrameBuffer::allocate(5, 5);
    assert_eq!(render_diff(&buf, &buf), "");
}

// Each command renders its own move, color and glyph, in order.
#[test]
fn render_cmds_concatenates_in_order() {
    let cmds = vec![
        DrawCmd { x: 5, y: 3, color: Rgb { r: 1, g: 2, b: 3 }, glyph: '*' },
        DrawCmd { x: 1, y: 1, color: Rgb { r: 0, g: 0, b: 255 }, glyph: 'Z' },
    ];
    let out = render_cmds(&cmds);
    assert_eq!(out, "\u{1b}[3;5H\u{1b}[38;2;1;2;3m*\u{1b}[1;1H\u{1b}[38;2;0;0;255mZ");
}

// The clear-screen sequence is the fixed four-character escape.
#[test]
fn clear_sequence_is_fixed() {
    assert_eq!(clear_all_sequence(), "\u{1b}[2J");
}
