use termfx::buffer::FrameBuffer;
use termfx::color::Rgb;
use termfx::terminal::{Cell, EffectError, Terminal};

fn red_star() -> Cell {
    Cell { glyph: '*', color: Rgb { r: 255, g: 0, b: 0 } }
}

fn blue_hash() -> Cell {
    Cell { glyph: '#', color: Rgb { r: 0, g: 0, b: 255 } }
}

// A fresh buffer is all blanks.
#[test]
fn allocate_blank() {
    let buf = FrameBuffer::allocate(3, 2);
    let mut y: u16 = 0;
    while y < 2 {
        let mut x: u16 = 0;
        while x < 3 {
            let c = buf.cell(x, y);
            assert_eq!(c.glyph, ' ');
            assert_eq!(c.color, Rgb { r: 0, g: 0, b: 0 });
            x += 1;
        }
        y += 1;
    }
}

// Diffing a buffer against itself emits nothing.
#[test]
fn diff_of_identical_buffers_is_empty() {
    let mut a = FrameBuffer::allocate(4, 3);
    a.write(1, 2, red_star());
    let updates = a.emit_diff(&a);
    assert_eq!(updates.len(), 0);
}

// The diff lists exactly the changed positions, once each, in
// row-major order, with the current buffer's cells.
#[test]
fn diff_lists_exactly_the_changes() {
    let prev = FrameBuffer::allocate(3, 2);
    let mut cur = FrameBuffer::allocate(3, 2);
    cur.write(2, 0, red_star());
    cur.write(0, 1, blue_hash());
    let updates = cur.emit_diff(&prev);
    assert_eq!(updates.len(), 2);
    assert_eq!((updates[0].x, updates[0].y), (2, 0));
    assert_eq!(updates[0].cell, red_star());
    assert_eq!((updates[1].x, updates[1].y), (0, 1));
    assert_eq!(updates[1].cell, blue_hash());
}

// A cell that changes only in color is still a change.
#[test]
fn diff_sees_color_only_changes() {
    let mut prev = FrameBuffer::allocate(2, 1);
    let mut cur = FrameBuffer::allocate(2, 1);
    prev.write(0, 0, Cell { glyph: '*', color: Rgb { r: 1, g: 2, b: 3 } });
    cur.write(0, 0, Cell { glyph: '*', color: Rgb { r: 1, g: 2, b: 4 } });
    let updates = cur.emit_diff(&prev);
    assert_eq!(updates.len(), 1);
    assert_eq!((updates[0].x, updates[0].y), (0, 0));
}

// Diffing in either order reports the same coordinates, though each
// side hands out its own cells.
#[test]
fn diff_coordinates_are_symmetric() {
    let mut a = FrameBuffer::allocate(4, 4);
    let mut b = FrameBuffer::allocate(4, 4);
    a.write(1, 1, red_star());
    b.write(3, 2, blue_hash());
    b.write(1, 1, blue_hash());
    let ab = a.emit_diff(&b);
    let ba = b.emit_diff(&a);
    assert_eq!(ab.len(), ba.len());
    let mut k = 0;
    while k < ab.len() {
        assert_eq!((ab[k].x, ab[k].y), (ba[k].x, ba[k].y));
        k += 1;
    }
}

// Writes past either edge are silently dropped: effects self-clip.
#[test]
fn write_out_of_bounds_is_a_noop() {
    let mut buf = FrameBuffer::allocate(3, 2);
    buf.write(3, 0, red_star());
    buf.write(0, 2, red_star());
    buf.write(500, 500, red_star());
    let blank = FrameBuffer::allocate(3, 2);
    assert_eq!(buf.emit_diff(&blank).len(), 0);
}

// The geometry provider rejects a screen it cannot measure.
#[test]
fn terminal_rejects_zero_dimensions() {
    assert_eq!(Terminal::new(0, 24), Err(EffectError::UnavailableTerminal));
    assert_eq!(Terminal::new(80, 0), Err(EffectError::UnavailableTerminal));
    assert!(Terminal::new(80, 24).is_ok());
}

// The center is found by floor division, biasing left and up.
#[test]
fn center_pos_floors() {
    let term = Terminal::new(81, 25).unwrap();
    assert_eq!(term.center_pos(), (40, 12));
    let even = Terminal::new(80, 24).unwrap();
    assert_eq!(even.center_pos(), (40, 12));
}
