//! Caption placement: a text string centered on the screen.

use vstd::prelude::*;

verus! {

/// The caption's starting column: the center column moved left by half
/// the text length (floor), biasing odd-length captions slightly left.
pub open spec fn caption_start_spec(center_x: int, len: int) -> int {
    center_x - len / 2
}

/// The caption's starting column on screen.
pub fn caption_start(center_x: u16, len: u16) -> (s: u16)
    requires
        len / 2 <= center_x,
    ensures
        s == caption_start_spec(center_x as int, len as int),
{
    center_x - len / 2
}

/// Whether the caption's row-and-column span covers a screen position
/// (in whatever coordinate base `center_x`, `center_y` and `x`, `y`
/// share). The span runs from the start column through the column just
/// past the text's last glyph, both bounds inclusive; the full-redraw
/// effects skip this whole span so the caption never flickers.
pub open spec fn caption_covers(center_x: int, center_y: int, len: int, x: int, y: int) -> bool {
    y == center_y && caption_start_spec(center_x, len) <= x <= caption_start_spec(center_x, len)
        + len
}

} // verus!
