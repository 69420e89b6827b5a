//! Screen geometry and the cell grid's element type.

use vstd::prelude::*;
use crate::color::Rgb;

verus! {

/// Why an animation cannot start or continue: the terminal cannot
/// report its dimensions, or an output write failed mid-frame. Both
/// are fatal to the current invocation.
#[derive(Clone, Copy, Debug, PartialEq, Eq, Structural)]
pub enum EffectError {
    UnavailableTerminal,
    WriteFailure,
}

/// The screen geometry, captured once per animation invocation.
#[derive(Clone, Copy, Debug, PartialEq, Eq, Structural)]
pub struct Terminal {
    pub width: u16,
    pub height: u16,
}

impl Terminal {
    /// Both dimensions of a usable screen are positive.
    pub open spec fn wf(&self) -> bool {
        self.width > 0 && self.height > 0
    }

    /// Accepts a reported screen size; a dimension of zero means the
    /// terminal could not report one.
    pub fn new(width: u16, height: u16) -> (r: Result<Terminal, EffectError>)
        ensures
            width > 0 && height > 0 ==> r == Ok::<Terminal, EffectError>(
                Terminal { width, height },
            ),
            !(width > 0 && height > 0) ==> r == Err::<Terminal, EffectError>(
                EffectError::UnavailableTerminal,
            ),
    {
        if width > 0 && height > 0 {
            Ok(Terminal { width, height })
        } else {
            Err(EffectError::UnavailableTerminal)
        }
    }

    /// The screen center, by integer (floor) division; for odd
    /// dimensions this biases the caption slightly left and up.
    pub fn center_pos(&self) -> (c: (u16, u16))
        ensures
            c.0 == self.width / 2,
            c.1 == self.height / 2,
    {
        (self.width / 2, self.height / 2)
    }
}

/// One cell of the screen grid: a glyph and its foreground color.
#[derive(Clone, Copy, Debug, PartialEq, Eq, Structural)]
pub struct Cell {
    pub glyph: char,
    pub color: Rgb,
}

/// The blank cell: a space, colored black.
pub open spec fn blank_cell() -> Cell {
    Cell { glyph: ' ', color: Rgb { r: 0, g: 0, b: 0 } }
}

impl Cell {
    /// The blank cell that a fresh buffer is filled with.
    pub fn blank() -> (c: Cell)
        ensures
            c == blank_cell(),
    {
        Cell { glyph: ' ', color: Rgb { r: 0, g: 0, b: 0 } }
    }
}

} // verus!
