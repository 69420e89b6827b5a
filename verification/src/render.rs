//! Turning cell updates into the exact terminal escape text to emit.
//!
//! Each drawn cell costs one cursor move, one foreground color and one
//! glyph. The escape sequences themselves come from termion; the
//! concatenation around them is verified.

use vstd::prelude::*;
use vstd::string::StringExecFns;
use crate::buffer::{diff_upto, CellUpdate, FrameBuffer};
use crate::color::Rgb;
use crate::terminal::Cell;

verus! {

/// One direct draw: put `glyph` in `color` at the 1-based screen
/// position `(x, y)`.
#[derive(Clone, Copy, Debug, PartialEq, Eq, Structural)]
pub struct DrawCmd {
    pub x: u16,
    pub y: u16,
    pub color: Rgb,
    pub glyph: char,
}

/// The escape sequence that moves the cursor to a 1-based position.
pub uninterp spec fn goto_text(x: u16, y: u16) -> Seq<char>;

/// The escape sequence that sets the foreground to an RGB triple.
pub uninterp spec fn fg_text(r: u8, g: u8, b: u8) -> Seq<char>;

/// Relies on termion's cursor positioning: `String::from(Goto(x, y))`
/// builds the move-cursor escape sequence from the two (1-based)
/// coordinates alone.
#[verifier::external_body]
fn goto_sequence(x: u16, y: u16) -> (s: String)
    requires
        x >= 1,
        y >= 1,
    ensures
        s@ == goto_text(x, y),
{
    String::from(termion::cursor::Goto(x, y))
}

/// Relies on termion's `Rgb::fg_string`: the set-foreground escape
/// sequence of an RGB triple, from its three channels alone.
#[verifier::external_body]
fn fg_sequence(color: &Rgb) -> (s: String)
    ensures
        s@ == fg_text(color.r, color.g, color.b),
{
    termion::color::Rgb(color.r, color.g, color.b).fg_string()
}

/// Relies on termion's `clear::All`: the clear-screen escape sequence,
/// a fixed four-character string.
#[verifier::external_body]
pub fn clear_all_sequence() -> (s: String)
    ensures
        s@ == seq!['\u{1b}', '[', '2', 'J'],
{
    let all: &str = termion::clear::All.as_ref();
    all.to_string()
}

/// Relies on std's `String::push`: appends one character.
#[verifier::external_body]
fn push_char(s: &mut String, c: char)
    ensures
        final(s)@ == old(s)@.push(c),
{
    s.push(c)
}

/// The escape text of one draw command: move, color, glyph.
pub open spec fn cmd_text(c: DrawCmd) -> Seq<char> {
    goto_text(c.x, c.y) + fg_text(c.color.r, c.color.g, c.color.b) + seq![c.glyph]
}

/// The escape text of a whole frame's draw commands, in order.
pub open spec fn cmds_text(cmds: Seq<DrawCmd>) -> Seq<char>
    decreases cmds.len(),
{
    if cmds.len() == 0 {
        Seq::empty()
    } else {
        cmds_text(cmds.drop_last()) + cmd_text(cmds.last())
    }
}

/// Renders draw commands into the single string a tick flushes: for
/// each command, in order, a cursor move, a foreground color and the
/// glyph.
pub fn render_cmds(cmds: &Vec<DrawCmd>) -> (out: String)
    requires
        forall|k: int| 0 <= k < cmds@.len() ==> (#[trigger] cmds@[k]).x >= 1 && cmds@[k].y >= 1,
    ensures
        out@ == cmds_text(cmds@),
{
    let mut out = String::new();
    let mut k: usize = 0;
    while k < cmds.len()
        invariant
            k <= cmds@.len(),
            forall|j: int| 0 <= j < cmds@.len() ==> (#[trigger] cmds@[j]).x >= 1 && cmds@[j].y >= 1,
            out@ == cmds_text(cmds@.subrange(0, k as int)),
        decreases cmds@.len() - k,
    {
        let c = cmds[k];
        let goto = goto_sequence(c.x, c.y);
        let fg = fg_sequence(&c.color);
        out.append(goto.as_str());
        out.append(fg.as_str());
        push_char(&mut out, c.glyph);
        proof {
            let sub = cmds@.subrange(0, k as int + 1);
            assert(sub.drop_last() =~= cmds@.subrange(0, k as int));
            assert(sub.last() == c);
            assert(out@ =~= cmds_text(sub.drop_last()) + cmd_text(c));
        }
        k = k + 1;
    }
    proof {
        assert(cmds@.subrange(0, cmds@.len() as int) =~= cmds@);
    }
    out
}

/// A 0-based cell update as a 1-based draw command.
pub open spec fn update_cmd(u: CellUpdate) -> DrawCmd {
    DrawCmd { x: (u.x + 1) as u16, y: (u.y + 1) as u16, color: u.cell.color, glyph: u.cell.glyph }
}

/// The escape text a tick of a double-buffered effect flushes: one
/// draw per cell that changed since the previous tick, in row-major
/// order, at its 1-based screen position.
pub fn render_diff(cur: &FrameBuffer, prev: &FrameBuffer) -> (out: String)
    requires
        cur.wf(),
        prev.wf(),
        cur.width == prev.width,
        cur.height == prev.height,
    ensures
        out@ == cmds_text(
            diff_upto(
                cur.cells@,
                prev.cells@,
                cur.width as int,
                (cur.width * cur.height) as nat,
            ).map_values(|u: CellUpdate| update_cmd(u)),
        ),
{
    let updates = cur.emit_diff(prev);
    proof {
        if cur.width > 0 && cur.height > 0 {
            crate::buffer::lemma_diff_coords(
                cur.cells@,
                prev.cells@,
                cur.width as int,
                cur.height as int,
                (cur.width * cur.height) as nat,
            );
        } else {
            assert(cur.width * cur.height == 0) by (nonlinear_arith)
                requires
                    cur.width == 0 || cur.height == 0,
            ;
        }
    }
    let mut cmds: Vec<DrawCmd> = Vec::new();
    let mut k: usize = 0;
    while k < updates.len()
        invariant
            k <= updates@.len(),
            forall|j: int|
                0 <= j < updates@.len() ==> (#[trigger] updates@[j]).x <= 0xfffe && updates@[j].y
                    <= 0xfffe,
            cmds@ =~= updates@.subrange(0, k as int).map_values(|u: CellUpdate| update_cmd(u)),
        decreases updates@.len() - k,
    {
        let u = updates[k];
        cmds.push(DrawCmd { x: u.x + 1, y: u.y + 1, color: u.cell.color, glyph: u.cell.glyph });
        proof {
            assert(updates@.subrange(0, k as int + 1).drop_last() =~= updates@.subrange(
                0,
                k as int,
            ));
            assert(cmds@ =~= updates@.subrange(0, k as int + 1).map_values(
                |u: CellUpdate| update_cmd(u),
            ));
        }
        k = k + 1;
    }
    proof {
        assert(updates@.subrange(0, updates@.len() as int) =~= updates@);
        assert forall|j: int|
            0 <= j < cmds@.len() implies (#[trigger] cmds@[j]).x >= 1 && cmds@[j].y >= 1 by {
            assert(cmds@[j] == update_cmd(updates@[j]));
        }
    }
    render_cmds(&cmds)
}

} // verus!
