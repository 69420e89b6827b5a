//! The double-buffered cell grid and its differ.
//!
//! A frame buffer is a row-major grid of cells. The differ compares
//! the grid drawn this tick with the one adopted last tick and lists
//! only the cells that changed, in row-major order, so that a tick
//! touches the terminal only where the picture moved.

use vstd::prelude::*;
use crate::terminal::{blank_cell, Cell};

verus! {

/// One changed cell: its column, its row (both 0-based) and the cell
/// now there.
#[derive(Clone, Copy, Debug, PartialEq, Eq, Structural)]
pub struct CellUpdate {
    pub x: u16,
    pub y: u16,
    pub cell: Cell,
}

/// The linear (row-major) position an update points at.
pub open spec fn update_index(u: CellUpdate, w: int) -> int {
    u.y * w + u.x
}

/// The updates that the first `n` cells of `cur` need against `prev`:
/// one entry, in row-major order, for each position where the two
/// grids differ in glyph or color.
pub open spec fn diff_upto(cur: Seq<Cell>, prev: Seq<Cell>, w: int, n: nat) -> Seq<CellUpdate>
    decreases n,
{
    if n == 0 {
        Seq::empty()
    } else {
        let i = n - 1;
        let rest = diff_upto(cur, prev, w, (n - 1) as nat);
        if cur[i] != prev[i] {
            rest.push(CellUpdate { x: (i % w) as u16, y: (i / w) as u16, cell: cur[i] })
        } else {
            rest
        }
    }
}

/// A row-major grid of cells, recreated at each animation start and
/// mutated in place every tick.
pub struct FrameBuffer {
    pub width: u16,
    pub height: u16,
    pub cells: Vec<Cell>,
}

impl FrameBuffer {
    /// The grid holds exactly one cell per screen position.
    pub open spec fn wf(&self) -> bool {
        self.cells@.len() == self.width * self.height
    }

    /// The cell at a (0-based) position.
    pub open spec fn cell_at(&self, x: int, y: int) -> Cell {
        self.cells@[y * self.width + x]
    }

    /// A fresh buffer of the given dimensions, filled with blank cells.
    pub fn allocate(width: u16, height: u16) -> (buf: FrameBuffer)
        requires
            width * height <= usize::MAX,
        ensures
            buf.wf(),
            buf.width == width,
            buf.height == height,
            forall|i: int| 0 <= i < buf.cells@.len() ==> buf.cells@[i] == blank_cell(),
    {
        let total: usize = (width as usize) * (height as usize);
        let mut cells: Vec<Cell> = Vec::new();
        let mut i: usize = 0;
        while i < total
            invariant
                i <= total,
                cells@.len() == i,
                forall|k: int| 0 <= k < i ==> cells@[k] == blank_cell(),
            decreases total - i,
        {
            cells.push(Cell::blank());
            i = i + 1;
        }
        FrameBuffer { width, height, cells }
    }

    /// Reads the cell at a (0-based) position.
    pub fn cell(&self, x: u16, y: u16) -> (c: Cell)
        requires
            self.wf(),
            x < self.width,
            y < self.height,
        ensures
            c == self.cell_at(x as int, y as int),
    {
        let len = self.cells.len();
        proof {
            lemma_grid_index(self.width as int, self.height as int, x as int, y as int);
        }
        self.cells[(y as usize) * (self.width as usize) + (x as usize)]
    }

    /// Writes a cell at a (0-based) position; a write out of bounds is
    /// a no-op, so effects that draw past the edge clip themselves.
    pub fn write(&mut self, x: u16, y: u16, cell: Cell)
        requires
            old(self).wf(),
        ensures
            final(self).wf(),
            final(self).width == old(self).width,
            final(self).height == old(self).height,
            x < old(self).width && y < old(self).height ==> final(self).cells@ == old(
                self,
            ).cells@.update(y * old(self).width + x, cell),
            !(x < old(self).width && y < old(self).height) ==> *final(self) == *old(self),
    {
        if x < self.width && y < self.height {
            let len = self.cells.len();
            proof {
                lemma_grid_index(self.width as int, self.height as int, x as int, y as int);
            }
            let i: usize = (y as usize) * (self.width as usize) + (x as usize);
            self.cells.set(i, cell);
        }
    }

    /// Lists the cells of `self` that differ from `prev`, in row-major
    /// order, each with the cell `self` now holds there.
    pub fn emit_diff(&self, prev: &FrameBuffer) -> (updates: Vec<CellUpdate>)
        requires
            self.wf(),
            prev.wf(),
            self.width == prev.width,
            self.height == prev.height,
        ensures
            updates@ == diff_upto(
                self.cells@,
                prev.cells@,
                self.width as int,
                (self.width * self.height) as nat,
            ),
    {
        let w = self.width as usize;
        let h = self.height as usize;
        let mut updates: Vec<CellUpdate> = Vec::new();
        let mut y: usize = 0;
        while y < h
            invariant
                self.wf(),
                prev.wf(),
                self.width == prev.width,
                self.height == prev.height,
                w == self.width,
                h == self.height,
                y <= h,
                updates@ == diff_upto(self.cells@, prev.cells@, w as int, (y * w) as nat),
            decreases h - y,
        {
            let mut x: usize = 0;
            while x < w
                invariant
                    self.wf(),
                    prev.wf(),
                    self.width == prev.width,
                    self.height == prev.height,
                    w == self.width,
                    h == self.height,
                    y < h,
                    x <= w,
                    updates@ == diff_upto(self.cells@, prev.cells@, w as int, (y * w + x) as nat),
                decreases w - x,
            {
                let total = self.cells.len();
                assert(y * w + x + 1 <= w * h) by (nonlinear_arith)
                    requires
                        x < w,
                        y < h,
                ;
                let i: usize = y * w + x;
                proof {
                    lemma_grid_index(w as int, h as int, x as int, y as int);
                }
                if self.cells[i] != prev.cells[i] {
                    updates.push(CellUpdate { x: x as u16, y: y as u16, cell: self.cells[i] });
                }
                x = x + 1;
            }
            proof {
                assert((y + 1) * w == y * w + w) by (nonlinear_arith);
            }
            y = y + 1;
        }
        proof {
            assert(y * w == w * h) by (nonlinear_arith)
                requires
                    y == h,
            ;
        }
        updates
    }
}

/// Diffing a grid against itself yields nothing: an unchanged frame
/// touches the terminal nowhere.
pub proof fn lemma_diff_identical(a: Seq<Cell>, w: int, n: nat)
    ensures
        diff_upto(a, a, w, n) =~= Seq::<CellUpdate>::empty(),
    decreases n,
{
    if n > 0 {
        lemma_diff_identical(a, w, (n - 1) as nat);
    }
}

/// The diff lists exactly the positions where the grids differ: every
/// entry points at a differing position and carries the current cell,
/// every differing position is listed, and the listed positions are
/// strictly increasing in row-major order, so each appears once.
pub proof fn lemma_diff_exact(cur: Seq<Cell>, prev: Seq<Cell>, w: int, n: nat)
    requires
        0 < w <= 0xffff,
        n <= w * 0x10000,
    ensures
        forall|k: int|
            0 <= k < diff_upto(cur, prev, w, n).len() ==> {
                let i = update_index(#[trigger] diff_upto(cur, prev, w, n)[k], w);
                0 <= i < n && cur[i] != prev[i] && diff_upto(cur, prev, w, n)[k].cell == cur[i]
            },
        forall|i: int|
            0 <= i < n && cur[i] != #[trigger] prev[i] ==> exists|k: int|
                0 <= k < diff_upto(cur, prev, w, n).len() && update_index(
                    #[trigger] diff_upto(cur, prev, w, n)[k],
                    w,
                ) == i,
        forall|k1: int, k2: int|
            0 <= k1 < k2 < diff_upto(cur, prev, w, n).len() ==> update_index(
                #[trigger] diff_upto(cur, prev, w, n)[k1],
                w,
            ) < update_index(#[trigger] diff_upto(cur, prev, w, n)[k2], w),
    decreases n,
{
    if n > 0 {
        let m = (n - 1) as nat;
        lemma_diff_exact(cur, prev, w, m);
        let i = n - 1;
        vstd::arithmetic::div_mod::lemma_fundamental_div_mod(i, w);
        vstd::arithmetic::div_mod::lemma_mod_bound(i, w);
        assert(i / w < 0x10000 && 0 <= i / w) by {
            vstd::arithmetic::div_mod::lemma_div_is_ordered(0, i, w);
            assert(i < w * 0x10000);
            vstd::arithmetic::div_mod::lemma_multiply_divide_lt(i, w, 0x10000);
        }
        if cur[i] != prev[i] {
            let u = CellUpdate { x: (i % w) as u16, y: (i / w) as u16, cell: cur[i] };
            assert(0 <= i % w < w);
            assert(u.x as int == i % w);
            assert(u.y as int == i / w);
            assert(i == w * (i / w) + i % w);
            assert((i / w) * w == w * (i / w)) by (nonlinear_arith);
            assert(update_index(u, w) == i);
            let d = diff_upto(cur, prev, w, n);
            assert(d == diff_upto(cur, prev, w, m).push(u));
            assert(d[d.len() - 1] == u);
            assert(update_index(d[d.len() - 1], w) == i);
            assert forall|j: int| 0 <= j < n - 1 && cur[j] != #[trigger] prev[j] implies exists|k: int|
                0 <= k < d.len() && update_index(#[trigger] d[k], w) == j by {
                let k0 = choose|k0: int|
                    0 <= k0 < diff_upto(cur, prev, w, m).len() && update_index(
                        diff_upto(cur, prev, w, m)[k0],
                        w,
                    ) == j;
                assert(d[k0] == diff_upto(cur, prev, w, m)[k0]);
            }
        } else {
            assert(diff_upto(cur, prev, w, n) == diff_upto(cur, prev, w, m));
        }
    }
}

/// Every update the diff lists stays inside the grid.
pub proof fn lemma_diff_coords(cur: Seq<Cell>, prev: Seq<Cell>, w: int, h: int, n: nat)
    requires
        0 < w <= 0xffff,
        0 < h <= 0xffff,
        n <= w * h,
    ensures
        forall|k: int|
            0 <= k < diff_upto(cur, prev, w, n).len() ==> (#[trigger] diff_upto(
                cur,
                prev,
                w,
                n,
            )[k]).x < w && diff_upto(cur, prev, w, n)[k].y < h,
    decreases n,
{
    if n > 0 {
        let m = (n - 1) as nat;
        lemma_diff_coords(cur, prev, w, h, m);
        let i = n - 1;
        vstd::arithmetic::div_mod::lemma_mod_bound(i, w);
        vstd::arithmetic::div_mod::lemma_div_is_ordered(0, i, w);
        vstd::arithmetic::div_mod::lemma_multiply_divide_lt(i, w, h);
        if cur[i] != prev[i] {
            let d = diff_upto(cur, prev, w, n);
            assert forall|k: int| 0 <= k < d.len() implies (#[trigger] d[k]).x < w && d[k].y
                < h by {
                if k < d.len() - 1 {
                    assert(d[k] == diff_upto(cur, prev, w, m)[k]);
                }
            }
        }
    }
}

/// Diffing is symmetric in the coordinates it reports: against either
/// order of the two grids, the same positions are listed, though with
/// the cells of whichever grid comes first.
pub proof fn lemma_diff_symmetric(a: Seq<Cell>, b: Seq<Cell>, w: int, n: nat)
    ensures
        diff_upto(a, b, w, n).len() == diff_upto(b, a, w, n).len(),
        forall|k: int|
            0 <= k < diff_upto(a, b, w, n).len() ==> #[trigger] diff_upto(a, b, w, n)[k].x
                == diff_upto(b, a, w, n)[k].x && diff_upto(a, b, w, n)[k].y == diff_upto(
                b,
                a,
                w,
                n,
            )[k].y,
    decreases n,
{
    if n > 0 {
        let m = (n - 1) as nat;
        lemma_diff_symmetric(a, b, w, m);
        let i = n - 1;
        let dab = diff_upto(a, b, w, n);
        let dba = diff_upto(b, a, w, n);
        if a[i] != b[i] {
            let uab = CellUpdate { x: (i % w) as u16, y: (i / w) as u16, cell: a[i] };
            let uba = CellUpdate { x: (i % w) as u16, y: (i / w) as u16, cell: b[i] };
            assert(dab == diff_upto(a, b, w, m).push(uab));
            assert(dba == diff_upto(b, a, w, m).push(uba));
            assert(dab.len() == dba.len());
            assert forall|k: int|
                0 <= k < diff_upto(a, b, w, n).len() implies #[trigger] diff_upto(
                a,
                b,
                w,
                n,
            )[k].x == diff_upto(b, a, w, n)[k].x && diff_upto(a, b, w, n)[k].y == diff_upto(
                b,
                a,
                w,
                n,
            )[k].y by {
                if k < dab.len() - 1 {
                    assert(dab[k] == diff_upto(a, b, w, m)[k]);
                    assert(dba[k] == diff_upto(b, a, w, m)[k]);
                } else {
                    assert(dab[k] == uab);
                    assert(dba[k] == uba);
                }
            }
        } else {
            assert(dab == diff_upto(a, b, w, m));
            assert(dba == diff_upto(b, a, w, m));
        }
    }
}

/// Linear position arithmetic: inside the grid, `y * w + x` stays in
/// range and decomposes back into `x` and `y`.
proof fn lemma_grid_index(w: int, h: int, x: int, y: int)
    requires
        0 <= x < w,
        0 <= y < h,
    ensures
        0 <= y * w + x < w * h,
        (y * w + x) % w == x,
        (y * w + x) / w == y,
{
    assert(0 <= y * w + x && y * w + x < w * h) by (nonlinear_arith)
        requires
            0 <= x < w,
            0 <= y < h,
    ;
    vstd::arithmetic::div_mod::lemma_fundamental_div_mod_converse(y * w + x, w, y, x);
}

} // verus!
