//! A fixed-size character grid with a style code per cell.

use vstd::prelude::*;
use crate::text::chars_of;

verus! {

/// One grid cell: the glyph shown and a style code (0 means empty).
#[derive(Clone, Copy, Debug, PartialEq, Eq, Structural)]
pub struct Cell {
    pub ch: char,
    pub kind: u8,
}

/// The cell every position holds before anything is drawn.
pub open spec fn blank() -> Cell {
    Cell { ch: ' ', kind: 0 }
}

/// A `w` by `h` grid stored row by row.
pub struct Canvas {
    pub w: i32,
    pub h: i32,
    pub cells: Vec<Cell>,
}

/// Whether `(x, y)` lies on a `w` by `h` grid.
pub open spec fn in_bounds(w: int, h: int, x: int, y: int) -> bool {
    0 <= x < w && 0 <= y < h
}

/// The storage index of `(x, y)` on a grid of width `w`.
pub open spec fn cell_index(w: int, x: int, y: int) -> int {
    y * w + x
}

/// The cells after `set(x, y, c)`: one write when the position is on the
/// grid, no change otherwise.
pub open spec fn set_cells(w: int, h: int, cells: Seq<Cell>, x: int, y: int, c: Cell) -> Seq<Cell> {
    if in_bounds(w, h, x, y) {
        cells.update(cell_index(w, x, y), c)
    } else {
        cells
    }
}

/// A position on the grid has its storage index inside the cells.
pub proof fn lemma_index_in_range(w: int, h: int, x: int, y: int)
    requires
        in_bounds(w, h, x, y),
    ensures
        0 <= y * w,
        0 <= cell_index(w, x, y) < w * h,
{
    assert(0 <= y * w) by (nonlinear_arith)
        requires
            0 <= y,
            0 < w,
    ;
    assert(y * w + w <= h * w) by (nonlinear_arith)
        requires
            y + 1 <= h,
            0 < w,
    ;
    assert(h * w == w * h) by (nonlinear_arith);
}

/// Two positions on the grid share a storage index only when they are the
/// same position.
pub proof fn lemma_index_injective(w: int, h: int, x1: int, y1: int, x2: int, y2: int)
    requires
        in_bounds(w, h, x1, y1),
        in_bounds(w, h, x2, y2),
        cell_index(w, x1, y1) == cell_index(w, x2, y2),
    ensures
        x1 == x2 && y1 == y2,
{
    if y1 < y2 {
        assert(y1 * w + w <= y2 * w) by (nonlinear_arith)
            requires
                y1 + 1 <= y2,
                0 < w,
        ;
    } else if y2 < y1 {
        assert(y2 * w + w <= y1 * w) by (nonlinear_arith)
            requires
                y2 + 1 <= y1,
                0 < w,
        ;
    }
}

impl Canvas {
    /// The grid's cells as a sequence, row by row.
    pub open spec fn view_cells(&self) -> Seq<Cell> {
        self.cells@
    }

    /// The grid holds exactly `w * h` cells, a count that fits in an `i32`.
    pub open spec fn wf(&self) -> bool {
        &&& 0 <= self.w * self.h <= i32::MAX
        &&& self.cells@.len() == self.w * self.h
    }

    /// The cell at `(x, y)`.
    pub open spec fn cell_at(&self, x: int, y: int) -> Cell {
        self.cells@[cell_index(self.w as int, x, y)]
    }

    /// An empty `w` by `h` grid.
    pub fn new(w: i32, h: i32) -> (c: Canvas)
        requires
            0 <= w * h <= i32::MAX,
        ensures
            c.wf(),
            c.w == w,
            c.h == h,
            c.cells@ == Seq::new((w * h) as nat, |i: int| blank()),
    {
        let n: usize = (w * h) as usize;
        let mut cells: Vec<Cell> = Vec::new();
        let mut i: usize = 0;
        while i < n
            invariant
                i <= n,
                cells@ == Seq::new(i as nat, |k: int| blank()),
            decreases n - i,
        {
            cells.push(Cell { ch: ' ', kind: 0 });
            i = i + 1;
        }
        Canvas { w, h, cells }
    }

    /// Writes a cell at `(x, y)`; positions off the grid are ignored.
    pub fn set(&mut self, x: i32, y: i32, ch: char, kind: u8)
        requires
            old(self).wf(),
        ensures
            final(self).wf(),
            final(self).w == old(self).w,
            final(self).h == old(self).h,
            final(self).cells@ == set_cells(
                old(self).w as int,
                old(self).h as int,
                old(self).cells@,
                x as int,
                y as int,
                Cell { ch, kind },
            ),
    {
        if x >= 0 && y >= 0 && x < self.w && y < self.h {
            proof {
                lemma_index_in_range(self.w as int, self.h as int, x as int, y as int);
            }
            let n = self.cells.len();
            assert((y as int) * (self.w as int) + (x as int) < n);
            let idx: usize = (y as usize) * (self.w as usize) + (x as usize);
            self.cells.set(idx, Cell { ch, kind });
        }
    }

    /// The cell stored at index `y * w + x`, which must lie inside the
    /// grid's storage; every position on the grid does.
    pub fn get(&self, x: i32, y: i32) -> (c: Cell)
        requires
            self.wf(),
            i32::MIN <= y * self.w <= i32::MAX,
            0 <= cell_index(self.w as int, x as int, y as int) < self.w * self.h,
        ensures
            c == self.cell_at(x as int, y as int),
    {
        let idx: i64 = y as i64 * self.w as i64 + x as i64;
        self.cells[idx as usize]
    }
}

/// The cells after writing the characters of `s` left to right from
/// `(x, y)`, each with style `kind`; characters that fall off the grid are
/// dropped.
pub open spec fn draw_chars(w: int, h: int, cells: Seq<Cell>, x: int, y: int, s: Seq<char>, kind: u8) -> Seq<Cell>
    decreases s.len(),
{
    if s.len() == 0 {
        cells
    } else {
        draw_chars(
            w,
            h,
            set_cells(w, h, cells, x, y, Cell { ch: s[0], kind }),
            x + 1,
            y,
            s.drop_first(),
            kind,
        )
    }
}

/// The column where a string of `n` characters starts when centered on `x`.
pub open spec fn centered_start(x: int, n: nat) -> int {
    x - (n / 2) as int
}

/// Draws `s` on row `y` of `canvas`, centered on column `x`, with style
/// `kind`.
pub fn draw_str(canvas: &mut Canvas, x: i32, y: i32, s: &str, kind: u8)
    requires
        old(canvas).wf(),
        s@.len() <= i32::MAX,
    ensures
        final(canvas).wf(),
        final(canvas).w == old(canvas).w,
        final(canvas).h == old(canvas).h,
        final(canvas).cells@ == draw_chars(
            old(canvas).w as int,
            old(canvas).h as int,
            old(canvas).cells@,
            centered_start(x as int, s@.len()),
            y as int,
            s@,
            kind,
        ),
{
    let cs = chars_of(s);
    let n = cs.len();
    let start: i64 = x as i64 - (n / 2) as i64;
    let ghost w = canvas.w as int;
    let ghost h = canvas.h as int;
    let mut j: usize = 0;
    assert(cs@.skip(0) == cs@);
    while j < n
        invariant
            n == cs@.len(),
            n <= i32::MAX,
            j <= n,
            start == centered_start(x as int, n as nat),
            canvas.wf(),
            canvas.w == w,
            canvas.h == h,
            draw_chars(w, h, canvas.cells@, start + j, y as int, cs@.skip(j as int), kind)
                == draw_chars(w, h, old(canvas).cells@, start as int, y as int, cs@, kind),
        decreases n - j,
    {
        let px: i64 = start + j as i64;
        assert(cs@.skip(j as int).drop_first() == cs@.skip(j + 1));
        assert(cs@.skip(j as int)[0] == cs@[j as int]);
        if 0 <= px && px < canvas.w as i64 {
            canvas.set(px as i32, y, cs[j], kind);
        }
        j = j + 1;
    }
    assert(cs@.skip(n as int).len() == 0);
}

/// Reading a position back after writing it gives the written cell.
pub proof fn law_get_after_set(w: int, h: int, cells: Seq<Cell>, x: int, y: int, c: Cell)
    requires
        cells.len() == w * h,
        in_bounds(w, h, x, y),
    ensures
        set_cells(w, h, cells, x, y, c)[cell_index(w, x, y)] == c,
{
    lemma_index_in_range(w, h, x, y);
}

/// Writing one position leaves every other position as it was.
pub proof fn law_set_keeps_other_cells(
    w: int,
    h: int,
    cells: Seq<Cell>,
    x: int,
    y: int,
    c: Cell,
    x2: int,
    y2: int,
)
    requires
        cells.len() == w * h,
        in_bounds(w, h, x2, y2),
        x2 != x || y2 != y,
    ensures
        set_cells(w, h, cells, x, y, c)[cell_index(w, x2, y2)] == cells[cell_index(w, x2, y2)],
{
    if in_bounds(w, h, x, y) {
        lemma_index_in_range(w, h, x, y);
        lemma_index_in_range(w, h, x2, y2);
        if cell_index(w, x, y) == cell_index(w, x2, y2) {
            lemma_index_injective(w, h, x, y, x2, y2);
        }
    }
}

/// Writing off the grid changes nothing.
pub proof fn law_set_off_grid_is_noop(w: int, h: int, cells: Seq<Cell>, x: int, y: int, c: Cell)
    requires
        !in_bounds(w, h, x, y),
    ensures
        set_cells(w, h, cells, x, y, c) == cells,
{
}

} // verus!
