//! Turning the grown tree into styled text lines, and laying out full
//! screens: the bonsai view and the help screen.

use vstd::prelude::*;
use crate::ansi::{
    RESET, TRUNK, TRUNK_DARK, LEAF, LEAF_BRIGHT, LEAF_DARK, POT, SOIL, is_control, visible_width, lemma_control_width, esc,
    visible_chars, lemma_control_chars,
};
use crate::canvas::{Canvas, Cell, cell_index, lemma_index_in_range};
use crate::text::{extend_str, trim_end, trim_end_in_place, all_ws, is_blank, string_of};
use crate::tree::{Growth, grow_tree, grown};

verus! {

/// Width of the tree view, in columns.
pub const TREE_W: i32 = 54;

/// Height of the tree view, in rows.
pub const TREE_H: i32 = 26;

/// The color that introduces a cell of style `kind`.
pub open spec fn color(kind: u8) -> Seq<char> {
    if kind == 1 {
        TRUNK@
    } else if kind == 2 {
        LEAF@
    } else if kind == 8 {
        POT@
    } else if kind == 4 {
        LEAF_BRIGHT@
    } else if kind == 5 {
        TRUNK_DARK@
    } else if kind == 6 {
        LEAF_DARK@
    } else if kind == 7 {
        SOIL@
    } else {
        Seq::empty()
    }
}

/// The text of one cell: a space when empty, else its glyph in its color
/// followed by a reset.
pub open spec fn cell_text(c: Cell) -> Seq<char> {
    if c.kind == 0 {
        seq![' ']
    } else {
        color(c.kind) + seq![c.ch] + RESET@
    }
}

/// The text of the first `n` cells of row `y`.
pub open spec fn row_text(cells: Seq<Cell>, w: int, y: int, n: int) -> Seq<char>
    decreases n,
{
    if n <= 0 {
        Seq::empty()
    } else {
        row_text(cells, w, y, n - 1) + cell_text(cells[cell_index(w, n - 1, y)])
    }
}

/// Every row of the grid as text, without trailing spaces.
pub open spec fn grid_rows(cells: Seq<Cell>, w: int, h: int) -> Seq<Seq<char>> {
    Seq::new(h as nat, |y: int| trim_end(row_text(cells, w, y, w)))
}

/// `ls` without its leading blank lines.
pub open spec fn drop_blank_lead(ls: Seq<Seq<char>>) -> Seq<Seq<char>>
    decreases ls.len(),
{
    if ls.len() > 0 && all_ws(ls[0]) {
        drop_blank_lead(ls.drop_first())
    } else {
        ls
    }
}

/// The tree view's lines: the grown tree on its fixed grid, with the empty
/// sky above it removed.
pub open spec fn tree_text(g: Growth) -> Seq<Seq<char>> {
    drop_blank_lead(grid_rows(grown(g, TREE_W as int, TREE_H as int), TREE_W as int, TREE_H as int))
}

/// Appends the text of one cell.
fn push_cell_text(line: &mut Vec<char>, c: Cell)
    ensures
        final(line)@ == old(line)@ + cell_text(c),
{
    if c.kind == 0 {
        line.push(' ');
        assert(final(line)@ == old(line)@ + seq![' ']);
        return;
    }
    let code: &str = if c.kind == 1 {
        TRUNK
    } else if c.kind == 2 {
        LEAF
    } else if c.kind == 8 {
        POT
    } else if c.kind == 4 {
        LEAF_BRIGHT
    } else if c.kind == 5 {
        TRUNK_DARK
    } else if c.kind == 6 {
        LEAF_DARK
    } else if c.kind == 7 {
        SOIL
    } else {
        ""
    };
    proof {
        reveal_strlit("");
    }
    assert(code@ == color(c.kind));
    extend_str(line, code);
    line.push(c.ch);
    extend_str(line, RESET);
    assert(final(line)@ == old(line)@ + (color(c.kind) + seq![c.ch] + RESET@));
}

/// The text of row `y` of the grid, without trailing spaces.
fn row_line(c: &Canvas, y: i32) -> (line: Vec<char>)
    requires
        c.wf(),
        0 <= c.w,
        0 <= y < c.h,
    ensures
        line@ == trim_end(row_text(c.cells@, c.w as int, y as int, c.w as int)),
{
    let mut line: Vec<char> = Vec::new();
    let mut x: i32 = 0;
    while x < c.w
        invariant
            c.wf(),
            0 <= c.w,
            0 <= y < c.h,
            0 <= x <= c.w,
            line@ == row_text(c.cells@, c.w as int, y as int, x as int),
        decreases c.w - x,
    {
        proof {
            lemma_index_in_range(c.w as int, c.h as int, x as int, y as int);
        }
        let cell = c.get(x, y);
        push_cell_text(&mut line, cell);
        x = x + 1;
    }
    trim_end_in_place(&mut line);
    line
}

/// The lines of the tree grown from `g`, top to bottom, starting at the
/// first line that shows anything.
pub fn tree_lines(g: &Growth) -> (lines: Vec<String>)
    requires
        g.wf(),
    ensures
        lines@.len() == tree_text(*g).len(),
        forall|i: int| 0 <= i < lines@.len() ==> #[trigger] lines@[i]@ == tree_text(*g)[i],
        forall|i: int| 0 <= i < lines@.len() ==> visible_width(#[trigger] lines@[i]@) <= TREE_W,
{
    let c = grow_tree(g, TREE_W, TREE_H);
    let ghost rows = grid_rows(c.cells@, c.w as int, c.h as int);
    let mut rows_exec: Vec<Vec<char>> = Vec::new();
    let mut y: i32 = 0;
    while y < c.h
        invariant
            c.wf(),
            c.h == TREE_H,
            c.w == TREE_W,
            rows == grid_rows(c.cells@, c.w as int, c.h as int),
            0 <= y <= c.h,
            rows_exec@.len() == y,
            forall|k: int| 0 <= k < y ==> #[trigger] rows_exec@[k]@ == rows[k],
        decreases c.h - y,
    {
        let line = row_line(&c, y);
        rows_exec.push(line);
        y = y + 1;
    }
    let mut first: usize = 0;
    assert(rows.skip(0) == rows);
    while first < rows_exec.len() && is_blank(&rows_exec[first])
        invariant
            first <= rows_exec@.len(),
            rows_exec@.len() == rows.len(),
            forall|k: int| 0 <= k < rows.len() ==> #[trigger] rows_exec@[k]@ == rows[k],
            drop_blank_lead(rows.skip(first as int)) == drop_blank_lead(rows),
        decreases rows_exec.len() - first,
    {
        assert(rows.skip(first as int).drop_first() == rows.skip(first + 1));
        first = first + 1;
    }
    assert(drop_blank_lead(rows.skip(first as int)) == rows.skip(first as int));
    let mut lines: Vec<String> = Vec::new();
    let mut k: usize = first;
    while k < rows_exec.len()
        invariant
            first <= k <= rows_exec@.len(),
            rows_exec@.len() == rows.len(),
            forall|j: int| 0 <= j < rows.len() ==> #[trigger] rows_exec@[j]@ == rows[j],
            lines@.len() == k - first,
            forall|j: int| 0 <= j < k - first ==> #[trigger] lines@[j]@ == rows[first + j],
        decreases rows_exec.len() - k,
    {
        let s = string_of(&rows_exec[k]);
        lines.push(s);
        k = k + 1;
    }
    proof {
        assert forall|i: int| 0 <= i < lines@.len() implies visible_width(#[trigger] lines@[i]@) <= TREE_W by {
            assert(drop_blank_lead(rows) == rows.skip(first as int));
            assert(lines@[i]@ == tree_text(*g)[i]);
            law_tree_line_width(*g, i);
        }
    }
    lines
}

/// The tree view never starts with an empty line: what is left after the
/// empty sky is removed is a suffix of the grid's rows that is either empty
/// or starts with a row that shows something.
pub proof fn law_tree_view_starts_with_tree(ls: Seq<Seq<char>>)
    ensures
        drop_blank_lead(ls).len() == 0 || !all_ws(drop_blank_lead(ls)[0]),
        drop_blank_lead(ls).len() <= ls.len(),
        drop_blank_lead(ls) == ls.skip(ls.len() - drop_blank_lead(ls).len()),
    decreases ls.len(),
{
    if ls.len() > 0 && all_ws(ls[0]) {
        law_tree_view_starts_with_tree(ls.drop_first());
        let d = drop_blank_lead(ls.drop_first());
        assert(ls.drop_first().skip(ls.drop_first().len() - d.len()) == ls.skip(ls.len() - d.len()));
    } else {
        assert(ls.skip(0) == ls);
    }
}

/// Every style a cell can have is one whole control sequence, or none.
proof fn lemma_styles_are_controls(kind: u8)
    ensures
        color(kind).len() == 0 || is_control(color(kind)),
        is_control(RESET@),
{
    reveal_strlit("\x1b[0m");
    reveal_strlit("\x1b[38;5;137m");
    reveal_strlit("\x1b[38;5;108m");
    reveal_strlit("\x1b[38;5;173m");
    reveal_strlit("\x1b[38;5;151m");
    reveal_strlit("\x1b[38;5;94m");
    reveal_strlit("\x1b[38;5;65m");
    reveal_strlit("\x1b[38;5;130m");
    assert(is_control(RESET@));
    assert(is_control(TRUNK@));
    assert(is_control(LEAF@));
    assert(is_control(POT@));
    assert(is_control(LEAF_BRIGHT@));
    assert(is_control(TRUNK_DARK@));
    assert(is_control(LEAF_DARK@));
    assert(is_control(SOIL@));
}

/// A cell's text takes at most one column in front of whatever follows.
proof fn lemma_cell_width(c: Cell, rest: Seq<char>)
    ensures
        visible_width(cell_text(c) + rest) <= 1 + visible_width(rest),
{
    if c.kind == 0 {
        let v = seq![' '] + rest;
        assert(v[0] == ' ');
        assert(v.drop_first() == rest);
    } else {
        lemma_styles_are_controls(c.kind);
        let r = RESET@ + rest;
        lemma_control_width(RESET@, rest);
        let x = seq![c.ch] + r;
        assert(x[0] == c.ch);
        assert(x.drop_first() == r);
        if c.ch == esc() {
            assert(x[1] == r[0]);
            assert(r[0] == RESET@[0]);
        }
        assert(cell_text(c) + rest == color(c.kind) + x);
        if color(c.kind).len() == 0 {
            assert(color(c.kind) + x == x);
        } else {
            lemma_control_width(color(c.kind), x);
        }
    }
}

/// The first `n` cells of a row take at most `n` columns in front of
/// whatever follows.
proof fn lemma_row_width(cells: Seq<Cell>, w: int, y: int, n: int, rest: Seq<char>)
    requires
        n >= 0,
    ensures
        visible_width(row_text(cells, w, y, n) + rest) <= n + visible_width(rest),
    decreases n,
{
    if n == 0 {
        assert(row_text(cells, w, y, 0) + rest == rest);
    } else {
        let c = cells[cell_index(w, n - 1, y)];
        lemma_cell_width(c, rest);
        lemma_row_width(cells, w, y, n - 1, cell_text(c) + rest);
        assert(row_text(cells, w, y, n) + rest == row_text(cells, w, y, n - 1) + (cell_text(c) + rest));
    }
}

/// Every line of the tree view fits the width of the tree's grid: each
/// cell shows one column, whatever its style.
pub proof fn law_tree_line_width(g: Growth, i: int)
    requires
        0 <= i < tree_text(g).len(),
    ensures
        visible_width(tree_text(g)[i]) <= TREE_W,
{
    let rows = grid_rows(grown(g, TREE_W as int, TREE_H as int), TREE_W as int, TREE_H as int);
    law_tree_view_starts_with_tree(rows);
    let off = rows.len() - tree_text(g).len();
    assert(tree_text(g)[i] == rows[off + i]);
    let cells = grown(g, TREE_W as int, TREE_H as int);
    let m = lemma_trim_row_blank(cells, TREE_W as int, off + i, TREE_W as int);
    lemma_row_width(cells, TREE_W as int, off + i, m, Seq::empty());
    assert(row_text(cells, TREE_W as int, off + i, m) + Seq::<char>::empty() == row_text(
        cells,
        TREE_W as int,
        off + i,
        m,
    ));
}

/// The glyph a cell shows: its character, or a space when it is empty.
pub open spec fn shown(c: Cell) -> char {
    if c.kind == 0 {
        ' '
    } else {
        c.ch
    }
}

/// A cell's text shows its glyph in front of whatever follows.
proof fn lemma_cell_chars(c: Cell, rest: Seq<char>)
    requires
        c.kind == 0 || c.ch != esc(),
    ensures
        visible_chars(cell_text(c) + rest) == seq![shown(c)] + visible_chars(rest),
{
    if c.kind == 0 {
        let v = seq![' '] + rest;
        assert(v[0] == ' ');
        assert(v.drop_first() == rest);
    } else {
        lemma_styles_are_controls(c.kind);
        let r = RESET@ + rest;
        lemma_control_chars(RESET@, rest);
        let x = seq![c.ch] + r;
        assert(x[0] == c.ch);
        assert(x.drop_first() == r);
        assert(cell_text(c) + rest == color(c.kind) + x);
        if color(c.kind).len() == 0 {
            assert(color(c.kind) + x == x);
        } else {
            lemma_control_chars(color(c.kind), x);
        }
    }
}

/// The text of a row shows the row's cells left to right, one glyph per
/// cell, in front of whatever follows.
proof fn lemma_row_chars(cells: Seq<Cell>, w: int, y: int, n: int, rest: Seq<char>)
    requires
        0 <= n,
        forall|x: int| 0 <= x < n ==> (#[trigger] cells[cell_index(w, x, y)]).kind == 0 || cells[cell_index(w, x, y)].ch != esc(),
    ensures
        visible_chars(row_text(cells, w, y, n) + rest) == Seq::new(n as nat, |x: int| shown(cells[cell_index(w, x, y)]))
            + visible_chars(rest),
    decreases n,
{
    if n == 0 {
        assert(row_text(cells, w, y, 0) + rest == rest);
        assert(Seq::new(0, |x: int| shown(cells[cell_index(w, x, y)])) + visible_chars(rest) == visible_chars(rest));
    } else {
        let c = cells[cell_index(w, n - 1, y)];
        lemma_cell_chars(c, rest);
        lemma_row_chars(cells, w, y, n - 1, cell_text(c) + rest);
        assert(row_text(cells, w, y, n) + rest == row_text(cells, w, y, n - 1) + (cell_text(c) + rest));
        assert(Seq::new((n - 1) as nat, |x: int| shown(cells[cell_index(w, x, y)])) + (seq![shown(c)] + visible_chars(rest))
            == Seq::new(n as nat, |x: int| shown(cells[cell_index(w, x, y)])) + visible_chars(rest));
    }
}

/// A row of the grid reads left to right: the line it becomes shows, at
/// each column, the glyph of that column's cell (a space when empty), for
/// every cell up to the last one that is not empty.
pub proof fn law_row_reads_left_to_right(cells: Seq<Cell>, w: int, y: int)
    requires
        0 <= w,
        forall|x: int| 0 <= x < w ==> (#[trigger] cells[cell_index(w, x, y)]).kind == 0 || cells[cell_index(w, x, y)].ch != esc(),
    ensures
        ({
            let shows = visible_chars(trim_end(row_text(cells, w, y, w)));
            &&& shows.len() <= w
            &&& forall|x: int| 0 <= x < shows.len() ==> #[trigger] shows[x] == shown(cells[cell_index(w, x, y)])
            &&& forall|x: int| shows.len() <= x < w ==> (#[trigger] cells[cell_index(w, x, y)]).kind == 0
        }),
{
    let m = lemma_trim_row_blank(cells, w, y, w);
    lemma_row_chars(cells, w, y, m, Seq::empty());
    assert(row_text(cells, w, y, m) + Seq::<char>::empty() == row_text(cells, w, y, m));
    assert(visible_chars(Seq::<char>::empty()) == Seq::<char>::empty());
}

/// Trimming a row drops exactly its trailing empty cells.
proof fn lemma_trim_row_blank(cells: Seq<Cell>, w: int, y: int, n: int) -> (m: int)
    requires
        n >= 0,
    ensures
        0 <= m <= n,
        trim_end(row_text(cells, w, y, n)) == row_text(cells, w, y, m),
        forall|x: int| m <= x < n ==> (#[trigger] cells[cell_index(w, x, y)]).kind == 0,
    decreases n,
{
    if n == 0 {
        0
    } else {
        let c = cells[cell_index(w, n - 1, y)];
        let a = row_text(cells, w, y, n - 1);
        let s = row_text(cells, w, y, n);
        if c.kind == 0 {
            assert(s.last() == ' ');
            assert(s.drop_last() == a);
            lemma_trim_row_blank(cells, w, y, n - 1)
        } else {
            reveal_strlit("\x1b[0m");
            assert(s.last() == 'm');
            n
        }
    }
}

} // verus!
