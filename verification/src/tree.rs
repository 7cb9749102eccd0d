//! The procedural bonsai: a trunk walker that climbs from the pot, spawns
//! shorter branch walkers, and ends its branches in leaf clusters, all
//! driven by a generator seeded from the plant's seed.

use vstd::prelude::*;
use crate::canvas::{
    Canvas, Cell, blank, in_bounds, set_cells, cell_index, lemma_index_in_range, law_set_keeps_other_cells,
    law_get_after_set,
};
use crate::text::chars_of;
use crate::rng::{Rng, xorshift, seed_state};

verus! {

/// The whole-number growth parameters the tree is drawn from. The plant's
/// care state decides them: light direction sets `light_step` and
/// `leaf_shift`, vigor sets the branching odds, leaf radii and leaf
/// density, and growth sets `max_steps`.
#[derive(Clone, Copy, Debug)]
pub struct Growth {
    /// Seed of the generator; the same seed grows the same tree.
    pub seed: u64,
    /// Trunk length before crown pruning shortens it.
    pub max_steps: i32,
    /// Drift toward the light: -1 left, 0 none, 1 right.
    pub light_step: i32,
    /// Shift of leaves toward the light: -1, 0 or 1.
    pub leaf_shift: i32,
    /// Horizontal shift of the crown clusters.
    pub crown_shift: i32,
    /// Percent odds that each crown cluster grows.
    pub crown_chance: u64,
    /// Percent odds, per step, of a branch at depths 0, 1 and 2.
    pub branch_chance_0: u64,
    pub branch_chance_1: u64,
    pub branch_chance_2: u64,
    /// Vigor scaled to the leaf radii: `(vigor * 3)` and `(vigor * 2)`.
    pub vigor3: i32,
    pub vigor2: i32,
    /// Percent odds that each position of a leaf cluster holds a leaf.
    pub leaf_chance: u64,
    /// How often each side, and the crown, has been pruned.
    pub prune_left: u32,
    pub prune_right: u32,
    pub prune_top: u32,
}

impl Growth {
    /// Light steps and leaf shifts are unit steps.
    pub open spec fn wf(&self) -> bool {
        &&& -1 <= self.light_step <= 1
        &&& -1 <= self.leaf_shift <= 1
    }
}

/// What the drawing has produced so far: the grid's cells and the
/// generator's state.
pub struct Pen {
    pub cells: Seq<Cell>,
    pub rng: u64,
}

/// One draw of `chance(n, d)`.
pub open spec fn pchance(p: Pen, n: u64, d: u64) -> (bool, Pen) {
    let r = xorshift(p.rng);
    (r % d < n, Pen { cells: p.cells, rng: r })
}

/// One draw of `range(lo, hi)` (no draw when the range is empty).
pub open spec fn prange(p: Pen, lo: int, hi: int) -> (int, Pen) {
    if hi <= lo {
        (lo, p)
    } else {
        let r = xorshift(p.rng);
        (lo + (r as int) % (hi - lo), Pen { cells: p.cells, rng: r })
    }
}

/// One raw draw.
pub open spec fn pnext(p: Pen) -> (u64, Pen) {
    let r = xorshift(p.rng);
    (r, Pen { cells: p.cells, rng: r })
}

/// Writing one cell.
pub open spec fn pdraw(p: Pen, w: int, h: int, x: int, y: int, ch: char, kind: u8) -> Pen {
    Pen { cells: set_cells(w, h, p.cells, x, y, Cell { ch, kind }), rng: p.rng }
}

/// `v` limited to `lo..=hi`.
pub open spec fn clamp(v: int, lo: int, hi: int) -> int {
    if v < lo {
        lo
    } else if v > hi {
        hi
    } else {
        v
    }
}

/// Half of `v`, rounded toward zero as `/` does on machine integers.
pub open spec fn half(v: int) -> int {
    if v >= 0 {
        v / 2
    } else {
        -((-v) / 2)
    }
}

/// Percent odds of a branch at `depth`.
pub open spec fn branch_chance(g: Growth, depth: u8) -> u64 {
    if depth == 0 {
        g.branch_chance_0
    } else if depth == 1 {
        g.branch_chance_1
    } else {
        g.branch_chance_2
    }
}

/// The glyph of a trunk or branch segment heading `dx`.
pub open spec fn segment_glyph(dx: int, depth: u8, step: int) -> char {
    if dx == -1 {
        '/'
    } else if dx == 1 {
        '\\'
    } else if depth == 0 && step < 4 {
        '┃'
    } else {
        '│'
    }
}

/// The style of a trunk or branch segment: the trunk's base is dark.
pub open spec fn segment_kind(depth: u8, step: int) -> u8 {
    if rooted(depth, step) {
        5
    } else {
        1
    }
}

/// Whether a step belongs to the stem: the trunk's first four steps, which
/// rise straight from the planter without drifting.
pub open spec fn rooted(depth: u8, step: int) -> bool {
    depth == 0 && step < 4
}

/// The lowest row of the planter buffer on a grid of height `h`: the stem
/// and the planter below it, where no leaf may grow.
pub open spec fn foliage_floor(h: int) -> int {
    h - 9
}

/// The side a new branch grows to: toward the light with odds 60 in 100
/// when there is a light side, otherwise left or right with even odds.
pub open spec fn preferred_side(g: Growth, p: Pen) -> (int, Pen) {
    let (toward, p1) = if g.light_step != 0 {
        pchance(p, 60, 100)
    } else {
        (false, p)
    };
    if toward {
        (g.light_step as int, p1)
    } else {
        let (left, p2) = pchance(p1, 1, 2);
        (if left {
            -1
        } else {
            1
        }, p2)
    }
}

/// `n`, but at most 8.
pub open spec fn cap8(n: u32) -> u64 {
    if n < 8 {
        n as u64
    } else {
        8
    }
}

/// Whether pruning suppresses a branch toward `side`: each pruning of that
/// side adds odds of one in eleven, up to eight in eleven.
pub open spec fn suppressed(g: Growth, p: Pen, side: int) -> (bool, Pen) {
    let (left, p1) = if side < 0 && g.prune_left > 0 {
        pchance(p, cap8(g.prune_left), 11)
    } else {
        (false, p)
    };
    if left {
        (true, p1)
    } else if side > 0 && g.prune_right > 0 {
        pchance(p1, cap8(g.prune_right), 11)
    } else {
        (false, p1)
    }
}

/// Recursion rank of a walker: deeper walkers rank lower.
pub open spec fn rank(depth: u8) -> int {
    if depth <= 4 {
        4 - depth
    } else {
        0
    }
}

/// A walker of `length` steps from `(x, y)` heading `dx` at `depth`; every
/// branch (depth above 0) ends in a leaf cluster.
pub open spec fn walker(g: Growth, w: int, h: int, p: Pen, x: int, y: int, dx: int, length: int, depth: u8) -> Pen
    decreases rank(depth), 1int, 0int,
{
    if depth > 4 || length < 2 {
        p
    } else {
        let (p2, x2, y2) = walker_steps(g, w, h, p, x, y, dx, length, depth, 0);
        if depth > 0 {
            leaf_cluster(g, w, h, p2, x2, y2, depth)
        } else {
            p2
        }
    }
}

/// The steps `step..length` of a walker, with the pen and position at the
/// end.
pub open spec fn walker_steps(
    g: Growth,
    w: int,
    h: int,
    p: Pen,
    x: int,
    y: int,
    dx: int,
    length: int,
    depth: u8,
    step: int,
) -> (Pen, int, int)
    decreases rank(depth), 0int, length - step,
{
    if step >= length || depth > 4 {
        (p, x, y)
    } else {
        let (p2, x2, y2, dx2) = walker_step(g, w, h, p, x, y, dx, length, depth, step);
        walker_steps(g, w, h, p2, x2, y2, dx2, length, depth, step + 1)
    }
}

/// The heading after a step's drift roll: with odds 28 in 100 for the trunk
/// and 44 in 100 for branches the heading jitters by -1, 0 or 1 and, with
/// odds 26 in 100, leans toward the light, staying within -1..=1.
pub open spec fn steer(g: Growth, p: Pen, dx: int, depth: u8) -> (int, Pen) {
    let drift = if depth == 0 {
        28u64
    } else {
        44u64
    };
    let (drifts, p1) = pchance(p, drift, 100);
    if drifts {
        let (jitter, pa) = prange(p1, -1, 2);
        let (lean, pb) = pchance(pa, 26, 100);
        (clamp(dx + jitter + (if lean {
            g.light_step as int
        } else {
            0
        }), -1, 1), pb)
    } else {
        (dx, p1)
    }
}

/// The column after a step: a leaning walker moves sideways with odds 54
/// in 100.
pub open spec fn advance(p: Pen, x: int, dx: int) -> (int, Pen) {
    if dx != 0 {
        let (moves, p1) = pchance(p, 54, 100);
        (if moves {
            x + dx
        } else {
            x
        }, p1)
    } else {
        (x, p)
    }
}

/// Whether a branch starts at this step: away from both ends of a walker
/// above depth 3, with the branch odds of its depth.
pub open spec fn branch_roll(g: Growth, p: Pen, depth: u8, step: int, length: int) -> (bool, Pen) {
    if step > 2 && step < length - 2 && depth < 3 {
        pchance(p, branch_chance(g, depth), 100)
    } else {
        (false, p)
    }
}

/// The plan of a new branch: whether it survives pruning, its side, and
/// its length (half the rest of the parent plus 2 to 5, at least 3).
pub open spec fn sprout_plan(g: Growth, p: Pen, length: int, step: int) -> (bool, int, int, Pen) {
    let (side, p6) = preferred_side(g, p);
    let (sup, p7) = suppressed(g, p6, side);
    if sup {
        (false, side, 0, p7)
    } else {
        let (extra, p8) = prange(p7, 2, 6);
        let child_len = if (length - step) / 2 + extra > 3 {
            (length - step) / 2 + extra
        } else {
            3
        };
        (true, side, child_len, p8)
    }
}

/// One step of a walker: climb a row, maybe drift (never on the stem) and
/// move sideways, draw the segment, and maybe start a branch.
pub open spec fn walker_step(
    g: Growth,
    w: int,
    h: int,
    p: Pen,
    x: int,
    y: int,
    dx: int,
    length: int,
    depth: u8,
    step: int,
) -> (Pen, int, int, int)
    decreases rank(depth), 0int, length - step - 1,
{
    let y1 = y - 1;
    let (dx2, p2) = if rooted(depth, step) {
        (dx, p)
    } else {
        steer(g, p, dx, depth)
    };
    let (x3, p3) = advance(p2, x, dx2);
    let p4 = pdraw(p3, w, h, x3, y1, segment_glyph(dx2, depth, step), segment_kind(depth, step));
    let (branches, p5) = branch_roll(g, p4, depth, step, length);
    let p_end = if branches && depth < 3 {
        let (grows, side, child_len, p8) = sprout_plan(g, p5, length, step);
        if grows {
            walker(g, w, h, p8, x3, y1, side, child_len, (depth + 1) as u8)
        } else {
            p8
        }
    } else {
        p5
    };
    (p_end, x3, y1, dx2)
}

/// Horizontal leaf radius at `depth`.
pub open spec fn radius_x(g: Growth, depth: u8) -> int {
    clamp(2 + g.vigor3 - depth / 2, 2, 5)
}

/// Vertical leaf radius.
pub open spec fn radius_y(g: Growth) -> int {
    clamp(1 + g.vigor2, 1, 3)
}

/// The leaf glyph a draw selects.
pub open spec fn leaf_glyph(r: u64) -> char {
    let k = r % 7;
    if k == 0 {
        '❧'
    } else if k == 1 {
        '•'
    } else if k == 2 {
        '·'
    } else if k == 3 {
        '✦'
    } else {
        '●'
    }
}

/// The leaf style a draw selects: mostly plain, sometimes bright or dark.
pub open spec fn leaf_kind(r: u64) -> u8 {
    let k = r % 6;
    if k == 0 {
        4
    } else if k == 1 {
        6
    } else {
        2
    }
}

/// The leaf at offset `(xx, yy)` of a cluster centered on `(x, y)`: only
/// inside the ellipse, only with the leaf odds, and only above the planter
/// buffer (a leaf that would fall into it still takes its draws).
pub open spec fn leaf_at(g: Growth, w: int, h: int, p: Pen, x: int, y: int, xx: int, yy: int, rx: int) -> Pen {
    if xx * xx * 4 + yy * yy * 9 > rx * rx * 4 {
        p
    } else {
        let (grows, p1) = pchance(p, g.leaf_chance, 100);
        if !grows {
            p1
        } else {
            let (shifted, p2) = pchance(p1, 58, 100);
            let px = x + xx + (if shifted {
                g.leaf_shift as int
            } else {
                0
            });
            let (gw, p3) = pnext(p2);
            let (kw, p4) = pnext(p3);
            if y + yy < foliage_floor(h) {
                pdraw(p4, w, h, px, y + yy, leaf_glyph(gw), leaf_kind(kw))
            } else {
                p4
            }
        }
    }
}

/// The leaves of row `yy` from offset `xx` to `rx`.
pub open spec fn leaf_row(g: Growth, w: int, h: int, p: Pen, x: int, y: int, yy: int, xx: int, rx: int) -> Pen
    decreases rx - xx + 1,
{
    if xx > rx {
        p
    } else {
        leaf_row(g, w, h, leaf_at(g, w, h, p, x, y, xx, yy, rx), x, y, yy, xx + 1, rx)
    }
}

/// The leaf rows from `yy` to `ry`.
pub open spec fn leaf_rows(g: Growth, w: int, h: int, p: Pen, x: int, y: int, yy: int, rx: int, ry: int) -> Pen
    decreases ry - yy + 1,
{
    if yy > ry {
        p
    } else {
        leaf_rows(g, w, h, leaf_row(g, w, h, p, x, y, yy, -rx, rx), x, y, yy + 1, rx, ry)
    }
}

/// A leaf cluster centered on `(x, y)` at the tip of a branch of `depth`.
pub open spec fn leaf_cluster(g: Growth, w: int, h: int, p: Pen, x: int, y: int, depth: u8) -> Pen {
    let rx = radius_x(g, depth);
    let ry = radius_y(g);
    leaf_rows(g, w, h, p, x, y, -ry, rx, ry)
}

/// The pen of a canvas and generator.
pub open spec fn pen_of(c: &Canvas, r: &Rng) -> Pen {
    Pen { cells: c.cells@, rng: r@ }
}

/// `v` limited to `lo..=hi`.
fn clamp_i64(v: i64, lo: i64, hi: i64) -> (r: i64)
    requires
        lo <= hi,
    ensures
        r == clamp(v as int, lo as int, hi as int),
{
    if v < lo {
        lo
    } else if v > hi {
        hi
    } else {
        v
    }
}

/// Writes a cell at a position given in wide integers (ignored off grid).
fn put(c: &mut Canvas, x: i64, y: i64, ch: char, kind: u8)
    requires
        old(c).wf(),
    ensures
        final(c).wf(),
        final(c).w == old(c).w,
        final(c).h == old(c).h,
        final(c).cells@ == set_cells(
            old(c).w as int,
            old(c).h as int,
            old(c).cells@,
            x as int,
            y as int,
            Cell { ch, kind },
        ),
{
    if 0 <= x && x < c.w as i64 && 0 <= y && y < c.h as i64 {
        c.set(x as i32, y as i32, ch, kind);
    }
}

/// Draws the leaf cluster centered on `(x, y)`.
fn draw_leaf_cluster(c: &mut Canvas, rng: &mut Rng, g: &Growth, x: i64, y: i64, depth: u8)
    requires
        old(c).wf(),
        g.wf(),
        -4611686018427387904 <= x <= 4611686018427387904,
        -4611686018427387904 <= y <= 4611686018427387904,
    ensures
        final(c).wf(),
        final(c).w == old(c).w,
        final(c).h == old(c).h,
        pen_of(final(c), final(rng)) == leaf_cluster(
            *g,
            old(c).w as int,
            old(c).h as int,
            pen_of(old(c), old(rng)),
            x as int,
            y as int,
            depth,
        ),
{
    let ghost w = c.w as int;
    let ghost h = c.h as int;
    let rx: i64 = clamp_i64(2 + g.vigor3 as i64 - (depth / 2) as i64, 2, 5);
    let ry: i64 = clamp_i64(1 + g.vigor2 as i64, 1, 3);
    let ghost target = leaf_cluster(*g, w, h, pen_of(c, rng), x as int, y as int, depth);
    let mut yy: i64 = -ry;
    while yy <= ry
        invariant
            c.wf(),
            c.w == w,
            c.h == h,
            g.wf(),
            1 <= ry <= 3,
            2 <= rx <= 5,
            -ry <= yy <= ry + 1,
            rx == radius_x(*g, depth),
            ry == radius_y(*g),
            -4611686018427387904 <= x <= 4611686018427387904,
            -4611686018427387904 <= y <= 4611686018427387904,
            leaf_rows(*g, w, h, pen_of(c, rng), x as int, y as int, yy as int, rx as int, ry as int)
                == target,
        decreases ry - yy + 1,
    {
        let ghost row_start = pen_of(c, rng);
        let mut xx: i64 = -rx;
        while xx <= rx
            invariant
                c.wf(),
                c.w == w,
                c.h == h,
                g.wf(),
                1 <= ry <= 3,
                2 <= rx <= 5,
                -ry <= yy <= ry,
                -rx <= xx <= rx + 1,
                -4611686018427387904 <= x <= 4611686018427387904,
                -4611686018427387904 <= y <= 4611686018427387904,
                leaf_row(*g, w, h, pen_of(c, rng), x as int, y as int, yy as int, xx as int, rx as int)
                    == leaf_row(*g, w, h, row_start, x as int, y as int, yy as int, -rx, rx as int),
            decreases rx - xx + 1,
        {
            let ghost before = pen_of(c, rng);
            assert(0 <= xx * xx <= 36) by (nonlinear_arith)
                requires
                    -6 <= xx <= 6,
            ;
            assert(0 <= yy * yy <= 16) by (nonlinear_arith)
                requires
                    -4 <= yy <= 4,
            ;
            assert(0 <= rx * rx <= 25) by (nonlinear_arith)
                requires
                    0 <= rx <= 5,
            ;
            let ellipse: i64 = xx * xx * 4 + yy * yy * 9;
            let limit: i64 = rx * rx * 4;
            if ellipse <= limit {
                if rng.chance(g.leaf_chance, 100) {
                    let shifted = rng.chance(58, 100);
                    let px: i64 = x + xx + if shifted {
                        g.leaf_shift as i64
                    } else {
                        0
                    };
                    let py: i64 = y + yy;
                    let gw = rng.next();
                    let glyph = match gw % 7 {
                        0 => '❧',
                        1 => '•',
                        2 => '·',
                        3 => '✦',
                        _ => '●',
                    };
                    let kw = rng.next();
                    let kind: u8 = match kw % 6 {
                        0 => 4,
                        1 => 6,
                        _ => 2,
                    };
                    if py < c.h as i64 - 9 {
                        put(c, px, py, glyph, kind);
                    }
                }
            }
            assert(pen_of(c, rng) == leaf_at(*g, w, h, before, x as int, y as int, xx as int, yy as int, rx as int));
            xx = xx + 1;
        }
        yy = yy + 1;
    }
}

/// Rolls a step's drift and returns the new heading.
fn steer_exec(rng: &mut Rng, g: &Growth, dx: i64, depth: u8) -> (r: i64)
    requires
        g.wf(),
        -1 <= dx <= 1,
    ensures
        -1 <= r <= 1,
        forall|cells: Seq<Cell>|
            #![trigger steer(*g, Pen { cells, rng: old(rng)@ }, dx as int, depth)]
            steer(*g, Pen { cells, rng: old(rng)@ }, dx as int, depth) == (r as int, Pen { cells, rng: final(rng)@ }),
{
    let drift: u64 = if depth == 0 {
        28
    } else {
        44
    };
    if rng.chance(drift, 100) {
        let jitter: i64 = rng.range(-1, 2) as i64;
        let lean = rng.chance(26, 100);
        let pull: i64 = if lean {
            g.light_step as i64
        } else {
            0
        };
        clamp_i64(dx + jitter + pull, -1, 1)
    } else {
        dx
    }
}

/// Rolls whether a leaning walker moves sideways and returns the column.
fn advance_exec(rng: &mut Rng, x: i64, dx: i64) -> (r: i64)
    requires
        -1 <= dx <= 1,
        i64::MIN < x < i64::MAX,
    ensures
        x - 1 <= r <= x + 1,
        forall|cells: Seq<Cell>|
            #![trigger advance(Pen { cells, rng: old(rng)@ }, x as int, dx as int)]
            advance(Pen { cells, rng: old(rng)@ }, x as int, dx as int) == (r as int, Pen { cells, rng: final(rng)@ }),
{
    if dx != 0 && rng.chance(54, 100) {
        x + dx
    } else {
        x
    }
}

/// Rolls whether a branch starts at this step.
fn branch_roll_exec(rng: &mut Rng, g: &Growth, depth: u8, step: i64, length: i64) -> (b: bool)
    requires
        0 <= length <= 0x8000_0000,
    ensures
        b ==> depth < 3,
        forall|cells: Seq<Cell>|
            #![trigger branch_roll(*g, Pen { cells, rng: old(rng)@ }, depth, step as int, length as int)]
            branch_roll(*g, Pen { cells, rng: old(rng)@ }, depth, step as int, length as int) == (b, Pen { cells, rng: final(rng)@ }),
{
    if step > 2 && step < length - 2 && depth < 3 {
        let chance: u64 = if depth == 0 {
            g.branch_chance_0
        } else if depth == 1 {
            g.branch_chance_1
        } else {
            g.branch_chance_2
        };
        rng.chance(chance, 100)
    } else {
        false
    }
}

/// Rolls the side, survival and length of a new branch.
fn sprout_exec(rng: &mut Rng, g: &Growth, length: i64, step: i64) -> (r: (bool, i64, i64))
    requires
        g.wf(),
        0 <= step < length <= 0x8000_0000,
    ensures
        -1 <= r.1 <= 1,
        r.0 ==> 3 <= r.2 <= 0x8000_0000,
        forall|cells: Seq<Cell>|
            #![trigger sprout_plan(*g, Pen { cells, rng: old(rng)@ }, length as int, step as int)]
            sprout_plan(*g, Pen { cells, rng: old(rng)@ }, length as int, step as int) == (r.0, r.1 as int, r.2 as int, Pen { cells, rng: final(rng)@ }),
{
    let side: i64 = if g.light_step != 0 && rng.chance(60, 100) {
        g.light_step as i64
    } else if rng.chance(1, 2) {
        -1
    } else {
        1
    };
    let left_odds: u64 = if g.prune_left < 8 {
        g.prune_left as u64
    } else {
        8
    };
    let right_odds: u64 = if g.prune_right < 8 {
        g.prune_right as u64
    } else {
        8
    };
    let sup = (side < 0 && g.prune_left > 0 && rng.chance(left_odds, 11)) || (side > 0
        && g.prune_right > 0 && rng.chance(right_odds, 11));
    if sup {
        (false, side, 0)
    } else {
        let extra: i64 = rng.range(2, 6) as i64;
        let mut child_len: i64 = (length - step) / 2 + extra;
        if child_len < 3 {
            child_len = 3;
        }
        (true, side, child_len)
    }
}

/// How far a walker at `depth` may start from the origin: deeper walkers
/// start further out, by at most one walker length per level.
pub open spec fn reach(depth: u8) -> int {
    0x100_0000_0000 + depth * 0x8000_0000
}

/// Draws a walker and, for branches, its leaf cluster.
fn draw_branch(c: &mut Canvas, rng: &mut Rng, g: &Growth, x: i64, y: i64, dx: i64, length: i64, depth: u8)
    requires
        old(c).wf(),
        g.wf(),
        -1 <= dx <= 1,
        length <= 0x8000_0000,
        depth <= 4 ==> -reach(depth) <= x <= reach(depth) && -reach(depth) <= y <= reach(depth),
    ensures
        final(c).wf(),
        final(c).w == old(c).w,
        final(c).h == old(c).h,
        pen_of(final(c), final(rng)) == walker(
            *g,
            old(c).w as int,
            old(c).h as int,
            pen_of(old(c), old(rng)),
            x as int,
            y as int,
            dx as int,
            length as int,
            depth,
        ),
    decreases rank(depth),
{
    if depth > 4 || length < 2 {
        return;
    }
    let ghost w = c.w as int;
    let ghost h = c.h as int;
    let ghost target = walker_steps(*g, w, h, pen_of(c, rng), x as int, y as int, dx as int, length as int, depth, 0);
    let mut step: i64 = 0;
    let mut cx: i64 = x;
    let mut cy: i64 = y;
    let mut cdx: i64 = dx;
    while step < length
        invariant
            c.wf(),
            c.w == w,
            c.h == h,
            g.wf(),
            depth <= 4,
            2 <= length <= 0x8000_0000,
            0 <= step <= length,
            -1 <= cdx <= 1,
            cy == y - step,
            x - step <= cx <= x + step,
            -reach(depth) <= x <= reach(depth),
            -reach(depth) <= y <= reach(depth),
            walker_steps(*g, w, h, pen_of(c, rng), cx as int, cy as int, cdx as int, length as int, depth, step as int)
                == target,
        decreases length - step,
    {
        let ghost before = pen_of(c, rng);
        let ghost (bx, by, bdx) = (cx as int, cy as int, cdx as int);
        let y1: i64 = cy - 1;
        if !(depth == 0 && step < 4) {
            cdx = steer_exec(rng, g, cdx, depth);
        }
        cx = advance_exec(rng, cx, cdx);
        let glyph = if cdx == -1 {
            '/'
        } else if cdx == 1 {
            '\\'
        } else if depth == 0 && step < 4 {
            '┃'
        } else {
            '│'
        };
        let kind: u8 = if depth == 0 && step < 4 {
            5
        } else {
            1
        };
        put(c, cx, y1, glyph, kind);
        let branches = branch_roll_exec(rng, g, depth, step, length);
        if branches {
            let (grows, side, child_len) = sprout_exec(rng, g, length, step);
            if grows {
                draw_branch(c, rng, g, cx, y1, side, child_len, depth + 1);
            }
        }
        cy = y1;
        assert((pen_of(c, rng), cx as int, cy as int, cdx as int) == walker_step(
            *g,
            w,
            h,
            before,
            bx,
            by,
            bdx,
            length as int,
            depth,
            step as int,
        ));
        step = step + 1;
    }
    if depth > 0 {
        draw_leaf_cluster(c, rng, g, cx, cy, depth);
    }
}

/// Row `i` of the planter, drawn below the trunk's base.
pub open spec fn pot_row(i: int) -> Seq<char> {
    if i == 0 {
        "      ╭──────╮      "@
    } else if i == 1 {
        "     ╱        ╲     "@
    } else if i == 2 {
        "    ╱  ░░░░░░  ╲    "@
    } else if i == 3 {
        "    ╰──────────╯    "@
    } else {
        "      ╰──────╯      "@
    }
}

/// Row `i` of the planter as text.
fn pot_row_text(i: usize) -> (r: &'static str)
    ensures
        r@ == pot_row(i as int),
{
    if i == 0 {
        "      ╭──────╮      "
    } else if i == 1 {
        "     ╱        ╲     "
    } else if i == 2 {
        "    ╱  ░░░░░░  ╲    "
    } else if i == 3 {
        "    ╰──────────╯    "
    } else {
        "      ╰──────╯      "
    }
}

/// The style of a planter glyph: soil, or the pot's own style, which no
/// part of the tree uses.
pub open spec fn pot_kind(ch: char) -> u8 {
    if ch == '░' {
        7
    } else {
        8
    }
}

/// The cell a planter glyph leaves.
pub open spec fn pot_cell(ch: char) -> Cell {
    Cell { ch, kind: pot_kind(ch) }
}

/// The cells after drawing planter text `s` from `(x, y)` rightward;
/// spaces leave the cell beneath untouched.
pub open spec fn pot_text_cells(w: int, h: int, cells: Seq<Cell>, x: int, y: int, s: Seq<char>) -> Seq<Cell>
    decreases s.len(),
{
    if s.len() == 0 {
        cells
    } else {
        let next = if s[0] == ' ' {
            cells
        } else {
            set_cells(w, h, cells, x, y, Cell { ch: s[0], kind: pot_kind(s[0]) })
        };
        pot_text_cells(w, h, next, x + 1, y, s.drop_first())
    }
}

/// The cells after drawing planter rows `i..5` centered under `(x, y)`.
pub open spec fn pot_cells(w: int, h: int, cells: Seq<Cell>, x: int, y: int, i: int) -> Seq<Cell>
    decreases 5 - i,
{
    if i >= 5 {
        cells
    } else {
        let row = pot_row(i);
        let next = pot_text_cells(w, h, cells, x - half(row.len() as int), y + 1 + i, row);
        pot_cells(w, h, next, x, y, i + 1)
    }
}

/// The trunk's length: growth less up to seven crown prunings, at least 8.
pub open spec fn trunk_steps(g: Growth) -> int {
    let t = g.max_steps - (if g.prune_top < 7 {
        g.prune_top as int
    } else {
        7
    });
    if t > 8 {
        t
    } else {
        8
    }
}

/// A crown cluster near `(cx, cy)`, grown with the crown odds and placed
/// one row above to two rows below `cy`.
pub open spec fn crown_cluster(g: Growth, w: int, h: int, p: Pen, cx: int, cy: int) -> Pen {
    let (grows, p1) = pchance(p, g.crown_chance, 100);
    if grows {
        let (dy, p2) = prange(p1, -1, 3);
        leaf_cluster(g, w, h, p2, cx, cy + dy, 1)
    } else {
        p1
    }
}

/// The row of the crown clusters: near the trunk's top, at least row 3.
pub open spec fn crown_row(g: Growth, h: int) -> int {
    let cy = h - 5 - trunk_steps(g) + 2;
    if cy > 3 {
        cy
    } else {
        3
    }
}

/// The pen once trunk, branches and crown have grown on an empty grid.
pub open spec fn grown_pen(g: Growth, w: int, h: int) -> Pen {
    let base_x = half(w);
    let base_y = h - 5;
    let p0 = Pen { cells: Seq::new((w * h) as nat, |i: int| blank()), rng: seed_state(g.seed) };
    let p1 = walker(g, w, h, p0, base_x, base_y, 0, trunk_steps(g), 0);
    let cy = crown_row(g, h);
    let p2 = crown_cluster(g, w, h, p1, base_x - 5 + g.crown_shift, cy);
    let p3 = crown_cluster(g, w, h, p2, base_x + g.crown_shift, cy);
    crown_cluster(g, w, h, p3, base_x + 5 + g.crown_shift, cy)
}

/// The finished picture: the grown tree with the planter drawn over it,
/// filling the bottom five rows.
pub open spec fn grown(g: Growth, w: int, h: int) -> Seq<Cell> {
    pot_cells(w, h, grown_pen(g, w, h).cells, half(w), h - 6, 0)
}

/// Draws planter text `s` from `(x, y)` rightward, skipping spaces.
fn draw_pot_text(c: &mut Canvas, x: i64, y: i64, s: &str)
    requires
        old(c).wf(),
        -0x1000_0001_0000 <= x <= 0x1000_0001_0000,
        s@.len() <= 100,
    ensures
        final(c).wf(),
        final(c).w == old(c).w,
        final(c).h == old(c).h,
        final(c).cells@ == pot_text_cells(old(c).w as int, old(c).h as int, old(c).cells@, x as int, y as int, s@),
{
    let ghost w = c.w as int;
    let ghost h = c.h as int;
    let cs = chars_of(s);
    let mut j: usize = 0;
    assert(cs@.skip(0) == cs@);
    while j < cs.len()
        invariant
            c.wf(),
            c.w == w,
            c.h == h,
            cs@ == s@,
            j <= cs.len(),
            s@.len() <= 100,
            -0x1000_0001_0000 <= x <= 0x1000_0001_0000,
            pot_text_cells(w, h, c.cells@, x + j, y as int, cs@.skip(j as int))
                == pot_text_cells(w, h, old(c).cells@, x as int, y as int, s@),
        decreases cs.len() - j,
    {
        assert(cs@.skip(j as int).drop_first() == cs@.skip(j + 1));
        assert(cs@.skip(j as int)[0] == cs@[j as int]);
        let ch = cs[j];
        if ch != ' ' {
            let kind: u8 = if ch == '░' {
                7
            } else {
                8
            };
            put(c, x + j as i64, y, ch, kind);
        }
        j = j + 1;
    }
    assert(cs@.skip(cs.len() as int).len() == 0);
}

/// Draws the planter centered under `(x, y)`.
fn draw_pot(c: &mut Canvas, x: i64, y: i64)
    requires
        old(c).wf(),
        -0x1000_0000_0000 <= x <= 0x1000_0000_0000,
        -0x1000_0000_0000 <= y <= 0x1000_0000_0000,
    ensures
        final(c).wf(),
        final(c).w == old(c).w,
        final(c).h == old(c).h,
        final(c).cells@ == pot_cells(old(c).w as int, old(c).h as int, old(c).cells@, x as int, y as int, 0),
{
    let ghost w = c.w as int;
    let ghost h = c.h as int;
    let mut i: usize = 0;
    while i < 5
        invariant
            c.wf(),
            c.w == w,
            c.h == h,
            i <= 5,
            -0x1000_0000_0000 <= x <= 0x1000_0000_0000,
            -0x1000_0000_0000 <= y <= 0x1000_0000_0000,
            pot_cells(w, h, c.cells@, x as int, y as int, i as int)
                == pot_cells(w, h, old(c).cells@, x as int, y as int, 0),
        decreases 5 - i,
    {
        let row = pot_row_text(i);
        proof {
            reveal_strlit("      ╭──────╮      ");
            reveal_strlit("     ╱        ╲     ");
            reveal_strlit("    ╱  ░░░░░░  ╲    ");
            reveal_strlit("    ╰──────────╯    ");
            reveal_strlit("      ╰──────╯      ");
        }
        let n = row.unicode_len();
        let sx: i64 = x - (n / 2) as i64;
        draw_pot_text(c, sx, y + 1 + i as i64, row);
        i = i + 1;
    }
}

/// Draws one crown cluster near `(cx, cy)`.
fn draw_crown_cluster(c: &mut Canvas, rng: &mut Rng, g: &Growth, cx: i64, cy: i64)
    requires
        old(c).wf(),
        g.wf(),
        -0x1000_0000_0000 <= cx <= 0x1000_0000_0000,
        -0x1000_0000_0000 <= cy <= 0x1000_0000_0000,
    ensures
        final(c).wf(),
        final(c).w == old(c).w,
        final(c).h == old(c).h,
        pen_of(final(c), final(rng)) == crown_cluster(
            *g,
            old(c).w as int,
            old(c).h as int,
            pen_of(old(c), old(rng)),
            cx as int,
            cy as int,
        ),
{
    if rng.chance(g.crown_chance, 100) {
        let dy: i64 = rng.range(-1, 3) as i64;
        draw_leaf_cluster(c, rng, g, cx, cy + dy, 1);
    }
}

/// Grows the tree described by `g` on a `w` by `h` grid: the trunk rises
/// from the middle five rows above the bottom, three crown clusters top it,
/// and the planter fills the five rows beneath.
pub fn grow_tree(g: &Growth, w: i32, h: i32) -> (c: Canvas)
    requires
        g.wf(),
        0 <= w * h <= i32::MAX,
    ensures
        c.wf(),
        c.w == w,
        c.h == h,
        c.cells@ == grown(*g, w as int, h as int),
{
    let mut c = Canvas::new(w, h);
    let base_y: i64 = h as i64 - 5;
    let base_x: i64 = w as i64 / 2;
    assert(base_x == half(w as int));
    let mut rng = Rng::new(g.seed);
    let top_penalty: i64 = if g.prune_top < 7 {
        g.prune_top as i64
    } else {
        7
    };
    let mut trunk: i64 = g.max_steps as i64 - top_penalty;
    if trunk < 8 {
        trunk = 8;
    }
    draw_branch(&mut c, &mut rng, g, base_x, base_y, 0, trunk, 0);
    let mut crown_y: i64 = base_y - trunk + 2;
    if crown_y < 3 {
        crown_y = 3;
    }
    let shift: i64 = g.crown_shift as i64;
    draw_crown_cluster(&mut c, &mut rng, g, base_x - 5 + shift, crown_y);
    draw_crown_cluster(&mut c, &mut rng, g, base_x + shift, crown_y);
    draw_crown_cluster(&mut c, &mut rng, g, base_x + 5 + shift, crown_y);
    draw_pot(&mut c, base_x, base_y - 1);
    c
}

/// Pruning the crown shortens the trunk by one step per cut, for at most
/// seven cuts, and never below eight steps.
pub proof fn law_crown_pruning_shortens_trunk(g: Growth)
    ensures
        trunk_steps(Growth { prune_top: bump_cut(g.prune_top), ..g }) <= trunk_steps(g),
        g.prune_top >= 7 ==> trunk_steps(Growth { prune_top: bump_cut(g.prune_top), ..g }) == trunk_steps(g),
        trunk_steps(g) >= 8,
        trunk_steps(g) >= g.max_steps - 7,
        trunk_steps(g) <= (if g.max_steps > 8 {
            g.max_steps as int
        } else {
            8
        }),
{
}

/// The trunk takes `max_steps` steps less one per crown cut, counting at
/// most seven cuts, and never fewer than eight steps; so while fewer than
/// seven cuts were made and the trunk is longer than eight steps, one more
/// cut takes exactly one step off it and lowers the crown by one row.
pub proof fn law_crown_cut_takes_one_step(g: Growth, h: int)
    ensures
        trunk_steps(g) == (if g.max_steps - (if g.prune_top < 7 {
            g.prune_top as int
        } else {
            7
        }) > 8 {
            g.max_steps - (if g.prune_top < 7 {
                g.prune_top as int
            } else {
                7
            })
        } else {
            8
        }),
        g.prune_top < 7 && g.max_steps - g.prune_top > 8 ==> trunk_steps(
            Growth { prune_top: bump_cut(g.prune_top), ..g },
        ) == trunk_steps(g) - 1,
        g.prune_top < 7 && g.max_steps - g.prune_top > 8 && h - 5 - trunk_steps(g) + 2 >= 3 ==> crown_row(
            Growth { prune_top: bump_cut(g.prune_top), ..g },
            h,
        ) == crown_row(g, h) + 1,
{
}

/// Whether two growths agree on everything but the trunk's length and the
/// crown cuts.
pub open spec fn same_but_trunk(g1: Growth, g2: Growth) -> bool {
    g1 == Growth { max_steps: g1.max_steps, prune_top: g1.prune_top, ..g2 }
}

proof fn lemma_leaf_rows_same(g1: Growth, g2: Growth, w: int, h: int, p: Pen, x: int, y: int, yy: int, rx: int, ry: int)
    requires
        same_but_trunk(g1, g2),
    ensures
        leaf_rows(g1, w, h, p, x, y, yy, rx, ry) == leaf_rows(g2, w, h, p, x, y, yy, rx, ry),
    decreases ry - yy + 1,
{
    if yy <= ry {
        lemma_leaf_row_same(g1, g2, w, h, p, x, y, yy, -rx, rx);
        lemma_leaf_rows_same(g1, g2, w, h, leaf_row(g1, w, h, p, x, y, yy, -rx, rx), x, y, yy + 1, rx, ry);
    }
}

proof fn lemma_leaf_row_same(g1: Growth, g2: Growth, w: int, h: int, p: Pen, x: int, y: int, yy: int, xx: int, rx: int)
    requires
        same_but_trunk(g1, g2),
    ensures
        leaf_row(g1, w, h, p, x, y, yy, xx, rx) == leaf_row(g2, w, h, p, x, y, yy, xx, rx),
    decreases rx - xx + 1,
{
    if xx <= rx {
        assert(leaf_at(g1, w, h, p, x, y, xx, yy, rx) == leaf_at(g2, w, h, p, x, y, xx, yy, rx));
        lemma_leaf_row_same(g1, g2, w, h, leaf_at(g1, w, h, p, x, y, xx, yy, rx), x, y, yy, xx + 1, rx);
    }
}

proof fn lemma_walker_same(g1: Growth, g2: Growth, w: int, h: int, p: Pen, x: int, y: int, dx: int, length: int, depth: u8)
    requires
        same_but_trunk(g1, g2),
    ensures
        walker(g1, w, h, p, x, y, dx, length, depth) == walker(g2, w, h, p, x, y, dx, length, depth),
    decreases rank(depth), 1int, 0int,
{
    if !(depth > 4 || length < 2) {
        lemma_walker_steps_same(g1, g2, w, h, p, x, y, dx, length, depth, 0);
        let (p2, x2, y2) = walker_steps(g1, w, h, p, x, y, dx, length, depth, 0);
        if depth > 0 {
            lemma_leaf_rows_same(g1, g2, w, h, p2, x2, y2, -radius_y(g1), radius_x(g1, depth), radius_y(g1));
        }
    }
}

proof fn lemma_walker_steps_same(
    g1: Growth,
    g2: Growth,
    w: int,
    h: int,
    p: Pen,
    x: int,
    y: int,
    dx: int,
    length: int,
    depth: u8,
    step: int,
)
    requires
        same_but_trunk(g1, g2),
    ensures
        walker_steps(g1, w, h, p, x, y, dx, length, depth, step) == walker_steps(g2, w, h, p, x, y, dx, length, depth, step),
    decreases rank(depth), 0int, length - step,
{
    if !(step >= length || depth > 4) {
        lemma_walker_step_same(g1, g2, w, h, p, x, y, dx, length, depth, step);
        let (p2, x2, y2, dx2) = walker_step(g1, w, h, p, x, y, dx, length, depth, step);
        lemma_walker_steps_same(g1, g2, w, h, p2, x2, y2, dx2, length, depth, step + 1);
    }
}

proof fn lemma_walker_step_same(
    g1: Growth,
    g2: Growth,
    w: int,
    h: int,
    p: Pen,
    x: int,
    y: int,
    dx: int,
    length: int,
    depth: u8,
    step: int,
)
    requires
        same_but_trunk(g1, g2),
        step < length,
        depth <= 4,
    ensures
        walker_step(g1, w, h, p, x, y, dx, length, depth, step) == walker_step(g2, w, h, p, x, y, dx, length, depth, step),
    decreases rank(depth), 0int, length - step - 1,
{
    let y1 = y - 1;
    let (dx2, p2) = if rooted(depth, step) {
        (dx, p)
    } else {
        steer(g1, p, dx, depth)
    };
    assert(steer(g1, p, dx, depth) == steer(g2, p, dx, depth));
    let (x3, p3) = advance(p2, x, dx2);
    let p4 = pdraw(p3, w, h, x3, y1, segment_glyph(dx2, depth, step), segment_kind(depth, step));
    assert(branch_roll(g1, p4, depth, step, length) == branch_roll(g2, p4, depth, step, length));
    let (branches, p5) = branch_roll(g1, p4, depth, step, length);
    if branches && depth < 3 {
        assert(sprout_plan(g1, p5, length, step) == sprout_plan(g2, p5, length, step));
        let (grows, side, child_len, p8) = sprout_plan(g1, p5, length, step);
        if grows {
            lemma_walker_same(g1, g2, w, h, p8, x3, y1, side, child_len, (depth + 1) as u8);
        }
    }
}

proof fn lemma_crown_same(g1: Growth, g2: Growth, w: int, h: int, p: Pen, cx: int, cy: int)
    requires
        same_but_trunk(g1, g2),
    ensures
        crown_cluster(g1, w, h, p, cx, cy) == crown_cluster(g2, w, h, p, cx, cy),
{
    let (grows, p1) = pchance(p, g1.crown_chance, 100);
    if grows {
        let (dy, p2) = prange(p1, -1, 3);
        lemma_leaf_rows_same(g1, g2, w, h, p2, cx, cy + dy, -radius_y(g1), radius_x(g1, 1), radius_y(g1));
    }
}

/// Crown cuts act on the tree only through the trunk's length: a plant
/// whose crown was cut grows exactly the tree of the same plant with no
/// cut and a trunk of `max_steps` less one step per cut (at most seven),
/// but never under eight steps.
pub proof fn law_crown_cuts_only_shorten_trunk(g: Growth, w: int, h: int)
    ensures
        ({
            let cut: int = if g.prune_top < 7 {
                g.prune_top as int
            } else {
                7
            };
            let t: int = if g.max_steps - cut > 8 {
                g.max_steps - cut
            } else {
                8
            };
            grown(g, w, h) == grown(Growth { max_steps: t as i32, prune_top: 0, ..g }, w, h)
        }),
{
    let cut: int = if g.prune_top < 7 {
        g.prune_top as int
    } else {
        7
    };
    let t: int = if g.max_steps - cut > 8 {
        g.max_steps - cut
    } else {
        8
    };
    let g2 = Growth { max_steps: t as i32, prune_top: 0, ..g };
    assert(same_but_trunk(g, g2));
    assert(trunk_steps(g) == trunk_steps(g2));
    let base_x = half(w);
    let base_y = h - 5;
    let p0 = Pen { cells: Seq::new((w * h) as nat, |i: int| blank()), rng: seed_state(g.seed) };
    lemma_walker_same(g, g2, w, h, p0, base_x, base_y, 0, trunk_steps(g), 0);
    let p1 = walker(g, w, h, p0, base_x, base_y, 0, trunk_steps(g), 0);
    let cy = crown_row(g, h);
    assert(cy == crown_row(g2, h));
    lemma_crown_same(g, g2, w, h, p1, base_x - 5 + g.crown_shift, cy);
    let p2 = crown_cluster(g, w, h, p1, base_x - 5 + g.crown_shift, cy);
    lemma_crown_same(g, g2, w, h, p2, base_x + g.crown_shift, cy);
    let p3 = crown_cluster(g, w, h, p2, base_x + g.crown_shift, cy);
    lemma_crown_same(g, g2, w, h, p3, base_x + 5 + g.crown_shift, cy);
    assert(grown_pen(g, w, h) == grown_pen(g2, w, h));
}

/// One more cut, held at the counter's maximum.
pub open spec fn bump_cut(n: u32) -> u32 {
    if n < u32::MAX {
        (n + 1) as u32
    } else {
        n
    }
}

/// Writing a cell keeps a full grid full.
proof fn lemma_set_len(w: int, h: int, cells: Seq<Cell>, x: int, y: int, c: Cell)
    requires
        cells.len() == w * h,
    ensures
        set_cells(w, h, cells, x, y, c).len() == w * h,
{
    if in_bounds(w, h, x, y) {
        lemma_index_in_range(w, h, x, y);
    }
}

/// Whether a pen's cells fill a `w` by `h` grid.
pub open spec fn fits(p: Pen, w: int, h: int) -> bool {
    p.cells.len() == w * h
}

proof fn lemma_leaf_at_fits(g: Growth, w: int, h: int, p: Pen, x: int, y: int, xx: int, yy: int, rx: int)
    requires
        fits(p, w, h),
    ensures
        fits(leaf_at(g, w, h, p, x, y, xx, yy, rx), w, h),
{
    let (grows, p1) = pchance(p, g.leaf_chance, 100);
    let (shifted, p2) = pchance(p1, 58, 100);
    let px = x + xx + (if shifted {
        g.leaf_shift as int
    } else {
        0
    });
    let (gw, p3) = pnext(p2);
    let (kw, p4) = pnext(p3);
    lemma_set_len(w, h, p4.cells, px, y + yy, Cell { ch: leaf_glyph(gw), kind: leaf_kind(kw) });
}

proof fn lemma_leaf_row_fits(g: Growth, w: int, h: int, p: Pen, x: int, y: int, yy: int, xx: int, rx: int)
    requires
        fits(p, w, h),
    ensures
        fits(leaf_row(g, w, h, p, x, y, yy, xx, rx), w, h),
    decreases rx - xx + 1,
{
    if xx <= rx {
        lemma_leaf_at_fits(g, w, h, p, x, y, xx, yy, rx);
        lemma_leaf_row_fits(g, w, h, leaf_at(g, w, h, p, x, y, xx, yy, rx), x, y, yy, xx + 1, rx);
    }
}

proof fn lemma_leaf_rows_fits(g: Growth, w: int, h: int, p: Pen, x: int, y: int, yy: int, rx: int, ry: int)
    requires
        fits(p, w, h),
    ensures
        fits(leaf_rows(g, w, h, p, x, y, yy, rx, ry), w, h),
    decreases ry - yy + 1,
{
    if yy <= ry {
        lemma_leaf_row_fits(g, w, h, p, x, y, yy, -rx, rx);
        lemma_leaf_rows_fits(g, w, h, leaf_row(g, w, h, p, x, y, yy, -rx, rx), x, y, yy + 1, rx, ry);
    }
}

proof fn lemma_walker_fits(g: Growth, w: int, h: int, p: Pen, x: int, y: int, dx: int, length: int, depth: u8)
    requires
        fits(p, w, h),
    ensures
        fits(walker(g, w, h, p, x, y, dx, length, depth), w, h),
    decreases rank(depth), 1int, 0int,
{
    if !(depth > 4 || length < 2) {
        lemma_walker_steps_fits(g, w, h, p, x, y, dx, length, depth, 0);
        let (p2, x2, y2) = walker_steps(g, w, h, p, x, y, dx, length, depth, 0);
        if depth > 0 {
            lemma_leaf_rows_fits(g, w, h, p2, x2, y2, -radius_y(g), radius_x(g, depth), radius_y(g));
        }
    }
}

proof fn lemma_walker_steps_fits(
    g: Growth,
    w: int,
    h: int,
    p: Pen,
    x: int,
    y: int,
    dx: int,
    length: int,
    depth: u8,
    step: int,
)
    requires
        fits(p, w, h),
    ensures
        fits(walker_steps(g, w, h, p, x, y, dx, length, depth, step).0, w, h),
    decreases rank(depth), 0int, length - step,
{
    if !(step >= length || depth > 4) {
        lemma_walker_step_fits(g, w, h, p, x, y, dx, length, depth, step);
        let (p2, x2, y2, dx2) = walker_step(g, w, h, p, x, y, dx, length, depth, step);
        lemma_walker_steps_fits(g, w, h, p2, x2, y2, dx2, length, depth, step + 1);
    }
}

proof fn lemma_walker_step_fits(
    g: Growth,
    w: int,
    h: int,
    p: Pen,
    x: int,
    y: int,
    dx: int,
    length: int,
    depth: u8,
    step: int,
)
    requires
        fits(p, w, h),
        step < length,
        depth <= 4,
    ensures
        fits(walker_step(g, w, h, p, x, y, dx, length, depth, step).0, w, h),
    decreases rank(depth), 0int, length - step - 1,
{
    let y1 = y - 1;
    let (dx2, p2) = if rooted(depth, step) {
        (dx, p)
    } else {
        steer(g, p, dx, depth)
    };
    let (x3, p3) = advance(p2, x, dx2);
    lemma_set_len(w, h, p3.cells, x3, y1, Cell { ch: segment_glyph(dx2, depth, step), kind: segment_kind(depth, step) });
    let p4 = pdraw(p3, w, h, x3, y1, segment_glyph(dx2, depth, step), segment_kind(depth, step));
    let (branches, p5) = branch_roll(g, p4, depth, step, length);
    if branches && depth < 3 {
        let (grows, side, child_len, p8) = sprout_plan(g, p5, length, step);
        if grows {
            lemma_walker_fits(g, w, h, p8, x3, y1, side, child_len, (depth + 1) as u8);
        }
    }
}

proof fn lemma_crown_fits(g: Growth, w: int, h: int, p: Pen, cx: int, cy: int)
    requires
        fits(p, w, h),
    ensures
        fits(crown_cluster(g, w, h, p, cx, cy), w, h),
{
    let (grows, p1) = pchance(p, g.crown_chance, 100);
    if grows {
        let (dy, p2) = prange(p1, -1, 3);
        lemma_leaf_rows_fits(g, w, h, p2, cx, cy + dy, -radius_y(g), radius_x(g, 1), radius_y(g));
    }
}

/// The grown tree fills the grid.
proof fn lemma_grown_pen_fits(g: Growth, w: int, h: int)
    requires
        0 <= w * h,
    ensures
        fits(grown_pen(g, w, h), w, h),
{
    let base_x = half(w);
    let base_y = h - 5;
    let p0 = Pen { cells: Seq::new((w * h) as nat, |i: int| blank()), rng: seed_state(g.seed) };
    lemma_walker_fits(g, w, h, p0, base_x, base_y, 0, trunk_steps(g), 0);
    let p1 = walker(g, w, h, p0, base_x, base_y, 0, trunk_steps(g), 0);
    let cy = crown_row(g, h);
    lemma_crown_fits(g, w, h, p1, base_x - 5 + g.crown_shift, cy);
    let p2 = crown_cluster(g, w, h, p1, base_x - 5 + g.crown_shift, cy);
    lemma_crown_fits(g, w, h, p2, base_x + g.crown_shift, cy);
    let p3 = crown_cluster(g, w, h, p2, base_x + g.crown_shift, cy);
    lemma_crown_fits(g, w, h, p3, base_x + 5 + g.crown_shift, cy);
}

/// A leaf never lands in the planter buffer.
proof fn lemma_leaf_at_keeps(
    g: Growth,
    w: int,
    h: int,
    p: Pen,
    x: int,
    y: int,
    xx: int,
    yy: int,
    rx: int,
    px: int,
    py: int,
)
    requires
        fits(p, w, h),
        in_bounds(w, h, px, py),
        py >= foliage_floor(h),
    ensures
        leaf_at(g, w, h, p, x, y, xx, yy, rx).cells[cell_index(w, px, py)] == p.cells[cell_index(w, px, py)],
{
    let (grows, p1) = pchance(p, g.leaf_chance, 100);
    let (shifted, p2) = pchance(p1, 58, 100);
    let lx = x + xx + (if shifted {
        g.leaf_shift as int
    } else {
        0
    });
    let (gw, p3) = pnext(p2);
    let (kw, p4) = pnext(p3);
    if y + yy < foliage_floor(h) {
        law_set_keeps_other_cells(w, h, p4.cells, lx, y + yy, Cell { ch: leaf_glyph(gw), kind: leaf_kind(kw) }, px, py);
    }
}

proof fn lemma_leaf_row_keeps(
    g: Growth,
    w: int,
    h: int,
    p: Pen,
    x: int,
    y: int,
    yy: int,
    xx: int,
    rx: int,
    px: int,
    py: int,
)
    requires
        fits(p, w, h),
        in_bounds(w, h, px, py),
        py >= foliage_floor(h),
    ensures
        leaf_row(g, w, h, p, x, y, yy, xx, rx).cells[cell_index(w, px, py)] == p.cells[cell_index(w, px, py)],
    decreases rx - xx + 1,
{
    if xx <= rx {
        lemma_leaf_at_keeps(g, w, h, p, x, y, xx, yy, rx, px, py);
        lemma_leaf_at_fits(g, w, h, p, x, y, xx, yy, rx);
        lemma_leaf_row_keeps(g, w, h, leaf_at(g, w, h, p, x, y, xx, yy, rx), x, y, yy, xx + 1, rx, px, py);
    }
}

proof fn lemma_leaf_rows_keeps(
    g: Growth,
    w: int,
    h: int,
    p: Pen,
    x: int,
    y: int,
    yy: int,
    rx: int,
    ry: int,
    px: int,
    py: int,
)
    requires
        fits(p, w, h),
        in_bounds(w, h, px, py),
        py >= foliage_floor(h),
    ensures
        leaf_rows(g, w, h, p, x, y, yy, rx, ry).cells[cell_index(w, px, py)] == p.cells[cell_index(w, px, py)],
    decreases ry - yy + 1,
{
    if yy <= ry {
        lemma_leaf_row_keeps(g, w, h, p, x, y, yy, -rx, rx, px, py);
        lemma_leaf_row_fits(g, w, h, p, x, y, yy, -rx, rx);
        lemma_leaf_rows_keeps(g, w, h, leaf_row(g, w, h, p, x, y, yy, -rx, rx), x, y, yy + 1, rx, ry, px, py);
    }
}

/// A walker never writes into the planter buffer (the bottom nine rows) on
/// or below the row it starts from: its segments only climb, its branches
/// start where it already is, and no leaf grows in the buffer.
pub proof fn law_walker_spares_buffer_below_start(
    g: Growth,
    w: int,
    h: int,
    p: Pen,
    x: int,
    y: int,
    dx: int,
    length: int,
    depth: u8,
    px: int,
    py: int,
)
    requires
        fits(p, w, h),
        in_bounds(w, h, px, py),
        py >= y,
        py >= foliage_floor(h),
    ensures
        walker(g, w, h, p, x, y, dx, length, depth).cells[cell_index(w, px, py)] == p.cells[cell_index(w, px, py)],
    decreases rank(depth), 1int, 0int,
{
    if !(depth > 4 || length < 2) {
        lemma_walker_steps_keeps(g, w, h, p, x, y, dx, length, depth, 0, px, py);
        lemma_walker_steps_fits(g, w, h, p, x, y, dx, length, depth, 0);
        let (p2, x2, y2) = walker_steps(g, w, h, p, x, y, dx, length, depth, 0);
        if depth > 0 {
            lemma_leaf_rows_keeps(g, w, h, p2, x2, y2, -radius_y(g), radius_x(g, depth), radius_y(g), px, py);
        }
    }
}

proof fn lemma_walker_steps_keeps(
    g: Growth,
    w: int,
    h: int,
    p: Pen,
    x: int,
    y: int,
    dx: int,
    length: int,
    depth: u8,
    step: int,
    px: int,
    py: int,
)
    requires
        fits(p, w, h),
        in_bounds(w, h, px, py),
        py >= y,
        py >= foliage_floor(h),
    ensures
        walker_steps(g, w, h, p, x, y, dx, length, depth, step).0.cells[cell_index(w, px, py)]
            == p.cells[cell_index(w, px, py)],
    decreases rank(depth), 0int, length - step,
{
    if !(step >= length || depth > 4) {
        lemma_walker_step_keeps(g, w, h, p, x, y, dx, length, depth, step, px, py);
        lemma_walker_step_fits(g, w, h, p, x, y, dx, length, depth, step);
        let (p2, x2, y2, dx2) = walker_step(g, w, h, p, x, y, dx, length, depth, step);
        lemma_walker_steps_keeps(g, w, h, p2, x2, y2, dx2, length, depth, step + 1, px, py);
    }
}

proof fn lemma_walker_step_keeps(
    g: Growth,
    w: int,
    h: int,
    p: Pen,
    x: int,
    y: int,
    dx: int,
    length: int,
    depth: u8,
    step: int,
    px: int,
    py: int,
)
    requires
        fits(p, w, h),
        step < length,
        depth <= 4,
        in_bounds(w, h, px, py),
        py >= y,
        py >= foliage_floor(h),
    ensures
        walker_step(g, w, h, p, x, y, dx, length, depth, step).0.cells[cell_index(w, px, py)]
            == p.cells[cell_index(w, px, py)],
        walker_step(g, w, h, p, x, y, dx, length, depth, step).2 == y - 1,
    decreases rank(depth), 0int, length - step - 1,
{
    let y1 = y - 1;
    let (dx2, p2) = if rooted(depth, step) {
        (dx, p)
    } else {
        steer(g, p, dx, depth)
    };
    let (x3, p3) = advance(p2, x, dx2);
    let cell = Cell { ch: segment_glyph(dx2, depth, step), kind: segment_kind(depth, step) };
    lemma_set_len(w, h, p3.cells, x3, y1, cell);
    law_set_keeps_other_cells(w, h, p3.cells, x3, y1, cell, px, py);
    let p4 = pdraw(p3, w, h, x3, y1, segment_glyph(dx2, depth, step), segment_kind(depth, step));
    let (branches, p5) = branch_roll(g, p4, depth, step, length);
    if branches && depth < 3 {
        let (grows, side, child_len, p8) = sprout_plan(g, p5, length, step);
        if grows {
            law_walker_spares_buffer_below_start(g, w, h, p8, x3, y1, side, child_len, (depth + 1) as u8, px, py);
        }
    }
}

proof fn lemma_crown_keeps(g: Growth, w: int, h: int, p: Pen, cx: int, cy: int, px: int, py: int)
    requires
        fits(p, w, h),
        in_bounds(w, h, px, py),
        py >= foliage_floor(h),
    ensures
        crown_cluster(g, w, h, p, cx, cy).cells[cell_index(w, px, py)] == p.cells[cell_index(w, px, py)],
{
    let (grows, p1) = pchance(p, g.crown_chance, 100);
    if grows {
        let (dy, p2) = prange(p1, -1, 3);
        lemma_leaf_rows_keeps(g, w, h, p2, cx, cy + dy, -radius_y(g), radius_x(g, 1), radius_y(g), px, py);
    }
}

/// The cell of the stem.
pub open spec fn stem_cell() -> Cell {
    Cell { ch: '┃', kind: 5 }
}

/// One stem step climbs straight up from `(x, y)` and draws the stem glyph
/// at `(x, y - 1)`; a branch it starts spares the buffer below it.
proof fn lemma_stem_step(g: Growth, w: int, h: int, p: Pen, x: int, y: int, length: int, step: int, px: int, py: int)
    requires
        fits(p, w, h),
        0 <= step < 4,
        step < length,
        in_bounds(w, h, px, py),
        (py >= y - 1 && py >= foliage_floor(h)) || (step < 3 && py != y - 1),
    ensures
        walker_step(g, w, h, p, x, y, 0, length, 0, step).1 == x,
        walker_step(g, w, h, p, x, y, 0, length, 0, step).2 == y - 1,
        walker_step(g, w, h, p, x, y, 0, length, 0, step).3 == 0,
        fits(walker_step(g, w, h, p, x, y, 0, length, 0, step).0, w, h),
        walker_step(g, w, h, p, x, y, 0, length, 0, step).0.cells[cell_index(w, px, py)] == (if px == x && py == y
            - 1 {
            stem_cell()
        } else {
            p.cells[cell_index(w, px, py)]
        }),
{
    lemma_walker_step_fits(g, w, h, p, x, y, 0, length, 0, step);
    let cell = stem_cell();
    lemma_set_len(w, h, p.cells, x, y - 1, cell);
    if px == x && py == y - 1 {
        law_get_after_set(w, h, p.cells, x, y - 1, cell);
    } else {
        law_set_keeps_other_cells(w, h, p.cells, x, y - 1, cell, px, py);
    }
    let p4 = pdraw(p, w, h, x, y - 1, '┃', 5);
    let (branches, p5) = branch_roll(g, p4, 0, step, length);
    if branches {
        let (grows, side, child_len, p8) = sprout_plan(g, p5, length, step);
        if grows {
            law_walker_spares_buffer_below_start(g, w, h, p8, x, y - 1, side, child_len, 1, px, py);
        }
    }
}

/// From trunk step `step` on, the stem rows still ahead end up holding the
/// stem glyph in the trunk's column, and every other cell of the buffer
/// keeps what it held.
proof fn lemma_stem(g: Growth, w: int, h: int, p: Pen, x: int, y: int, length: int, step: int, px: int, py: int)
    requires
        fits(p, w, h),
        0 <= step <= 4,
        8 <= length,
        y == foliage_floor(h) + 4 - step,
        in_bounds(w, h, px, py),
        foliage_floor(h) <= py,
    ensures
        walker_steps(g, w, h, p, x, y, 0, length, 0, step).0.cells[cell_index(w, px, py)] == (if px == x && py
            < y {
            stem_cell()
        } else {
            p.cells[cell_index(w, px, py)]
        }),
    decreases 4 - step,
{
    if step < 4 {
        lemma_stem_step(g, w, h, p, x, y, length, step, px, py);
        let (p2, x2, y2, dx2) = walker_step(g, w, h, p, x, y, 0, length, 0, step);
        lemma_stem(g, w, h, p2, x, y - 1, length, step + 1, px, py);
    } else {
        lemma_walker_steps_keeps(g, w, h, p, x, y, 0, length, 0, 4, px, py);
    }
}

/// In the planter buffer the grown tree holds only its stem, straight
/// above the planter in the middle column; every other cell there is
/// blank before the planter is drawn.
proof fn lemma_grown_pen_buffer(g: Growth, w: int, h: int, px: int, py: int)
    requires
        0 <= w * h,
        in_bounds(w, h, px, py),
        py >= foliage_floor(h),
    ensures
        grown_pen(g, w, h).cells[cell_index(w, px, py)] == (if px == half(w) && py < h - 5 {
            stem_cell()
        } else {
            blank()
        }),
{
    let base_x = half(w);
    let base_y = h - 5;
    let p0 = Pen { cells: Seq::new((w * h) as nat, |i: int| blank()), rng: seed_state(g.seed) };
    lemma_index_in_range(w, h, px, py);
    lemma_stem(g, w, h, p0, base_x, base_y, trunk_steps(g), 0, px, py);
    lemma_walker_fits(g, w, h, p0, base_x, base_y, 0, trunk_steps(g), 0);
    let p1 = walker(g, w, h, p0, base_x, base_y, 0, trunk_steps(g), 0);
    let cy = crown_row(g, h);
    lemma_crown_keeps(g, w, h, p1, base_x - 5 + g.crown_shift, cy, px, py);
    lemma_crown_fits(g, w, h, p1, base_x - 5 + g.crown_shift, cy);
    let p2 = crown_cluster(g, w, h, p1, base_x - 5 + g.crown_shift, cy);
    lemma_crown_keeps(g, w, h, p2, base_x + g.crown_shift, cy, px, py);
    lemma_crown_fits(g, w, h, p2, base_x + g.crown_shift, cy);
    let p3 = crown_cluster(g, w, h, p2, base_x + g.crown_shift, cy);
    lemma_crown_keeps(g, w, h, p3, base_x + 5 + g.crown_shift, cy, px, py);
}

/// Drawing planter text leaves every cell off its run as it was: other
/// rows, and columns left of where it starts.
proof fn lemma_pot_text_keeps(w: int, h: int, cells: Seq<Cell>, x: int, y: int, s: Seq<char>, px: int, py: int)
    requires
        cells.len() == w * h,
        in_bounds(w, h, px, py),
        py != y || px < x,
    ensures
        pot_text_cells(w, h, cells, x, y, s).len() == w * h,
        pot_text_cells(w, h, cells, x, y, s)[cell_index(w, px, py)] == cells[cell_index(w, px, py)],
    decreases s.len(),
{
    if s.len() > 0 {
        let c = Cell { ch: s[0], kind: pot_kind(s[0]) };
        let next = if s[0] == ' ' {
            cells
        } else {
            set_cells(w, h, cells, x, y, c)
        };
        if s[0] != ' ' {
            lemma_set_len(w, h, cells, x, y, c);
            law_set_keeps_other_cells(w, h, cells, x, y, c, px, py);
        }
        lemma_pot_text_keeps(w, h, next, x + 1, y, s.drop_first(), px, py);
    }
}

/// Each non-space character of planter text shows where it was drawn.
proof fn lemma_pot_text_shows(w: int, h: int, cells: Seq<Cell>, x: int, y: int, s: Seq<char>, j: int)
    requires
        cells.len() == w * h,
        0 <= j < s.len(),
        s[j] != ' ',
        in_bounds(w, h, x + j, y),
    ensures
        pot_text_cells(w, h, cells, x, y, s)[cell_index(w, x + j, y)] == pot_cell(s[j]),
    decreases s.len(),
{
    let c = Cell { ch: s[0], kind: pot_kind(s[0]) };
    let next = if s[0] == ' ' {
        cells
    } else {
        set_cells(w, h, cells, x, y, c)
    };
    if s[0] != ' ' {
        lemma_set_len(w, h, cells, x, y, c);
    }
    if j == 0 {
        lemma_index_in_range(w, h, x, y);
        lemma_pot_text_keeps(w, h, next, x + 1, y, s.drop_first(), x, y);
    } else {
        assert(s.drop_first()[j - 1] == s[j]);
        lemma_pot_text_shows(w, h, next, x + 1, y, s.drop_first(), j - 1);
    }
}

/// Planter rows from `k` on leave every cell above them as it was.
proof fn lemma_pot_rows_keep(w: int, h: int, cells: Seq<Cell>, x: int, y: int, k: int, px: int, py: int)
    requires
        cells.len() == w * h,
        in_bounds(w, h, px, py),
        py < y + 1 + k,
    ensures
        pot_cells(w, h, cells, x, y, k).len() == w * h,
        pot_cells(w, h, cells, x, y, k)[cell_index(w, px, py)] == cells[cell_index(w, px, py)],
    decreases 5 - k,
{
    if k < 5 {
        let row = pot_row(k);
        let sx = x - half(row.len() as int);
        lemma_pot_text_keeps(w, h, cells, sx, y + 1 + k, row, px, py);
        let next = pot_text_cells(w, h, cells, sx, y + 1 + k, row);
        lemma_pot_rows_keep(w, h, next, x, y, k + 1, px, py);
    }
}

/// Every non-space planter glyph of row `i` shows once rows `k..5` are
/// drawn, for `k <= i`.
proof fn lemma_pot_rows_show(w: int, h: int, cells: Seq<Cell>, x: int, y: int, k: int, i: int, j: int)
    requires
        cells.len() == w * h,
        0 <= k <= i < 5,
        0 <= j < pot_row(i).len(),
        pot_row(i)[j] != ' ',
        in_bounds(w, h, x - half(pot_row(i).len() as int) + j, y + 1 + i),
    ensures
        pot_cells(w, h, cells, x, y, k)[cell_index(w, x - half(pot_row(i).len() as int) + j, y + 1 + i)]
            == pot_cell(pot_row(i)[j]),
    decreases 5 - k,
{
    let row = pot_row(k);
    let sx = x - half(row.len() as int);
    let next = pot_text_cells(w, h, cells, sx, y + 1 + k, row);
    let px = x - half(pot_row(i).len() as int) + j;
    if k == i {
        lemma_pot_text_shows(w, h, cells, sx, y + 1 + k, row, j);
        lemma_pot_len(w, h, cells, sx, y + 1 + k, row);
        lemma_pot_rows_keep(w, h, next, x, y, k + 1, px, y + 1 + i);
    } else {
        lemma_pot_len(w, h, cells, sx, y + 1 + k, row);
        lemma_pot_rows_show(w, h, next, x, y, k + 1, i, j);
    }
}

/// Drawing planter text keeps a full grid full.
proof fn lemma_pot_len(w: int, h: int, cells: Seq<Cell>, x: int, y: int, s: Seq<char>)
    requires
        cells.len() == w * h,
    ensures
        pot_text_cells(w, h, cells, x, y, s).len() == w * h,
    decreases s.len(),
{
    if s.len() > 0 {
        let c = Cell { ch: s[0], kind: pot_kind(s[0]) };
        let next = if s[0] == ' ' {
            cells
        } else {
            set_cells(w, h, cells, x, y, c)
        };
        if s[0] != ' ' {
            lemma_set_len(w, h, cells, x, y, c);
        }
        lemma_pot_len(w, h, next, x + 1, y, s.drop_first());
    }
}

/// The planter is drawn over the tree: every glyph of the planter shows in
/// the finished picture, whatever grew behind it.
pub proof fn law_planter_covers_tree(g: Growth, w: int, h: int, i: int, j: int)
    requires
        0 <= w * h,
        0 <= i < 5,
        0 <= j < pot_row(i).len(),
        pot_row(i)[j] != ' ',
        in_bounds(w, h, half(w) - half(pot_row(i).len() as int) + j, h - 5 + i),
    ensures
        grown(g, w, h)[cell_index(w, half(w) - half(pot_row(i).len() as int) + j, h - 5 + i)] == pot_cell(
            pot_row(i)[j],
        ),
{
    lemma_grown_pen_fits(g, w, h);
    lemma_pot_rows_show(w, h, grown_pen(g, w, h).cells, half(w), h - 6, 0, i, j);
}

/// Drawing planter text leaves a cell as it was or gives it a planter
/// style.
proof fn lemma_pot_text_kinds(w: int, h: int, cells: Seq<Cell>, x: int, y: int, s: Seq<char>, px: int, py: int)
    requires
        cells.len() == w * h,
        in_bounds(w, h, px, py),
    ensures
        ({
            let c = pot_text_cells(w, h, cells, x, y, s)[cell_index(w, px, py)];
            c == cells[cell_index(w, px, py)] || c.kind == 7 || c.kind == 8
        }),
    decreases s.len(),
{
    if s.len() > 0 {
        let c = Cell { ch: s[0], kind: pot_kind(s[0]) };
        let next = if s[0] == ' ' {
            cells
        } else {
            set_cells(w, h, cells, x, y, c)
        };
        if s[0] != ' ' {
            lemma_set_len(w, h, cells, x, y, c);
            if px == x && py == y {
                law_get_after_set(w, h, cells, x, y, c);
            } else {
                law_set_keeps_other_cells(w, h, cells, x, y, c, px, py);
            }
        }
        lemma_pot_text_kinds(w, h, next, x + 1, y, s.drop_first(), px, py);
    }
}

/// Drawing planter rows leaves a cell as it was or gives it a planter
/// style.
proof fn lemma_pot_rows_kinds(w: int, h: int, cells: Seq<Cell>, x: int, y: int, k: int, px: int, py: int)
    requires
        cells.len() == w * h,
        in_bounds(w, h, px, py),
    ensures
        ({
            let c = pot_cells(w, h, cells, x, y, k)[cell_index(w, px, py)];
            c == cells[cell_index(w, px, py)] || c.kind == 7 || c.kind == 8
        }),
    decreases 5 - k,
{
    if k < 5 {
        let row = pot_row(k);
        let sx = x - half(row.len() as int);
        lemma_pot_text_kinds(w, h, cells, sx, y + 1 + k, row, px, py);
        lemma_pot_len(w, h, cells, sx, y + 1 + k, row);
        let next = pot_text_cells(w, h, cells, sx, y + 1 + k, row);
        lemma_pot_rows_kinds(w, h, next, x, y, k + 1, px, py);
    }
}

/// The trunk stands on the planter: in the middle column, the four rows
/// just above the planter hold the straight, dark stem.
pub proof fn law_stem_above_planter(g: Growth, w: int, h: int, py: int)
    requires
        0 <= w * h,
        h - 9 <= py <= h - 6,
        in_bounds(w, h, half(w), py),
    ensures
        grown(g, w, h)[cell_index(w, half(w), py)] == stem_cell(),
{
    lemma_grown_pen_buffer(g, w, h, half(w), py);
    lemma_grown_pen_fits(g, w, h);
    lemma_pot_rows_keep(w, h, grown_pen(g, w, h).cells, half(w), h - 6, 0, half(w), py);
}

/// The bottom nine rows are kept clear: no leaf and no branch grows there,
/// only the stem (style 5, in the middle column above the planter) and the
/// planter (styles 7 and 8); in the planter's own five rows no tree style
/// shows at all.
pub proof fn law_planter_buffer(g: Growth, w: int, h: int, px: int, py: int)
    requires
        0 <= w * h,
        in_bounds(w, h, px, py),
        py >= h - 9,
    ensures
        ({
            let k = grown(g, w, h)[cell_index(w, px, py)].kind;
            &&& k == 0 || k == 5 || k == 7 || k == 8
            &&& (py >= h - 5 || px != half(w)) ==> (k == 0 || k == 7 || k == 8)
        }),
{
    lemma_grown_pen_buffer(g, w, h, px, py);
    lemma_grown_pen_fits(g, w, h);
    lemma_pot_rows_kinds(w, h, grown_pen(g, w, h).cells, half(w), h - 6, 0, px, py);
}

/// A side that was never pruned never loses a branch to pruning, and the
/// check draws nothing from the generator.
pub proof fn law_unpruned_side_keeps_branches(g: Growth, p: Pen, side: int)
    requires
        side < 0 ==> g.prune_left == 0,
        side > 0 ==> g.prune_right == 0,
    ensures
        suppressed(g, p, side) == (false, p),
{
}

/// New branches always head sideways, one step left or right.
pub proof fn law_branches_head_sideways(g: Growth, p: Pen)
    requires
        g.wf(),
    ensures
        preferred_side(g, p).0 == -1 || preferred_side(g, p).0 == 1,
{
}

} // verus!
