//! Full-screen layouts: the bonsai view and the help screen, centered in
//! the terminal and cut to its size, plus the small text pieces they are
//! built from.

use vstd::prelude::*;
use crate::ansi::{
    RESET, DIM, TITLE, MUTED, WATER, SUN, HEALTH, centered, center_pad, push_centered, fit_line, fit_line_chars,
    one_line, is_break, visible_width, law_centering_width, law_fit_line,
};
use crate::text::{
    chars_of, extend_str, push_repeat, push_decimal, repeat, decimal, string_of, unsigned_value, law_decimal_round_trip, text_lines, strip_cr, lemma_lines_line,
    lemma_lines_concat,
};

verus! {

/// The lines of a screen, each centered in `cols` columns and ended by a
/// newline.
pub open spec fn screen_body(lines: Seq<Seq<char>>, cols: nat) -> Seq<char>
    decreases lines.len(),
{
    if lines.len() == 0 {
        Seq::empty()
    } else {
        screen_body(lines.drop_last(), cols) + centered(lines.last(), cols) + seq!['\n']
    }
}

/// The blank lines above `n` lines that center them in `rows` rows.
pub open spec fn top_pad(rows: nat, n: nat) -> nat {
    if rows >= n {
        ((rows - n) as nat) / 2
    } else {
        0
    }
}

/// A full screen: the blank lines that center `lines` vertically in `rows`
/// rows, then the lines, each centered in `cols` columns.
pub open spec fn screen(lines: Seq<Seq<char>>, cols: nat, rows: nat) -> Seq<char> {
    repeat('\n', top_pad(rows, lines.len())) + screen_body(lines, cols)
}

/// The views of a list of strings.
pub open spec fn views(v: Seq<String>) -> Seq<Seq<char>> {
    v.map_values(|s: String| s@)
}

/// The first `rows` of `lines`, each fitted to `cols` columns.
pub open spec fn fitted(lines: Seq<Seq<char>>, cols: nat, rows: nat) -> Seq<Seq<char>> {
    let k = if lines.len() <= rows {
        lines.len()
    } else {
        rows
    };
    Seq::new(k, |i: int| fit_line(lines[i], cols))
}

/// `lines` laid out on a terminal of `cols` by `rows`, with whatever does
/// not fit cut off.
pub open spec fn frame(lines: Seq<Seq<char>>, cols: nat, rows: nat) -> Seq<char> {
    screen(fitted(lines, cols, rows), cols, rows)
}

/// Blank lines in front of text read as empty lines in front of its lines.
proof fn lemma_lines_pad(m: nat, y: Seq<char>)
    ensures
        text_lines(repeat('\n', m) + y) == Seq::new(m, |i: int| Seq::<char>::empty()) + text_lines(y),
    decreases m,
{
    if m == 0 {
        assert(repeat('\n', 0) + y == y);
        assert(Seq::new(0, |i: int| Seq::<char>::empty()) + text_lines(y) == text_lines(y));
    } else {
        let s = repeat('\n', m) + y;
        assert(s[0] == '\n');
        assert(s.drop_first() == repeat('\n', (m - 1) as nat) + y);
        lemma_lines_pad((m - 1) as nat, y);
        assert(strip_cr(Seq::<char>::empty()) == Seq::<char>::empty());
        assert(Seq::new(m, |i: int| Seq::<char>::empty()) + text_lines(y) == seq![Seq::<char>::empty()] + (Seq::new(
            (m - 1) as nat,
            |i: int| Seq::<char>::empty(),
        ) + text_lines(y)));
    }
}

/// A screen body is empty or ends with a newline.
proof fn lemma_body_ends(ls: Seq<Seq<char>>, cols: nat)
    ensures
        screen_body(ls, cols).len() == 0 <==> ls.len() == 0,
        ls.len() > 0 ==> screen_body(ls, cols).last() == '\n',
{
}

/// The lines of a screen body are its centered lines, when none of them
/// breaks.
proof fn lemma_lines_body(ls: Seq<Seq<char>>, cols: nat)
    requires
        forall|i: int| 0 <= i < ls.len() ==> one_line(#[trigger] ls[i]),
    ensures
        text_lines(screen_body(ls, cols)) == Seq::new(ls.len(), |i: int| centered(ls[i], cols)),
    decreases ls.len(),
{
    if ls.len() == 0 {
        assert(text_lines(Seq::<char>::empty()) == Seq::<Seq<char>>::empty());
    } else {
        let d = ls.drop_last();
        assert forall|i: int| 0 <= i < d.len() implies one_line(#[trigger] d[i]) by {
            assert(d[i] == ls[i]);
        }
        lemma_lines_body(d, cols);
        let a = screen_body(d, cols);
        let l = ls.last();
        assert(one_line(l));
        let c = centered(l, cols);
        let pad = repeat(' ', center_pad(visible_width(l), cols));
        assert(one_line(c)) by {
            assert forall|i: int| 0 <= i < c.len() implies !is_break(#[trigger] c[i]) by {
                if i >= pad.len() {
                    assert(c[i] == l[i - pad.len()]);
                }
            }
        }
        assert(!c.contains('\n'));
        lemma_lines_line(c, Seq::empty());
        assert(Seq::<char>::empty() + c == c);
        assert(strip_cr(c) == c) by {
            if c.len() > 0 {
                assert(!is_break(c[c.len() - 1]));
            }
        }
        let b = c + seq!['\n'];
        assert(screen_body(ls, cols) == a + b);
        lemma_body_ends(d, cols);
        if a.len() == 0 {
            assert(a + b == b);
        } else {
            lemma_lines_concat(a, b, Seq::empty());
        }
        assert(text_lines(screen_body(ls, cols)) == Seq::new(ls.len(), |i: int| centered(ls[i], cols)));
    }
}

/// A laid-out frame never needs more than `rows` lines nor, on any line,
/// more than `cols` columns: a terminal of that size shows it without
/// scrolling or wrapping.
pub proof fn law_frame_fits(ls: Seq<Seq<char>>, cols: nat, rows: nat)
    ensures
        text_lines(frame(ls, cols, rows)).len() <= rows,
        forall|i: int|
            0 <= i < text_lines(frame(ls, cols, rows)).len() ==> visible_width(#[trigger] text_lines(frame(ls, cols, rows))[i])
                <= cols,
{
    let f = fitted(ls, cols, rows);
    assert forall|i: int| 0 <= i < f.len() implies one_line(#[trigger] f[i]) && visible_width(f[i]) <= cols by {
        law_fit_line(ls[i], cols);
    }
    let pad = top_pad(rows, f.len());
    lemma_lines_pad(pad, screen_body(f, cols));
    lemma_lines_body(f, cols);
    let out = text_lines(frame(ls, cols, rows));
    assert(out == Seq::new(pad, |i: int| Seq::<char>::empty()) + Seq::new(f.len(), |i: int| centered(f[i], cols)));
    assert forall|i: int| 0 <= i < out.len() implies visible_width(#[trigger] out[i]) <= cols by {
        if i >= pad {
            law_centering_width(f[i - pad], cols);
        } else {
            assert(out[i] == Seq::<char>::empty());
        }
    }
}

/// Lays out `lines` on a terminal of `cols` by `rows`.
pub fn fit_frame(lines: &Vec<String>, cols: usize, rows: usize) -> (r: String)
    ensures
        r@ == frame(views(lines@), cols as nat, rows as nat),
        text_lines(r@).len() <= rows,
        forall|i: int| 0 <= i < text_lines(r@).len() ==> visible_width(#[trigger] text_lines(r@)[i]) <= cols,
{
    proof {
        law_frame_fits(views(lines@), cols as nat, rows as nat);
    }
    let ghost f = fitted(views(lines@), cols as nat, rows as nat);
    let k: usize = if lines.len() <= rows {
        lines.len()
    } else {
        rows
    };
    let mut out: Vec<char> = Vec::new();
    let pad: usize = (rows - k) / 2;
    push_repeat(&mut out, '\n', pad);
    let ghost head = out@;
    let mut i: usize = 0;
    while i < k
        invariant
            i <= k <= lines@.len(),
            f == fitted(views(lines@), cols as nat, rows as nat),
            f.len() == k,
            out@ == head + screen_body(f.take(i as int), cols as nat),
        decreases k - i,
    {
        let line = chars_of(lines[i].as_str());
        let fit = fit_line_chars(&line, cols);
        let ghost before = out@;
        push_centered(&mut out, &fit, cols);
        out.push('\n');
        assert(f.take(i + 1).drop_last() == f.take(i as int));
        assert(f.take(i + 1).last() == f[i as int]);
        assert(out@ == before + centered(f[i as int], cols as nat) + seq!['\n']);
        i = i + 1;
    }
    assert(f.take(k as int) == f);
    string_of(&out)
}

/// The age shown for `s` seconds: whole minutes under an hour, whole hours
/// under a day, whole days after that.
pub open spec fn age_text(s: nat) -> Seq<char> {
    if s < 3600 {
        decimal(s / 60).push('m')
    } else if s < 86400 {
        decimal(s / 3600).push('h')
    } else {
        decimal(s / 86400).push('d')
    }
}

/// The plant's age, in the largest whole unit that fits.
pub fn human_age(s: u64) -> (r: String)
    ensures
        r@ == age_text(s as nat),
{
    let mut out: Vec<char> = Vec::new();
    if s < 3600 {
        push_decimal(&mut out, s / 60);
        out.push('m');
    } else if s < 86400 {
        push_decimal(&mut out, s / 3600);
        out.push('h');
    } else {
        push_decimal(&mut out, s / 86400);
        out.push('d');
    }
    string_of(&out)
}

/// The age shows the number of whole units that have passed, then the
/// unit: minutes under an hour, hours under a day, days after that.
pub proof fn law_age_counts_whole_units(s: nat)
    ensures
        age_text(s).len() >= 2,
        unsigned_value(age_text(s).drop_last()) is Some,
        ({
            let n = unsigned_value(age_text(s).drop_last())->0;
            let u = age_text(s).last();
            &&& s < 3600 ==> u == 'm' && 60 * n <= s < 60 * n + 60
            &&& 3600 <= s < 86400 ==> u == 'h' && 3600 * n <= s < 3600 * n + 3600
            &&& 86400 <= s ==> u == 'd' && 86400 * n <= s < 86400 * n + 86400
        }),
{
    let d: nat = if s < 3600 {
        60
    } else if s < 86400 {
        3600
    } else {
        86400
    };
    let n = s / d;
    law_decimal_round_trip(n);
    lemma_decimal_nonempty(n);
    assert(age_text(s) == decimal(n).push(age_text(s).last()));
    assert(age_text(s).drop_last() == decimal(n));
    assert(d * n <= s < d * n + d) by (nonlinear_arith)
        requires
            d > 0,
            n == s / d,
    ;
}

/// A numeral has at least one digit.
proof fn lemma_decimal_nonempty(n: nat)
    ensures
        decimal(n).len() >= 1,
{
    law_decimal_round_trip(n);
}

/// A meter of `n` segments with the first `filled` heavy.
pub open spec fn bar_text(filled: nat, n: nat) -> Seq<char> {
    repeat('━', filled) + repeat('─', (n - filled) as nat)
}

/// A meter of `n` segments of which `filled` are lit.
pub fn bar(filled: usize, n: usize) -> (r: String)
    requires
        filled <= n,
    ensures
        r@ == bar_text(filled as nat, n as nat),
{
    let mut out: Vec<char> = Vec::new();
    push_repeat(&mut out, '━', filled);
    push_repeat(&mut out, '─', n - filled);
    string_of(&out)
}

/// `text` in the style `code`, then back to plain.
pub open spec fn styled(code: Seq<char>, text: Seq<char>) -> Seq<char> {
    code + text + RESET@
}

/// Appends `text` in the style `code` to `out`.
fn push_styled(out: &mut Vec<char>, code: &str, text: &str)
    ensures
        final(out)@ == old(out)@ + styled(code@, text@),
{
    extend_str(out, code);
    extend_str(out, text);
    extend_str(out, RESET);
    assert(final(out)@ == old(out)@ + (code@ + text@ + RESET@));
}

/// The view's title line.
pub open spec fn title_line() -> Seq<char> {
    styled(TITLE@, "bonzai"@) + "  "@ + styled(DIM@, "·  a quiet place to grow"@)
}

/// The view's key reminder line.
pub open spec fn keys_line() -> Seq<char> {
    styled(DIM@, "[w/r]"@) + " water   "@ + styled(DIM@, "[a/s/d]"@) + " light   "@ + styled(DIM@, "[j/k/l]"@)
        + " prune   "@ + styled(DIM@, "[h/?]"@) + " help   "@ + styled(DIM@, "[q]"@) + " leave"@
}

/// The view's last line: the notice, or a quiet reminder without one.
pub open spec fn notice_line(notice: Option<Seq<char>>) -> Seq<char> {
    match notice {
        Some(msg) => styled(MUTED@, msg),
        None => styled(MUTED@, "Your tree keeps growing while you code."@),
    }
}

/// The lines of the bonsai view: title, mood, the tree, the stat lines,
/// the key reminder and the notice, with blank lines between the parts.
pub open spec fn view_lines(mood: Seq<char>, tree: Seq<Seq<char>>, stats: Seq<Seq<char>>, notice: Option<Seq<char>>) -> Seq<Seq<char>> {
    seq![title_line(), styled(MUTED@, mood), Seq::empty()] + tree + seq![Seq::empty()] + stats + seq![
        Seq::empty(),
        keys_line(),
        notice_line(notice),
    ]
}

/// Appends a string to a list of strings.
fn push_line(lines: &mut Vec<String>, cs: &Vec<char>)
    ensures
        views(final(lines)@) == views(old(lines)@).push(cs@),
{
    let s = string_of(cs);
    lines.push(s);
    assert(views(final(lines)@) == views(old(lines)@).push(cs@));
}

/// Appends copies of `src` to `lines`.
fn push_lines(lines: &mut Vec<String>, src: &Vec<String>)
    ensures
        views(final(lines)@) == views(old(lines)@) + views(src@),
{
    let mut i: usize = 0;
    while i < src.len()
        invariant
            i <= src.len(),
            views(lines@) == views(old(lines)@) + views(src@).take(i as int),
        decreases src.len() - i,
    {
        let cs = chars_of(src[i].as_str());
        push_line(lines, &cs);
        assert(views(src@).take(i + 1) == views(src@).take(i as int).push(src@[i as int]@));
        i = i + 1;
    }
    assert(views(src@).take(src.len() as int) == views(src@));
}

/// The lines of the bonsai view for a plant in `mood`, with its tree, its
/// formatted stat lines and an optional notice.
pub fn view_content(mood: &str, tree: &Vec<String>, stats: &Vec<String>, notice: Option<&str>) -> (lines: Vec<String>)
    ensures
        views(lines@) == view_lines(
            mood@,
            views(tree@),
            views(stats@),
            match notice {
                Some(n) => Some(n@),
                None => None,
            },
        ),
{
    let mut lines: Vec<String> = Vec::new();
    let mut title: Vec<char> = Vec::new();
    push_styled(&mut title, TITLE, "bonzai");
    extend_str(&mut title, "  ");
    push_styled(&mut title, DIM, "·  a quiet place to grow");
    push_line(&mut lines, &title);
    let mut mood_line: Vec<char> = Vec::new();
    push_styled(&mut mood_line, MUTED, mood);
    push_line(&mut lines, &mood_line);
    let empty: Vec<char> = Vec::new();
    push_line(&mut lines, &empty);
    push_lines(&mut lines, tree);
    push_line(&mut lines, &empty);
    push_lines(&mut lines, stats);
    push_line(&mut lines, &empty);
    let mut keys: Vec<char> = Vec::new();
    push_styled(&mut keys, DIM, "[w/r]");
    extend_str(&mut keys, " water   ");
    push_styled(&mut keys, DIM, "[a/s/d]");
    extend_str(&mut keys, " light   ");
    push_styled(&mut keys, DIM, "[j/k/l]");
    extend_str(&mut keys, " prune   ");
    push_styled(&mut keys, DIM, "[h/?]");
    extend_str(&mut keys, " help   ");
    push_styled(&mut keys, DIM, "[q]");
    extend_str(&mut keys, " leave");
    push_line(&mut lines, &keys);
    let mut last: Vec<char> = Vec::new();
    match notice {
        Some(msg) => push_styled(&mut last, MUTED, msg),
        None => push_styled(&mut last, MUTED, "Your tree keeps growing while you code."),
    }
    push_line(&mut lines, &last);
    let ghost n = match notice {
        Some(m) => Some(m@),
        None => None,
    };
    assert(views(lines@) =~= view_lines(mood@, views(tree@), views(stats@), n));
    lines
}

/// The fewest columns the bonsai view is laid out in.
pub const MIN_COLS: usize = 40;

/// The fewest rows the bonsai view is laid out in.
pub const MIN_ROWS: usize = 20;

/// What a terminal too small for the view shows instead.
pub open spec fn too_small_lines() -> Seq<Seq<char>> {
    seq![styled(MUTED@, "terminal too small"@)]
}

/// How many tree lines fit in `rows` rows beside the view's seven fixed
/// lines and its `n_stats` stat lines.
pub open spec fn tree_room(rows: nat, n_stats: nat) -> nat {
    if rows >= 7 + n_stats {
        (rows - 7 - n_stats) as nat
    } else {
        0
    }
}

/// The bottom `room` lines of the tree, planter first to go last: all of
/// them when they fit, else the crown is cut from the top.
pub open spec fn tree_bottom(tree: Seq<Seq<char>>, room: nat) -> Seq<Seq<char>> {
    if tree.len() <= room {
        tree
    } else {
        tree.skip(tree.len() - room)
    }
}

/// The lines of the bonsai view in a terminal of `cols` by `rows`: the
/// full view with as much of the tree as fits, or a short notice when the
/// terminal is smaller than the view is laid out for.
pub open spec fn scene_lines(
    mood: Seq<char>,
    tree: Seq<Seq<char>>,
    stats: Seq<Seq<char>>,
    notice: Option<Seq<char>>,
    cols: nat,
    rows: nat,
) -> Seq<Seq<char>> {
    if cols < MIN_COLS || rows < MIN_ROWS {
        too_small_lines()
    } else {
        view_lines(mood, tree_bottom(tree, tree_room(rows, stats.len())), stats, notice)
    }
}

/// The view of an optional string.
pub open spec fn opt_view(o: Option<&str>) -> Option<Seq<char>> {
    match o {
        Some(s) => Some(s@),
        None => None,
    }
}

/// The bonsai view for a plant in `mood`, with its tree, its formatted stat
/// lines and an optional notice, laid out for a terminal of `rows` by
/// `cols`.
pub fn render_scene_for_size(
    mood: &str,
    tree: &Vec<String>,
    stats: &Vec<String>,
    notice: Option<&str>,
    rows: usize,
    cols: usize,
) -> (r: String)
    ensures
        r@ == frame(
            scene_lines(mood@, views(tree@), views(stats@), opt_view(notice), cols as nat, rows as nat),
            cols as nat,
            rows as nat,
        ),
        text_lines(r@).len() <= rows,
        forall|i: int| 0 <= i < text_lines(r@).len() ==> visible_width(#[trigger] text_lines(r@)[i]) <= cols,
{
    if cols < MIN_COLS || rows < MIN_ROWS {
        let mut lines: Vec<String> = Vec::new();
        let mut note: Vec<char> = Vec::new();
        push_styled(&mut note, MUTED, "terminal too small");
        push_line(&mut lines, &note);
        assert(views(lines@) =~= too_small_lines());
        return fit_frame(&lines, cols, rows);
    }
    let fixed: usize = if stats.len() <= rows - 7 {
        7 + stats.len()
    } else {
        rows
    };
    let room: usize = rows - fixed;
    let ghost t = views(tree@);
    let start: usize = if tree.len() <= room {
        0
    } else {
        tree.len() - room
    };
    let mut kept: Vec<String> = Vec::new();
    let mut i: usize = start;
    while i < tree.len()
        invariant
            start <= i <= tree@.len(),
            t == views(tree@),
            views(kept@) == t.subrange(start as int, i as int),
        decreases tree.len() - i,
    {
        let cs = chars_of(tree[i].as_str());
        push_line(&mut kept, &cs);
        assert(t.subrange(start as int, i + 1) == t.subrange(start as int, i as int).push(t[i as int]));
        i = i + 1;
    }
    assert(t.subrange(start as int, t.len() as int) == tree_bottom(t, tree_room(rows as nat, stats@.len())));
    let content = view_content(mood, &kept, stats, notice);
    fit_frame(&content, cols, rows)
}

/// The lines of the help screen.
pub open spec fn help_lines() -> Seq<Seq<char>> {
    seq![
        styled(TITLE@, "bonzai controls"@),
        Seq::empty(),
        styled(WATER@, "w / r"@) + "     water"@,
        styled(SUN@, "a / s / d"@) + " move light left / center / right"@,
        styled(HEALTH@, "j / k / l"@) + " prune left / crown / right"@,
        styled(TITLE@, "h or ?"@) + "    help"@,
        styled(TITLE@, "q"@) + "         leave viewer"@,
        Seq::empty(),
        styled(DIM@, "Actions have a short cooldown so key repeat cannot queue an endless loop."@),
        styled(DIM@, "Light history, water stress and pruning affect future growth."@),
        Seq::empty(),
        styled(MUTED@, "press any key to return"@),
    ]
}

/// One help line: `key` in the style `code`, then its description.
fn help_line(lines: &mut Vec<String>, code: &str, key: &str, text: &str)
    ensures
        views(final(lines)@) == views(old(lines)@).push(styled(code@, key@) + text@),
{
    let mut out: Vec<char> = Vec::new();
    push_styled(&mut out, code, key);
    extend_str(&mut out, text);
    push_line(lines, &out);
}

/// Lays out `lines` centered in a terminal of `cols` by `rows`, every
/// line whole: a line wider than the terminal is left for it to wrap.
fn center_screen(lines: &Vec<String>, cols: usize, rows: usize) -> (r: String)
    ensures
        r@ == screen(views(lines@), cols as nat, rows as nat),
{
    let ghost ls = views(lines@);
    let mut out: Vec<char> = Vec::new();
    let pad: usize = rows.saturating_sub(lines.len()) / 2;
    push_repeat(&mut out, '\n', pad);
    let ghost head = out@;
    let mut i: usize = 0;
    while i < lines.len()
        invariant
            i <= lines.len(),
            ls == views(lines@),
            out@ == head + screen_body(ls.take(i as int), cols as nat),
        decreases lines.len() - i,
    {
        let line = chars_of(lines[i].as_str());
        let ghost before = out@;
        push_centered(&mut out, &line, cols);
        out.push('\n');
        assert(ls.take(i + 1).drop_last() == ls.take(i as int));
        assert(ls.take(i + 1).last() == lines@[i as int]@);
        assert(out@ == before + centered(lines@[i as int]@, cols as nat) + seq!['\n']);
        i = i + 1;
    }
    assert(ls.take(lines.len() as int) == ls);
    string_of(&out)
}

/// The help screen listing the viewer's keys, centered in a terminal of
/// `cols` by `rows`; its lines are kept whole.
pub fn watch_help(cols: usize, rows: usize) -> (r: String)
    ensures
        r@ == screen(help_lines(), cols as nat, rows as nat),
{
    let mut lines: Vec<String> = Vec::new();
    let empty: Vec<char> = Vec::new();
    help_line(&mut lines, TITLE, "bonzai controls", "");
    push_line(&mut lines, &empty);
    help_line(&mut lines, WATER, "w / r", "     water");
    help_line(&mut lines, SUN, "a / s / d", " move light left / center / right");
    help_line(&mut lines, HEALTH, "j / k / l", " prune left / crown / right");
    help_line(&mut lines, TITLE, "h or ?", "    help");
    help_line(&mut lines, TITLE, "q", "         leave viewer");
    push_line(&mut lines, &empty);
    help_line(&mut lines, DIM, "Actions have a short cooldown so key repeat cannot queue an endless loop.", "");
    help_line(&mut lines, DIM, "Light history, water stress and pruning affect future growth.", "");
    push_line(&mut lines, &empty);
    help_line(&mut lines, MUTED, "press any key to return", "");
    proof {
        reveal_strlit("");
    }
    assert(views(lines@) =~= help_lines());
    center_screen(&lines, cols, rows)
}

} // verus!
