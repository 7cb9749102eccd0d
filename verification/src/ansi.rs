//! ANSI escape sequences: visible width of styled text, centering, and the
//! frame painter that repaints the screen in place.

use vstd::prelude::*;
use crate::text::{chars_of, string_of, extend_chars, push_repeat, repeat};

verus! {

/// Back to the terminal's plain style.
pub const RESET: &'static str = "\x1b[0m";
/// Faint text, and the terminal colors of the view's parts.
pub const DIM: &'static str = "\x1b[2m";
pub const TITLE: &'static str = "\x1b[38;5;180m";
pub const TRUNK: &'static str = "\x1b[38;5;137m";
pub const TRUNK_DARK: &'static str = "\x1b[38;5;94m";
pub const LEAF: &'static str = "\x1b[38;5;108m";
pub const LEAF_BRIGHT: &'static str = "\x1b[38;5;151m";
pub const LEAF_DARK: &'static str = "\x1b[38;5;65m";
pub const POT: &'static str = "\x1b[38;5;173m";
pub const WATER: &'static str = "\x1b[38;5;110m";
pub const SUN: &'static str = "\x1b[38;5;221m";
pub const HEALTH: &'static str = "\x1b[38;5;151m";
pub const MUTED: &'static str = "\x1b[38;5;245m";
pub const SOIL: &'static str = "\x1b[38;5;130m";

/// The escape character that starts every control sequence.
pub open spec fn esc() -> char {
    '\u{1b}'
}

/// Whether `c` ends a control sequence (`@` through `~`).
pub open spec fn is_final_char(c: char) -> bool {
    '\u{40}' <= c <= '\u{7e}'
}

/// What follows a control sequence whose parameters start `s`: everything
/// after its final character, or nothing when it never ends.
pub open spec fn after_csi(s: Seq<char>) -> Seq<char>
    decreases s.len(),
{
    if s.len() == 0 {
        s
    } else if is_final_char(s[0]) {
        s.drop_first()
    } else {
        after_csi(s.drop_first())
    }
}

/// Skipping a control sequence never lengthens the text.
pub proof fn lemma_after_csi_len(s: Seq<char>)
    ensures
        after_csi(s).len() <= s.len(),
    decreases s.len(),
{
    if s.len() > 0 && !is_final_char(s[0]) {
        lemma_after_csi_len(s.drop_first());
    }
}

/// The number of characters a terminal shows for `s`: escape sequences
/// `ESC [ ... final` take no room, a lone escape takes none, and every other
/// character takes one column.
pub open spec fn visible_width(s: Seq<char>) -> nat
    decreases s.len(),
{
    if s.len() == 0 {
        0
    } else if s[0] == esc() {
        if s.len() >= 2 && s[1] == '[' {
            proof {
                lemma_after_csi_len(s.skip(2));
            }
            visible_width(after_csi(s.skip(2)))
        } else {
            visible_width(s.drop_first())
        }
    } else {
        1 + visible_width(s.drop_first())
    }
}

/// The visible width never exceeds the number of characters.
pub proof fn lemma_visible_width_le_len(s: Seq<char>)
    ensures
        visible_width(s) <= s.len(),
    decreases s.len(),
{
    if s.len() > 0 {
        if s[0] == esc() {
            if s.len() >= 2 && s[1] == '[' {
                lemma_after_csi_len(s.skip(2));
                lemma_visible_width_le_len(after_csi(s.skip(2)));
            } else {
                lemma_visible_width_le_len(s.drop_first());
            }
        } else {
            lemma_visible_width_le_len(s.drop_first());
        }
    }
}

/// The visible width of `cs`.
pub fn visible_width_of(cs: &Vec<char>) -> (n: usize)
    ensures
        n == visible_width(cs@),
{
    let len = cs.len();
    let mut width: usize = 0;
    let mut i: usize = 0;
    assert(cs@.skip(0) == cs@);
    while i < len
        invariant
            len == cs@.len(),
            i <= len,
            width + visible_width(cs@.skip(i as int)) == visible_width(cs@),
            width <= i,
        decreases len - i,
    {
        let ghost rest = cs@.skip(i as int);
        if cs[i] == '\u{1b}' {
            i = i + 1;
            if i < len && cs[i] == '[' {
                assert(rest.skip(2) == cs@.skip(i + 1));
                i = i + 1;
                let ghost i_start = i;
                while i < len && !('\u{40}' <= cs[i] && cs[i] <= '\u{7e}')
                    invariant
                        len == cs@.len(),
                        i_start <= i <= len,
                        after_csi(cs@.skip(i as int)) == after_csi(rest.skip(2)),
                    decreases len - i,
                {
                    assert(cs@.skip(i as int).drop_first() == cs@.skip(i + 1));
                    i = i + 1;
                }
                if i < len {
                    assert(cs@.skip(i as int).drop_first() == cs@.skip(i + 1));
                    i = i + 1;
                } else {
                    assert(cs@.skip(i as int).len() == 0);
                }
            } else {
                assert(rest.drop_first() == cs@.skip(i as int));
            }
        } else {
            assert(rest.drop_first() == cs@.skip(i + 1));
            width = width + 1;
            i = i + 1;
        }
    }
    assert(cs@.skip(len as int).len() == 0);
    width
}

/// The number of columns `s` takes on a terminal, ignoring escape sequences.
pub fn ansi_visible_width(s: &str) -> (n: usize)
    ensures
        n == visible_width(s@),
{
    let cs = chars_of(s);
    visible_width_of(&cs)
}

/// The left padding that centers text of visible width `width` in `cols`
/// columns (none when it does not fit).
pub open spec fn center_pad(width: nat, cols: nat) -> nat {
    if cols >= width {
        ((cols - width) as nat) / 2
    } else {
        0
    }
}

/// `s` preceded by the spaces that center it in `cols` columns.
pub open spec fn centered(s: Seq<char>, cols: nat) -> Seq<char> {
    repeat(' ', center_pad(visible_width(s), cols)) + s
}

/// Appends the centered form of `line` to `dst`.
pub fn push_centered(dst: &mut Vec<char>, line: &Vec<char>, cols: usize)
    ensures
        final(dst)@ == old(dst)@ + centered(line@, cols as nat),
{
    let width = visible_width_of(line);
    let pad: usize = cols.saturating_sub(width) / 2;
    push_repeat(dst, ' ', pad);
    extend_chars(dst, line);
    assert(final(dst)@ == old(dst)@ + repeat(' ', pad as nat) + line@);
}

/// `s` centered in `cols` columns by left padding with spaces.
pub fn centered_line(s: &str, cols: usize) -> (r: String)
    ensures
        r@ == centered(s@, cols as nat),
{
    let cs = chars_of(s);
    let mut out: Vec<char> = Vec::new();
    push_centered(&mut out, &cs, cols);
    assert(out@ == centered(s@, cols as nat));
    string_of(&out)
}

/// Leading spaces each take one column in front of whatever follows.
pub proof fn lemma_width_after_spaces(n: nat, s: Seq<char>)
    ensures
        visible_width(repeat(' ', n) + s) == n + visible_width(s),
    decreases n,
{
    if n > 0 {
        let t = repeat(' ', n) + s;
        assert(t.drop_first() == repeat(' ', (n - 1) as nat) + s);
        lemma_width_after_spaces((n - 1) as nat, s);
    } else {
        assert(repeat(' ', 0) + s == s);
    }
}

/// Centering adds exactly the padding to the visible width, and a line that
/// fits in `cols` columns still fits once centered.
pub proof fn law_centering_width(s: Seq<char>, cols: nat)
    ensures
        visible_width(centered(s, cols)) == center_pad(visible_width(s), cols) + visible_width(s),
        visible_width(s) <= cols ==> visible_width(centered(s, cols)) <= cols,
{
    lemma_width_after_spaces(center_pad(visible_width(s), cols), s);
}

/// Whether `c` breaks a line on a terminal: a newline or a carriage return.
pub open spec fn is_break(c: char) -> bool {
    c == '\n' || c == '\r'
}

/// Whether `s` stays on one terminal line: it holds no line break.
pub open spec fn one_line(s: Seq<char>) -> bool {
    forall|i: int| 0 <= i < s.len() ==> !is_break(#[trigger] s[i])
}

/// `s` up to its first newline or carriage return.
pub open spec fn first_line(s: Seq<char>) -> Seq<char>
    decreases s.len(),
{
    if s.len() == 0 || is_break(s[0]) {
        Seq::empty()
    } else {
        seq![s[0]] + first_line(s.drop_first())
    }
}

/// `s` cut to `n` columns: every escape sequence is kept, so styles still
/// open and close; the visible characters past the first `n` are dropped,
/// and so is a stray escape that starts no sequence.
pub open spec fn clip(s: Seq<char>, n: nat) -> Seq<char>
    decreases s.len(),
{
    if s.len() == 0 {
        s
    } else if s[0] == esc() {
        if s.len() >= 2 && s[1] == '[' {
            proof {
                lemma_after_csi_len(s.skip(2));
            }
            let rest = after_csi(s.skip(2));
            s.take(s.len() - rest.len()) + clip(rest, n)
        } else {
            clip(s.drop_first(), n)
        }
    } else if n > 0 {
        seq![s[0]] + clip(s.drop_first(), (n - 1) as nat)
    } else {
        clip(s.drop_first(), 0)
    }
}

/// The part of `s` a terminal line of `n` columns shows: its first line,
/// cut to `n` columns.
pub open spec fn fit_line(s: Seq<char>, n: nat) -> Seq<char> {
    clip(first_line(s), n)
}

/// The first line of any text stays on one line.
proof fn lemma_first_line_one_line(s: Seq<char>)
    ensures
        one_line(first_line(s)),
        first_line(s).len() <= s.len(),
    decreases s.len(),
{
    if !(s.len() == 0 || is_break(s[0])) {
        lemma_first_line_one_line(s.drop_first());
        let f = first_line(s);
        assert forall|i: int| 0 <= i < f.len() implies !is_break(#[trigger] f[i]) by {
            if i > 0 {
                assert(f[i] == first_line(s.drop_first())[i - 1]);
            }
        }
    }
}

/// What follows a control sequence is the tail of the text it started in.
proof fn lemma_after_csi_suffix(t: Seq<char>)
    ensures
        after_csi(t).len() <= t.len(),
        after_csi(t) == t.skip(t.len() - after_csi(t).len()),
    decreases t.len(),
{
    if t.len() == 0 {
        assert(t.skip(0) == t);
    } else if is_final_char(t[0]) {
        assert(t.drop_first() == t.skip(1));
    } else {
        lemma_after_csi_suffix(t.drop_first());
        let r = after_csi(t.drop_first());
        assert(t.drop_first().skip(t.drop_first().len() - r.len()) == t.skip(t.len() - r.len()));
    }
}

/// A control sequence copied whole, followed by more text, ends where it
/// ended before; an unterminated one is followed by nothing.
proof fn lemma_csi_then(t: Seq<char>, c: Seq<char>)
    requires
        after_csi(t).len() > 0 || c.len() == 0,
    ensures
        after_csi(t.take(t.len() - after_csi(t).len()) + c) == c,
    decreases t.len(),
{
    lemma_after_csi_suffix(t);
    if t.len() == 0 {
        assert(t.take(0) + c == c);
    } else if is_final_char(t[0]) {
        let u = t.take(1) + c;
        assert(u[0] == t[0]);
        assert(u.drop_first() == c);
    } else {
        let d = t.drop_first();
        lemma_csi_then(d, c);
        lemma_after_csi_suffix(d);
        assert(after_csi(t) == after_csi(d));
        let k = t.len() - after_csi(t).len();
        assert(1 <= k <= t.len());
        assert(t.take(k)[0] == t[0]);
        assert(t.take(k).drop_first() == d.take(d.len() - after_csi(d).len()));
        let u = t.take(k) + c;
        assert(u[0] == t[0]);
        assert(u.drop_first() == d.take(d.len() - after_csi(d).len()) + c);
    }
}

/// Clipping to `n` columns leaves at most `n` columns, and keeps text on
/// one line.
pub proof fn lemma_clip(s: Seq<char>, n: nat)
    ensures
        visible_width(clip(s, n)) <= n,
        one_line(s) ==> one_line(clip(s, n)),
    decreases s.len(),
{
    if s.len() > 0 {
        if s[0] == esc() {
            if s.len() >= 2 && s[1] == '[' {
                let t = s.skip(2);
                lemma_after_csi_suffix(t);
                let rest = after_csi(t);
                let m = s.len() - rest.len();
                let pre = s.take(m);
                let c = clip(rest, n);
                assert(rest == s.skip(m));
                lemma_clip(rest, n);
                let u = pre + c;
                assert(u[0] == esc() && u[1] == '[');
                assert(u.skip(2) == t.take(t.len() - rest.len()) + c);
                lemma_csi_then(t, c);
                if one_line(s) {
                    assert(one_line(rest)) by {
                        assert forall|i: int| 0 <= i < rest.len() implies !is_break(#[trigger] rest[i]) by {
                            assert(rest[i] == s[m + i]);
                        }
                    }
                    assert forall|i: int| 0 <= i < u.len() implies !is_break(#[trigger] u[i]) by {
                        if i < m {
                            assert(u[i] == s[i]);
                        } else {
                            assert(u[i] == c[i - m]);
                        }
                    }
                }
            } else {
                lemma_clip(s.drop_first(), n);
                if one_line(s) {
                    assert(one_line(s.drop_first())) by {
                        assert forall|i: int| 0 <= i < s.drop_first().len() implies !is_break(
                            #[trigger] s.drop_first()[i],
                        ) by {
                            assert(s.drop_first()[i] == s[i + 1]);
                        }
                    }
                }
            }
        } else {
            let d = s.drop_first();
            let n2: nat = if n > 0 {
                (n - 1) as nat
            } else {
                0
            };
            lemma_clip(d, n2);
            if one_line(s) {
                assert(one_line(d)) by {
                    assert forall|i: int| 0 <= i < d.len() implies !is_break(#[trigger] d[i]) by {
                        assert(d[i] == s[i + 1]);
                    }
                }
            }
            if n > 0 {
                let u = seq![s[0]] + clip(d, n2);
                assert(u[0] == s[0]);
                assert(u.drop_first() == clip(d, n2));
                if one_line(s) {
                    assert forall|i: int| 0 <= i < u.len() implies !is_break(#[trigger] u[i]) by {
                        if i > 0 {
                            assert(u[i] == clip(d, n2)[i - 1]);
                        }
                    }
                }
            }
        }
    }
}

/// A fitted line stays on one line and takes at most `n` columns.
pub proof fn law_fit_line(s: Seq<char>, n: nat)
    ensures
        one_line(fit_line(s, n)),
        visible_width(fit_line(s, n)) <= n,
{
    lemma_first_line_one_line(s);
    lemma_clip(first_line(s), n);
}

/// The characters of `cs` up to its first newline or carriage return.
fn first_line_of(cs: &Vec<char>) -> (out: Vec<char>)
    ensures
        out@ == first_line(cs@),
{
    let mut out: Vec<char> = Vec::new();
    let mut i: usize = 0;
    assert(cs@.skip(0) == cs@);
    while i < cs.len() && !(cs[i] == '\n' || cs[i] == '\r')
        invariant
            i <= cs.len(),
            out@ + first_line(cs@.skip(i as int)) == first_line(cs@),
        decreases cs.len() - i,
    {
        let ghost rest = cs@.skip(i as int);
        assert(rest.drop_first() == cs@.skip(i + 1));
        assert(rest[0] == cs@[i as int]);
        out.push(cs[i]);
        assert(out@ + first_line(cs@.skip(i + 1)) == first_line(cs@));
        i = i + 1;
    }
    assert(first_line(cs@.skip(i as int)) == Seq::<char>::empty());
    assert(out@ + Seq::<char>::empty() == out@);
    out
}

/// `cs` cut to `n` columns, keeping its escape sequences.
fn clip_chars(cs: &Vec<char>, n: usize) -> (out: Vec<char>)
    ensures
        out@ == clip(cs@, n as nat),
{
    let len = cs.len();
    let mut out: Vec<char> = Vec::new();
    let mut left: usize = n;
    let mut i: usize = 0;
    assert(cs@.skip(0) == cs@);
    while i < len
        invariant
            len == cs@.len(),
            i <= len,
            left <= n,
            out@ + clip(cs@.skip(i as int), left as nat) == clip(cs@, n as nat),
        decreases len - i,
    {
        let ghost rest = cs@.skip(i as int);
        let ghost before = out@;
        assert(rest[0] == cs@[i as int]);
        if cs[i] == '\u{1b}' {
            if i + 1 < len && cs[i + 1] == '[' {
                let start = i;
                let mut j: usize = i + 2;
                assert(rest.skip(2) == cs@.skip(j as int));
                while j < len && !('\u{40}' <= cs[j] && cs[j] <= '\u{7e}')
                    invariant
                        len == cs@.len(),
                        start + 2 <= j <= len,
                        after_csi(cs@.skip(j as int)) == after_csi(rest.skip(2)),
                    decreases len - j,
                {
                    assert(cs@.skip(j as int).drop_first() == cs@.skip(j + 1));
                    j = j + 1;
                }
                if j < len {
                    assert(cs@.skip(j as int).drop_first() == cs@.skip(j + 1));
                    j = j + 1;
                } else {
                    assert(cs@.skip(j as int).len() == 0);
                }
                assert(after_csi(rest.skip(2)) == cs@.skip(j as int));
                let mut k: usize = start;
                while k < j
                    invariant
                        start <= k <= j <= len,
                        len == cs@.len(),
                        out@ == before + cs@.subrange(start as int, k as int),
                    decreases j - k,
                {
                    out.push(cs[k]);
                    assert(cs@.subrange(start as int, k + 1) == cs@.subrange(start as int, k as int).push(
                        cs@[k as int],
                    ));
                    k = k + 1;
                }
                assert(rest.take(rest.len() - cs@.skip(j as int).len()) == cs@.subrange(start as int, j as int));
                i = j;
            } else {
                assert(rest.drop_first() == cs@.skip(i + 1));
                i = i + 1;
            }
        } else if left > 0 {
            assert(rest.drop_first() == cs@.skip(i + 1));
            out.push(cs[i]);
            assert(out@ == before + seq![rest[0]]);
            left = left - 1;
            i = i + 1;
        } else {
            assert(rest.drop_first() == cs@.skip(i + 1));
            i = i + 1;
        }
    }
    assert(cs@.skip(len as int).len() == 0);
    assert(out@ + Seq::<char>::empty() == out@);
    out
}

/// The part of `line` a terminal line of `n` columns shows.
pub fn fit_line_chars(line: &Vec<char>, n: usize) -> (out: Vec<char>)
    ensures
        out@ == fit_line(line@, n as nat),
        one_line(out@),
        visible_width(out@) <= n,
{
    proof {
        law_fit_line(line@, n as nat);
    }
    let first = first_line_of(line);
    clip_chars(&first, n)
}

/// Whether `s` is one whole control sequence: escape, `[`, parameters that
/// do not end it, then a final character.
pub open spec fn is_control(s: Seq<char>) -> bool {
    &&& s.len() >= 3
    &&& s[0] == esc()
    &&& s[1] == '['
    &&& is_final_char(s.last())
    &&& forall|i: int| 2 <= i < s.len() - 1 ==> !is_final_char(#[trigger] s[i])
}

/// A sequence's parameters and final character skip to what follows them.
proof fn lemma_after_csi_run(u: Seq<char>, rest: Seq<char>)
    requires
        u.len() >= 1,
        is_final_char(u.last()),
        forall|i: int| 0 <= i < u.len() - 1 ==> !is_final_char(#[trigger] u[i]),
    ensures
        after_csi(u + rest) == rest,
    decreases u.len(),
{
    let v = u + rest;
    assert(v[0] == u[0]);
    if u.len() == 1 {
        assert(v.drop_first() == rest);
    } else {
        assert(!is_final_char(u[0]));
        assert(v.drop_first() == u.drop_first() + rest);
        assert forall|i: int| 0 <= i < u.drop_first().len() - 1 implies !is_final_char(#[trigger] u.drop_first()[i]) by {
            assert(u.drop_first()[i] == u[i + 1]);
        }
        lemma_after_csi_run(u.drop_first(), rest);
    }
}

/// A whole control sequence takes no columns in front of whatever follows.
pub proof fn lemma_control_width(s: Seq<char>, rest: Seq<char>)
    requires
        is_control(s),
    ensures
        visible_width(s + rest) == visible_width(rest),
{
    let v = s + rest;
    assert(v[0] == esc() && v[1] == '[');
    let u = s.skip(2);
    assert(v.skip(2) == u + rest);
    assert forall|i: int| 0 <= i < u.len() - 1 implies !is_final_char(#[trigger] u[i]) by {
        assert(u[i] == s[i + 2]);
    }
    assert(u.last() == s.last());
    lemma_after_csi_run(u, rest);
}

/// The characters a terminal shows for `s`, in order: escape sequences
/// and lone escapes show nothing, every other character shows itself.
pub open spec fn visible_chars(s: Seq<char>) -> Seq<char>
    decreases s.len(),
{
    if s.len() == 0 {
        s
    } else if s[0] == esc() {
        if s.len() >= 2 && s[1] == '[' {
            proof {
                lemma_after_csi_len(s.skip(2));
            }
            visible_chars(after_csi(s.skip(2)))
        } else {
            visible_chars(s.drop_first())
        }
    } else {
        seq![s[0]] + visible_chars(s.drop_first())
    }
}

/// A whole control sequence shows nothing in front of whatever follows.
pub proof fn lemma_control_chars(s: Seq<char>, rest: Seq<char>)
    requires
        is_control(s),
    ensures
        visible_chars(s + rest) == visible_chars(rest),
{
    let v = s + rest;
    assert(v[0] == esc() && v[1] == '[');
    let u = s.skip(2);
    assert(v.skip(2) == u + rest);
    assert forall|i: int| 0 <= i < u.len() - 1 implies !is_final_char(#[trigger] u[i]) by {
        assert(u[i] == s[i + 2]);
    }
    assert(u.last() == s.last());
    lemma_after_csi_run(u, rest);
}

/// Cursor home.
pub open spec fn cursor_home() -> Seq<char> {
    seq![esc(), '[', 'H']
}

/// Clear to the end of the line, then move to the start of the next line.
pub open spec fn line_break() -> Seq<char> {
    seq![esc(), '[', 'K', esc(), '[', 'E']
}

/// Clear from the cursor to the end of the screen.
pub open spec fn clear_below() -> Seq<char> {
    seq![esc(), '[', 'J']
}

/// `s` with every newline replaced by a clear-and-next-line sequence.
pub open spec fn escape_newlines(s: Seq<char>) -> Seq<char>
    decreases s.len(),
{
    if s.len() == 0 {
        s
    } else {
        let head = if s[0] == '\n' {
            line_break()
        } else {
            seq![s[0]]
        };
        head + escape_newlines(s.drop_first())
    }
}

/// The in-place repaint of a frame: home the cursor, draw each line over the
/// previous frame clearing what it leaves behind, then clear the rest.
pub open spec fn painted_frame(s: Seq<char>) -> Seq<char> {
    cursor_home() + escape_newlines(s) + clear_below()
}

/// Turns a frame of newline-separated lines into the escape sequence that
/// repaints it in place, without newlines and without clearing the screen.
pub fn frame_escape(s: &str) -> (r: String)
    ensures
        r@ == painted_frame(s@),
{
    let cs = chars_of(s);
    let mut out: Vec<char> = Vec::new();
    out.push('\u{1b}');
    out.push('[');
    out.push('H');
    let mut i: usize = 0;
    assert(cs@.skip(0) == cs@);
    while i < cs.len()
        invariant
            i <= cs.len(),
            out@ + escape_newlines(cs@.skip(i as int)) == cursor_home() + escape_newlines(cs@),
        decreases cs.len() - i,
    {
        let ghost before = out@;
        let ghost rest = cs@.skip(i as int);
        assert(rest.drop_first() == cs@.skip(i + 1));
        if cs[i] == '\n' {
            out.push('\u{1b}');
            out.push('[');
            out.push('K');
            out.push('\u{1b}');
            out.push('[');
            out.push('E');
            assert(out@ == before + line_break());
        } else {
            out.push(cs[i]);
            assert(out@ == before + seq![cs@[i as int]]);
        }
        assert(escape_newlines(rest) == (if rest[0] == '\n' {
            line_break()
        } else {
            seq![rest[0]]
        }) + escape_newlines(rest.drop_first()));
        i = i + 1;
    }
    assert(cs@.skip(cs.len() as int).len() == 0);
    assert(cs@.skip(0) == cs@);
    out.push('\u{1b}');
    out.push('[');
    out.push('J');
    string_of(&out)
}

/// A repainted frame holds no newline, and ends by clearing below.
pub proof fn law_painted_frame_shape(s: Seq<char>)
    ensures
        !painted_frame(s).contains('\n'),
        painted_frame(s).len() >= 3,
        painted_frame(s).skip(painted_frame(s).len() - 3) == clear_below(),
{
    lemma_escape_newlines_no_newline(s);
    let p = painted_frame(s);
    assert(p.skip(p.len() - 3) == clear_below());
    if p.contains('\n') {
        let k = choose|k: int| 0 <= k < p.len() && p[k] == '\n';
        let e = escape_newlines(s);
        if k >= 3 && k < 3 + e.len() {
            assert(p[k] == e[k - 3]);
        }
    }
}

/// Replacing newlines leaves none behind.
pub proof fn lemma_escape_newlines_no_newline(s: Seq<char>)
    ensures
        forall|i: int| 0 <= i < escape_newlines(s).len() ==> #[trigger] escape_newlines(s)[i] != '\n',
    decreases s.len(),
{
    if s.len() > 0 {
        lemma_escape_newlines_no_newline(s.drop_first());
        let head = if s[0] == '\n' {
            line_break()
        } else {
            seq![s[0]]
        };
        let e = escape_newlines(s);
        assert forall|i: int| 0 <= i < e.len() implies #[trigger] e[i] != '\n' by {
            if i < head.len() {
                assert(e[i] == head[i]);
            } else {
                assert(e[i] == escape_newlines(s.drop_first())[i - head.len()]);
            }
        }
    }
}

} // verus!
