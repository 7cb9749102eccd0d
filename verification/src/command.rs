//! The commands the plant understands: parsing a request, applying its
//! effect on the directional care state, the fixed replies, and the
//! command-line and viewer-key front ends.

use vstd::prelude::*;
use crate::text::{chars_of, is_whitespace, is_ws, string_of, extend_str, push_decimal, decimal};

verus! {

/// The words of `s` as `str::split_whitespace` separates them, given the
/// word `cur` being read.
pub open spec fn words_from(s: Seq<char>, cur: Seq<char>) -> Seq<Seq<char>>
    decreases s.len(),
{
    if s.len() == 0 {
        if cur.len() > 0 {
            seq![cur]
        } else {
            Seq::empty()
        }
    } else if is_ws(s[0]) {
        (if cur.len() > 0 {
            seq![cur]
        } else {
            Seq::empty()
        }) + words_from(s.drop_first(), Seq::empty())
    } else {
        words_from(s.drop_first(), cur.push(s[0]))
    }
}

/// The whitespace-separated words of `s`.
pub open spec fn words(s: Seq<char>) -> Seq<Seq<char>> {
    words_from(s, Seq::empty())
}

/// A run of characters that are not whitespace joins the word being read.
proof fn lemma_words_run(a: Seq<char>, rest: Seq<char>, cur: Seq<char>)
    requires
        forall|i: int| 0 <= i < a.len() ==> !is_ws(#[trigger] a[i]),
    ensures
        words_from(a + rest, cur) == words_from(rest, cur + a),
    decreases a.len(),
{
    if a.len() == 0 {
        assert(a + rest == rest);
        assert(cur + a == cur);
    } else {
        let v = a + rest;
        assert(v[0] == a[0]);
        assert(v.drop_first() == a.drop_first() + rest);
        assert forall|i: int| 0 <= i < a.drop_first().len() implies !is_ws(#[trigger] a.drop_first()[i]) by {
            assert(a.drop_first()[i] == a[i + 1]);
        }
        lemma_words_run(a.drop_first(), rest, cur.push(a[0]));
        assert(cur.push(a[0]) + a.drop_first() == cur + a);
    }
}

/// A word alone reads as that one word.
pub proof fn lemma_one_word(a: Seq<char>)
    requires
        a.len() > 0,
        forall|i: int| 0 <= i < a.len() ==> !is_ws(#[trigger] a[i]),
    ensures
        words(a) == seq![a],
{
    lemma_words_run(a, Seq::empty(), Seq::empty());
    assert(a + Seq::<char>::empty() == a);
    assert(Seq::<char>::empty() + a == a);
}

/// Two words with one space between them read as those two words.
pub proof fn lemma_two_words(a: Seq<char>, b: Seq<char>)
    requires
        a.len() > 0,
        b.len() > 0,
        forall|i: int| 0 <= i < a.len() ==> !is_ws(#[trigger] a[i]),
        forall|i: int| 0 <= i < b.len() ==> !is_ws(#[trigger] b[i]),
    ensures
        words(a + seq![' '] + b) == seq![a, b],
{
    let t = seq![' '] + b;
    assert(a + seq![' '] + b == a + t);
    lemma_words_run(a, t, Seq::empty());
    assert(Seq::<char>::empty() + a == a);
    assert(t[0] == ' ');
    assert(t.drop_first() == b);
    lemma_one_word(b);
    assert(seq![a] + seq![b] == seq![a, b]);
}

/// Word `i` of `ws`, or `default` when there are fewer words.
pub open spec fn word_or(ws: Seq<Seq<char>>, i: int, default: Seq<char>) -> Seq<char> {
    if 0 <= i < ws.len() {
        ws[i]
    } else {
        default
    }
}

/// The views of a list of character vectors.
pub open spec fn char_views(v: Seq<Vec<char>>) -> Seq<Seq<char>> {
    v.map_values(|c: Vec<char>| c@)
}

/// Splits `s` into its whitespace-separated words.
pub fn split_words(s: &str) -> (ws: Vec<Vec<char>>)
    ensures
        char_views(ws@) == words(s@),
{
    let cs = chars_of(s);
    let mut ws: Vec<Vec<char>> = Vec::new();
    let mut cur: Vec<char> = Vec::new();
    let mut i: usize = 0;
    assert(cs@.skip(0) == cs@);
    while i < cs.len()
        invariant
            i <= cs.len(),
            cs@ == s@,
            char_views(ws@) + words_from(cs@.skip(i as int), cur@) == words(s@),
        decreases cs.len() - i,
    {
        let ghost rest = cs@.skip(i as int);
        assert(rest.drop_first() == cs@.skip(i + 1));
        assert(rest[0] == cs@[i as int]);
        let c = cs[i];
        if is_whitespace(c) {
            if cur.len() > 0 {
                let ghost before = char_views(ws@);
                let word = cur;
                ws.push(word);
                assert(char_views(ws@) == before.push(word@));
                assert(before.push(word@) + words_from(cs@.skip(i + 1), Seq::empty()) == before
                    + (seq![word@] + words_from(cs@.skip(i + 1), Seq::empty())));
                cur = Vec::new();
            } else {
                let ghost e: Seq<Seq<char>> = Seq::empty();
                assert(e + words_from(cs@.skip(i + 1), Seq::empty()) == words_from(cs@.skip(i + 1), Seq::empty()));
                cur = Vec::new();
            }
        } else {
            cur.push(c);
        }
        i = i + 1;
    }
    assert(cs@.skip(cs.len() as int).len() == 0);
    if cur.len() > 0 {
        let ghost before = char_views(ws@);
        let word = cur;
        ws.push(word);
        assert(char_views(ws@) == before.push(word@));
    } else {
        assert(char_views(ws@) + Seq::<Seq<char>>::empty() == char_views(ws@));
    }
    ws
}

/// Whether `a` holds exactly the characters of `b`.
pub fn chars_eq(a: &Vec<char>, b: &str) -> (r: bool)
    ensures
        r == (a@ == b@),
{
    let bs = chars_of(b);
    if a.len() != bs.len() {
        return false;
    }
    let mut i: usize = 0;
    while i < a.len()
        invariant
            i <= a.len(),
            a.len() == bs.len(),
            bs@ == b@,
            forall|k: int| 0 <= k < i ==> a@[k] == bs@[k],
        decreases a.len() - i,
    {
        if a[i] != bs[i] {
            return false;
        }
        i = i + 1;
    }
    assert(a@ == bs@);
    true
}

/// Which side a pruning cuts.
#[derive(Clone, Copy, Debug, PartialEq, Eq, Structural)]
pub enum Side {
    Left,
    Top,
    Right,
}

/// A request to the plant.
#[derive(Debug)]
pub enum Command {
    /// Liveness check.
    Ping,
    /// Ask for the whole state.
    Snapshot,
    /// Water the plant.
    Water,
    /// Move the light; `word` is the direction as written.
    Light { dir: i8, word: String },
    /// Prune a side; `word` is the side as written.
    Prune { side: Side, word: String },
    /// Plant a new tree.
    Reset,
    /// Stop the background process.
    Stop,
    /// Anything else.
    Unknown,
}

/// The light direction a word names: left -1, right 1, anything else 0.
pub open spec fn light_dir_of(word: Seq<char>) -> i8 {
    if word == "left"@ {
        -1i8
    } else if word == "right"@ {
        1i8
    } else {
        0i8
    }
}

/// The side a word names: left, right, or the crown for anything else.
pub open spec fn side_of(word: Seq<char>) -> Side {
    if word == "left"@ {
        Side::Left
    } else if word == "right"@ {
        Side::Right
    } else {
        Side::Top
    }
}

/// What `parse_command` makes of a request: the first word selects the
/// command, the second word (center or top when missing) qualifies light
/// and prune requests.
pub open spec fn parsed_as(c: Command, req: Seq<char>) -> bool {
    let ws = words(req);
    let first = word_or(ws, 0, Seq::empty());
    if first == "ping"@ {
        c is Ping
    } else if first == "snapshot"@ {
        c is Snapshot
    } else if first == "water"@ {
        c is Water
    } else if first == "light"@ {
        let word = word_or(ws, 1, "center"@);
        c matches Command::Light { dir, word: w } && w@ == word && dir == light_dir_of(word)
    } else if first == "prune"@ {
        let word = word_or(ws, 1, "top"@);
        c matches Command::Prune { side, word: w } && w@ == word && side == side_of(word)
    } else if first == "reset"@ {
        c is Reset
    } else if first == "stop"@ {
        c is Stop
    } else {
        c is Unknown
    }
}

/// Word `i` of `ws`, or `default` when there are fewer words.
fn word_or_exec(ws: &Vec<Vec<char>>, i: usize, default: &str) -> (r: Vec<char>)
    ensures
        r@ == word_or(char_views(ws@), i as int, default@),
{
    if i < ws.len() {
        ws[i].clone()
    } else {
        chars_of(default)
    }
}

/// Parses a request line such as `light left` or `prune top`.
pub fn parse_command(req: &str) -> (c: Command)
    ensures
        parsed_as(c, req@),
{
    let ws = split_words(req);
    proof {
        reveal_strlit("");
        assert(""@ =~= Seq::<char>::empty());
    }
    let first = word_or_exec(&ws, 0, "");
    if chars_eq(&first, "ping") {
        Command::Ping
    } else if chars_eq(&first, "snapshot") {
        Command::Snapshot
    } else if chars_eq(&first, "water") {
        Command::Water
    } else if chars_eq(&first, "light") {
        let word = word_or_exec(&ws, 1, "center");
        let dir: i8 = if chars_eq(&word, "left") {
            -1
        } else if chars_eq(&word, "right") {
            1
        } else {
            0
        };
        Command::Light { dir, word: string_of(&word) }
    } else if chars_eq(&first, "prune") {
        let word = word_or_exec(&ws, 1, "top");
        let side = if chars_eq(&word, "left") {
            Side::Left
        } else if chars_eq(&word, "right") {
            Side::Right
        } else {
            Side::Top
        };
        Command::Prune { side, word: string_of(&word) }
    } else if chars_eq(&first, "reset") {
        Command::Reset
    } else if chars_eq(&first, "stop") {
        Command::Stop
    } else {
        Command::Unknown
    }
}

/// The directional care a plant has received: where its light comes from
/// and how often each side has been pruned.
#[derive(Clone, Copy, Debug, PartialEq, Eq, Structural)]
pub struct Care {
    pub light_dir: i8,
    pub prune_left: u32,
    pub prune_right: u32,
    pub prune_top: u32,
}

/// One more pruning, held at the counter's maximum.
pub open spec fn bump(n: u32) -> u32 {
    if n < u32::MAX {
        (n + 1) as u32
    } else {
        n
    }
}

/// The care after a command: light turns the light source, prune counts a
/// cut on its side, and nothing else changes the directional care.
pub open spec fn care_after(care: Care, c: Command) -> Care {
    match c {
        Command::Light { dir, .. } => Care { light_dir: dir, ..care },
        Command::Prune { side, .. } => match side {
            Side::Left => Care { prune_left: bump(care.prune_left), ..care },
            Side::Right => Care { prune_right: bump(care.prune_right), ..care },
            Side::Top => Care { prune_top: bump(care.prune_top), ..care },
        },
        _ => care,
    }
}

/// Applies a command's effect on the directional care.
pub fn apply_care(care: &mut Care, c: &Command)
    ensures
        *final(care) == care_after(*old(care), *c),
{
    match c {
        Command::Light { dir, .. } => {
            care.light_dir = *dir;
        },
        Command::Prune { side, .. } => match side {
            Side::Left => {
                care.prune_left = care.prune_left.saturating_add(1);
            },
            Side::Right => {
                care.prune_right = care.prune_right.saturating_add(1);
            },
            Side::Top => {
                care.prune_top = care.prune_top.saturating_add(1);
            },
        },
        _ => {},
    }
}

/// How many cuts `care` counts on `side`.
pub open spec fn cuts(care: Care, side: Side) -> u32 {
    match side {
        Side::Left => care.prune_left,
        Side::Right => care.prune_right,
        Side::Top => care.prune_top,
    }
}

/// The reply to a command when it does not depend on the plant's levels;
/// `care` is the care state once the command has been applied, so a prune
/// reply reports the side's cut count.
pub open spec fn plain_reply_text(c: Command, care: Care) -> Option<Seq<char>> {
    match c {
        Command::Ping => Some("pong\n"@),
        Command::Prune { side, word } => Some("Pruned "@ + word@ + ": "@ + decimal(cuts(care, side) as nat) + "\n"@),
        Command::Reset => Some("new bonsai planted\n"@),
        Command::Stop => Some("stopping\n"@),
        Command::Unknown => Some("unknown command\n"@),
        _ => None,
    }
}

/// The reply to `c`, for the commands whose reply does not depend on the
/// plant's levels, given the care state `care` after `c`.
pub fn plain_reply(c: &Command, care: &Care) -> (r: Option<String>)
    ensures
        match r {
            Some(s) => plain_reply_text(*c, *care) == Some(s@),
            None => plain_reply_text(*c, *care) is None,
        },
{
    match c {
        Command::Ping => Some(String::from_str("pong\n")),
        Command::Prune { side, word } => {
            let n: u32 = match side {
                Side::Left => care.prune_left,
                Side::Right => care.prune_right,
                Side::Top => care.prune_top,
            };
            let mut out: Vec<char> = Vec::new();
            extend_str(&mut out, "Pruned ");
            extend_str(&mut out, word.as_str());
            extend_str(&mut out, ": ");
            push_decimal(&mut out, n as u64);
            extend_str(&mut out, "\n");
            assert(out@ == "Pruned "@ + word@ + ": "@ + decimal(cuts(*care, *side) as nat) + "\n"@);
            Some(string_of(&out))
        },
        Command::Reset => Some(String::from_str("new bonsai planted\n")),
        Command::Stop => Some(String::from_str("stopping\n")),
        Command::Unknown => Some(String::from_str("unknown command\n")),
        _ => None,
    }
}

/// The reply to a prune request, given the care it leaves, reports the
/// side's count after the cut: one more than before, held at the counter's
/// maximum.
pub proof fn law_prune_reply_reports_new_count(care: Care, c: Command)
    requires
        c is Prune,
    ensures
        plain_reply_text(c, care_after(care, c)) == Some(
            "Pruned "@ + c->Prune_word@ + ": "@ + decimal(bump(cuts(care, c->Prune_side)) as nat) + "\n"@,
        ),
{
}

/// A light request turns the light to the named side and leaves every
/// pruning counter alone.
pub proof fn law_light_changes_only_direction(care: Care, c: Command)
    requires
        c is Light,
    ensures
        care_after(care, c).light_dir == c->Light_dir,
        care_after(care, c).prune_left == care.prune_left,
        care_after(care, c).prune_right == care.prune_right,
        care_after(care, c).prune_top == care.prune_top,
{
}

/// A prune request counts exactly one cut on its own side (held at the
/// counter's maximum) and changes nothing else.
pub proof fn law_prune_counts_one_side(care: Care, c: Command)
    requires
        c is Prune,
    ensures
        care_after(care, c).light_dir == care.light_dir,
        care_after(care, c).prune_left == (if c->Prune_side == Side::Left {
            bump(care.prune_left)
        } else {
            care.prune_left
        }),
        care_after(care, c).prune_right == (if c->Prune_side == Side::Right {
            bump(care.prune_right)
        } else {
            care.prune_right
        }),
        care_after(care, c).prune_top == (if c->Prune_side == Side::Top {
            bump(care.prune_top)
        } else {
            care.prune_top
        }),
        care_after(care, c).prune_left >= care.prune_left,
        care_after(care, c).prune_right >= care.prune_right,
        care_after(care, c).prune_top >= care.prune_top,
{
}

/// Every request that is not light or prune leaves the directional care
/// as it was.
pub proof fn law_other_commands_keep_care(care: Care, c: Command)
    requires
        !(c is Light),
        !(c is Prune),
    ensures
        care_after(care, c) == care,
{
}

/// A light request that names no side centers the light.
pub proof fn law_light_request_defaults_to_center(c: Command, req: Seq<char>)
    requires
        parsed_as(c, req),
        words(req).len() == 1,
        words(req)[0] == "light"@,
    ensures
        c is Light,
        c->Light_dir == 0,
{
    proof_strlits_distinct();
}

/// The command words and direction words are distinct strings.
proof fn proof_strlits_distinct()
    ensures
        "light"@ != "ping"@,
        "light"@ != "snapshot"@,
        "light"@ != "water"@,
        "center"@ != "left"@,
        "center"@ != "right"@,
        "prune"@ != "ping"@,
        "prune"@ != "snapshot"@,
        "prune"@ != "water"@,
        "prune"@ != "light"@,
        "top"@ != "left"@,
        "top"@ != "right"@,
{
    reveal_strlit("light");
    reveal_strlit("ping");
    reveal_strlit("snapshot");
    reveal_strlit("water");
    reveal_strlit("center");
    reveal_strlit("left");
    reveal_strlit("right");
    reveal_strlit("prune");
    reveal_strlit("top");
    assert("light"@[0] != "ping"@[0]);
    assert("light"@.len() != "snapshot"@.len());
    assert("light"@[0] != "water"@[0]);
    assert("center"@.len() != "left"@.len());
    assert("center"@.len() != "right"@.len());
    assert("prune"@[1] != "ping"@[1]);
    assert("prune"@.len() != "snapshot"@.len());
    assert("prune"@[0] != "water"@[0]);
    assert("prune"@[0] != "light"@[0]);
    assert("top"@.len() != "left"@.len());
    assert("top"@.len() != "right"@.len());
}

/// An unqualified prune request cuts the crown.
pub proof fn law_prune_request_defaults_to_top(c: Command, req: Seq<char>)
    requires
        parsed_as(c, req),
        words(req).len() == 1,
        words(req)[0] == "prune"@,
    ensures
        c is Prune,
        c->Prune_side == Side::Top,
{
    proof_strlits_distinct();
}

} // verus!
