//! The front ends' decisions: which command the command line asks for,
//! what a key pressed in the viewer does, which request and animation an
//! action sends, and when the background process saves.

use vstd::prelude::*;
use crate::command::{chars_eq, split_words, words, Command, Side, parsed_as, word_or, light_dir_of, side_of, lemma_one_word, lemma_two_words};
use crate::text::{chars_of, parse_unsigned, unsigned_value};

verus! {

/// Seconds between periodic saves of the background process.
pub const TICK_SECS: u64 = 30;

/// Milliseconds the viewer waits between two care actions.
pub const ACTION_COOLDOWN_MS: u128 = 850;

/// Whether the background process is due for a periodic save.
pub fn should_save(now: u64, last_save: u64) -> (b: bool)
    ensures
        b == (now >= last_save && now - last_save >= TICK_SECS),
{
    now.saturating_sub(last_save) >= TICK_SECS
}

/// The terminal size, in columns and rows, assumed when it cannot be read.
pub const DEFAULT_COLS: usize = 80;

/// See `DEFAULT_COLS`.
pub const DEFAULT_ROWS: usize = 40;

/// The terminal size, as columns then rows, that the output of `stty size`
/// gives: its first two words, rows then columns, as whole numbers that
/// fit a `usize`; the default size when there is no output or it does not
/// read so.
pub open spec fn size_from(out: Option<Seq<char>>) -> (nat, nat) {
    match out {
        Some(s) => {
            let ws = words(s);
            if ws.len() >= 2 && unsigned_value(ws[0]) is Some && unsigned_value(ws[1]) is Some
                && unsigned_value(ws[0])->0 <= usize::MAX && unsigned_value(ws[1])->0 <= usize::MAX {
                (unsigned_value(ws[1])->0, unsigned_value(ws[0])->0)
            } else {
                (DEFAULT_COLS as nat, DEFAULT_ROWS as nat)
            }
        },
        None => (DEFAULT_COLS as nat, DEFAULT_ROWS as nat),
    }
}

/// The terminal size, as `(columns, rows)`, read from the output of
/// `stty size` (`None` when it could not be run or failed).
pub fn terminal_size_from(out: Option<&str>) -> (r: (usize, usize))
    ensures
        (r.0 as nat, r.1 as nat) == size_from(match out {
            Some(s) => Some(s@),
            None => None,
        }),
{
    match out {
        Some(text) => {
            let ws = split_words(text);
            if ws.len() >= 2 {
                let max: u64 = usize::MAX as u64;
                let rows = parse_unsigned(&ws[0], max);
                let cols = parse_unsigned(&ws[1], max);
                assert(ws@[0]@ == words(text@)[0] && ws@[1]@ == words(text@)[1]);
                match (rows, cols) {
                    (Some(r), Some(c)) => {
                        return (c as usize, r as usize);
                    },
                    _ => {},
                }
            }
            (DEFAULT_COLS, DEFAULT_ROWS)
        },
        None => (DEFAULT_COLS, DEFAULT_ROWS),
    }
}

/// What the command line asks for.
#[derive(Debug)]
pub enum Cli {
    DaemonRun,
    /// `init` or `reset`: plant a new tree.
    Init,
    Start,
    Stop,
    Status,
    Show,
    Watch,
    Water,
    /// Move the light; the direction as written (center when missing).
    Light { word: String },
    /// Prune; the side as written (top when missing).
    Prune { word: String },
    /// `help`, `--help`, `-h`, or no command at all.
    Help,
    /// `version`, `--version`, `-V`.
    Version,
    /// Anything else, with the name as written.
    Unknown { name: String },
}

/// Argument `i` of `args`, or `default` when there are fewer.
pub open spec fn arg_or(args: Seq<String>, i: int, default: Seq<char>) -> Seq<char> {
    if 0 <= i < args.len() {
        args[i]@
    } else {
        default
    }
}

/// What `parse_cli` makes of the program's arguments (the first is the
/// program's own name).
pub open spec fn cli_as(c: Cli, args: Seq<String>) -> bool {
    let cmd = arg_or(args, 1, "help"@);
    if cmd == "daemon-run"@ {
        c is DaemonRun
    } else if cmd == "init"@ || cmd == "reset"@ {
        c is Init
    } else if cmd == "start"@ {
        c is Start
    } else if cmd == "stop"@ {
        c is Stop
    } else if cmd == "status"@ {
        c is Status
    } else if cmd == "show"@ {
        c is Show
    } else if cmd == "watch"@ {
        c is Watch
    } else if cmd == "water"@ {
        c is Water
    } else if cmd == "light"@ {
        c matches Cli::Light { word } && word@ == arg_or(args, 2, "center"@)
    } else if cmd == "prune"@ {
        c matches Cli::Prune { word } && word@ == arg_or(args, 2, "top"@)
    } else if cmd == "help"@ || cmd == "--help"@ || cmd == "-h"@ {
        c is Help
    } else if cmd == "version"@ || cmd == "--version"@ || cmd == "-V"@ {
        c is Version
    } else {
        c matches Cli::Unknown { name } && name@ == cmd
    }
}

/// Argument `i`, or `default`, as a string.
fn arg_or_exec(args: &Vec<String>, i: usize, default: &str) -> (r: String)
    ensures
        r@ == arg_or(args@, i as int, default@),
{
    if i < args.len() {
        args[i].clone()
    } else {
        String::from_str(default)
    }
}

/// Reads the command from the program's arguments.
pub fn parse_cli(args: &Vec<String>) -> (c: Cli)
    ensures
        cli_as(c, args@),
{
    let cmd = arg_or_exec(args, 1, "help");
    let cs = chars_of(cmd.as_str());
    if chars_eq(&cs, "daemon-run") {
        Cli::DaemonRun
    } else if chars_eq(&cs, "init") || chars_eq(&cs, "reset") {
        Cli::Init
    } else if chars_eq(&cs, "start") {
        Cli::Start
    } else if chars_eq(&cs, "stop") {
        Cli::Stop
    } else if chars_eq(&cs, "status") {
        Cli::Status
    } else if chars_eq(&cs, "show") {
        Cli::Show
    } else if chars_eq(&cs, "watch") {
        Cli::Watch
    } else if chars_eq(&cs, "water") {
        Cli::Water
    } else if chars_eq(&cs, "light") {
        Cli::Light { word: arg_or_exec(args, 2, "center") }
    } else if chars_eq(&cs, "prune") {
        Cli::Prune { word: arg_or_exec(args, 2, "top") }
    } else if chars_eq(&cs, "help") || chars_eq(&cs, "--help") || chars_eq(&cs, "-h") {
        Cli::Help
    } else if chars_eq(&cs, "version") || chars_eq(&cs, "--version") || chars_eq(&cs, "-V") {
        Cli::Version
    } else {
        Cli::Unknown { name: cmd }
    }
}

/// What a key pressed in the viewer does.
#[derive(Clone, Copy, Debug, PartialEq, Eq, Structural)]
pub enum KeyAction {
    /// `q`: leave the viewer.
    Quit,
    /// `h` or `?`: show the help screen.
    Help,
    /// Any key that is not a control.
    Ignore,
    /// A care key pressed within the cooldown.
    TooSoon,
    /// `w` or `r`.
    Water,
    /// `a`, `s`, `d`.
    LightLeft,
    LightCenter,
    LightRight,
    /// `j`, `k`, `l`.
    PruneLeft,
    PruneTop,
    PruneRight,
}

/// The action of `key` pressed `since_ms` milliseconds after the last care
/// action.
pub open spec fn key_action_of(key: u8, since_ms: u128) -> KeyAction {
    if key == 0x71 {
        KeyAction::Quit
    } else if key == 0x68 || key == 0x3f {
        KeyAction::Help
    } else if !(key == 0x77 || key == 0x72 || key == 0x61 || key == 0x73 || key == 0x64 || key == 0x6a
        || key == 0x6b || key == 0x6c) {
        KeyAction::Ignore
    } else if since_ms < ACTION_COOLDOWN_MS {
        KeyAction::TooSoon
    } else if key == 0x77 || key == 0x72 {
        KeyAction::Water
    } else if key == 0x61 {
        KeyAction::LightLeft
    } else if key == 0x73 {
        KeyAction::LightCenter
    } else if key == 0x64 {
        KeyAction::LightRight
    } else if key == 0x6a {
        KeyAction::PruneLeft
    } else if key == 0x6b {
        KeyAction::PruneTop
    } else {
        KeyAction::PruneRight
    }
}

/// Decides what a key pressed in the viewer does.
pub fn key_action(key: u8, since_ms: u128) -> (a: KeyAction)
    ensures
        a == key_action_of(key, since_ms),
{
    if key == 0x71u8 {
        KeyAction::Quit
    } else if key == 0x68u8 || key == 0x3fu8 {
        KeyAction::Help
    } else if !(key == 0x77u8 || key == 0x72u8 || key == 0x61u8 || key == 0x73u8 || key == 0x64u8 || key == 0x6au8
        || key == 0x6bu8 || key == 0x6cu8) {
        KeyAction::Ignore
    } else if since_ms < ACTION_COOLDOWN_MS {
        KeyAction::TooSoon
    } else if key == 0x77u8 || key == 0x72u8 {
        KeyAction::Water
    } else if key == 0x61u8 {
        KeyAction::LightLeft
    } else if key == 0x73u8 {
        KeyAction::LightCenter
    } else if key == 0x64u8 {
        KeyAction::LightRight
    } else if key == 0x6au8 {
        KeyAction::PruneLeft
    } else if key == 0x6bu8 {
        KeyAction::PruneTop
    } else {
        KeyAction::PruneRight
    }
}

/// The request a care action sends to the plant.
pub open spec fn request_text(a: KeyAction) -> Option<Seq<char>> {
    match a {
        KeyAction::Water => Some("water"@),
        KeyAction::LightLeft => Some("light left"@),
        KeyAction::LightCenter => Some("light center"@),
        KeyAction::LightRight => Some("light right"@),
        KeyAction::PruneLeft => Some("prune left"@),
        KeyAction::PruneTop => Some("prune top"@),
        KeyAction::PruneRight => Some("prune right"@),
        _ => None,
    }
}

/// The request a care action sends, if it sends one.
pub fn action_request(a: KeyAction) -> (r: Option<&'static str>)
    ensures
        match r {
            Some(s) => request_text(a) == Some(s@),
            None => request_text(a) is None,
        },
{
    match a {
        KeyAction::Water => Some("water"),
        KeyAction::LightLeft => Some("light left"),
        KeyAction::LightCenter => Some("light center"),
        KeyAction::LightRight => Some("light right"),
        KeyAction::PruneLeft => Some("prune left"),
        KeyAction::PruneTop => Some("prune top"),
        KeyAction::PruneRight => Some("prune right"),
        _ => None,
    }
}

/// The notice shown after an action (watering's depends on the level
/// reached and is not fixed text).
pub open spec fn notice_text(a: KeyAction) -> Option<Seq<char>> {
    match a {
        KeyAction::TooSoon => Some("easy there · let the tree settle for a moment"@),
        KeyAction::LightLeft => Some("light moved left"@),
        KeyAction::LightCenter => Some("light centered"@),
        KeyAction::LightRight => Some("light moved right"@),
        KeyAction::PruneLeft => Some("left side pruned"@),
        KeyAction::PruneTop => Some("crown pruned"@),
        KeyAction::PruneRight => Some("right side pruned"@),
        _ => None,
    }
}

/// The fixed notice shown after an action, if it has one.
pub fn action_notice(a: KeyAction) -> (r: Option<&'static str>)
    ensures
        match r {
            Some(s) => notice_text(a) == Some(s@),
            None => notice_text(a) is None,
        },
{
    match a {
        KeyAction::TooSoon => Some("easy there · let the tree settle for a moment"),
        KeyAction::LightLeft => Some("light moved left"),
        KeyAction::LightCenter => Some("light centered"),
        KeyAction::LightRight => Some("light moved right"),
        KeyAction::PruneLeft => Some("left side pruned"),
        KeyAction::PruneTop => Some("crown pruned"),
        KeyAction::PruneRight => Some("right side pruned"),
        _ => None,
    }
}

/// The frames of an action's animation: each message and how many
/// milliseconds it stays.
pub open spec fn frames_text(a: KeyAction) -> Seq<(Seq<char>, u64)> {
    match a {
        KeyAction::Water => seq![
            ("       ·     ·        "@, 90u64),
            ("     ·   · ·   ·      "@, 100u64),
            ("   ˙ · ˙ · ˙ · ˙     "@, 110u64),
            ("the soil darkens gently"@, 140u64),
        ],
        KeyAction::LightLeft => seq![
            ("☀  ·"@, 125u64),
            ("☀  · ·"@, 125u64),
            ("soft light settles from the left"@, 125u64),
        ],
        KeyAction::LightRight => seq![
            ("·  ☀"@, 125u64),
            ("· ·  ☀"@, 125u64),
            ("soft light settles from the right"@, 125u64),
        ],
        KeyAction::LightCenter => seq![
            ("   ☀"@, 125u64),
            ("   ↓"@, 125u64),
            ("soft light settles above"@, 125u64),
        ],
        KeyAction::PruneLeft => seq![("      ✂"@, 120u64), ("     ✂ ·"@, 120u64), ("left branch"@, 120u64)],
        KeyAction::PruneRight => seq![("      ✂"@, 120u64), ("     ✂ ·"@, 120u64), ("right branch"@, 120u64)],
        KeyAction::PruneTop => seq![("      ✂"@, 120u64), ("     ✂ ·"@, 120u64), ("crown"@, 120u64)],
        _ => Seq::empty(),
    }
}

/// The views of animation frames.
pub open spec fn frame_views(v: Seq<(&'static str, u64)>) -> Seq<(Seq<char>, u64)> {
    v.map_values(|f: (&'static str, u64)| (f.0@, f.1))
}

/// The animation an action plays.
pub fn action_frames(a: KeyAction) -> (r: Vec<(&'static str, u64)>)
    ensures
        frame_views(r@) == frames_text(a),
{
    let v: Vec<(&'static str, u64)> = match a {
        KeyAction::Water => vec![
            ("       ·     ·        ", 90),
            ("     ·   · ·   ·      ", 100),
            ("   ˙ · ˙ · ˙ · ˙     ", 110),
            ("the soil darkens gently", 140),
        ],
        KeyAction::LightLeft => vec![
            ("☀  ·", 125),
            ("☀  · ·", 125),
            ("soft light settles from the left", 125),
        ],
        KeyAction::LightRight => vec![
            ("·  ☀", 125),
            ("· ·  ☀", 125),
            ("soft light settles from the right", 125),
        ],
        KeyAction::LightCenter => vec![
            ("   ☀", 125),
            ("   ↓", 125),
            ("soft light settles above", 125),
        ],
        KeyAction::PruneLeft => vec![("      ✂", 120), ("     ✂ ·", 120), ("left branch", 120)],
        KeyAction::PruneRight => vec![("      ✂", 120), ("     ✂ ·", 120), ("right branch", 120)],
        KeyAction::PruneTop => vec![("      ✂", 120), ("     ✂ ·", 120), ("crown", 120)],
        _ => Vec::new(),
    };
    assert(frame_views(v@) =~= frames_text(a));
    v
}

/// Only care keys send requests, and only once the cooldown has passed, so
/// key repeat cannot queue actions; leaving the viewer sends nothing, so it
/// never stops the plant; the quit and help keys always work.
pub proof fn law_only_cooled_care_keys_send(key: u8, since_ms: u128)
    ensures
        request_text(key_action_of(key, since_ms)) is Some ==> since_ms >= ACTION_COOLDOWN_MS && (
        key == 0x77 || key == 0x72 || key == 0x61 || key == 0x73 || key == 0x64 || key == 0x6a || key
            == 0x6b || key == 0x6c),
        key == 0x71 ==> key_action_of(key, since_ms) == KeyAction::Quit,
        (key == 0x68 || key == 0x3f) ==> key_action_of(key, since_ms) == KeyAction::Help,
        request_text(KeyAction::Quit) is None,
{
}

/// The requests a viewer session sends for the keys it reads, each with the
/// milliseconds since the last care action: the requests of the care keys,
/// in order, up to the first quit key. (Watering is further held back when
/// the soil already shows full; that level is not decided here.)
pub open spec fn session_requests(keys: Seq<(u8, u128)>) -> Seq<Seq<char>>
    decreases keys.len(),
{
    if keys.len() == 0 {
        Seq::empty()
    } else {
        let a = key_action_of(keys[0].0, keys[0].1);
        if a == KeyAction::Quit {
            Seq::empty()
        } else {
            let rest = session_requests(keys.drop_first());
            match request_text(a) {
                Some(r) => seq![r] + rest,
                None => rest,
            }
        }
    }
}

/// Whether `r` is one of the seven care requests.
pub open spec fn is_care_request(r: Seq<char>) -> bool {
    ||| r == "water"@
    ||| r == "light left"@
    ||| r == "light center"@
    ||| r == "light right"@
    ||| r == "prune left"@
    ||| r == "prune top"@
    ||| r == "prune right"@
}

/// A care request names water, light or pruning.
proof fn lemma_care_request_starts(r: Seq<char>)
    requires
        is_care_request(r),
    ensures
        r.len() > 0,
        r[0] == 'w' || r[0] == 'l' || r[0] == 'p',
{
    reveal_strlit("water");
    reveal_strlit("light left");
    reveal_strlit("light center");
    reveal_strlit("light right");
    reveal_strlit("prune left");
    reveal_strlit("prune top");
    reveal_strlit("prune right");
}

/// Over a whole viewer session, whatever keys are read, only care requests
/// are sent: never one that stops or resets the plant, so leaving the
/// viewer leaves the plant growing; and no key after a quit key sends
/// anything.
pub proof fn law_session_sends_only_care(keys: Seq<(u8, u128)>)
    ensures
        forall|i: int|
            0 <= i < session_requests(keys).len() ==> is_care_request(#[trigger] session_requests(keys)[i])
                && session_requests(keys)[i] != "stop"@ && session_requests(keys)[i] != "reset"@,
        forall|i: int|
            0 <= i < keys.len() && (#[trigger] keys[i]).0 == 0x71 ==> session_requests(keys) == session_requests(
                keys.take(i),
            ),
    decreases keys.len(),
{
    reveal_strlit("water");
    reveal_strlit("light left");
    reveal_strlit("light center");
    reveal_strlit("light right");
    reveal_strlit("prune left");
    reveal_strlit("prune top");
    reveal_strlit("prune right");
    reveal_strlit("stop");
    reveal_strlit("reset");
    if keys.len() > 0 {
        let d = keys.drop_first();
        law_session_sends_only_care(d);
        let a = key_action_of(keys[0].0, keys[0].1);
        let s = session_requests(keys);
        if a != KeyAction::Quit {
            assert forall|i: int| 0 <= i < s.len() implies is_care_request(#[trigger] s[i]) && s[i] != "stop"@
                && s[i] != "reset"@ by {
                match request_text(a) {
                    Some(r) => {
                        if i > 0 {
                            assert(s[i] == session_requests(d)[i - 1]);
                        } else {
                            assert(s[0] == r);
                            lemma_care_request_starts(r);
                            assert(r[0] != "stop"@[0]);
                            assert(r[0] != "reset"@[0]);
                        }
                    },
                    None => {},
                }
            }
        }
        assert forall|i: int| 0 <= i < keys.len() && (#[trigger] keys[i]).0 == 0x71 implies session_requests(keys)
            == session_requests(keys.take(i)) by {
            if i == 0 {
                assert(keys.take(0).len() == 0);
            } else {
                let t = keys.take(i);
                assert(t[0] == keys[0]);
                assert(t.drop_first() == d.take(i - 1));
                assert(d[i - 1] == keys[i]);
            }
        }
    }
}

/// The plant reads each care request as the care it names: water, light
/// from the left, above or the right, or pruning of the left side, the
/// crown or the right side.
pub proof fn law_requests_name_their_care(a: KeyAction, c: Command)
    requires
        request_text(a) is Some,
        parsed_as(c, request_text(a)->0),
    ensures
        a == KeyAction::Water ==> c is Water,
        a == KeyAction::LightLeft ==> (c matches Command::Light { dir, .. } && dir == -1),
        a == KeyAction::LightCenter ==> (c matches Command::Light { dir, .. } && dir == 0),
        a == KeyAction::LightRight ==> (c matches Command::Light { dir, .. } && dir == 1),
        a == KeyAction::PruneLeft ==> (c matches Command::Prune { side, .. } && side == Side::Left),
        a == KeyAction::PruneTop ==> (c matches Command::Prune { side, .. } && side == Side::Top),
        a == KeyAction::PruneRight ==> (c matches Command::Prune { side, .. } && side == Side::Right),
{
    reveal_strlit("water");
    reveal_strlit("light left");
    reveal_strlit("light center");
    reveal_strlit("light right");
    reveal_strlit("prune left");
    reveal_strlit("prune top");
    reveal_strlit("prune right");
    reveal_strlit("light");
    reveal_strlit("prune");
    reveal_strlit("left");
    reveal_strlit("right");
    reveal_strlit("center");
    reveal_strlit("top");
    reveal_strlit("ping");
    reveal_strlit("snapshot");
    let r = request_text(a)->0;
    if a == KeyAction::Water {
        lemma_one_word("water"@);
        assert(word_or(words(r), 0, Seq::empty()) == "water"@);
        assert("water"@[0] != "ping"@[0]);
        assert("water"@[0] != "snapshot"@[0]);
    } else if a == KeyAction::LightLeft || a == KeyAction::LightCenter || a == KeyAction::LightRight {
        let b = if a == KeyAction::LightLeft {
            "left"@
        } else if a == KeyAction::LightCenter {
            "center"@
        } else {
            "right"@
        };
        assert(r == "light"@ + seq![' '] + b);
        lemma_two_words("light"@, b);
        assert("light"@[0] != "ping"@[0]);
        assert("light"@[0] != "snapshot"@[0]);
        assert("light"@[0] != "water"@[0]);
        assert("center"@[0] != "left"@[0]);
        assert("center"@[0] != "right"@[0]);
        assert("left"@[0] != "right"@[0]);
    } else {
        let b = if a == KeyAction::PruneLeft {
            "left"@
        } else if a == KeyAction::PruneTop {
            "top"@
        } else {
            "right"@
        };
        assert(r == "prune"@ + seq![' '] + b);
        lemma_two_words("prune"@, b);
        assert("prune"@[0] != "ping"@[1]);
        assert("prune"@[1] != "ping"@[1]);
        assert("prune"@[0] != "snapshot"@[0]);
        assert("prune"@[0] != "water"@[0]);
        assert("prune"@[0] != "light"@[0]);
        assert("top"@[0] != "left"@[0]);
        assert("top"@[0] != "right"@[0]);
        assert("left"@[0] != "right"@[0]);
    }
}

/// Each care key, once the cooldown has passed, asks the plant for its own
/// care: `w` and `r` water, `a`, `s` and `d` bring the light from the left,
/// above and the right, `j`, `k` and `l` prune the left side, the crown and
/// the right side.
pub proof fn law_care_keys_do_what_they_say(key: u8, since_ms: u128, c: Command)
    requires
        since_ms >= ACTION_COOLDOWN_MS,
        request_text(key_action_of(key, since_ms)) is Some,
        parsed_as(c, request_text(key_action_of(key, since_ms))->0),
    ensures
        key == 0x77 || key == 0x72 ==> c is Water,
        key == 0x61 ==> (c matches Command::Light { dir, .. } && dir == -1),
        key == 0x73 ==> (c matches Command::Light { dir, .. } && dir == 0),
        key == 0x64 ==> (c matches Command::Light { dir, .. } && dir == 1),
        key == 0x6a ==> (c matches Command::Prune { side, .. } && side == Side::Left),
        key == 0x6b ==> (c matches Command::Prune { side, .. } && side == Side::Top),
        key == 0x6c ==> (c matches Command::Prune { side, .. } && side == Side::Right),
{
    law_requests_name_their_care(key_action_of(key, since_ms), c);
}

/// Each command word runs its own command: `start` starts the plant and
/// `stop` stops it, `status`, `show`, `watch`, `water`, `light` and `prune`
/// do what they name, `init` and `reset` plant anew, and the help and
/// version words show help and the version.
pub proof fn law_command_words_select_their_command(args: Seq<String>, c: Cli)
    requires
        args.len() >= 2,
        cli_as(c, args),
    ensures
        args[1]@ == "start"@ ==> c is Start,
        args[1]@ == "stop"@ ==> c is Stop,
        args[1]@ == "status"@ ==> c is Status,
        args[1]@ == "show"@ ==> c is Show,
        args[1]@ == "watch"@ ==> c is Watch,
        args[1]@ == "water"@ ==> c is Water,
        args[1]@ == "light"@ ==> c is Light,
        args[1]@ == "prune"@ ==> c is Prune,
        args[1]@ == "init"@ || args[1]@ == "reset"@ ==> c is Init,
        args[1]@ == "daemon-run"@ ==> c is DaemonRun,
        args[1]@ == "help"@ || args[1]@ == "--help"@ || args[1]@ == "-h"@ ==> c is Help,
        args[1]@ == "version"@ || args[1]@ == "--version"@ || args[1]@ == "-V"@ ==> c is Version,
{
    reveal_strlit("daemon-run");
    reveal_strlit("init");
    reveal_strlit("reset");
    reveal_strlit("start");
    reveal_strlit("stop");
    reveal_strlit("status");
    reveal_strlit("show");
    reveal_strlit("watch");
    reveal_strlit("water");
    reveal_strlit("light");
    reveal_strlit("prune");
    reveal_strlit("help");
    reveal_strlit("--help");
    reveal_strlit("-h");
    reveal_strlit("version");
    reveal_strlit("--version");
    reveal_strlit("-V");
    let w = args[1]@;
    assert(arg_or(args, 1, "help"@) == w);
    if w == "stop"@ || w == "status"@ || w == "show"@ || w == "start"@ {
        assert(w[0] == 's');
        assert(w[1] != "daemon-run"@[1]);
    }
    if w == "stop"@ {
        assert(w[1] != "start"@[2]);
    }
    if w == "status"@ {
        assert(w[4] != "start"@[4]);
    }
    if w == "show"@ {
        assert(w[1] != "stop"@[1]);
        assert(w[1] != "start"@[1]);
    }
    if w == "watch"@ {
        assert(w[3] != "water"@[3]);
    }
    if w == "help"@ || w == "--help"@ || w == "-h"@ || w == "version"@ || w == "--version"@ || w == "-V"@ {
        assert(w[0] != 's' && w[0] != 'w' && w[0] != 'l' && w[0] != 'p' && w[0] != 'i' && w[0] != 'r' && w[0] != 'd');
    }
    if w == "--version"@ {
        assert(w[2] != "--help"@[2]);
    }
    if w == "water"@ {
        assert(w[3] != "watch"@[3]);
        assert(w[0] != "reset"@[0] && w[0] != "start"@[0]);
    }
    if w == "light"@ {
        assert(w[0] != "reset"@[0] && w[0] != "start"@[0] && w[0] != "watch"@[0] && w[0] != "water"@[0]);
    }
    if w == "prune"@ {
        assert(w[0] != "reset"@[0] && w[0] != "start"@[0] && w[0] != "watch"@[0] && w[0] != "water"@[0]
            && w[0] != "light"@[0]);
    }
    if w == "-V"@ {
        assert(w[1] != "-h"@[1]);
    }
    if w == "version"@ {
        assert(w[0] != "help"@[0]);
    }
}

} // verus!
