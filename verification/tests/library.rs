use bonzai::ansi::{ansi_visible_width, centered_line, fit_line_chars, frame_escape};
use bonzai::canvas::Canvas;
use bonzai::command::{apply_care, parse_command, plain_reply, split_words, Care, Command, Side};
use bonzai::frontend::{
    action_frames, action_notice, action_request, key_action, parse_cli, should_save,
    terminal_size_from, Cli, KeyAction,
};
use bonzai::paths::{data_dir, join_path, pid_path, runtime_dir, socket_path, state_path};
use bonzai::record::{parse_state, serialize_state, Level, StateRecord};
use bonzai::rng::Rng;
use bonzai::scene::tree_lines;
use bonzai::screen::{bar, fit_frame, human_age, render_scene_for_size, view_content, watch_help};
use bonzai::text::{chars_of, parse_signed, parse_unsigned, string_of};
use bonzai::tree::{grow_tree, Growth};

fn growth(seed: u64) -> Growth {
    Growth {
        seed,
        max_steps: 15,
        light_step: 1,
        leaf_shift: 1,
        crown_shift: 1,
        crown_chance: 74,
        branch_chance_0: 7,
        branch_chance_1: 9,
        branch_chance_2: 11,
        vigor3: 2,
        vigor2: 1,
        leaf_chance: 76,
        prune_left: 0,
        prune_right: 0,
        prune_top: 0,
    }
}

fn record() -> StateRecord {
    StateRecord {
        seed: 0x000B_05A1,
        born_at: 100,
        last_tick: 1_100,
        water: "72.0000".to_string(),
        light: "68.0000".to_string(),
        health: "94.0000".to_string(),
        growth: "38.0000".to_string(),
        light_dir: -1,
        prune_left: 2,
        prune_right: 0,
        prune_top: 7,
        light_left_hours: "2.0000".to_string(),
        light_center_hours: "5.0000".to_string(),
        light_right_hours: "8.0000".to_string(),
        drought_stress: "0.0000".to_string(),
        wet_stress: "0.2500".to_string(),
    }
}

#[test]
fn generator_replaces_a_zero_seed_and_steps_by_xorshift() {
    let mut zero = Rng::new(0);
    let mut one = Rng::new(1);
    assert_eq!(zero.state, 1);
    assert_eq!(zero.next(), 1_082_269_761);
    assert_eq!(one.next(), 1_082_269_761);
    assert_eq!(one.next(), 1_152_992_998_833_853_505);
}

#[test]
fn generator_ranges_stay_inside_and_empty_ranges_do_not_draw() {
    let mut r = Rng::new(42);
    for _ in 0..1000 {
        let v = r.range(-1, 2);
        assert!((-1..2).contains(&v));
    }
    let before = r.state;
    assert_eq!(r.range(5, 5), 5);
    assert_eq!(r.range(7, 3), 7);
    assert_eq!(r.state, before);
    let mut a = Rng::new(9);
    let mut b = Rng::new(9);
    let w = b.next();
    assert_eq!(a.chance(3, 10), w % 10 < 3);
}

#[test]
fn canvas_reads_back_writes_and_ignores_writes_off_the_grid() {
    let mut c = Canvas::new(4, 3);
    assert_eq!(c.cells.len(), 12);
    assert_eq!(c.get(2, 1).ch, ' ');
    assert_eq!(c.get(2, 1).kind, 0);
    c.set(2, 1, '●', 2);
    assert_eq!(c.get(2, 1).ch, '●');
    assert_eq!(c.get(2, 1).kind, 2);
    assert_eq!(c.get(1, 1).kind, 0);
    let before = c.cells.clone();
    c.set(-1, 0, 'x', 1);
    c.set(4, 0, 'x', 1);
    c.set(0, 3, 'x', 1);
    assert_eq!(c.cells, before);
}

#[test]
fn visible_width_skips_escape_sequences_and_counts_characters() {
    assert_eq!(ansi_visible_width(""), 0);
    assert_eq!(ansi_visible_width("abc"), 3);
    assert_eq!(ansi_visible_width("\x1b[38;5;151m━━\x1b[0m─"), 3);
    assert_eq!(ansi_visible_width("\x1bx"), 1);
    assert_eq!(ansi_visible_width("ab\x1b[12"), 2);
    assert_eq!(centered_line("abcdefghijkl", 10), "abcdefghijkl");
    assert_eq!(centered_line("ab", 7), "  ab");
}

#[test]
fn frame_painter_repaints_in_place() {
    assert_eq!(frame_escape("a\nb"), "\x1b[Ha\x1b[K\x1b[Eb\x1b[J");
    assert_eq!(frame_escape(""), "\x1b[H\x1b[J");
}

#[test]
fn ages_use_the_largest_whole_unit() {
    assert_eq!(human_age(0), "0m");
    assert_eq!(human_age(3599), "59m");
    assert_eq!(human_age(3600), "1h");
    assert_eq!(human_age(86_399), "23h");
    assert_eq!(human_age(3 * 86_400 + 5), "3d");
}

#[test]
fn meters_light_the_requested_segments() {
    assert_eq!(bar(0, 5), "─────");
    assert_eq!(bar(5, 5), "━━━━━");
    assert_eq!(bar(2, 5), "━━───");
}

#[test]
fn numerals_parse_like_the_standard_library() {
    let p = |s: &str, max: u64| parse_unsigned(&chars_of(s), max);
    assert_eq!(p("42", u64::MAX), Some(42));
    assert_eq!(p("+7", u64::MAX), Some(7));
    assert_eq!(p("007", u64::MAX), Some(7));
    assert_eq!(p("18446744073709551615", u64::MAX), Some(u64::MAX));
    assert_eq!(p("18446744073709551616", u64::MAX), None);
    assert_eq!(p("4294967296", u32::MAX as u64), None);
    assert_eq!(p("", u64::MAX), None);
    assert_eq!(p("+", u64::MAX), None);
    assert_eq!(p("-1", u64::MAX), None);
    assert_eq!(p("1 ", u64::MAX), None);
    let q = |s: &str| parse_signed(&chars_of(s), 128, 127);
    assert_eq!(q("-128"), Some(-128));
    assert_eq!(q("127"), Some(127));
    assert_eq!(q("128"), None);
    assert_eq!(q("-129"), None);
    assert_eq!(q("-"), None);
    assert_eq!(q("+-1"), None);
    for s in ["0", "5", "-3", "+9", "x", "", "300"] {
        assert_eq!(q(s).map(|v| v as i8), s.parse::<i8>().ok(), "{s}");
    }
}

#[test]
fn state_round_trip_keeps_every_field() {
    let r = record();
    let text = serialize_state(&r);
    assert!(text.starts_with("seed=722337\nborn_at=100\nlast_tick=1100\nwater=72.0000\n"));
    assert!(text.contains("light_dir=-1\nprune_left=2\nprune_right=0\nprune_top=7\n"));
    assert!(text.ends_with("wet_stress=0.2500\n"));
    let t = parse_state(&text).expect("written state should read back");
    assert_eq!(t.seed, Some(0x000B_05A1));
    assert_eq!(t.born_at, Some(100));
    assert_eq!(t.last_tick, Some(1_100));
    assert_eq!(t.light_dir, Some(-1));
    assert_eq!(t.prune_left, Some(2));
    assert_eq!(t.prune_right, Some(0));
    assert_eq!(t.prune_top, Some(7));
    let levels: Vec<(Level, &str)> = t.levels.iter().map(|(l, v)| (*l, v.as_str())).collect();
    assert_eq!(
        levels,
        vec![
            (Level::Water, "72.0000"),
            (Level::Light, "68.0000"),
            (Level::Health, "94.0000"),
            (Level::Growth, "38.0000"),
            (Level::LightLeftHours, "2.0000"),
            (Level::LightCenterHours, "5.0000"),
            (Level::LightRightHours, "8.0000"),
            (Level::DroughtStress, "0.0000"),
            (Level::WetStress, "0.2500"),
        ]
    );
}

#[test]
fn old_state_files_leave_missing_fields_unset() {
    let t = parse_state("seed=42\nborn_at=100\nlast_tick=100\nwater=50\n").expect("legacy state");
    assert_eq!(t.seed, Some(42));
    assert_eq!(t.born_at, Some(100));
    assert_eq!(t.last_tick, Some(100));
    assert_eq!(t.prune_left, None);
    assert_eq!(t.prune_right, None);
    assert_eq!(t.prune_top, None);
    assert_eq!(t.light_dir, None);
    assert_eq!(t.levels.len(), 1);
    assert_eq!(t.levels[0].0, Level::Water);
    assert_eq!(t.levels[0].1, "50");
}

#[test]
fn state_lines_without_equals_or_unknown_keys_are_skipped() {
    let t = parse_state("# note\r\nseed=9\r\nmood=fine\nseed=10").expect("readable");
    assert_eq!(t.seed, Some(10));
    assert_eq!(t.prune_top, None);
    assert!(parse_state("prune_top=3=4\n").is_none());
    assert!(parse_state("seed=abc\n").is_none());
    assert!(parse_state("light_dir=200\n").is_none());
    assert!(parse_state("prune_left=-1\n").is_none());
    assert!(parse_state("seed=1\nseed=x\nseed=2\n").is_none());
    let t = parse_state("light=7=8\n").expect("level text is kept whole");
    assert_eq!(t.levels[0].1, "7=8");
    let t = parse_state("").expect("an empty file sets nothing");
    assert_eq!(t.seed, None);
    assert!(t.levels.is_empty());
}

#[test]
fn requests_parse_by_their_first_two_words() {
    assert!(matches!(parse_command("ping"), Command::Ping));
    assert!(matches!(parse_command("  snapshot  "), Command::Snapshot));
    assert!(matches!(parse_command("water now"), Command::Water));
    assert!(matches!(parse_command(""), Command::Unknown));
    assert!(matches!(parse_command("dance"), Command::Unknown));
    assert!(matches!(parse_command("reset"), Command::Reset));
    assert!(matches!(parse_command("stop"), Command::Stop));
    match parse_command("light") {
        Command::Light { dir, word } => {
            assert_eq!(dir, 0);
            assert_eq!(word, "center");
        }
        _ => panic!("light expected"),
    }
    match parse_command("light\tleft") {
        Command::Light { dir, word } => {
            assert_eq!(dir, -1);
            assert_eq!(word, "left");
        }
        _ => panic!("light expected"),
    }
    match parse_command("light up") {
        Command::Light { dir, word } => {
            assert_eq!(dir, 0);
            assert_eq!(word, "up");
        }
        _ => panic!("light expected"),
    }
    match parse_command("prune") {
        Command::Prune { side, word } => {
            assert_eq!(side, Side::Top);
            assert_eq!(word, "top");
        }
        _ => panic!("prune expected"),
    }
    match parse_command("prune right") {
        Command::Prune { side, .. } => assert_eq!(side, Side::Right),
        _ => panic!("prune expected"),
    }
    let words: Vec<String> = split_words(" a  bc\u{3000}d ").iter().map(|w| string_of(w)).collect();
    assert_eq!(words, vec!["a", "bc", "d"]);
}

#[test]
fn pruning_counts_saturate_and_other_requests_keep_care() {
    let mut care = Care { light_dir: 1, prune_left: u32::MAX, prune_right: 4, prune_top: 0 };
    apply_care(&mut care, &parse_command("prune left"));
    assert_eq!(care.prune_left, u32::MAX);
    apply_care(&mut care, &parse_command("prune"));
    assert_eq!(care.prune_top, 1);
    let before = care;
    apply_care(&mut care, &parse_command("water"));
    apply_care(&mut care, &parse_command("ping"));
    assert_eq!(care, before);
}

#[test]
fn fixed_replies_match_the_protocol() {
    let care = Care { light_dir: 0, prune_left: 4, prune_right: 2, prune_top: 7 };
    let reply = |cmd: &str| plain_reply(&parse_command(cmd), &care);
    assert_eq!(reply("ping").as_deref(), Some("pong\n"));
    assert_eq!(reply("prune left").as_deref(), Some("Pruned left: 4\n"));
    assert_eq!(reply("prune right").as_deref(), Some("Pruned right: 2\n"));
    assert_eq!(reply("prune").as_deref(), Some("Pruned top: 7\n"));
    assert_eq!(reply("prune crown").as_deref(), Some("Pruned crown: 7\n"));
    assert_eq!(reply("reset").as_deref(), Some("new bonsai planted\n"));
    assert_eq!(reply("stop").as_deref(), Some("stopping\n"));
    assert_eq!(reply("what").as_deref(), Some("unknown command\n"));
    assert_eq!(reply("water"), None);
    assert_eq!(reply("light left"), None);
}

#[test]
fn prune_reply_reports_the_count_after_the_cut() {
    let mut care = Care { light_dir: 0, prune_left: 3, prune_right: 0, prune_top: 0 };
    let cmd = parse_command("prune left");
    apply_care(&mut care, &cmd);
    assert_eq!(plain_reply(&cmd, &care).as_deref(), Some("Pruned left: 4\n"));
}

#[test]
fn paths_follow_the_xdg_variables() {
    assert_eq!(data_dir(Some("/x/data"), Some("/home/u")), "/x/data/bonzai");
    assert_eq!(data_dir(None, Some("/home/u")), "/home/u/.local/share/bonzai");
    assert_eq!(data_dir(None, None), "./.local/share/bonzai");
    assert_eq!(runtime_dir(Some("/run/user/1"), "/d"), "/run/user/1/bonzai");
    assert_eq!(runtime_dir(None, "/d/bonzai"), "/d/bonzai/run");
    assert_eq!(state_path("/d/bonzai"), "/d/bonzai/state.txt");
    assert_eq!(socket_path("/r/"), "/r/bonzai.sock");
    assert_eq!(pid_path(""), "bonzai.pid");
    assert_eq!(join_path("a", "b"), "a/b");
}

#[test]
fn command_line_selects_the_command() {
    let args = |v: &[&str]| v.iter().map(|s| s.to_string()).collect::<Vec<String>>();
    assert!(matches!(parse_cli(&args(&["bonzai"])), Cli::Help));
    assert!(matches!(parse_cli(&args(&["bonzai", "-h"])), Cli::Help));
    assert!(matches!(parse_cli(&args(&["bonzai", "--version"])), Cli::Version));
    assert!(matches!(parse_cli(&args(&["bonzai", "reset"])), Cli::Init));
    assert!(matches!(parse_cli(&args(&["bonzai", "daemon-run"])), Cli::DaemonRun));
    match parse_cli(&args(&["bonzai", "light"])) {
        Cli::Light { word } => assert_eq!(word, "center"),
        _ => panic!("light expected"),
    }
    match parse_cli(&args(&["bonzai", "prune", "left"])) {
        Cli::Prune { word } => assert_eq!(word, "left"),
        _ => panic!("prune expected"),
    }
    match parse_cli(&args(&["bonzai", "grow"])) {
        Cli::Unknown { name } => assert_eq!(name, "grow"),
        _ => panic!("unknown expected"),
    }
}

#[test]
fn viewer_keys_respect_the_cooldown() {
    assert_eq!(key_action(b'q', 0), KeyAction::Quit);
    assert_eq!(key_action(b'?', 0), KeyAction::Help);
    assert_eq!(key_action(b'x', 5000), KeyAction::Ignore);
    assert_eq!(key_action(b'w', 849), KeyAction::TooSoon);
    assert_eq!(key_action(b'r', 850), KeyAction::Water);
    assert_eq!(key_action(b'a', 900), KeyAction::LightLeft);
    assert_eq!(key_action(b's', 900), KeyAction::LightCenter);
    assert_eq!(key_action(b'd', 900), KeyAction::LightRight);
    assert_eq!(key_action(b'j', 900), KeyAction::PruneLeft);
    assert_eq!(key_action(b'k', 900), KeyAction::PruneTop);
    assert_eq!(key_action(b'l', 900), KeyAction::PruneRight);
    assert_eq!(action_request(KeyAction::PruneTop), Some("prune top"));
    assert_eq!(action_request(KeyAction::Quit), None);
    assert_eq!(action_notice(KeyAction::LightCenter), Some("light centered"));
    assert_eq!(action_frames(KeyAction::PruneRight).len(), 3);
    assert_eq!(action_frames(KeyAction::PruneRight)[2], ("right branch", 120));
    assert_eq!(action_frames(KeyAction::Water).len(), 4);
    assert!(action_frames(KeyAction::Help).is_empty());
}

#[test]
fn periodic_saves_come_every_thirty_seconds() {
    assert!(!should_save(129, 100));
    assert!(should_save(130, 100));
    assert!(!should_save(90, 100));
}

#[test]
fn tree_view_starts_at_the_first_visible_row() {
    let lines = tree_lines(&growth(0x000B_05A1));
    assert!(!lines.is_empty());
    assert!(!lines[0].trim().is_empty());
    assert!(lines.len() <= 26);
    for line in &lines {
        assert_eq!(line.trim_end(), line.as_str());
    }
    let last = lines.last().unwrap();
    assert!(last.contains('╰'));
    assert_eq!(tree_lines(&growth(0x000B_05A1)), lines);
}

#[test]
fn planter_is_drawn_over_the_tree() {
    let c = grow_tree(&growth(3), 54, 26);
    let row: Vec<char> = "    ╱  ░░░░░░  ╲    ".chars().collect();
    for (j, ch) in row.iter().enumerate() {
        if *ch != ' ' {
            let cell = c.get(27 - 10 + j as i32, 26 - 5 + 2);
            assert_eq!(cell.ch, *ch);
            assert_eq!(cell.kind, if *ch == '░' { 7 } else { 8 });
        }
    }
}

#[test]
fn crown_pruning_shortens_the_trunk() {
    let tall = grow_tree(&growth(5), 54, 40);
    let mut g = growth(5);
    g.prune_top = 7;
    let short = grow_tree(&g, 54, 40);
    let top = |c: &Canvas| (0..c.h).find(|&y| (0..c.w).any(|x| matches!(c.get(x, y).kind, 1 | 5)));
    assert!(top(&short).unwrap() >= top(&tall).unwrap());
}

#[test]
fn screens_center_their_lines() {
    let help = watch_help(80, 40);
    assert!(help.starts_with("\n"));
    assert!(!help.contains("\x1b[2J"));
    assert!(help.contains("bonzai controls"));
    assert!(help.contains("press any key to return"));
    let narrow = watch_help(50, 40);
    assert!(narrow.contains(
        "\x1b[2mActions have a short cooldown so key repeat cannot queue an endless loop.\x1b[0m\n"
    ));
    assert!(narrow.starts_with(&"\n".repeat(14)));
    let content = view_content("settled", &vec!["tree".to_string()], &vec![], Some("hi"));
    assert_eq!(content.len(), 8);
    assert_eq!(content[1], "\x1b[38;5;245msettled\x1b[0m");
    assert_eq!(content[3], "tree");
    assert_eq!(content[7], "\x1b[38;5;245mhi\x1b[0m");
    assert_eq!(fit_frame(&vec!["ab".to_string()], 6, 3), "\n  ab\n");
}

#[test]
fn frames_cut_what_does_not_fit() {
    let ls = vec!["abcdef".to_string(), "x\ny".to_string(), "three".to_string()];
    assert_eq!(fit_frame(&ls, 4, 2), "abcd\n x\n");
    assert_eq!(fit_frame(&ls, 4, 0), "");
    let styled: Vec<char> = "\x1b[1mabc\x1b[0m".chars().collect();
    let cut: String = fit_line_chars(&styled, 2).into_iter().collect();
    assert_eq!(cut, "\x1b[1mab\x1b[0m");
    let stray: Vec<char> = "a\x1bbc\rd".chars().collect();
    let cut: String = fit_line_chars(&stray, 9).into_iter().collect();
    assert_eq!(cut, "abc");
}

#[test]
fn small_terminals_show_the_bottom_of_the_tree() {
    let tree: Vec<String> = (0..30).map(|i| format!("t{i}")).collect();
    let stats = vec!["s".to_string()];
    let frame = render_scene_for_size("ok", &tree, &stats, None, 20, 40);
    let rendered: Vec<&str> = frame.lines().collect();
    assert_eq!(rendered.len(), 20);
    assert!(frame.contains("t29"));
    assert!(frame.contains("t18"));
    assert!(!frame.contains("t17"));
    let small = render_scene_for_size("ok", &tree, &stats, None, 19, 80);
    assert!(small.contains("terminal too small"));
    assert_eq!(small.lines().count(), 10);
}

#[test]
fn terminal_size_reads_rows_then_columns() {
    assert_eq!(terminal_size_from(Some("24 80\n")), (80, 24));
    assert_eq!(terminal_size_from(Some("  50   132 ")), (132, 50));
    assert_eq!(terminal_size_from(Some("14 30")), (30, 14));
    assert_eq!(terminal_size_from(Some("24")), (80, 40));
    assert_eq!(terminal_size_from(Some("x 80")), (80, 40));
    assert_eq!(terminal_size_from(None), (80, 40));
}

#[test]
fn a_viewer_session_sends_only_care_requests() {
    let keys: &[(u8, u128)] = &[
        (b'w', 900),
        (b'x', 900),
        (b'j', 100),
        (b'd', 2000),
        (b'h', 0),
        (b'q', 0),
        (b'k', 5000),
    ];
    let mut sent = Vec::new();
    for &(key, since) in keys {
        let action = key_action(key, since);
        if action == KeyAction::Quit {
            break;
        }
        if let Some(r) = action_request(action) {
            sent.push(r);
        }
    }
    assert_eq!(sent, vec!["water", "light right"]);
}

#[test]
fn tree_lines_fit_the_grid_width() {
    for seed in [1u64, 0x000B_05A1, 77] {
        for line in tree_lines(&growth(seed)) {
            assert!(ansi_visible_width(&line) <= 54);
        }
    }
}

#[test]
fn stem_and_planter_buffer_hold_on_other_grids() {
    for (w, h) in [(54, 26), (41, 19), (80, 40)] {
        let c = grow_tree(&growth(9), w, h);
        for y in (h - 9)..=(h - 6) {
            let cell = c.get(w / 2, y);
            assert_eq!((cell.ch, cell.kind), ('┃', 5));
        }
        for y in (h - 9)..h {
            for x in 0..w {
                let k = c.get(x, y).kind;
                assert!(matches!(k, 0 | 5 | 7 | 8));
                if y >= h - 5 || x != w / 2 {
                    assert!(matches!(k, 0 | 7 | 8));
                }
            }
        }
    }
}
