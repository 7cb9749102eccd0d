use bonzai::ansi::{
    ansi_visible_width, centered_line, frame_escape, HEALTH, RESET, SUN, TITLE, WATER,
};
use bonzai::canvas::{draw_str, Canvas};
use bonzai::command::{apply_care, parse_command, Care};
use bonzai::scene::tree_lines;
use bonzai::screen::{bar, render_scene_for_size};
use bonzai::tree::{grow_tree, Growth};

/// The growth parameters of a well-kept plant leaning toward the right.
fn stable_growth() -> Growth {
    Growth {
        seed: 0x000B_05A1,
        max_steps: 15,
        light_step: 1,
        leaf_shift: 1,
        crown_shift: 1,
        crown_chance: 74,
        branch_chance_0: 7,
        branch_chance_1: 9,
        branch_chance_2: 11,
        vigor3: 2,
        vigor2: 1,
        leaf_chance: 76,
        prune_left: 0,
        prune_right: 0,
        prune_top: 0,
    }
}

/// The stat lines the view shows for that plant: age 16 minutes, growth
/// 38%, water 72%, light 68% from above, health 94%.
fn stable_stats() -> Vec<String> {
    vec![
        format!("{TITLE}age{RESET} 16m    {TITLE}growth{RESET}  38.0%    {TITLE}light memory{RESET}  15.0h"),
        format!(
            "{WATER}water{RESET}  {}  72.0%    {SUN}light{RESET} {}  68.0% ↑",
            bar(9, 12),
            bar(8, 12)
        ),
        format!("{HEALTH}health{RESET} {}  94.0%", bar(11, 12)),
    ]
}

#[test]
fn ansi_sequences_do_not_count_toward_visible_width() {
    let title = format!("{TITLE}bonzai{RESET}");
    assert_eq!(ansi_visible_width(&title), 6);

    let centered = centered_line(&title, 10);
    assert!(centered.starts_with("  "));
    assert_eq!(ansi_visible_width(&centered), 8);
}

#[test]
fn branch_glyphs_are_centered_on_the_walker_position() {
    let mut canvas = Canvas::new(9, 3);
    draw_str(&mut canvas, 4, 1, "/|\\", 1);

    assert_eq!(canvas.get(3, 1).ch, '/');
    assert_eq!(canvas.get(4, 1).ch, '|');
    assert_eq!(canvas.get(5, 1).ch, '\\');
    assert_eq!(canvas.get(6, 1).ch, ' ');
}

#[test]
fn frame_painter_never_emits_literal_newlines_or_full_clears() {
    let painted = frame_escape("alpha\nbeta\n");
    assert!(!painted.contains('\n'));
    assert!(!painted.contains("\x1b[2J"));
    assert!(painted.contains("\x1b[E"));
    assert!(painted.ends_with("\x1b[J"));
}

#[test]
fn light_and_pruning_commands_change_only_expected_directional_state() {
    let mut care = Care { light_dir: 0, prune_left: 0, prune_right: 0, prune_top: 0 };

    apply_care(&mut care, &parse_command("light right"));
    assert_eq!(care.light_dir, 1);

    apply_care(&mut care, &parse_command("prune left"));
    assert_eq!(care.prune_left, 1);
    assert_eq!(care.prune_right, 0);
    assert_eq!(care.prune_top, 0);
}

#[test]
fn renderer_is_deterministic_for_the_same_state() {
    let g = stable_growth();
    let a = grow_tree(&g, 58, 25);
    let b = grow_tree(&g, 58, 25);

    assert_eq!(a.w, b.w);
    assert_eq!(a.h, b.h);
    for y in 0..a.h {
        for x in 0..a.w {
            let left = a.get(x, y);
            let right = b.get(x, y);
            assert_eq!(left.ch, right.ch, "glyph changed at ({x}, {y})");
            assert_eq!(left.kind, right.kind, "style changed at ({x}, {y})");
        }
    }
}

#[test]
fn responsive_renderer_stays_inside_requested_viewport() {
    let tree = tree_lines(&stable_growth());
    for (rows, cols) in [(24usize, 52usize), (40, 100)] {
        let frame = render_scene_for_size("settled", &tree, &stable_stats(), None, rows, cols);
        let rendered: Vec<&str> = frame.lines().collect();
        assert!(rendered.len() <= rows, "frame exceeded {rows} rows");
        for line in rendered {
            assert!(
                ansi_visible_width(line) <= cols,
                "line width {} exceeded {cols} columns",
                ansi_visible_width(line)
            );
        }
    }
}

#[test]
fn tiny_terminal_falls_back_without_wrapping() {
    let tree = tree_lines(&stable_growth());
    let frame = render_scene_for_size("settled", &tree, &stable_stats(), None, 14, 30);
    let rendered: Vec<&str> = frame.lines().collect();
    assert!(rendered.len() <= 14);
    assert!(rendered.iter().all(|line| ansi_visible_width(line) <= 30));
    assert!(frame.contains("terminal too small"));
}

#[test]
fn trunk_has_a_visible_stem_above_the_planter() {
    let canvas = grow_tree(&stable_growth(), 68, 28);
    let base_x = canvas.w / 2;
    let base_y = canvas.h - 5;

    for y in (base_y - 4)..base_y {
        let cell = canvas.get(base_x, y);
        assert!(
            matches!(cell.kind, 1 | 5),
            "expected trunk at ({base_x}, {y}), found {:?}",
            (cell.ch, cell.kind)
        );
        assert_ne!(cell.ch, '&');
    }
}

#[test]
fn foliage_never_reaches_the_planter_buffer() {
    let canvas = grow_tree(&stable_growth(), 68, 28);
    let foliage_floor = canvas.h - 9;

    for y in foliage_floor..canvas.h {
        for x in 0..canvas.w {
            assert!(
                !matches!(canvas.get(x, y).kind, 2..=4),
                "foliage leaked into planter buffer at ({x}, {y})"
            );
        }
    }
}

#[test]
fn planter_body_is_opaque_to_tree_cells() {
    let canvas = grow_tree(&stable_growth(), 68, 28);
    let base_y = canvas.h - 5;

    for y in base_y..canvas.h - 1 {
        for x in (canvas.w / 2 - 12)..=(canvas.w / 2 + 12) {
            let cell = canvas.get(x, y);
            assert!(
                !matches!(cell.kind, 1..=5),
                "tree cell visible through planter at ({x}, {y})"
            );
        }
    }
}
