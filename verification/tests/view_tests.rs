use git_trek::app::App;
use git_trek::data::{Commit, Health, History};
use git_trek::mouse::{HitTarget, Rect};
use git_trek::palette::{Paint, Tone};
use git_trek::panels::{
    health_color, seismic_status, seismic_title, terrain_status, terrain_tile, terrain_title,
    timeline_line, timeline_marker, timeline_title,
};
use git_trek::seismic::{
    calc_activity_score, calc_start_commit, collect_files, file_label, format_cell, grid_cells,
    has_activity, register_cells, row_span, sort_by_activity, visible_window, Intensity,
};
use git_trek::text::{file_name, take_chars, truncate_chars, truncate_path, truncate_text};
use git_trek::views::{layout_tabs, Render, TabStyle, ViewMode};

fn lines(n: usize) -> Vec<u8> {
    let mut v = Vec::new();
    for _ in 0..n {
        v.extend_from_slice(b"x\n");
    }
    v
}

/// Four commits; `a.rs` grows by 300 lines, `b.rs` changes by 5, `c.rs` never
/// changes, `d.rs` appears at commit 1.
fn grid_history() -> History {
    let mut h = History::new();
    for b in 0..4u8 {
        h.push_commit(Commit::new([b; 20], format!("commit {b}")));
    }
    for i in 0..4 {
        h.record_file("c.rs".to_string(), i, &lines(10));
    }
    h.record_file("a.rs".to_string(), 0, &lines(100));
    h.record_file("a.rs".to_string(), 1, &lines(400));
    h.record_file("b.rs".to_string(), 0, &lines(20));
    h.record_file("b.rs".to_string(), 1, &lines(25));
    h.record_file("d.rs".to_string(), 1, &lines(1));
    h
}

#[test]
fn start_commit_keeps_current_in_view() {
    assert_eq!(calc_start_commit(10, 20, 5, 10), 0);
    assert_eq!(calc_start_commit(100, 10, 3, 5), 0);
    assert_eq!(calc_start_commit(100, 10, 97, 5), 90);
    assert_eq!(calc_start_commit(100, 10, 50, 5), 45);
    assert_eq!(visible_window(0, 0, 40), None);
    assert_eq!(visible_window(5, 0, 1), None);
    assert_eq!(visible_window(100, 50, 20), Some((45, 55)));
    assert_eq!(visible_window(4, 2, 40), Some((0, 4)));
}

#[test]
fn activity_and_scores() {
    let h = grid_history();
    assert!(has_activity(&h, "a.rs", 0, 4));
    // a file counts as appearing at the first commit
    assert!(has_activity(&h, "c.rs", 0, 4));
    assert!(!has_activity(&h, "c.rs", 1, 4));
    assert!(!has_activity(&h, "missing", 0, 4));
    assert!(!has_activity(&h, "a.rs", 3, 4));
    // appears at 0 (10), grows by 300, disappears at 2 (10)
    assert_eq!(calc_activity_score(&h, "a.rs", 0, 4), 320);
    assert_eq!(calc_activity_score(&h, "b.rs", 0, 4), 25);
    assert_eq!(calc_activity_score(&h, "c.rs", 0, 4), 10);
    assert_eq!(calc_activity_score(&h, "missing", 0, 4), 0);
}

#[test]
fn collect_and_sort_files() {
    let h = grid_history();
    assert_eq!(collect_files(&h, 0, 4, false), vec!["c.rs", "a.rs", "b.rs", "d.rs"]);
    assert_eq!(collect_files(&h, 2, 4, false), vec!["c.rs"]);
    assert_eq!(collect_files(&h, 2, 4, true), Vec::<String>::new());
    let all = collect_files(&h, 0, 4, false);
    assert_eq!(calc_activity_score(&h, "d.rs", 0, 4), 20);
    assert_eq!(sort_by_activity(&h, &all, 0, 4), vec!["a.rs", "b.rs", "d.rs", "c.rs"]);
    // equal scores are ordered by path
    let mut t = History::new();
    t.record_file("z.rs".to_string(), 0, &lines(3));
    t.record_file("m.rs".to_string(), 0, &lines(3));
    let tied = vec!["z.rs".to_string(), "m.rs".to_string(), "unknown".to_string()];
    assert_eq!(sort_by_activity(&t, &tied, 0, 1), vec!["m.rs", "z.rs", "unknown"]);
}

#[test]
fn intensity_thresholds() {
    let mut h = History::new();
    let steps = [100usize, 100, 105, 140, 300, 600];
    for (i, n) in steps.iter().enumerate() {
        h.record_file("f".to_string(), i, &lines(*n));
    }
    assert_eq!(Intensity::calc(&h, "f", 0), Intensity::Created);
    assert_eq!(Intensity::calc(&h, "f", 1), Intensity::Quiet);
    assert_eq!(Intensity::calc(&h, "f", 2), Intensity::Tremor);
    assert_eq!(Intensity::calc(&h, "f", 3), Intensity::Quake);
    assert_eq!(Intensity::calc(&h, "f", 4), Intensity::Major);
    assert_eq!(Intensity::calc(&h, "f", 5), Intensity::Disaster);
    assert_eq!(Intensity::calc(&h, "f", 6), Intensity::Deleted);
    assert_eq!(Intensity::calc(&h, "f", 7), Intensity::Blank);
    assert_eq!(Intensity::calc(&h, "g", 0), Intensity::Blank);
}

#[test]
fn cells_and_rows() {
    let (s, p) = format_cell(Intensity::Quake, false);
    assert_eq!(s, "▒");
    assert_eq!(p, Paint { fg: Some(Tone::Rgb(120, 140, 60)), bg: None, bold: false });
    let (s, p) = format_cell(Intensity::Deleted, true);
    assert_eq!(s, "╳");
    assert_eq!(p, Paint { fg: Some(Tone::White), bg: Some(Tone::Rgb(80, 40, 40)), bold: false });
    let h = grid_history();
    let cells = grid_cells(&h, "a.rs", 1, 10, 1);
    assert_eq!(cells.len(), 3);
    assert_eq!(cells[0].0, "█");
    assert_eq!(cells[0].1.bg, Some(Tone::Rgb(220, 60, 40)));
    assert_eq!(cells[1].0, "╳");
    assert_eq!(cells[2].0, " ");
    let mut render = Render::new();
    register_cells(Rect::new(20, 0, 8, 10), 3, 5, 8, &mut render);
    assert_eq!(render.hit_boxes.len(), 3);
    assert_eq!(render.hit_boxes[2].rect, Rect::new(24, 3, 2, 1));
    assert_eq!(render.hit_boxes[2].target, HitTarget::SeismicCell(7));
    let span = row_span(10, 4, Rect::new(0, 2, 18, 4));
    assert_eq!((span.first, span.count, span.top), (4, 3, 3));
    let span = row_span(3, 9, Rect::new(0, 2, 18, 0));
    assert_eq!((span.first, span.count, span.top), (3, 0, 3));
    let (label, paint) = file_label("src/deep/name.rs", Rect::new(0, 0, 8, 1), 4, Some("src/deep/name.rs"), &mut render);
    assert_eq!(label, "name.rs");
    assert!(paint.bold);
    assert_eq!(render.hit_boxes[3].target, HitTarget::File("src/deep/name.rs".to_string()));
    assert_eq!(render.hit_boxes[3].rect, Rect::new(0, 4, 8, 1));
}

#[test]
fn text_truncation() {
    assert_eq!(truncate_path("src/main.rs", 20), "src/main.rs");
    assert_eq!(truncate_path("src/main.rs", 2), "sr");
    assert_eq!(truncate_path("src/main.rs", 7), "main.rs");
    assert_eq!(truncate_path("src/a_very_long_name.rs", 6), "a_ve..");
    assert_eq!(truncate_path("noslash_long_name", 5), "nos..");
    assert_eq!(file_name("a/b/c.txt"), "c.txt");
    assert_eq!(file_name("dir/"), "");
    assert_eq!(take_chars("héllo", 2), "hé");
    assert_eq!(truncate_text("short", 50), "short");
    assert_eq!(truncate_text("0123456789", 8), "01234...");
    assert_eq!(truncate_text("0123456789", 2), "...");
    for max in 0..12 {
        for path in ["a/b/c", "dir/über/straße.rs", "plain", "x/very_long_file_name.txt"] {
            assert!(truncate_path(path, max).chars().count() <= max);
        }
    }
}

#[test]
fn timeline_pieces() {
    assert_eq!(timeline_marker(0, 0, 10), None);
    assert_eq!(timeline_marker(5, 0, 0), None);
    assert_eq!(timeline_marker(1, 0, 11), Some(5));
    assert_eq!(timeline_marker(5, 4, 11), Some(10));
    assert_eq!(timeline_marker(5, 2, 11), Some(5));
    assert_eq!(timeline_line(4, 1), "─◉──");
    let mut h = History::new();
    h.push_commit(Commit::new([0xfe; 20], "fix the flux capacitor".to_string()));
    h.push_commit(Commit::new([0x01; 20], "x".repeat(60)));
    let mut app = App::new(h);
    assert_eq!(timeline_title(&app), " 1 / 2 │ fix the flux capacitor ");
    app.scroll_timeline(1);
    assert_eq!(timeline_title(&app), format!(" 2 / 2 │ {}... ", "x".repeat(37)));
    assert_eq!(terrain_title(&app), " TERRAIN @ 01010101 ");
    assert_eq!(seismic_title(&app), " SEISMIC MONITOR @ 01010101 ");
    let empty = App::new(History::new());
    assert_eq!(timeline_title(&empty), " Timeline ");
    assert_eq!(terrain_title(&empty), " TERRAIN @ --- ");
}

#[test]
fn status_lines() {
    let mut app = App::new(History::new());
    assert_eq!(terrain_status(&app), " [click]select [scroll]time [1-5]views [Q]uit ");
    assert_eq!(seismic_status(&app), " [scroll]time [j/k]files [F]ilter [1-5]views [Q]uit ");
    app.handle_click(HitTarget::File("lib.rs".to_string()));
    app.toggle_seismic_filter();
    assert_eq!(terrain_status(&app), " lib.rs │ [R]estore [Esc]clear [Q]uit ");
    assert_eq!(
        seismic_status(&app),
        " lib.rs │ [R]estore [F]ilter [j/k]scroll [Q]uit [FILTER: active files only] "
    );
}

#[test]
fn terrain_tiles() {
    assert_eq!(health_color(Health::Trauma), Tone::Rgb(255, 80, 80));
    assert_eq!(health_color(Health::Deleted), health_color(Health::Stable));
    let mut h = History::new();
    h.push_commit(Commit::new([1; 20], "new".to_string()));
    h.push_commit(Commit::new([2; 20], "old".to_string()));
    h.record_file("src/lib.rs".to_string(), 0, &lines(200));
    h.record_file("src/lib.rs".to_string(), 1, &lines(100));
    let mut app = App::new(h);
    let mut render = Render::new();
    let tile = terrain_tile(&app, "src/lib.rs", 200, Rect::new(0, 0, 8, 3), &mut render);
    assert_eq!(tile.name, "lib.rs");
    assert_eq!(tile.count, "200");
    assert_eq!(tile.bg, Tone::Rgb(80, 200, 120));
    assert_eq!(render.hit_boxes[0].target, HitTarget::File("src/lib.rs".to_string()));
    app.mouse_mut().update_hover(HitTarget::File("src/lib.rs".to_string()));
    let tile = terrain_tile(&app, "src/lib.rs", 200, Rect::new(0, 0, 8, 3), &mut render);
    assert_eq!(tile.bg, Tone::Rgb(255, 0, 255));
    app.handle_click(HitTarget::File("src/lib.rs".to_string()));
    let tile = terrain_tile(&app, "src/lib.rs", 200, Rect::new(0, 0, 8, 3), &mut render);
    assert_eq!(tile.bg, Tone::Rgb(0, 255, 255));
}

#[test]
fn header_tabs() {
    let mut render = Render::new();
    let tabs = layout_tabs(Rect::new(20, 0, 60, 3), ViewMode::Minimap, &HitTarget::ViewTab(4), &mut render);
    assert_eq!(tabs.len(), 5);
    assert_eq!(tabs[0].label, "[1] Treemap");
    assert_eq!(tabs[4].label, "[5] Focus");
    assert_eq!(tabs[2].style, TabStyle::Active);
    assert_eq!(tabs[4].style, TabStyle::Hovered);
    assert_eq!(tabs[1].style, TabStyle::Plain);
    assert_eq!(tabs[3].rect, Rect::new(50, 0, 10, 3));
    assert_eq!(render.hit_boxes.len(), 5);
    assert_eq!(render.hit_boxes[3].target, HitTarget::ViewTab(3));
    // near the end of the screen the tabs are clamped
    assert_eq!(Rect::new(65530, 0, 10, 3).width(), 5);
    assert_eq!(Rect::new(65530, 0, 10, 3).right(), 65535);
}

#[test]
fn summaries_are_cut_by_characters() {
    assert_eq!(truncate_chars("short", 40), "short");
    assert_eq!(truncate_chars("0123456789", 8), "01234...");
    assert_eq!(truncate_chars("0123456789", 2), "...");
    let umlauts = "ü".repeat(45);
    assert_eq!(truncate_chars(&umlauts, 40), format!("{}...", "ü".repeat(37)));
    let mut h = History::new();
    h.push_commit(Commit::new([0x02; 20], "é".repeat(40)));
    h.push_commit(Commit::new([0x03; 20], "€".repeat(41)));
    let mut app = App::new(h);
    assert_eq!(timeline_title(&app), format!(" 1 / 2 │ {} ", "é".repeat(40)));
    app.scroll_timeline(1);
    assert_eq!(timeline_title(&app), format!(" 2 / 2 │ {}... ", "€".repeat(37)));
}
