use git_trek::app::App;
use git_trek::data::{Commit, Health, History};
use git_trek::input::{handle_key, handle_mouse, view_from_key, Key, KeyAction, MouseInput, MouseKind};
use git_trek::mouse::{HitBox, HitTarget, Rect};
use git_trek::views::ViewMode;

fn oid(b: u8) -> [u8; 20] {
    [b; 20]
}

fn lines(n: usize) -> Vec<u8> {
    let mut v = Vec::new();
    for _ in 0..n {
        v.extend_from_slice(b"x\n");
    }
    v
}

/// Three commits, newest first; `a.rs` has 100, 50 and 100 lines in them.
fn sample() -> App {
    let mut h = History::new();
    h.push_commit(Commit::new(oid(0x11), "third".to_string()));
    h.push_commit(Commit::new(oid(0x22), "second".to_string()));
    h.push_commit(Commit::new(oid(0x33), "first".to_string()));
    h.record_file("a.rs".to_string(), 0, &lines(100));
    h.record_file("a.rs".to_string(), 1, &lines(50));
    h.record_file("a.rs".to_string(), 2, &lines(100));
    h.record_file("b.rs".to_string(), 2, &lines(4));
    App::new(h)
}

#[test]
fn new_app_starts_at_first_commit() {
    let app = sample();
    assert_eq!(app.view(), ViewMode::Treemap);
    assert_eq!(app.commit_idx(), 0);
    assert_eq!(app.commit_count(), 3);
    assert_eq!(app.selected_file(), None);
    assert_eq!(app.message(), None);
    assert!(!app.should_quit());
    assert_eq!(app.seismic_scroll(), 0);
    assert!(!app.seismic_filter_inactive());
    assert_eq!(app.commit_label(), "11111111");
}

#[test]
fn commit_label_without_commits() {
    let app = App::new(History::new());
    assert_eq!(app.commit_label(), "---");
    assert!(app.current_commit().is_none());
}

#[test]
fn scroll_timeline_is_clamped() {
    let mut app = sample();
    app.scroll_timeline(1);
    assert_eq!(app.commit_idx(), 1);
    app.scroll_timeline(10);
    assert_eq!(app.commit_idx(), 2);
    app.scroll_timeline(-1);
    assert_eq!(app.commit_idx(), 1);
    app.scroll_timeline(-100);
    assert_eq!(app.commit_idx(), 0);
    app.scroll_timeline(isize::MIN);
    assert_eq!(app.commit_idx(), 0);
    app.scroll_timeline(isize::MAX);
    assert_eq!(app.commit_idx(), 2);
}

#[test]
fn scroll_timeline_forward_and_back_returns() {
    let mut app = sample();
    app.scroll_timeline(2);
    app.scroll_timeline(-2);
    assert_eq!(app.commit_idx(), 0);
}

#[test]
fn file_health_compares_with_older_commit() {
    let mut app = sample();
    // commit 0 has 100 lines, the older commit 1 has 50
    assert_eq!(app.file_health("a.rs"), Health::Grew);
    app.scroll_timeline(1);
    assert_eq!(app.file_health("a.rs"), Health::Trauma);
    app.scroll_timeline(1);
    // the oldest commit has nothing before it
    assert_eq!(app.file_health("a.rs"), Health::New);
    assert_eq!(app.file_health("nope.rs"), Health::Stable);
}

#[test]
fn files_at_current_follows_commit() {
    let mut app = sample();
    assert_eq!(app.files_at_current(), vec![("a.rs".to_string(), 100)]);
    app.scroll_timeline(2);
    assert_eq!(app.files_at_current(), vec![("a.rs".to_string(), 100), ("b.rs".to_string(), 4)]);
}

#[test]
fn clicks_select_switch_and_jump() {
    let mut app = sample();
    app.seismic_scroll_vertical(5);
    app.handle_click(HitTarget::File("a.rs".to_string()));
    assert_eq!(app.selected_file(), Some("a.rs"));
    assert_eq!(app.seismic_scroll(), 5);
    app.handle_click(HitTarget::ViewTab(3));
    assert_eq!(app.view(), ViewMode::River);
    assert_eq!(app.seismic_scroll(), 0);
    app.handle_click(HitTarget::SeismicCell(2));
    assert_eq!(app.commit_idx(), 2);
    app.handle_click(HitTarget::NoTarget);
    assert_eq!(app.commit_idx(), 2);
    app.clear_selection();
    assert_eq!(app.selected_file(), None);
}

#[test]
fn vertical_scroll_saturates() {
    let mut app = sample();
    app.seismic_scroll_vertical(-3);
    assert_eq!(app.seismic_scroll(), 0);
    app.seismic_scroll_vertical(4);
    app.seismic_scroll_vertical(-1);
    assert_eq!(app.seismic_scroll(), 3);
    app.seismic_scroll_vertical(i32::MIN);
    assert_eq!(app.seismic_scroll(), 0);
}

#[test]
fn view_changes_reset_scroll_and_filter_toggles() {
    let mut app = sample();
    app.seismic_scroll_vertical(7);
    app.next_view();
    assert_eq!(app.view(), ViewMode::Heatmap);
    assert_eq!(app.seismic_scroll(), 0);
    app.seismic_scroll_vertical(7);
    app.prev_view();
    app.prev_view();
    assert_eq!(app.view(), ViewMode::Focus);
    app.seismic_scroll_vertical(7);
    app.set_view(ViewMode::Minimap);
    assert_eq!(app.seismic_scroll(), 0);
    app.seismic_scroll_vertical(2);
    app.toggle_seismic_filter();
    assert!(app.seismic_filter_inactive());
    assert_eq!(app.seismic_scroll(), 0);
    app.toggle_seismic_filter();
    assert!(!app.seismic_filter_inactive());
}

#[test]
fn restore_needs_selection_and_reports() {
    let mut app = sample();
    assert!(app.restore_selected().is_none());
    app.handle_click(HitTarget::File("a.rs".to_string()));
    app.scroll_timeline(1);
    let req = app.restore_selected().unwrap();
    assert_eq!(req.path, "a.rs");
    assert_eq!(req.oid, oid(0x22));
    assert_eq!(req.short_oid, "22222222");
    app.finish_restore(&req);
    assert_eq!(app.message(), Some("Restored a.rs from 22222222"));
    let mut empty = App::new(History::new());
    empty.handle_click(HitTarget::File("x".to_string()));
    assert!(empty.restore_selected().is_none());
}

#[test]
fn keys_drive_the_interface() {
    let mut app = sample();
    assert_eq!(view_from_key(Key::Char('4')), Some(ViewMode::River));
    assert_eq!(view_from_key(Key::Char('6')), None);
    assert_eq!(handle_key(&mut app, Key::Char('2')), KeyAction::Done);
    assert_eq!(app.view(), ViewMode::Heatmap);
    handle_key(&mut app, Key::Left);
    assert_eq!(app.commit_idx(), 1);
    handle_key(&mut app, Key::Right);
    assert_eq!(app.commit_idx(), 0);
    handle_key(&mut app, Key::Char('j'));
    handle_key(&mut app, Key::Down);
    assert_eq!(app.seismic_scroll(), 2);
    handle_key(&mut app, Key::Up);
    handle_key(&mut app, Key::Char('k'));
    assert_eq!(app.seismic_scroll(), 0);
    handle_key(&mut app, Key::Tab);
    assert_eq!(app.view(), ViewMode::Minimap);
    handle_key(&mut app, Key::BackTab);
    assert_eq!(app.view(), ViewMode::Heatmap);
    handle_key(&mut app, Key::Char('F'));
    assert!(app.seismic_filter_inactive());
    app.handle_click(HitTarget::File("a.rs".to_string()));
    assert_eq!(handle_key(&mut app, Key::Char('r')), KeyAction::Restore);
    handle_key(&mut app, Key::Esc);
    assert_eq!(app.selected_file(), None);
    assert_eq!(handle_key(&mut app, Key::Other), KeyAction::Done);
    assert!(!app.should_quit());
    handle_key(&mut app, Key::Char('q'));
    assert!(app.should_quit());
    // no key touches the loaded history
    assert_eq!(app.commit_count(), 3);
    assert_eq!(app.history().files().len(), 2);
}

#[test]
fn mouse_hovers_clicks_and_scrolls() {
    let mut app = sample();
    let boxes = vec![
        HitBox::new(Rect::new(0, 0, 10, 1), HitTarget::ViewTab(1)),
        HitBox::new(Rect::new(0, 5, 20, 5), HitTarget::File("a.rs".to_string())),
    ];
    handle_mouse(&mut app, MouseInput { column: 3, row: 6, kind: MouseKind::Moved }, &boxes);
    assert_eq!(app.mouse().x, 3);
    assert_eq!(app.mouse().y, 6);
    assert_eq!(app.mouse().hover, HitTarget::File("a.rs".to_string()));
    handle_mouse(&mut app, MouseInput { column: 2, row: 0, kind: MouseKind::Down }, &boxes);
    assert_eq!(app.view(), ViewMode::Heatmap);
    assert_eq!(app.mouse().hover, HitTarget::File("a.rs".to_string()));
    handle_mouse(&mut app, MouseInput { column: 2, row: 0, kind: MouseKind::ScrollDown }, &boxes);
    assert_eq!(app.commit_idx(), 1);
    handle_mouse(&mut app, MouseInput { column: 2, row: 0, kind: MouseKind::ScrollUp }, &boxes);
    assert_eq!(app.commit_idx(), 0);
    handle_mouse(&mut app, MouseInput { column: 50, row: 50, kind: MouseKind::Moved }, &boxes);
    assert_eq!(app.mouse().hover, HitTarget::NoTarget);
    app.mouse_mut().update_position(9, 9);
    assert_eq!(app.mouse().x, 9);
}

#[test]
fn a_and_d_move_like_the_arrows() {
    let mut by_letter = sample();
    let mut by_arrow = sample();
    assert_eq!(handle_key(&mut by_letter, Key::Char('a')), KeyAction::Done);
    handle_key(&mut by_arrow, Key::Left);
    assert_eq!(by_letter.commit_idx(), 1);
    assert_eq!(by_letter.commit_idx(), by_arrow.commit_idx());
    handle_key(&mut by_letter, Key::Char('A'));
    assert_eq!(by_letter.commit_idx(), 2);
    handle_key(&mut by_letter, Key::Char('d'));
    handle_key(&mut by_arrow, Key::Right);
    assert_eq!(by_letter.commit_idx(), 1);
    assert_eq!(by_arrow.commit_idx(), 0);
    handle_key(&mut by_letter, Key::Char('D'));
    assert_eq!(by_letter.commit_idx(), 0);
    // at the newest commit, `d` stays put
    handle_key(&mut by_letter, Key::Char('d'));
    assert_eq!(by_letter.commit_idx(), 0);
}

#[test]
fn next_view_repeated_walks_the_tab_bar() {
    let mut app = sample();
    app.seismic_scroll_vertical(3);
    let start = app.view();
    for k in 1..=ViewMode::ALL.len() {
        app.next_view();
        assert_eq!(app.view(), ViewMode::ALL[(start.index() + k) % ViewMode::ALL.len()]);
        assert_eq!(app.seismic_scroll(), 0);
    }
    assert_eq!(app.view(), start);
}
