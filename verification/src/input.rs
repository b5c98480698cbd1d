use vstd::prelude::*;

use crate::app::App;
use crate::mouse::{first_hit, hit_test, HitBox};
use crate::views::{mode_at, mode_index, ViewMode, MODE_COUNT};

verus! {

/// A key press, as far as the interface tells keys apart.
#[derive(Clone, Copy, Debug, PartialEq, Eq, Structural)]
pub enum Key {
    Char(char),
    Left,
    Right,
    Up,
    Down,
    Tab,
    BackTab,
    Esc,
    Other,
}

/// What the caller still has to do after a key was handled.
#[derive(Clone, Copy, Debug, PartialEq, Eq, Structural)]
pub enum KeyAction {
    /// Nothing further.
    Done,
    /// Restore the selected file (see `App::restore_selected`).
    Restore,
}

/// The kind of a mouse event.
#[derive(Clone, Copy, Debug, PartialEq, Eq, Structural)]
pub enum MouseKind {
    Moved,
    Down,
    ScrollUp,
    ScrollDown,
    Other,
}

/// A mouse event at a terminal cell.
#[derive(Clone, Copy, Debug, PartialEq, Eq, Structural)]
pub struct MouseInput {
    pub column: u16,
    pub row: u16,
    pub kind: MouseKind,
}

/// The view a digit key selects: `1` to `5` pick the views in tab order.
pub open spec fn key_view(code: Key) -> Option<ViewMode> {
    match code {
        Key::Char(c) => if c == '1' {
            Some(ViewMode::Treemap)
        } else if c == '2' {
            Some(ViewMode::Heatmap)
        } else if c == '3' {
            Some(ViewMode::Minimap)
        } else if c == '4' {
            Some(ViewMode::River)
        } else if c == '5' {
            Some(ViewMode::Focus)
        } else {
            None
        },
        _ => None,
    }
}

/// The state after a navigation key, or `None` when `code` is not one: the
/// left arrow and `a` step to the older commit, the right arrow and `d` to the
/// newer one, up/`k` and down/`j` scroll the grid, and tab cycles the views.
pub open spec fn navigated(app: App, code: Key) -> Option<App> {
    match code {
        Key::Left => Some(app.after_scroll_timeline(1isize)),
        Key::Right => Some(app.after_scroll_timeline(-1isize)),
        Key::Up => Some(app.after_scroll_vertical(-1i32)),
        Key::Down => Some(app.after_scroll_vertical(1i32)),
        Key::Char(c) => if c == 'a' || c == 'A' {
            Some(app.after_scroll_timeline(1isize))
        } else if c == 'd' || c == 'D' {
            Some(app.after_scroll_timeline(-1isize))
        } else if c == 'k' {
            Some(app.after_scroll_vertical(-1i32))
        } else if c == 'j' {
            Some(app.after_scroll_vertical(1i32))
        } else {
            None
        },
        Key::Tab => Some(app.with_view(mode_at((mode_index(app.view) + 1) % (MODE_COUNT as int)))),
        Key::BackTab => Some(
            app.with_view(
                mode_at(
                    if mode_index(app.view) == 0 {
                        MODE_COUNT - 1
                    } else {
                        mode_index(app.view) - 1
                    },
                ),
            ),
        ),
        _ => None,
    }
}

/// The state after any other key: `q` quits, `f` toggles the grid's filter,
/// escape clears the selection, and `r` (restoring) and the rest change
/// nothing.
pub open spec fn command_result(app: App, code: Key) -> App {
    match code {
        Key::Char(c) => if c == 'q' || c == 'Q' {
            App { should_quit: true, ..app }
        } else if c == 'f' || c == 'F' {
            app.after_toggle_filter()
        } else {
            app
        },
        Key::Esc => App { selected_file: None, ..app },
        _ => app,
    }
}

/// The state after the key `code`.
pub open spec fn key_result(app: App, code: Key) -> App {
    match key_view(code) {
        Some(mode) => app.with_view(mode),
        None => match navigated(app, code) {
            Some(next) => next,
            None => command_result(app, code),
        },
    }
}

/// Whether the key `code` asks for the selected file to be restored.
pub open spec fn key_restores(code: Key) -> bool {
    match code {
        Key::Char(c) => c == 'r' || c == 'R',
        _ => false,
    }
}

pub fn view_from_key(code: Key) -> (m: Option<ViewMode>)
    ensures
        m == key_view(code),
{
    match code {
        Key::Char('1') => Some(ViewMode::Treemap),
        Key::Char('2') => Some(ViewMode::Heatmap),
        Key::Char('3') => Some(ViewMode::Minimap),
        Key::Char('4') => Some(ViewMode::River),
        Key::Char('5') => Some(ViewMode::Focus),
        _ => None,
    }
}

fn handle_navigation(app: &mut App, code: Key) -> (handled: bool)
    ensures
        handled == navigated(*old(app), code) is Some,
        handled ==> *final(app) == navigated(*old(app), code)->0,
        !handled ==> *final(app) == *old(app),
{
    match code {
        Key::Left | Key::Char('a') | Key::Char('A') => {
            app.scroll_timeline(1);
            true
        },
        Key::Right | Key::Char('d') | Key::Char('D') => {
            app.scroll_timeline(-1);
            true
        },
        Key::Up | Key::Char('k') => {
            app.seismic_scroll_vertical(-1);
            true
        },
        Key::Down | Key::Char('j') => {
            app.seismic_scroll_vertical(1);
            true
        },
        Key::Tab => {
            app.next_view();
            true
        },
        Key::BackTab => {
            app.prev_view();
            true
        },
        _ => false,
    }
}

/// Apply the key `key` to the interface. Restoring reads and writes files, so
/// it is left to the caller, which `KeyAction::Restore` asks for.
pub fn handle_key(app: &mut App, key: Key) -> (action: KeyAction)
    ensures
        *final(app) == key_result(*old(app), key),
        action == (if key_restores(key) {
            KeyAction::Restore
        } else {
            KeyAction::Done
        }),
{
    if let Some(mode) = view_from_key(key) {
        app.set_view(mode);
        return KeyAction::Done;
    }
    if handle_navigation(app, key) {
        return KeyAction::Done;
    }
    match key {
        Key::Char('q') | Key::Char('Q') => {
            app.quit();
            KeyAction::Done
        },
        Key::Char('r') | Key::Char('R') => KeyAction::Restore,
        Key::Char('f') | Key::Char('F') => {
            app.toggle_seismic_filter();
            KeyAction::Done
        },
        Key::Esc => {
            app.clear_selection();
            KeyAction::Done
        },
        _ => KeyAction::Done,
    }
}

/// The state after the mouse event `mouse` over `hit_boxes`: the pointer
/// position is recorded; a move updates what is hovered, a press clicks what
/// is under the pointer, and the wheel moves the timeline.
pub open spec fn mouse_result(app: App, mouse: MouseInput, hit_boxes: Seq<HitBox>) -> App {
    let moved = App {
        mouse: crate::mouse::MouseState { x: mouse.column, y: mouse.row, hover: app.mouse.hover },
        ..app
    };
    let target = first_hit(hit_boxes, mouse.column, mouse.row);
    match mouse.kind {
        MouseKind::Moved => App {
            mouse: crate::mouse::MouseState { x: mouse.column, y: mouse.row, hover: target },
            ..app
        },
        MouseKind::Down => moved.after_click(target),
        MouseKind::ScrollUp => moved.after_scroll_timeline(-1isize),
        MouseKind::ScrollDown => moved.after_scroll_timeline(1isize),
        MouseKind::Other => moved,
    }
}

pub fn handle_mouse(app: &mut App, mouse: MouseInput, hit_boxes: &[HitBox])
    ensures
        *final(app) == mouse_result(*old(app), mouse, hit_boxes@),
{
    app.mouse_mut().update_position(mouse.column, mouse.row);
    match mouse.kind {
        MouseKind::Moved => {
            let target = hit_test(mouse.column, mouse.row, hit_boxes);
            app.mouse_mut().update_hover(target);
        },
        MouseKind::Down => {
            let target = hit_test(mouse.column, mouse.row, hit_boxes);
            app.handle_click(target);
        },
        MouseKind::ScrollUp => {
            app.scroll_timeline(-1);
        },
        MouseKind::ScrollDown => {
            app.scroll_timeline(1);
        },
        MouseKind::Other => {},
    }
}

} // verus!
