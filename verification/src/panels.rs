use vstd::prelude::*;
use vstd::string::StringExecFns;

use crate::app::App;
use crate::data::{file_of, Health};
use crate::mouse::{HitBox, HitTarget, Rect};
use crate::palette::Tone;
use crate::text::{
    decimal, push_char, truncate_chars, truncate_path, truncated_chars, truncated_path, usize_to_string,
};
use crate::views::Render;

verus! {

broadcast use vstd::string::group_string_axioms;

/// Column of the timeline marker for commit `current` of `total` in a line
/// `width` columns wide: the middle when there is at most one commit, else in
/// proportion, the first commit at the left end and the last at the right.
pub open spec fn marker_pos(total: int, current: int, width: int) -> int {
    if total <= 1 {
        width / 2
    } else {
        current * (width - 1) / (total - 1)
    }
}

/// Column of the timeline marker, or `None` when there is no commit or no
/// room to draw the line.
pub fn timeline_marker(total: usize, current: usize, width: u16) -> (m: Option<usize>)
    requires
        total > 1 && width > 0 ==> current * (width - 1) <= usize::MAX,
    ensures
        total == 0 || width == 0 ==> m is None,
        total > 0 && width > 0 ==> m == Some(marker_pos(total as int, current as int, width as int) as usize),
{
    if total == 0 || width == 0 {
        return None;
    }
    let w = width as usize;
    if total <= 1 {
        Some(w / 2)
    } else {
        Some((current * (w - 1)) / (total - 1))
    }
}

/// The marker of a shown commit lies on the line.
pub proof fn lemma_marker_on_line(total: int, current: int, width: int)
    requires
        0 <= current < total,
        width > 0,
    ensures
        0 <= marker_pos(total, current, width) < width,
{
    if total > 1 {
        assert(current * (width - 1) <= (total - 1) * (width - 1)) by (nonlinear_arith)
            requires
                current <= total - 1,
                width >= 1,
        ;
        assert((total - 1) * (width - 1) / (total - 1) == width - 1) by (nonlinear_arith)
            requires
                total > 1,
        ;
        assert(current * (width - 1) / (total - 1) <= (total - 1) * (width - 1) / (total - 1))
            by (nonlinear_arith)
            requires
                current * (width - 1) <= (total - 1) * (width - 1),
                total > 1,
        ;
        assert(0 <= current * (width - 1)) by (nonlinear_arith)
            requires
                current >= 0,
                width >= 1,
        ;
    }
}

/// The timeline: `width` dashes with the marker at column `marker`.
pub fn timeline_line(width: usize, marker: usize) -> (s: String)
    ensures
        s@.len() == width,
        forall|i: int| 0 <= i < width ==> #[trigger] s@[i] == if i == marker { '◉' } else { '─' },
{
    let mut s = String::new();
    let mut i: usize = 0;
    while i < width
        invariant
            i <= width,
            s@.len() == i,
            forall|k: int| 0 <= k < i ==> #[trigger] s@[k] == if k == marker { '◉' } else { '─' },
        decreases width - i,
    {
        push_char(&mut s, if i == marker { '◉' } else { '─' });
        i = i + 1;
    }
    s
}

/// Longest commit summary the timeline's title shows, in characters.
pub const SUMMARY_MAX: usize = 40;

/// Title of the timeline: the position of the shown commit among all
/// commits and its summary, shortened; a plain title when no commit is shown.
pub open spec fn timeline_title_text(app: App) -> Seq<char> {
    let total = app.history.commit_seq().len();
    if app.commit_idx < total {
        " "@ + decimal((app.commit_idx + 1) as nat) + " / "@ + decimal(total) + " │ "@
            + truncated_chars(app.history.commit_seq()[app.commit_idx as int].summary@, SUMMARY_MAX as nat)
            + " "@
    } else {
        " Timeline "@
    }
}

pub fn timeline_title(app: &App) -> (s: String)
    ensures
        s@ == timeline_title_text(*app),
{
    let total = app.commit_count();
    let current = app.commit_idx();
    match app.current_commit() {
        Some(c) => {
            let mut s = " ".to_string();
            s.append(usize_to_string(current + 1).as_str());
            s.append(" / ");
            s.append(usize_to_string(total).as_str());
            s.append(" │ ");
            s.append(truncate_chars(c.summary.as_str(), SUMMARY_MAX).as_str());
            s.append(" ");
            s
        },
        None => " Timeline ".to_string(),
    }
}

/// `" {prefix} @ {label} "`: a panel title naming the shown commit.
pub open spec fn panel_title_text(prefix: Seq<char>, label: Seq<char>) -> Seq<char> {
    " "@ + prefix + " @ "@ + label + " "@
}

/// Title of the terrain panel.
pub fn terrain_title(app: &App) -> (s: String)
    ensures
        s@ == panel_title_text("TERRAIN"@, if app.commit_idx < app.history.commit_seq().len() {
            app.history.commit_seq()[app.commit_idx as int].short_oid@
        } else {
            "---"@
        }),
{
    let mut s = " ".to_string();
    s.append("TERRAIN");
    s.append(" @ ");
    s.append(app.commit_label().as_str());
    s.append(" ");
    s
}

/// Title of the seismic panel.
pub fn seismic_title(app: &App) -> (s: String)
    ensures
        s@ == panel_title_text("SEISMIC MONITOR"@, if app.commit_idx < app.history.commit_seq().len() {
            app.history.commit_seq()[app.commit_idx as int].short_oid@
        } else {
            "---"@
        }),
{
    let mut s = " ".to_string();
    s.append("SEISMIC MONITOR");
    s.append(" @ ");
    s.append(app.commit_label().as_str());
    s.append(" ");
    s
}

/// The status line under the terrain: what can be done with the selected
/// file, or how to select one.
pub open spec fn terrain_status_text(selected: Option<Seq<char>>) -> Seq<char> {
    match selected {
        Some(path) => " "@ + path + " │ [R]estore [Esc]clear [Q]uit "@,
        None => " [click]select [scroll]time [1-5]views [Q]uit "@,
    }
}

pub fn terrain_status(app: &App) -> (s: String)
    ensures
        s@ == terrain_status_text(
            match app.selected_file {
                Some(p) => Some(p@),
                None => None,
            },
        ),
{
    match app.selected_file() {
        Some(path) => {
            let mut s = " ".to_string();
            s.append(path);
            s.append(" │ [R]estore [Esc]clear [Q]uit ");
            s
        },
        None => " [click]select [scroll]time [1-5]views [Q]uit ".to_string(),
    }
}

/// The status line under the seismic grid, which also tells whether the
/// filter is on.
pub open spec fn seismic_status_text(selected: Option<Seq<char>>, filter: bool) -> Seq<char> {
    let suffix = if filter {
        " [FILTER: active files only]"@
    } else {
        ""@
    };
    match selected {
        Some(path) => " "@ + path + " │ [R]estore [F]ilter [j/k]scroll [Q]uit"@ + suffix + " "@,
        None => " [scroll]time [j/k]files [F]ilter [1-5]views [Q]uit"@ + suffix + " "@,
    }
}

pub fn seismic_status(app: &App) -> (s: String)
    ensures
        s@ == seismic_status_text(
            match app.selected_file {
                Some(p) => Some(p@),
                None => None,
            },
            app.seismic_filter_inactive,
        ),
{
    let suffix = if app.seismic_filter_inactive() {
        " [FILTER: active files only]"
    } else {
        ""
    };
    let mut s = match app.selected_file() {
        Some(path) => {
            let mut s = " ".to_string();
            s.append(path);
            s.append(" │ [R]estore [F]ilter [j/k]scroll [Q]uit");
            s
        },
        None => " [scroll]time [j/k]files [F]ilter [1-5]views [Q]uit".to_string(),
    };
    s.append(suffix);
    s.append(" ");
    s
}

/// Background of a terrain tile of the given health.
pub open spec fn health_tone(health: Health) -> Tone {
    match health {
        Health::Stable => Tone::Rgb(60, 60, 60),
        Health::Deleted => Tone::Rgb(60, 60, 60),
        Health::Grew => Tone::Rgb(80, 200, 120),
        Health::Shrank => Tone::Rgb(200, 200, 80),
        Health::Trauma => Tone::Rgb(255, 80, 80),
        Health::New => Tone::Rgb(80, 180, 255),
    }
}

pub fn health_color(health: Health) -> (t: Tone)
    ensures
        t == health_tone(health),
{
    match health {
        Health::Stable | Health::Deleted => Tone::Rgb(60, 60, 60),
        Health::Grew => Tone::Rgb(80, 200, 120),
        Health::Shrank => Tone::Rgb(200, 200, 80),
        Health::Trauma => Tone::Rgb(255, 80, 80),
        Health::New => Tone::Rgb(80, 180, 255),
    }
}

/// Background of a terrain tile: the selected file stands out most, then the
/// file under the mouse, and any other file shows its health.
pub open spec fn tile_tone(selected: bool, hovered: bool, health: Health) -> Tone {
    if selected {
        Tone::Rgb(0, 255, 255)
    } else if hovered {
        Tone::Rgb(255, 0, 255)
    } else {
        health_tone(health)
    }
}

/// A file's tile in the terrain: its shortened name, its line count and its
/// background.
#[derive(Clone, Debug)]
pub struct Tile {
    pub name: String,
    pub count: String,
    pub bg: Tone,
}

/// `hover` is the file `path`.
pub open spec fn hovers_file(hover: HitTarget, path: Seq<char>) -> bool {
    hover matches HitTarget::File(p) && p@ == path
}

/// The tile of the file `path`, of `lines` lines, drawn in `rect`; its hit box
/// is registered.
pub fn terrain_tile(app: &App, path: &str, lines: usize, rect: Rect, render: &mut Render) -> (t: Tile)
    ensures
        t.name@ == truncated_path(path@, rect@.2 as nat),
        t.count@ == decimal(lines as nat),
        t.bg == tile_tone(
            app.selected_file is Some && app.selected_file->0@ == path@,
            hovers_file(app.mouse.hover, path@),
            match file_of(app.history.file_seq(), path@) {
                Some(f) => f.spec_health_at(app.commit_idx, app.spec_prev_commit_idx()),
                None => Health::Stable,
            },
        ),
        final(render).hit_boxes@.len() == old(render).hit_boxes@.len() + 1,
        forall|k: int|
            0 <= k < old(render).hit_boxes@.len() ==> #[trigger] final(render).hit_boxes@[k]
                == old(render).hit_boxes@[k],
        final(render).hit_boxes@.last().rect == rect,
        hovers_file(final(render).hit_boxes@.last().target, path@),
{
    let health = app.file_health(path);
    let key = path.to_string();
    let is_hover = match &app.mouse.hover {
        HitTarget::File(p) => *p == key,
        _ => false,
    };
    let is_selected = match &app.selected_file {
        Some(p) => *p == key,
        None => false,
    };
    let bg = if is_selected {
        Tone::Rgb(0, 255, 255)
    } else if is_hover {
        Tone::Rgb(255, 0, 255)
    } else {
        health_color(health)
    };
    let name = truncate_path(path, rect.width() as usize);
    let count = usize_to_string(lines);
    render.hit_boxes.push(HitBox::new(rect, HitTarget::File(key)));
    Tile { name, count, bg }
}

} // verus!
