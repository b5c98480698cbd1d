use vstd::prelude::*;
use vstd::string::StringExecFns;

use crate::mouse::{clamp_extent, HitBox, HitTarget, Rect};
use crate::text::push_char;

verus! {

broadcast use vstd::string::group_string_axioms;

/// The visualizations the user can switch between.
#[derive(Clone, Copy, Debug, PartialEq, Eq, Structural)]
pub enum ViewMode {
    Treemap,
    Heatmap,
    Minimap,
    River,
    Focus,
}

impl Default for ViewMode {
    fn default() -> (m: Self)
        ensures
            m == ViewMode::Treemap,
    {
        ViewMode::Treemap
    }
}

/// Position of `mode` in the tab bar, counting from zero.
pub open spec fn mode_index(mode: ViewMode) -> int {
    match mode {
        ViewMode::Treemap => 0,
        ViewMode::Heatmap => 1,
        ViewMode::Minimap => 2,
        ViewMode::River => 3,
        ViewMode::Focus => 4,
    }
}

/// The mode at position `i` of the tab bar; positions past the end give the
/// default mode.
pub open spec fn mode_at(i: int) -> ViewMode {
    if i == 1 {
        ViewMode::Heatmap
    } else if i == 2 {
        ViewMode::Minimap
    } else if i == 3 {
        ViewMode::River
    } else if i == 4 {
        ViewMode::Focus
    } else {
        ViewMode::Treemap
    }
}

/// Display name of `mode`.
pub open spec fn mode_name(mode: ViewMode) -> Seq<char> {
    match mode {
        ViewMode::Treemap => seq!['T', 'r', 'e', 'e', 'm', 'a', 'p'],
        ViewMode::Heatmap => seq!['H', 'e', 'a', 't', 'm', 'a', 'p'],
        ViewMode::Minimap => seq!['M', 'i', 'n', 'i', 'm', 'a', 'p'],
        ViewMode::River => seq!['R', 'i', 'v', 'e', 'r'],
        ViewMode::Focus => seq!['F', 'o', 'c', 'u', 's'],
    }
}

/// Number of view modes.
pub const MODE_COUNT: usize = 5;

impl ViewMode {
    pub const ALL: [ViewMode; 5] = [
        ViewMode::Treemap,
        ViewMode::Heatmap,
        ViewMode::Minimap,
        ViewMode::River,
        ViewMode::Focus,
    ];

    pub fn name(self) -> (s: &'static str)
        ensures
            s@ == mode_name(self),
    {
        match self {
            ViewMode::Treemap => {
                proof {
                    reveal_strlit("Treemap");
                }
                "Treemap"
            },
            ViewMode::Heatmap => {
                proof {
                    reveal_strlit("Heatmap");
                }
                "Heatmap"
            },
            ViewMode::Minimap => {
                proof {
                    reveal_strlit("Minimap");
                }
                "Minimap"
            },
            ViewMode::River => {
                proof {
                    reveal_strlit("River");
                }
                "River"
            },
            ViewMode::Focus => {
                proof {
                    reveal_strlit("Focus");
                }
                "Focus"
            },
        }
    }

    pub fn index(self) -> (i: usize)
        ensures
            i == mode_index(self),
    {
        match self {
            ViewMode::Treemap => 0,
            ViewMode::Heatmap => 1,
            ViewMode::Minimap => 2,
            ViewMode::River => 3,
            ViewMode::Focus => 4,
        }
    }

    pub fn from_index(i: usize) -> (m: Self)
        ensures
            m == mode_at(i as int),
    {
        match i {
            1 => ViewMode::Heatmap,
            2 => ViewMode::Minimap,
            3 => ViewMode::River,
            4 => ViewMode::Focus,
            _ => ViewMode::Treemap,
        }
    }

    /// The next mode, wrapping from the last to the first.
    pub fn next(self) -> (m: Self)
        ensures
            m == mode_at((mode_index(self) + 1) % (MODE_COUNT as int)),
    {
        ViewMode::from_index((self.index() + 1) % MODE_COUNT)
    }

    /// The previous mode, wrapping from the first to the last.
    pub fn prev(self) -> (m: Self)
        ensures
            m == mode_at(if mode_index(self) == 0 { MODE_COUNT - 1 } else { mode_index(self) - 1 }),
    {
        let i = self.index();
        ViewMode::from_index(if i == 0 { MODE_COUNT - 1 } else { i - 1 })
    }
}

/// Result of rendering a view, containing hit boxes for mouse interaction.
pub struct Render {
    pub hit_boxes: Vec<HitBox>,
}

impl Render {
    pub fn new() -> (r: Self)
        ensures
            r.hit_boxes@.len() == 0,
    {
        Render { hit_boxes: Vec::new() }
    }
}

impl Default for Render {
    fn default() -> (r: Self)
        ensures
            r.hit_boxes@.len() == 0,
    {
        Render::new()
    }
}

/// Width of one tab in the header.
pub const TAB_WIDTH: u16 = 10;

/// How a tab is drawn.
#[derive(Clone, Copy, Debug, PartialEq, Eq, Structural)]
pub enum TabStyle {
    Active,
    Hovered,
    Plain,
}

/// One tab of the header: where it goes, what it says and how it looks.
#[derive(Clone, Debug)]
pub struct Tab {
    pub rect: Rect,
    pub label: String,
    pub style: TabStyle,
}

/// Label of the tab at position `i`: its number, counting from one, in
/// brackets, then the mode's name.
pub open spec fn tab_label(i: int) -> Seq<char> {
    seq!['['] + seq![digit_char(i + 1)] + seq![']', ' '] + mode_name(mode_at(i))
}

/// The decimal digit `d` (for `d` below ten).
pub open spec fn digit_char(d: int) -> char {
    seq!['0', '1', '2', '3', '4', '5', '6', '7', '8', '9'][d]
}

fn digit(d: usize) -> (c: char)
    requires
        d < 10,
    ensures
        c == digit_char(d as int),
{
    match d {
        0 => '0',
        1 => '1',
        2 => '2',
        3 => '3',
        4 => '4',
        5 => '5',
        6 => '6',
        7 => '7',
        8 => '8',
        _ => '9',
    }
}

/// Style of the tab at position `i`: the active view's tab is highlighted,
/// otherwise the tab under the mouse, otherwise none.
pub open spec fn tab_style(i: int, view: ViewMode, hover: HitTarget) -> TabStyle {
    if mode_index(view) == i {
        TabStyle::Active
    } else if hover == HitTarget::ViewTab(i as usize) {
        TabStyle::Hovered
    } else {
        TabStyle::Plain
    }
}

/// Lay out the view tabs in `tabs_area`, one every `TAB_WIDTH` columns, and
/// register a hit box for each.
pub fn layout_tabs(tabs_area: Rect, view: ViewMode, hover: &HitTarget, render: &mut Render) -> (tabs: Vec<Tab>)
    requires
        tabs_area@.0 + 4 * TAB_WIDTH <= u16::MAX,
    ensures
        tabs@.len() == MODE_COUNT,
        forall|i: int|
            0 <= i < MODE_COUNT ==> {
                &&& (#[trigger] tabs@[i]).rect@ == (
                    (tabs_area@.0 + i * TAB_WIDTH) as u16,
                    tabs_area@.1,
                    clamp_extent((tabs_area@.0 + i * TAB_WIDTH) as u16, TAB_WIDTH),
                    clamp_extent(tabs_area@.1, tabs_area@.3),
                )
                &&& tabs@[i].label@ == tab_label(i)
                &&& tabs@[i].style == tab_style(i, view, *hover)
            },
        final(render).hit_boxes@.len() == old(render).hit_boxes@.len() + MODE_COUNT,
        forall|k: int|
            0 <= k < old(render).hit_boxes@.len() ==> #[trigger] final(render).hit_boxes@[k]
                == old(render).hit_boxes@[k],
        forall|i: int|
            0 <= i < MODE_COUNT ==> {
                let b = #[trigger] final(render).hit_boxes@[old(render).hit_boxes@.len() + i];
                &&& b.rect == tabs@[i].rect
                &&& b.target == HitTarget::ViewTab(i as usize)
            },
{
    let mut tabs: Vec<Tab> = Vec::new();
    let ghost start = render.hit_boxes@.len();
    let mut i: usize = 0;
    while i < MODE_COUNT
        invariant
            i <= MODE_COUNT,
            tabs_area@.0 + 4 * TAB_WIDTH <= u16::MAX,
            start == old(render).hit_boxes@.len(),
            tabs@.len() == i,
            render.hit_boxes@.len() == start + i,
            forall|k: int|
                0 <= k < start ==> #[trigger] render.hit_boxes@[k] == old(render).hit_boxes@[k],
            forall|j: int|
                0 <= j < i ==> {
                    &&& (#[trigger] tabs@[j]).rect@ == (
                        (tabs_area@.0 + j * TAB_WIDTH) as u16,
                        tabs_area@.1,
                        clamp_extent((tabs_area@.0 + j * TAB_WIDTH) as u16, TAB_WIDTH),
                        clamp_extent(tabs_area@.1, tabs_area@.3),
                    )
                    &&& tabs@[j].label@ == tab_label(j)
                    &&& tabs@[j].style == tab_style(j, view, *hover)
                },
            forall|j: int|
                0 <= j < i ==> {
                    let b = #[trigger] render.hit_boxes@[start + j];
                    &&& b.rect == tabs@[j].rect
                    &&& b.target == HitTarget::ViewTab(j as usize)
                },
        decreases MODE_COUNT - i,
    {
        let x = tabs_area.x() + (i as u16) * TAB_WIDTH;
        let rect = Rect::new(x, tabs_area.y(), TAB_WIDTH, tabs_area.height());
        let mode = ViewMode::from_index(i);
        let style = if view.index() == i {
            TabStyle::Active
        } else if (match hover {
            HitTarget::ViewTab(j) => *j == i,
            _ => false,
        }) {
            TabStyle::Hovered
        } else {
            TabStyle::Plain
        };
        let mut label = String::new();
        push_char(&mut label, '[');
        push_char(&mut label, digit(i + 1));
        push_char(&mut label, ']');
        push_char(&mut label, ' ');
        label.append(mode.name());
        proof {
            assert(label@ =~= tab_label(i as int));
        }
        tabs.push(Tab { rect, label, style });
        render.hit_boxes.push(HitBox::new(rect, HitTarget::ViewTab(i)));
        i = i + 1;
    }
    tabs
}

} // verus!
