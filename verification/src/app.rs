use vstd::prelude::*;
use vstd::string::StringExecFns;

use crate::data::{file_of, lemma_first_path, more_lines, present_at, Commit, Health, History};
use crate::mouse::{HitTarget, MouseState};
use crate::sorting::insertion_sort;
use crate::views::{mode_at, mode_index, ViewMode, MODE_COUNT};

verus! {

broadcast use vstd::string::group_string_axioms;

/// The state of the interface: the loaded history, which view and commit are
/// shown, the selected file, the mouse, and the seismic grid's scroll and filter.
pub struct App {
    pub history: History,
    pub view: ViewMode,
    pub commit_idx: usize,
    pub selected_file: Option<String>,
    pub mouse: MouseState,
    pub should_quit: bool,
    pub message: Option<String>,
    pub seismic_scroll: usize,
    pub seismic_filter_inactive: bool,
}

/// A file to write back into the working tree: its path and the commit to
/// take it from.
#[derive(Clone, Debug)]
pub struct RestoreRequest {
    pub path: String,
    pub oid: [u8; 20],
    pub short_oid: String,
}

/// `a + b`, or `usize::MAX` when that does not fit.
pub open spec fn sat_add(a: usize, b: int) -> usize {
    if a + b > usize::MAX {
        usize::MAX
    } else {
        (a + b) as usize
    }
}

/// `a - b`, or zero when that is negative.
pub open spec fn sat_sub(a: usize, b: int) -> usize {
    if a - b < 0 {
        0
    } else {
        (a - b) as usize
    }
}

pub open spec fn abs(d: int) -> int {
    if d < 0 {
        -d
    } else {
        d
    }
}

/// Magnitude of `delta`.
fn magnitude(delta: isize) -> (m: usize)
    ensures
        m == abs(delta as int),
{
    if delta >= 0 {
        delta as usize
    } else {
        let d = delta as i128;
        (0i128 - d) as usize
    }
}

/// Text of the message shown after restoring `path` from commit `short_oid`.
pub open spec fn restored_message(path: Seq<char>, short_oid: Seq<char>) -> Seq<char> {
    "Restored "@ + path + " from "@ + short_oid
}

impl App {
    /// A fresh interface over `history`: first commit, default view, nothing
    /// selected.
    pub fn new(history: History) -> (app: Self)
        ensures
            app.history == history,
            app.view == ViewMode::Treemap,
            app.commit_idx == 0,
            app.selected_file is None,
            app.mouse.x == 0,
            app.mouse.y == 0,
            app.mouse.hover == HitTarget::NoTarget,
            !app.should_quit,
            app.message is None,
            app.seismic_scroll == 0,
            !app.seismic_filter_inactive,
    {
        App {
            history,
            view: ViewMode::default(),
            commit_idx: 0,
            selected_file: None,
            mouse: MouseState::default(),
            should_quit: false,
            message: None,
            seismic_scroll: 0,
            seismic_filter_inactive: false,
        }
    }

    /// Index of the last commit, or zero when there is none.
    pub open spec fn last_index(self) -> usize {
        if self.history.commit_seq().len() == 0 {
            0
        } else {
            (self.history.commit_seq().len() - 1) as usize
        }
    }

    /// The index of the commit before the current one (the next one in the
    /// list, which is newest first), if there is one.
    pub open spec fn spec_prev_commit_idx(self) -> Option<usize> {
        if self.commit_idx + 1 < self.history.commit_seq().len() {
            Some((self.commit_idx + 1) as usize)
        } else {
            None
        }
    }

    /// The state after moving the timeline by `delta` commits, clamped to the
    /// commits that exist.
    pub open spec fn after_scroll_timeline(self, delta: isize) -> App {
        let moved = if delta > 0 {
            sat_add(self.commit_idx, abs(delta as int))
        } else {
            sat_sub(self.commit_idx, abs(delta as int))
        };
        App { commit_idx: if moved < self.last_index() { moved } else { self.last_index() }, ..self }
    }

    /// The state after scrolling the seismic grid by `delta` rows.
    pub open spec fn after_scroll_vertical(self, delta: i32) -> App {
        App {
            seismic_scroll: if delta > 0 {
                sat_add(self.seismic_scroll, abs(delta as int))
            } else {
                sat_sub(self.seismic_scroll, abs(delta as int))
            },
            ..self
        }
    }

    /// The state after switching to `mode`, which resets the grid's scroll.
    pub open spec fn with_view(self, mode: ViewMode) -> App {
        App { view: mode, seismic_scroll: 0, ..self }
    }

    /// The state after clicking on `target`.
    pub open spec fn after_click(self, target: HitTarget) -> App {
        match target {
            HitTarget::File(path) => App { selected_file: Some(path), ..self },
            HitTarget::ViewTab(i) => App { view: mode_at(i as int), seismic_scroll: 0, ..self },
            HitTarget::SeismicCell(i) => App { commit_idx: i, ..self },
            HitTarget::NoTarget => self,
        }
    }

    /// The state after toggling the grid's filter, which resets its scroll.
    pub open spec fn after_toggle_filter(self) -> App {
        App { seismic_filter_inactive: !self.seismic_filter_inactive, seismic_scroll: 0, ..self }
    }

    pub fn history(&self) -> (h: &History)
        ensures
            *h == self.history,
    {
        &self.history
    }

    pub fn view(&self) -> (m: ViewMode)
        ensures
            m == self.view,
    {
        self.view
    }

    pub fn commit_idx(&self) -> (i: usize)
        ensures
            i == self.commit_idx,
    {
        self.commit_idx
    }

    pub fn commit_count(&self) -> (n: usize)
        ensures
            n == self.history.commit_seq().len(),
    {
        self.history.commits().len()
    }

    /// The commit being shown, if the index points at one.
    pub fn current_commit(&self) -> (c: Option<&Commit>)
        ensures
            match c {
                Some(c) => self.commit_idx < self.history.commit_seq().len() && *c
                    == self.history.commit_seq()[self.commit_idx as int],
                None => self.commit_idx >= self.history.commit_seq().len(),
            },
    {
        if self.commit_idx < self.history.commits().len() {
            Some(&self.history.commits()[self.commit_idx])
        } else {
            None
        }
    }

    /// Short id of the commit being shown, or three dashes when there is none.
    pub fn commit_label(&self) -> (s: String)
        ensures
            s@ == if self.commit_idx < self.history.commit_seq().len() {
                self.history.commit_seq()[self.commit_idx as int].short_oid@
            } else {
                "---"@
            },
    {
        match self.current_commit() {
            Some(c) => c.short_oid.clone(),
            None => "---".to_string(),
        }
    }

    /// Files present at the commit being shown, largest first.
    pub fn files_at_current(&self) -> (r: Vec<(String, usize)>)
        ensures
            r@ == insertion_sort(present_at(self.history.file_seq(), self.commit_idx), more_lines()),
    {
        self.history.files_at_commit(self.commit_idx)
    }

    fn prev_commit_idx(&self) -> (p: Option<usize>)
        ensures
            p == self.spec_prev_commit_idx(),
    {
        if self.commit_idx < self.history.commits().len() && self.history.commits().len()
            - self.commit_idx > 1 {
            Some(self.commit_idx + 1)
        } else {
            None
        }
    }

    /// Health of the file `path` at the commit being shown, compared with the
    /// commit before it; a file the history does not know is stable.
    pub fn file_health(&self, path: &str) -> (h: Health)
        ensures
            h == match file_of(self.history.file_seq(), path@) {
                Some(f) => f.spec_health_at(self.commit_idx, self.spec_prev_commit_idx()),
                None => Health::Stable,
            },
    {
        let prev_idx = self.prev_commit_idx();
        let key = path.to_string();
        proof {
            lemma_first_path(self.history.file_seq(), path@);
        }
        match self.history.find_file(&key) {
            Some(i) => self.history.files()[i].health_at(self.commit_idx, prev_idx),
            None => Health::Stable,
        }
    }

    pub fn selected_file(&self) -> (s: Option<&str>)
        ensures
            match s {
                Some(s) => self.selected_file is Some && s@ == self.selected_file->0@,
                None => self.selected_file is None,
            },
    {
        match &self.selected_file {
            Some(p) => Some(p.as_str()),
            None => None,
        }
    }

    pub fn mouse(&self) -> (m: &MouseState)
        ensures
            *m == self.mouse,
    {
        &self.mouse
    }

    pub fn mouse_mut(&mut self) -> (m: &mut MouseState)
        ensures
            *m == old(self).mouse,
            *final(self) == (App { mouse: *final(m), ..*old(self) }),
    {
        &mut self.mouse
    }

    pub fn message(&self) -> (s: Option<&str>)
        ensures
            match s {
                Some(s) => self.message is Some && s@ == self.message->0@,
                None => self.message is None,
            },
    {
        match &self.message {
            Some(m) => Some(m.as_str()),
            None => None,
        }
    }

    pub fn should_quit(&self) -> (q: bool)
        ensures
            q == self.should_quit,
    {
        self.should_quit
    }

    /// What restoring the selected file means now: the selected path and the
    /// commit being shown, or nothing when either is missing.
    pub fn restore_selected(&self) -> (r: Option<RestoreRequest>)
        ensures
            match r {
                Some(req) => {
                    &&& self.selected_file is Some
                    &&& self.commit_idx < self.history.commit_seq().len()
                    &&& req.path@ == self.selected_file->0@
                    &&& req.oid == self.history.commit_seq()[self.commit_idx as int].oid
                    &&& req.short_oid@ == self.history.commit_seq()[self.commit_idx as int].short_oid@
                },
                None => self.selected_file is None || self.commit_idx
                    >= self.history.commit_seq().len(),
            },
    {
        let path = match &self.selected_file {
            Some(p) => p.clone(),
            None => {
                return None;
            },
        };
        match self.current_commit() {
            Some(c) => Some(RestoreRequest { path, oid: c.oid, short_oid: c.short_oid.clone() }),
            None => None,
        }
    }

    /// Note that `req` was carried out.
    pub fn finish_restore(&mut self, req: &RestoreRequest)
        ensures
            final(self).message is Some,
            final(self).message->0@ == restored_message(req.path@, req.short_oid@),
            *final(self) == (App { message: final(self).message, ..*old(self) }),
    {
        let mut text = "Restored ".to_string();
        text.append(req.path.as_str());
        text.append(" from ");
        text.append(req.short_oid.as_str());
        self.message = Some(text);
    }

    pub fn seismic_scroll(&self) -> (s: usize)
        ensures
            s == self.seismic_scroll,
    {
        self.seismic_scroll
    }

    pub fn seismic_scroll_vertical(&mut self, delta: i32)
        ensures
            *final(self) == old(self).after_scroll_vertical(delta),
    {
        let amount = magnitude(delta as isize);
        if delta > 0 {
            self.seismic_scroll = self.seismic_scroll.saturating_add(amount);
        } else {
            self.seismic_scroll = self.seismic_scroll.saturating_sub(amount);
        }
    }

    pub fn seismic_filter_inactive(&self) -> (f: bool)
        ensures
            f == self.seismic_filter_inactive,
    {
        self.seismic_filter_inactive
    }

    pub fn toggle_seismic_filter(&mut self)
        ensures
            *final(self) == old(self).after_toggle_filter(),
    {
        self.seismic_filter_inactive = !self.seismic_filter_inactive;
        self.seismic_scroll = 0;
    }

    pub fn handle_click(&mut self, target: HitTarget)
        ensures
            *final(self) == old(self).after_click(target),
    {
        match target {
            HitTarget::File(path) => {
                self.selected_file = Some(path);
            },
            HitTarget::ViewTab(i) => {
                self.view = ViewMode::from_index(i);
                self.seismic_scroll = 0;
            },
            HitTarget::SeismicCell(commit_idx) => {
                self.commit_idx = commit_idx;
            },
            HitTarget::NoTarget => {},
        }
    }

    pub fn scroll_timeline(&mut self, delta: isize)
        ensures
            *final(self) == old(self).after_scroll_timeline(delta),
    {
        let max = self.history.commits().len().saturating_sub(1);
        let amount = magnitude(delta);
        let new_idx = if delta > 0 {
            self.commit_idx.saturating_add(amount)
        } else {
            self.commit_idx.saturating_sub(amount)
        };
        self.commit_idx = if new_idx < max {
            new_idx
        } else {
            max
        };
    }

    pub fn set_view(&mut self, mode: ViewMode)
        ensures
            *final(self) == old(self).with_view(mode),
    {
        self.view = mode;
        self.seismic_scroll = 0;
    }

    pub fn next_view(&mut self)
        ensures
            *final(self) == old(self).with_view(mode_at((mode_index(old(self).view) + 1) % (MODE_COUNT as int))),
    {
        self.view = self.view.next();
        self.seismic_scroll = 0;
    }

    pub fn prev_view(&mut self)
        ensures
            *final(self) == old(self).with_view(
                mode_at(
                    if mode_index(old(self).view) == 0 {
                        MODE_COUNT - 1
                    } else {
                        mode_index(old(self).view) - 1
                    },
                ),
            ),
    {
        self.view = self.view.prev();
        self.seismic_scroll = 0;
    }

    pub fn clear_selection(&mut self)
        ensures
            *final(self) == (App { selected_file: None, ..*old(self) }),
    {
        self.selected_file = None;
    }

    pub fn quit(&mut self)
        ensures
            *final(self) == (App { should_quit: true, ..*old(self) }),
    {
        self.should_quit = true;
    }
}

} // verus!
