use vstd::prelude::*;

use crate::app::App;
use crate::data::{
    change_health, distinct_paths, file_of, has_path, is_first_path, lemma_first_path, lines_in, more_lines,
    path_index, present_at, ratio_health, recorded, FileHistory, Health, Snapshot,
};
use crate::input::{key_result, key_view, mouse_result, Key, MouseInput};
use crate::mouse::{first_hit, rect_contains, HitBox, HitTarget};
use crate::seismic::{
    active_in, busier, changed_at, lemma_busier_strict, path_intensity, path_score, paths_of, score_between,
    scored, step_score, Intensity,
};
use crate::sorting::{
    insertion_sort, lemma_insertion_sort_multiset, lemma_insertion_sort_sorted, sorted_by,
    strict_order,
};
use crate::views::{digit_char, mode_at, mode_index, tab_label, MODE_COUNT, ViewMode};

verus! {

/// Every view's position leads back to the view.
pub proof fn law_view_index_roundtrip(mode: ViewMode)
    ensures
        0 <= mode_index(mode) < MODE_COUNT,
        mode_at(mode_index(mode)) == mode,
{
}

/// Every position of the tab bar names a view at that position, and any
/// other position gives the default view.
pub proof fn law_view_positions(i: int)
    ensures
        0 <= i < MODE_COUNT ==> mode_index(mode_at(i)) == i,
        !(0 <= i < MODE_COUNT) ==> mode_at(i) == ViewMode::Treemap,
{
}

/// The view after the next view, and before it.
pub open spec fn next_mode(mode: ViewMode) -> ViewMode {
    mode_at((mode_index(mode) + 1) % (MODE_COUNT as int))
}

pub open spec fn prev_mode(mode: ViewMode) -> ViewMode {
    mode_at(
        if mode_index(mode) == 0 {
            MODE_COUNT - 1
        } else {
            mode_index(mode) - 1
        },
    )
}

/// Going to the next view and back, or back and then forward, returns to the
/// same view.
pub proof fn law_next_prev_inverse(mode: ViewMode)
    ensures
        prev_mode(next_mode(mode)) == mode,
        next_mode(prev_mode(mode)) == mode,
{
}

/// Going to the next view as many times as there are views returns to the
/// same view, visiting every view on the way.
pub proof fn law_next_cycles(mode: ViewMode)
    ensures
        next_mode(next_mode(next_mode(next_mode(next_mode(mode))))) == mode,
        mode_index(next_mode(mode)) == (mode_index(mode) + 1) % (MODE_COUNT as int),
{
}

/// The interface after `k` calls of `App::next_view` in a row, each call
/// taking the state that the one before left (see its `ensures`).
pub open spec fn after_next_views(app: App, k: nat) -> App
    decreases k,
{
    if k == 0 {
        app
    } else {
        let prev = after_next_views(app, (k - 1) as nat);
        prev.with_view(next_mode(prev.view))
    }
}

proof fn lemma_next_views_formula(app: App, k: nat)
    requires
        k >= 1,
    ensures
        after_next_views(app, k) == app.with_view(
            mode_at((mode_index(app.view) + k) % (MODE_COUNT as int)),
        ),
    decreases k,
{
    let i = mode_index(app.view);
    if k > 1 {
        lemma_next_views_formula(app, (k - 1) as nat);
        let j = (i + k - 1) % (MODE_COUNT as int);
        assert(mode_index(mode_at(j)) == j);
        assert((j + 1) % (MODE_COUNT as int) == (i + k) % (MODE_COUNT as int)) by (nonlinear_arith)
            requires
                j == (i + k - 1) % 5,
                MODE_COUNT == 5,
        ;
        let prev = after_next_views(app, (k - 1) as nat);
        assert(prev.view == mode_at(j));
        assert(next_mode(prev.view) == mode_at((i + k) % (MODE_COUNT as int)));
    } else {
        assert(after_next_views(app, 0) == app);
    }
}

/// Going to the next view `k` times in a row (`k` at least one) lands on the
/// view `k` places further along the tab bar, counted round, with the grid
/// scrolled back to the top and everything else unchanged; so after as many
/// steps as there are views, the view is the one shown before.
pub proof fn law_next_view_repeated(app: App, k: nat)
    requires
        k >= 1,
    ensures
        after_next_views(app, k) == app.with_view(
            mode_at((mode_index(app.view) + k) % (MODE_COUNT as int)),
        ),
        after_next_views(app, MODE_COUNT as nat).view == app.view,
{
    lemma_next_views_formula(app, k);
    lemma_next_views_formula(app, MODE_COUNT as nat);
    let i = mode_index(app.view);
    assert((i + 5) % 5 == i) by (nonlinear_arith)
        requires
            0 <= i < 5,
    ;
}

/// Health depends only on the ratio of the new size to the old one.
pub proof fn law_health_scale_invariant(old: nat, new: nat, k: nat)
    requires
        k > 0,
    ensures
        ratio_health(k * old, k * new) == ratio_health(old, new),
{
    assert(k * old == 0 <==> old == 0) by (nonlinear_arith)
        requires
            k > 0,
    ;
    assert(100 * (k * new) < 70 * (k * old) <==> 100 * new < 70 * old) by (nonlinear_arith)
        requires
            k > 0,
    ;
    assert(100 * (k * new) < 95 * (k * old) <==> 100 * new < 95 * old) by (nonlinear_arith)
        requires
            k > 0,
    ;
    assert(100 * (k * new) > 105 * (k * old) <==> 100 * new > 105 * old) by (nonlinear_arith)
        requires
            k > 0,
    ;
}

/// Health is ordered by the new size: for the same old size, a file that
/// ends larger is never judged to have shrunk more.
pub open spec fn health_rank(h: Health) -> int {
    match h {
        Health::Trauma => 0,
        Health::Shrank => 1,
        Health::Stable => 2,
        Health::Grew => 3,
        _ => 4,
    }
}

pub proof fn law_health_monotone(old: nat, new1: nat, new2: nat)
    requires
        old > 0,
        new1 <= new2,
    ensures
        health_rank(ratio_health(old, new1)) <= health_rank(ratio_health(old, new2)),
{
}

/// A file of unchanged, non-zero size is stable; a file that appears is new
/// and one that disappears is deleted.
pub proof fn law_health_presence(n: usize)
    ensures
        n > 0 ==> change_health(Some(n), Some(n)) == Health::Stable,
        change_health(None, Some(n)) == Health::New,
        change_health(Some(n), None) == Health::Deleted,
        change_health(None, None) == Health::Stable,
{
}

/// Recording a snapshot is read back at its commit and leaves the other
/// commits alone.
pub proof fn law_snapshot_read_after_write(snapshots: Map<usize, Snapshot>, idx: usize, snapshot: Snapshot, other: usize)
    ensures
        lines_in(snapshots.insert(idx, snapshot), idx) == Some(snapshot.lines),
        other != idx ==> lines_in(snapshots.insert(idx, snapshot), other) == lines_in(
            snapshots,
            other,
        ),
{
}

/// After `History::record_file`, the file's history holds the recorded line
/// count at that commit, its other commits are unchanged, and so is every
/// other file.
pub proof fn law_record_then_read(
    old: Seq<FileHistory>,
    new: Seq<FileHistory>,
    path: Seq<char>,
    idx: usize,
    snapshot: Snapshot,
    other_idx: usize,
    other_path: Seq<char>,
)
    requires
        recorded(old, new, path, idx, snapshot),
    ensures
        file_of(new, path) is Some,
        file_of(new, path)->0.spec_lines_at(idx) == Some(snapshot.lines),
        other_idx != idx ==> file_of(new, path)->0.spec_lines_at(other_idx) == match file_of(
            old,
            path,
        ) {
            Some(f) => f.spec_lines_at(other_idx),
            None => None,
        },
        other_path != path ==> file_of(new, other_path) == file_of(old, other_path),
{
    lemma_first_path(old, path);
    lemma_first_path(new, path);
    lemma_first_path(old, other_path);
    lemma_first_path(new, other_path);
    if has_path(old, path) {
        let p = path_index(old, path);
        assert(is_first_path(new, path, p));
        if other_path != path {
            if has_path(old, other_path) {
                let q = path_index(old, other_path);
                assert(q != p);
                assert(is_first_path(new, other_path, q));
            } else {
                assert forall|i: int| 0 <= i < new.len() implies (#[trigger] new[i]).path@ != other_path by {
                    if i != p {
                        assert(new[i] == old[i]);
                    }
                }
            }
        }
    } else {
        let p = old.len() as int;
        assert(new[p].path@ == path);
        assert(is_first_path(new, path, p)) by {
            assert forall|j: int| 0 <= j < p implies (#[trigger] new[j]).path@ != path by {
                assert(new[j] == old[j]);
            }
        }
        if other_path != path {
            if has_path(old, other_path) {
                let q = path_index(old, other_path);
                assert(new[q] == old[q]);
                assert(is_first_path(new, other_path, q)) by {
                    assert forall|j: int| 0 <= j < q implies (#[trigger] new[j]).path@ != other_path by {
                        assert(new[j] == old[j]);
                    }
                }
            } else {
                assert forall|i: int| 0 <= i < new.len() implies (#[trigger] new[i]).path@ != other_path by {
                    if i < p {
                        assert(new[i] == old[i]);
                    }
                }
            }
        }
    }
}

/// Recording a snapshot never gives two entries the same path, so a table
/// built by recording holds each file once.
pub proof fn law_record_keeps_paths_distinct(
    old: Seq<FileHistory>,
    new: Seq<FileHistory>,
    path: Seq<char>,
    idx: usize,
    snapshot: Snapshot,
)
    requires
        distinct_paths(old),
        recorded(old, new, path, idx, snapshot),
    ensures
        distinct_paths(new),
{
    lemma_first_path(old, path);
    if has_path(old, path) {
        let p = path_index(old, path);
        assert forall|i: int, j: int| 0 <= i < j < new.len() implies (#[trigger] new[i]).path@
            != (#[trigger] new[j]).path@ by {
            if i != p {
                assert(new[i] == old[i]);
            }
            if j != p {
                assert(new[j] == old[j]);
            }
        }
    } else {
        assert forall|i: int, j: int| 0 <= i < j < new.len() implies (#[trigger] new[i]).path@
            != (#[trigger] new[j]).path@ by {
            assert(new[i] == old[i]);
            if j < old.len() {
                assert(new[j] == old[j]);
            } else {
                assert(old[i].path@ != path);
            }
        }
    }
}

/// The files present at a commit are those whose history has a snapshot
/// there, with that snapshot's line count.
pub proof fn law_present_at_members(files: Seq<FileHistory>, idx: usize, path: String, lines: usize)
    ensures
        present_at(files, idx).contains((path, lines)) <==> exists|k: int|
            0 <= k < files.len() && (#[trigger] files[k]).path == path && files[k].spec_lines_at(idx)
                == Some(lines),
    decreases files.len(),
{
    if files.len() > 0 {
        let init = files.drop_last();
        law_present_at_members(init, idx, path, lines);
        let rest = present_at(init, idx);
        let last = files.len() - 1;
        assert forall|k: int| 0 <= k < init.len() implies #[trigger] init[k] == files[k] by {}
        if present_at(files, idx).contains((path, lines)) {
            match files.last().spec_lines_at(idx) {
                Some(n) => {
                    if !rest.contains((path, lines)) {
                        let w = choose|i: int| 0 <= i < present_at(files, idx).len() && present_at(
                            files,
                            idx,
                        )[i] == (path, lines);
                        assert(w == rest.len());
                        assert(files[last].path == path && files[last].spec_lines_at(idx) == Some(
                            lines,
                        ));
                    }
                },
                None => {},
            }
        }
        if exists|k: int|
            0 <= k < files.len() && (#[trigger] files[k]).path == path && files[k].spec_lines_at(idx)
                == Some(lines) {
            let k = choose|k: int|
                0 <= k < files.len() && (#[trigger] files[k]).path == path && files[k].spec_lines_at(
                    idx,
                ) == Some(lines);
            if k == last {
                assert(present_at(files, idx) == rest.push((path, lines)));
                assert(present_at(files, idx)[rest.len() as int] == (path, lines));
            } else {
                assert(init[k] == files[k]);
                assert(rest.contains((path, lines)));
                let w = choose|i: int| 0 <= i < rest.len() && rest[i] == (path, lines);
                match files.last().spec_lines_at(idx) {
                    Some(n) => {
                        assert(present_at(files, idx)[w] == (path, lines));
                    },
                    None => {},
                }
            }
        }
    }
}

/// The files listed at a commit are ordered by size, largest first, and are
/// exactly the files present there.
pub proof fn law_files_at_commit_sorted(files: Seq<FileHistory>, idx: usize)
    ensures
        ({
            let r = insertion_sort(present_at(files, idx), more_lines());
            &&& forall|i: int, j: int| 0 <= i < j < r.len() ==> (#[trigger] r[i]).1 >= (#[trigger] r[j]).1
            &&& r.to_multiset() =~= present_at(files, idx).to_multiset()
        }),
{
    let r = insertion_sort(present_at(files, idx), more_lines());
    assert(strict_order(more_lines()));
    lemma_insertion_sort_sorted(present_at(files, idx), more_lines());
    lemma_insertion_sort_multiset(present_at(files, idx), more_lines());
    assert forall|i: int, j: int| 0 <= i < j < r.len() implies (#[trigger] r[i]).1 >= (#[trigger] r[j]).1 by {
        assert(!(more_lines())(r[j], r[i]));
    }
}

/// Ordering by activity puts busier files first and keeps every file.
pub proof fn law_activity_order(table: Seq<FileHistory>, files: Seq<String>, start: int, end: int)
    ensures
        ({
            let r = insertion_sort(scored(table, files, start, end), busier());
            &&& sorted_by(r, busier())
            &&& forall|i: int, j: int| 0 <= i < j < r.len() ==> (#[trigger] r[i]).1 >= (#[trigger] r[j]).1
            &&& r.to_multiset() =~= scored(table, files, start, end).to_multiset()
            &&& paths_of(r).len() == files.len()
        }),
{
    let s = scored(table, files, start, end);
    let r = insertion_sort(s, busier());
    lemma_busier_strict();
    lemma_insertion_sort_sorted(s, busier());
    lemma_insertion_sort_multiset(s, busier());
    assert forall|i: int, j: int| 0 <= i < j < r.len() implies (#[trigger] r[i]).1 >= (#[trigger] r[j]).1 by {
        assert(!(busier())(r[j], r[i]));
    }
}

/// A click hits the first box that contains the point, and nothing when no
/// box does.
pub proof fn law_first_hit(boxes: Seq<HitBox>, x: u16, y: u16)
    ensures
        (forall|i: int| 0 <= i < boxes.len() ==> !rect_contains(#[trigger] boxes[i].rect@, x, y))
            ==> first_hit(boxes, x, y) == HitTarget::NoTarget,
        forall|i: int|
            0 <= i < boxes.len() && rect_contains(#[trigger] boxes[i].rect@, x, y) && (forall|j: int|
                0 <= j < i ==> !rect_contains(#[trigger] boxes[j].rect@, x, y)) ==> first_hit(boxes, x, y)
                == boxes[i].target,
    decreases boxes.len(),
{
    if boxes.len() > 0 {
        let t = boxes.drop_first();
        law_first_hit(t, x, y);
        assert forall|i: int| 0 <= i < t.len() implies #[trigger] t[i] == boxes[i + 1] by {}
        assert forall|i: int|
            0 <= i < boxes.len() && rect_contains(#[trigger] boxes[i].rect@, x, y) && (forall|j: int|
                0 <= j < i ==> !rect_contains(#[trigger] boxes[j].rect@, x, y)) implies first_hit(
            boxes,
            x,
            y,
        ) == boxes[i].target by {
            if i > 0 {
                assert(!rect_contains(boxes[0].rect@, x, y));
                assert(t[i - 1] == boxes[i]);
                assert forall|j: int| 0 <= j < i - 1 implies !rect_contains(#[trigger] t[j].rect@, x, y) by {
                    assert(t[j] == boxes[j + 1]);
                }
            }
        }
    }
}

/// Moving through the timeline never leaves the commits: the shown commit
/// is the last one at most.
pub proof fn law_scroll_stays_in_range(app: App, delta: isize)
    ensures
        app.after_scroll_timeline(delta).commit_idx <= app.last_index(),
        app.history.commit_seq().len() > 0 ==> app.after_scroll_timeline(delta).commit_idx
            < app.history.commit_seq().len(),
{
}

/// Within the commits, moving the timeline forward and back by the same
/// amount returns to the same commit.
pub proof fn law_scroll_undo(app: App, d: isize)
    requires
        0 < d,
        d != isize::MIN,
        app.commit_idx + d <= app.last_index(),
    ensures
        app.after_scroll_timeline(d).after_scroll_timeline(-d as isize).commit_idx == app.commit_idx,
{
}

/// Switching views always returns the seismic grid to its top; toggling the
/// filter twice restores it.
pub proof fn law_view_switch_resets_scroll(app: App, mode: ViewMode)
    ensures
        app.with_view(mode).seismic_scroll == 0,
        app.after_toggle_filter().after_toggle_filter().seismic_filter_inactive
            == app.seismic_filter_inactive,
        app.after_toggle_filter().after_toggle_filter().seismic_scroll == 0,
{
}

/// No key and no mouse event changes the loaded history.
pub proof fn law_input_keeps_history(app: App, key: Key, mouse: MouseInput, boxes: Seq<HitBox>)
    ensures
        key_result(app, key).history == app.history,
        mouse_result(app, mouse, boxes).history == app.history,
{
}

/// The file `path` of `files` has `p` lines at commit `i - 1` and `c` lines at
/// commit `i`.
pub open spec fn sizes_around(files: Seq<FileHistory>, path: Seq<char>, i: int, p: usize, c: usize) -> bool {
    &&& i >= 1
    &&& file_of(files, path) matches Some(f)
    &&& lines_in(f.snapshots@, (i - 1) as usize) == Some(p)
    &&& lines_in(f.snapshots@, i as usize) == Some(c)
}

/// The activity score of one commit, for a file present at it and at the
/// commit before, is the number of lines by which the file grew or shrank:
/// the same whichever of the two sizes is the larger, and zero only when the
/// size stayed the same.
pub proof fn law_score_is_size_change(files: Seq<FileHistory>, path: Seq<char>, i: int, p: usize, c: usize)
    requires
        sizes_around(files, path, i, p, c),
    ensures
        p >= c ==> path_score(files, path, i, i + 1) == p - c,
        c >= p ==> path_score(files, path, i, i + 1) == c - p,
        path_score(files, path, i, i + 1) > 0 <==> p != c,
{
    let f = file_of(files, path)->0;
    assert(score_between(f, i, i) == 0);
    assert(score_between(f, i, i + 1) == step_score(f, i));
}

/// Swapping the sizes before and after a commit leaves its activity score
/// unchanged.
pub proof fn law_score_symmetric(
    files1: Seq<FileHistory>,
    path1: Seq<char>,
    files2: Seq<FileHistory>,
    path2: Seq<char>,
    i: int,
    p: usize,
    c: usize,
)
    requires
        sizes_around(files1, path1, i, p, c),
        sizes_around(files2, path2, i, c, p),
    ensures
        path_score(files1, path1, i, i + 1) == path_score(files2, path2, i, i + 1),
{
    law_score_is_size_change(files1, path1, i, p, c);
    law_score_is_size_change(files2, path2, i, c, p);
}

/// A file that appears or disappears at a commit scores ten there.
pub proof fn law_score_of_appearing(files: Seq<FileHistory>, path: Seq<char>, i: int)
    requires
        i >= 1,
        file_of(files, path) matches Some(f) && (lines_in(f.snapshots@, (i - 1) as usize) is Some
            != lines_in(f.snapshots@, i as usize) is Some),
    ensures
        path_score(files, path, i, i + 1) == 10,
{
    let f = file_of(files, path)->0;
    assert(score_between(f, i, i) == 0);
    assert(score_between(f, i, i + 1) == step_score(f, i));
}

/// A file whose size changes at a commit is active in every window of
/// commits that holds that commit.
pub proof fn law_size_change_is_activity(
    files: Seq<FileHistory>,
    path: Seq<char>,
    start: int,
    end: int,
    i: int,
    p: usize,
    c: usize,
)
    requires
        sizes_around(files, path, i, p, c),
        p != c,
        start <= i < end,
    ensures
        match file_of(files, path) {
            Some(f) => active_in(f, start, end),
            None => false,
        },
{
    let f = file_of(files, path)->0;
    assert(changed_at(f, i));
}

/// A file is active in a window of commits exactly when it scores above zero
/// there: the filter of the grid and the order of its rows agree.
pub proof fn law_active_iff_scored(f: FileHistory, start: int, end: int)
    ensures
        active_in(f, start, end) <==> score_between(f, start, end) > 0,
    decreases end - start,
{
    if end > start {
        law_active_iff_scored(f, start, end - 1);
        assert(step_score(f, end - 1) > 0 <==> changed_at(f, end - 1));
        if active_in(f, start, end) {
            let k = choose|k: int| start <= k < end && #[trigger] changed_at(f, k);
            if k < end - 1 {
                assert(active_in(f, start, end - 1));
            }
        }
        if active_in(f, start, end - 1) {
            let k = choose|k: int| start <= k < end - 1 && #[trigger] changed_at(f, k);
            assert(active_in(f, start, end));
        }
        if changed_at(f, end - 1) {
            assert(active_in(f, start, end));
        }
    } else {
        assert(!active_in(f, start, end));
    }
}

/// For a file present at a commit and the one before, the intensity of the
/// commit is fixed by how many lines it grew or shrank: quiet for none, a
/// tremor up to ten, a quake up to fifty, major up to two hundred, and a
/// disaster beyond.
pub proof fn law_intensity_by_size_change(files: Seq<FileHistory>, path: Seq<char>, i: int, p: usize, c: usize)
    requires
        sizes_around(files, path, i, p, c),
    ensures
        path_intensity(files, path, i) == Intensity::Quiet <==> p == c,
        path_intensity(files, path, i) == Intensity::Tremor <==> (p < c <= p + 10 || c < p <= c + 10),
        path_intensity(files, path, i) == Intensity::Quake <==> (p + 10 < c <= p + 50 || c + 10 < p <= c + 50),
        path_intensity(files, path, i) == Intensity::Major <==> (p + 50 < c <= p + 200 || c + 50 < p <= c
            + 200),
        path_intensity(files, path, i) == Intensity::Disaster <==> (c > p + 200 || p > c + 200),
{
}

/// Swapping the sizes before and after a commit leaves its intensity
/// unchanged.
pub proof fn law_intensity_symmetric(
    files1: Seq<FileHistory>,
    path1: Seq<char>,
    files2: Seq<FileHistory>,
    path2: Seq<char>,
    i: int,
    p: usize,
    c: usize,
)
    requires
        sizes_around(files1, path1, i, p, c),
        sizes_around(files2, path2, i, c, p),
    ensures
        path_intensity(files1, path1, i) == path_intensity(files2, path2, i),
{
    law_intensity_by_size_change(files1, path1, i, p, c);
    law_intensity_by_size_change(files2, path2, i, c, p);
}

/// A file that appears at a commit is created there, and one that vanishes
/// is deleted.
pub proof fn law_intensity_of_appearing(files: Seq<FileHistory>, path: Seq<char>, i: int)
    requires
        i >= 1,
        file_of(files, path) is Some,
    ensures
        ({
            let f = file_of(files, path)->0;
            let before = lines_in(f.snapshots@, (i - 1) as usize);
            let now = lines_in(f.snapshots@, i as usize);
            &&& (before is None && now is Some) ==> path_intensity(files, path, i) == Intensity::Created
            &&& (before is Some && now is None) ==> path_intensity(files, path, i) == Intensity::Deleted
        }),
{
}

/// The digit key `d`, from one to the number of views, selects the view at
/// position `d - 1` of the tab bar, whose tab is labelled `[d]`; the digit
/// keys outside that range select nothing.
pub proof fn law_digit_keys_pick_tabs(d: int)
    requires
        0 <= d <= 9,
    ensures
        1 <= d <= MODE_COUNT ==> key_view(Key::Char(digit_char(d))) == Some(mode_at(d - 1)),
        1 <= d <= MODE_COUNT ==> mode_index(mode_at(d - 1)) == d - 1,
        1 <= d <= MODE_COUNT ==> tab_label(d - 1)[1] == digit_char(d),
        !(1 <= d <= MODE_COUNT) ==> key_view(Key::Char(digit_char(d))) is None,
{
    assert(tab_label(d - 1)[1] == digit_char(d));
}

/// Pressing the digit key `d` (one to the number of views) switches to the
/// view at position `d - 1` of the tab bar and scrolls the grid back to the
/// top; nothing else changes.
pub proof fn law_digit_key_switches_view(app: App, d: int)
    requires
        1 <= d <= MODE_COUNT,
    ensures
        key_result(app, Key::Char(digit_char(d))) == (App { view: mode_at(d - 1), seismic_scroll: 0, ..app }),
        mode_index(key_result(app, Key::Char(digit_char(d))).view) == d - 1,
{
    law_digit_keys_pick_tabs(d);
}

} // verus!
