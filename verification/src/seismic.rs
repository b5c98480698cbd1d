use vstd::prelude::*;
use vstd::utf8::encode_utf8;

use crate::data::{file_of, lemma_first_path, lines_in, FileHistory, History};
use crate::mouse::{clamp_extent, HitBox, HitTarget, Rect};
use crate::palette::{fg_only, paint_fg, Paint, Tone};
use crate::text::{push_char, truncate_path, truncated_path};
use crate::sorting::{
    insertion_sort, lemma_insert_pos_scan, lemma_insertion_sort_map_multiset, lemma_insertion_sort_pairwise,
    lemma_insertion_sort_sorted, strict_order,
};
use crate::views::Render;

verus! {

broadcast use vstd::string::group_string_axioms;

/// First commit of a window of `visible` commits that keeps `current` in view,
/// centred where possible: the window starts at the first commit when all
/// commits fit or `current` is near the start, and ends at the last commit
/// when `current` is near the end.
pub open spec fn window_start(total: int, visible: int, current: int, half: int) -> int {
    if total <= visible || current < half {
        0
    } else if current + half >= total {
        if total >= visible { total - visible } else { 0 }
    } else {
        if current >= half { current - half } else { 0 }
    }
}

pub fn calc_start_commit(total: usize, visible: usize, current: usize, half: usize) -> (s: usize)
    ensures
        s == window_start(total as int, visible as int, current as int, half as int),
{
    if total <= visible || current < half {
        return 0;
    }
    if half >= total || current >= total - half {
        return total.saturating_sub(visible);
    }
    current.saturating_sub(half)
}

/// The window starts inside the commits and keeps `current` in view.
pub proof fn lemma_window_contains_current(total: int, visible: int, current: int)
    requires
        0 < visible < total,
        0 <= current < total,
    ensures
        ({
            let s = window_start(total, visible, current, visible / 2);
            &&& 0 <= s
            &&& s + visible <= total
            &&& s <= current < s + visible
        }),
{
}

/// Width of one commit cell of the seismic grid.
pub const CELL_WIDTH: u16 = 2;

/// The commits `[start, end)` shown in a grid `grid_width` columns wide, one
/// cell of `CELL_WIDTH` columns per commit, or `None` when there are no
/// commits or no room for a cell.
pub open spec fn grid_window(total: int, current: int, grid_width: int) -> Option<(int, int)> {
    let visible = grid_width / (CELL_WIDTH as int);
    if total == 0 || visible == 0 {
        None
    } else {
        let start = window_start(total, visible, current, visible / 2);
        Some((start, if start + visible < total { start + visible } else { total }))
    }
}

pub fn visible_window(total: usize, current: usize, grid_width: u16) -> (w: Option<(usize, usize)>)
    ensures
        match (w, grid_window(total as int, current as int, grid_width as int)) {
            (Some((s, e)), Some((ss, ee))) => s == ss && e == ee,
            (None, None) => true,
            _ => false,
        },
{
    if total == 0 {
        return None;
    }
    let visible = (grid_width / CELL_WIDTH) as usize;
    if visible == 0 {
        return None;
    }
    let start = calc_start_commit(total, visible, current, visible / 2);
    let end = if start < total && visible < total - start {
        start + visible
    } else {
        total
    };
    Some((start, end))
}

/// Line counts of `f` at the commit before `i` (none before the first
/// commit) and at `i`.
pub open spec fn around(f: FileHistory, i: int) -> (Option<usize>, Option<usize>) {
    (
        if i == 0 {
            None
        } else {
            lines_in(f.snapshots@, (i - 1) as usize)
        },
        lines_in(f.snapshots@, i as usize),
    )
}

/// The file changed at commit `i`: it appeared, disappeared, or changed size.
pub open spec fn changed_at(f: FileHistory, i: int) -> bool {
    match around(f, i) {
        (None, Some(_)) => true,
        (Some(_), None) => true,
        (Some(p), Some(c)) => p != c,
        (None, None) => false,
    }
}

/// The file changed at some commit of `[start, end)`.
pub open spec fn active_in(f: FileHistory, start: int, end: int) -> bool {
    exists|i: int| start <= i < end && #[trigger] changed_at(f, i)
}

/// The file exists at some commit of `[start, end)`.
pub open spec fn present_in(f: FileHistory, start: int, end: int) -> bool {
    exists|i: int| start <= i < end && (#[trigger] lines_in(f.snapshots@, i as usize)) is Some
}

/// Score of commit `i`: how many lines changed, or ten when the file appeared
/// or disappeared.
pub open spec fn step_score(f: FileHistory, i: int) -> nat {
    match around(f, i) {
        (Some(p), Some(c)) => if p >= c {
            (p - c) as nat
        } else {
            (c - p) as nat
        },
        (None, None) => 0,
        _ => 10,
    }
}

/// Sum of the scores of the commits `[start, end)`.
pub open spec fn score_between(f: FileHistory, start: int, end: int) -> nat
    decreases end - start,
{
    if end <= start {
        0
    } else {
        score_between(f, start, end - 1) + step_score(f, end - 1)
    }
}

fn entry_active(f: &FileHistory, start: usize, end: usize) -> (r: bool)
    ensures
        r == active_in(*f, start as int, end as int),
{
    let mut i = start;
    while i < end
        invariant
            start <= i <= end || end <= start,
            i >= start,
            forall|k: int| start <= k < i ==> !#[trigger] changed_at(*f, k),
        decreases end - i,
    {
        let prev_lines = if i == 0 {
            None
        } else {
            f.lines_at(i - 1)
        };
        let curr_lines = f.lines_at(i);
        let changed = match (prev_lines, curr_lines) {
            (None, Some(_)) => true,
            (Some(_), None) => true,
            (Some(p), Some(c)) => p != c,
            (None, None) => false,
        };
        if changed {
            assert(changed_at(*f, i as int));
            return true;
        }
        i = i + 1;
    }
    false
}

/// Whether the file `path` changed at some commit of `[start, end)`; a file the
/// history does not know never changes.
pub fn has_activity(history: &History, path: &str, start: usize, end: usize) -> (r: bool)
    ensures
        r == match file_of(history.file_seq(), path@) {
            Some(f) => active_in(f, start as int, end as int),
            None => false,
        },
{
    let key = path.to_string();
    proof {
        lemma_first_path(history.file_seq(), path@);
    }
    match history.find_file(&key) {
        Some(k) => entry_active(&history.files()[k], start, end),
        None => false,
    }
}

proof fn lemma_score_bound(f: FileHistory, start: int, end: int)
    requires
        start <= end,
    ensures
        score_between(f, start, end) <= (end - start) * (usize::MAX as int),
    decreases end - start,
{
    if end > start {
        lemma_score_bound(f, start, end - 1);
    }
}

fn entry_score(f: &FileHistory, start: usize, end: usize) -> (s: u128)
    ensures
        s == score_between(*f, start as int, end as int),
{
    let mut score: u128 = 0;
    if end <= start {
        return 0;
    }
    let mut i = start;
    while i < end
        invariant
            start <= i <= end,
            score == score_between(*f, start as int, i as int),
        decreases end - i,
    {
        proof {
            lemma_score_bound(*f, start as int, i as int + 1);
            assert((i - start + 1) * (usize::MAX as int) <= (usize::MAX as int) * (usize::MAX as int))
                by (nonlinear_arith)
                requires
                    i - start + 1 <= usize::MAX,
            ;
            assert((usize::MAX as int) * (usize::MAX as int) <= u128::MAX) by (nonlinear_arith)
                requires
                    usize::MAX <= u64::MAX,
            ;
        }
        let prev_lines = if i == 0 {
            None
        } else {
            f.lines_at(i - 1)
        };
        let curr_lines = f.lines_at(i);
        let step: u128 = match (prev_lines, curr_lines) {
            (Some(p), Some(c)) => if p >= c {
                (p - c) as u128
            } else {
                (c - p) as u128
            },
            (None, None) => 0,
            _ => 10,
        };
        score = score + step;
        i = i + 1;
    }
    score
}

/// Activity score of the file `path` over the commits `[start, end)`: the
/// lines changed from one commit to the next, plus ten whenever the file
/// appears or disappears. A file the history does not know scores zero.
pub open spec fn path_score(files: Seq<FileHistory>, path: Seq<char>, start: int, end: int) -> nat {
    match file_of(files, path) {
        Some(f) => score_between(f, start, end),
        None => 0,
    }
}

pub fn calc_activity_score(history: &History, path: &str, start: usize, end: usize) -> (s: u128)
    ensures
        s == path_score(history.file_seq(), path@, start as int, end as int),
{
    let key = path.to_string();
    proof {
        lemma_first_path(history.file_seq(), path@);
    }
    match history.find_file(&key) {
        Some(k) => entry_score(&history.files()[k], start, end),
        None => 0,
    }
}

/// Entry `k` is the first entry for its path.
pub open spec fn first_of_path(files: Seq<FileHistory>, k: int) -> bool {
    forall|j: int| 0 <= j < k ==> (#[trigger] files[j]).path@ != files[k].path@
}

/// Paths of the files that exist somewhere in `[start, end)`, each once, in
/// table order; with `filter_inactive`, only those that also change there.
pub open spec fn collected(files: Seq<FileHistory>, start: int, end: int, filter_inactive: bool) -> Seq<String>
    decreases files.len(),
{
    if files.len() == 0 {
        Seq::empty()
    } else {
        let rest = collected(files.drop_last(), start, end, filter_inactive);
        let k = files.len() - 1;
        if first_of_path(files, k) && present_in(files[k], start, end) && (!filter_inactive
            || active_in(files[k], start, end)) {
            rest.push(files[k].path)
        } else {
            rest
        }
    }
}

fn entry_present(f: &FileHistory, start: usize, end: usize) -> (r: bool)
    ensures
        r == present_in(*f, start as int, end as int),
{
    let mut i = start;
    while i < end
        invariant
            i >= start,
            forall|k: int| start <= k < i ==> (#[trigger] lines_in(f.snapshots@, k as usize)) is None,
        decreases end - i,
    {
        if f.lines_at(i).is_some() {
            assert(start <= i as int && (i as int) < end && (lines_in(
                f.snapshots@,
                (i as int) as usize,
            )) is Some);
            return true;
        }
        i = i + 1;
    }
    false
}

fn first_of_its_path(files: &Vec<FileHistory>, k: usize) -> (r: bool)
    requires
        k < files@.len(),
    ensures
        r == first_of_path(files@, k as int),
{
    let mut j: usize = 0;
    while j < k
        invariant
            j <= k < files@.len(),
            forall|i: int| 0 <= i < j ==> (#[trigger] files@[i]).path@ != files@[k as int].path@,
        decreases k - j,
    {
        if files[j].path == files[k].path {
            return false;
        }
        j = j + 1;
    }
    true
}

/// The files to show in the seismic grid for the commits `[start, end)`.
pub fn collect_files(history: &History, start: usize, end: usize, filter_inactive: bool) -> (r: Vec<String>)
    ensures
        r@ == collected(history.file_seq(), start as int, end as int, filter_inactive),
{
    let files = history.files();
    let mut out: Vec<String> = Vec::new();
    let mut k: usize = 0;
    while k < files.len()
        invariant
            k <= files@.len(),
            out@ == collected(files@.take(k as int), start as int, end as int, filter_inactive),
        decreases files@.len() - k,
    {
        let first = first_of_its_path(files, k);
        proof {
            let t = files@.take(k + 1);
            assert(t.drop_last() =~= files@.take(k as int));
            assert(t[k as int] == files@[k as int]);
            if first_of_path(files@, k as int) {
                assert forall|j: int| 0 <= j < k implies (#[trigger] t[j]).path@ != t[k as int].path@ by {
                    assert(t[j] == files@[j]);
                }
            }
            if first_of_path(t, k as int) {
                assert forall|j: int| 0 <= j < k implies (#[trigger] files@[j]).path@
                    != files@[k as int].path@ by {
                    assert(t[j] == files@[j]);
                }
            }
        }
        if first && entry_present(&files[k], start, end) && (!filter_inactive || entry_active(
            &files[k],
            start,
            end,
        )) {
            out.push(files[k].path.clone());
        }
        k = k + 1;
    }
    assert(files@.take(k as int) =~= files@);
    out
}

/// `a` comes before `b` in lexicographic byte order.
pub open spec fn bytes_before(a: Seq<u8>, b: Seq<u8>) -> bool
    decreases a.len(),
{
    if a.len() == 0 {
        b.len() > 0
    } else if b.len() == 0 {
        false
    } else if a[0] != b[0] {
        a[0] < b[0]
    } else {
        bytes_before(a.drop_first(), b.drop_first())
    }
}

proof fn lemma_bytes_before_irreflexive(a: Seq<u8>)
    ensures
        !bytes_before(a, a),
    decreases a.len(),
{
    if a.len() > 0 {
        lemma_bytes_before_irreflexive(a.drop_first());
    }
}

proof fn lemma_bytes_before_transitive(a: Seq<u8>, b: Seq<u8>, c: Seq<u8>)
    requires
        bytes_before(a, b),
        bytes_before(b, c),
    ensures
        bytes_before(a, c),
    decreases a.len(),
{
    if a.len() > 0 && b.len() > 0 && c.len() > 0 && a[0] == b[0] && b[0] == c[0] {
        lemma_bytes_before_transitive(a.drop_first(), b.drop_first(), c.drop_first());
    }
}

/// Lexicographic comparison of byte strings, as `str` orders text.
fn bytes_less(a: &[u8], b: &[u8]) -> (r: bool)
    ensures
        r == bytes_before(a@, b@),
{
    let mut i: usize = 0;
    assert(a@.skip(0) =~= a@ && b@.skip(0) =~= b@);
    while i < a.len() && i < b.len()
        invariant
            i <= a@.len(),
            i <= b@.len(),
            bytes_before(a@, b@) == bytes_before(a@.skip(i as int), b@.skip(i as int)),
        decreases a@.len() - i,
    {
        if a[i] != b[i] {
            return a[i] < b[i];
        }
        assert(a@.skip(i as int).drop_first() =~= a@.skip(i + 1));
        assert(b@.skip(i as int).drop_first() =~= b@.skip(i + 1));
        i = i + 1;
    }
    a.len() < b.len()
}

/// `a` is shown before `b`: it has the higher activity score, or the same
/// score and the path that comes first in byte order.
pub open spec fn busier() -> spec_fn((String, u128), (String, u128)) -> bool {
    |a: (String, u128), b: (String, u128)|
        a.1 > b.1 || (a.1 == b.1 && bytes_before(encode_utf8(a.0@), encode_utf8(b.0@)))
}

/// `busier` is a strict order.
pub proof fn lemma_busier_strict()
    ensures
        strict_order(busier()),
{
    assert forall|a: (String, u128)| !#[trigger] (busier())(a, a) by {
        lemma_bytes_before_irreflexive(encode_utf8(a.0@));
    }
    assert forall|a: (String, u128), b: (String, u128), c: (String, u128)|
        #[trigger] (busier())(a, b) && #[trigger] (busier())(b, c) implies (busier())(a, c) by {
        if a.1 == b.1 && b.1 == c.1 {
            lemma_bytes_before_transitive(encode_utf8(a.0@), encode_utf8(b.0@), encode_utf8(c.0@));
        }
    }
}

/// The path `p` paired with its activity score over `[start, end)`.
pub open spec fn activity_entry(table: Seq<FileHistory>, p: String, start: int, end: int) -> (String, u128) {
    (p, path_score(table, p@, start, end) as u128)
}

/// Each path of `files` paired with its activity score over `[start, end)`.
pub open spec fn scored(table: Seq<FileHistory>, files: Seq<String>, start: int, end: int) -> Seq<(String, u128)> {
    files.map_values(|p: String| activity_entry(table, p, start, end))
}

/// Any two entries: the relation that asks nothing.
pub open spec fn any_entries() -> spec_fn((String, u128), (String, u128)) -> bool {
    |a: (String, u128), b: (String, u128)| true
}

/// The paths of `s`, in order.
pub open spec fn paths_of(s: Seq<(String, u128)>) -> Seq<String> {
    s.map_values(|e: (String, u128)| e.0)
}

/// Order `files` by activity over the commits `[start, end)`, busiest first,
/// ties by path.
pub fn sort_by_activity(history: &History, files: &[String], start: usize, end: usize) -> (r: Vec<String>)
    ensures
        r@ == paths_of(insertion_sort(scored(history.file_seq(), files@, start as int, end as int), busier())),
        r@.to_multiset() =~= files@.to_multiset(),
        forall|i: int, j: int|
            0 <= i < j < r@.len() ==> !(busier())(
                activity_entry(history.file_seq(), #[trigger] r@[j], start as int, end as int),
                activity_entry(history.file_seq(), #[trigger] r@[i], start as int, end as int),
            ),
{
    let ghost want = scored(history.file_seq(), files@, start as int, end as int);
    let mut out: Vec<(String, u128)> = Vec::new();
    let n = files.len();
    let mut i: usize = 0;
    while i < n
        invariant
            n == files@.len(),
            i <= n,
            want == scored(history.file_seq(), files@, start as int, end as int),
            want.len() == n,
            out@ == insertion_sort(want.take(i as int), busier()),
        decreases n - i,
    {
        let score = calc_activity_score(history, files[i].as_str(), start, end);
        let x = (files[i].clone(), score);
        assert(x == want[i as int]);
        let mut j: usize = 0;
        while j < out.len() && !(out[j].1 < x.1 || (out[j].1 == x.1 && bytes_less(
            x.0.as_str().as_bytes(),
            out[j].0.as_str().as_bytes(),
        )))
            invariant
                j <= out@.len(),
                forall|k: int| 0 <= k < j ==> !(busier())(x, #[trigger] out@[k]),
            decreases out@.len() - j,
        {
            j = j + 1;
        }
        proof {
            lemma_insert_pos_scan(out@, x, busier(), j as int);
            assert(want.take(i + 1).drop_last() =~= want.take(i as int));
            assert(want.take(i + 1).last() == x);
        }
        out.insert(j, x);
        i = i + 1;
    }
    assert(want.take(n as int) =~= want);
    let mut paths: Vec<String> = Vec::new();
    let mut k: usize = 0;
    while k < out.len()
        invariant
            k <= out@.len(),
            paths@ == paths_of(out@).take(k as int),
        decreases out@.len() - k,
    {
        paths.push(out[k].0.clone());
        assert(paths_of(out@).take(k + 1) =~= paths_of(out@).take(k as int).push(out@[k as int].0));
        k = k + 1;
    }
    assert(paths_of(out@).take(k as int) =~= paths_of(out@));
    proof {
        let table = history.file_seq();
        let t = insertion_sort(want, busier());
        lemma_insertion_sort_map_multiset(want, busier(), |e: (String, u128)| e.0);
        assert(paths_of(want) =~= files@);
        lemma_busier_strict();
        lemma_insertion_sort_sorted(want, busier());
        lemma_insertion_sort_pairwise(want, busier(), any_entries());
        assert forall|i: int, j: int| 0 <= i < j < paths@.len() implies !(busier())(
            activity_entry(table, #[trigger] paths@[j], start as int, end as int),
            activity_entry(table, #[trigger] paths@[i], start as int, end as int),
        ) by {
            let a = choose|a: int| 0 <= a < want.len() && want[a] == #[trigger] t[i];
            let b = choose|b: int| 0 <= b < want.len() && want[b] == #[trigger] t[j];
            assert(t[i] == activity_entry(table, paths@[i], start as int, end as int));
            assert(t[j] == activity_entry(table, paths@[j], start as int, end as int));
        }
    }
    paths
}

/// How much a file changed at one commit, as shown in a grid cell.
#[derive(Clone, Copy, Debug, PartialEq, Eq, Structural)]
pub enum Intensity {
    /// The file exists at neither this commit nor the one before.
    Blank,
    Quiet,
    Tremor,
    Quake,
    Major,
    Disaster,
    Created,
    Deleted,
}

/// Intensity of the change of `f` at commit `i`, from the size difference
/// to the commit before: none is quiet, up to ten lines a tremor, up to fifty
/// a quake, up to two hundred major, and more a disaster.
pub open spec fn intensity_of(f: FileHistory, i: int) -> Intensity {
    match around(f, i) {
        (None, None) => Intensity::Blank,
        (None, Some(_)) => Intensity::Created,
        (Some(_), None) => Intensity::Deleted,
        (Some(p), Some(c)) => {
            let diff = if p >= c {
                p - c
            } else {
                c - p
            };
            if diff == 0 {
                Intensity::Quiet
            } else if diff <= 10 {
                Intensity::Tremor
            } else if diff <= 50 {
                Intensity::Quake
            } else if diff <= 200 {
                Intensity::Major
            } else {
                Intensity::Disaster
            }
        },
    }
}

/// Intensity of the file `path` at commit `i`; blank for a file the history
/// does not know.
pub open spec fn path_intensity(files: Seq<FileHistory>, path: Seq<char>, i: int) -> Intensity {
    match file_of(files, path) {
        Some(f) => intensity_of(f, i),
        None => Intensity::Blank,
    }
}

impl Intensity {
    pub fn calc(history: &History, path: &str, commit_idx: usize) -> (r: Self)
        ensures
            r == path_intensity(history.file_seq(), path@, commit_idx as int),
    {
        let key = path.to_string();
        proof {
            lemma_first_path(history.file_seq(), path@);
        }
        let k = match history.find_file(&key) {
            Some(k) => k,
            None => {
                return Intensity::Blank;
            },
        };
        let file_hist = &history.files()[k];
        let current_lines = file_hist.lines_at(commit_idx);
        let prev_lines = if commit_idx == 0 {
            None
        } else {
            file_hist.lines_at(commit_idx - 1)
        };
        match (prev_lines, current_lines) {
            (None, None) => Intensity::Blank,
            (None, Some(_)) => Intensity::Created,
            (Some(_), None) => Intensity::Deleted,
            (Some(old), Some(new)) => {
                let diff = if old >= new {
                    old - new
                } else {
                    new - old
                };
                if diff == 0 {
                    Intensity::Quiet
                } else if diff <= 10 {
                    Intensity::Tremor
                } else if diff <= 50 {
                    Intensity::Quake
                } else if diff <= 200 {
                    Intensity::Major
                } else {
                    Intensity::Disaster
                }
            },
        }
    }
}

/// Character drawn for a cell of the given intensity.
pub open spec fn cell_glyph(i: Intensity) -> char {
    match i {
        Intensity::Blank => ' ',
        Intensity::Quiet => '·',
        Intensity::Tremor => '░',
        Intensity::Quake => '▒',
        Intensity::Major => '▓',
        Intensity::Disaster => '█',
        Intensity::Created => '+',
        Intensity::Deleted => '╳',
    }
}

/// Color of a cell of the given intensity.
pub open spec fn cell_tone(i: Intensity) -> Tone {
    match i {
        Intensity::Blank => Tone::Rgb(30, 32, 35),
        Intensity::Quiet => Tone::Rgb(30, 32, 35),
        Intensity::Tremor => Tone::Rgb(60, 80, 60),
        Intensity::Quake => Tone::Rgb(120, 140, 60),
        Intensity::Major => Tone::Rgb(200, 160, 40),
        Intensity::Disaster => Tone::Rgb(220, 60, 40),
        Intensity::Created => Tone::Rgb(40, 80, 100),
        Intensity::Deleted => Tone::Rgb(80, 40, 40),
    }
}

/// How a cell is drawn: in the cell's color, or, on the current commit, in
/// white on the cell's color.
pub open spec fn cell_paint(i: Intensity, is_current: bool) -> Paint {
    if is_current {
        Paint { fg: Some(Tone::White), bg: Some(cell_tone(i)), bold: false }
    } else {
        fg_only(cell_tone(i))
    }
}

/// The character and paint of a grid cell.
pub fn format_cell(intensity: Intensity, is_current: bool) -> (r: (String, Paint))
    ensures
        r.0@ == seq![cell_glyph(intensity)],
        r.1 == cell_paint(intensity, is_current),
{
    let (c, tone) = match intensity {
        Intensity::Blank => (' ', Tone::Rgb(30, 32, 35)),
        Intensity::Quiet => ('·', Tone::Rgb(30, 32, 35)),
        Intensity::Tremor => ('░', Tone::Rgb(60, 80, 60)),
        Intensity::Quake => ('▒', Tone::Rgb(120, 140, 60)),
        Intensity::Major => ('▓', Tone::Rgb(200, 160, 40)),
        Intensity::Disaster => ('█', Tone::Rgb(220, 60, 40)),
        Intensity::Created => ('+', Tone::Rgb(40, 80, 100)),
        Intensity::Deleted => ('╳', Tone::Rgb(80, 40, 40)),
    };
    let paint = if is_current {
        Paint { fg: Some(Tone::White), bg: Some(tone), bold: false }
    } else {
        paint_fg(tone)
    };
    let mut s = String::new();
    push_char(&mut s, c);
    (s, paint)
}

/// The cells of the row of `path` for the commits `[start, end)` that exist.
pub fn grid_cells(history: &History, path: &str, start: usize, end: usize, current: usize) -> (cells: Vec<(String, Paint)>)
    ensures
        cells@.len() == if start < end && start < history.commit_seq().len() {
            (if end < history.commit_seq().len() { end } else { history.commit_seq().len() as usize }) - start
        } else {
            0
        },
        forall|k: int|
            0 <= k < cells@.len() ==> {
                let i = start + k;
                let it = path_intensity(history.file_seq(), path@, i);
                &&& (#[trigger] cells@[k]).0@ == seq![cell_glyph(it)]
                &&& cells@[k].1 == cell_paint(it, i == current)
            },
{
    let stop = if end < history.commits().len() {
        end
    } else {
        history.commits().len()
    };
    let mut cells: Vec<(String, Paint)> = Vec::new();
    let mut i = start;
    while i < stop
        invariant
            i >= start,
            i <= stop || stop <= start,
            stop <= start ==> i == start,
            stop == (if end < history.commit_seq().len() { end } else { history.commit_seq().len() as usize }),
            cells@.len() == i - start,
            forall|k: int|
                0 <= k < cells@.len() ==> {
                    let j = start + k;
                    let it = path_intensity(history.file_seq(), path@, j);
                    &&& (#[trigger] cells@[k]).0@ == seq![cell_glyph(it)]
                    &&& cells@[k].1 == cell_paint(it, j == current)
                },
        decreases stop - i,
    {
        let intensity = Intensity::calc(history, path, i);
        cells.push(format_cell(intensity, i == current));
        i = i + 1;
    }
    cells
}

/// Register a hit box for each commit cell of `[start, end)` in the row `y`
/// of the grid, one cell every `CELL_WIDTH` columns from the grid's left edge.
pub fn register_cells(grid: Rect, y: u16, start: usize, end: usize, render: &mut Render)
    requires
        start < end ==> grid@.0 + (CELL_WIDTH as int) * (end - start - 1) <= u16::MAX,
    ensures
        final(render).hit_boxes@.len() == old(render).hit_boxes@.len() + if start < end {
            end - start
        } else {
            0
        },
        forall|k: int|
            0 <= k < old(render).hit_boxes@.len() ==> #[trigger] final(render).hit_boxes@[k]
                == old(render).hit_boxes@[k],
        forall|c: int|
            0 <= c < final(render).hit_boxes@.len() - old(render).hit_boxes@.len() ==> {
                let b = #[trigger] final(render).hit_boxes@[old(render).hit_boxes@.len() + c];
                let x = (grid@.0 + (CELL_WIDTH as int) * c) as u16;
                &&& b.rect@ == (x, y, clamp_extent(x, CELL_WIDTH), clamp_extent(y, 1))
                &&& b.target == HitTarget::SeismicCell((start + c) as usize)
            },
{
    let ghost base = render.hit_boxes@.len();
    let mut i = start;
    while i < end
        invariant
            i >= start,
            i <= end || end <= start,
            end <= start ==> i == start,
            start < end ==> grid@.0 + (CELL_WIDTH as int) * (end - start - 1) <= u16::MAX,
            base == old(render).hit_boxes@.len(),
            render.hit_boxes@.len() == base + (i - start),
            forall|k: int|
                0 <= k < base ==> #[trigger] render.hit_boxes@[k] == old(render).hit_boxes@[k],
            forall|c: int|
                0 <= c < i - start ==> {
                    let b = #[trigger] render.hit_boxes@[base + c];
                    let x = (grid@.0 + (CELL_WIDTH as int) * c) as u16;
                    &&& b.rect@ == (x, y, clamp_extent(x, CELL_WIDTH), clamp_extent(y, 1))
                    &&& b.target == HitTarget::SeismicCell((start + c) as usize)
                },
        decreases end - i,
    {
        let col = (i - start) as u16;
        let cell_x = grid.x() + col * CELL_WIDTH;
        let rect = Rect::new(cell_x, y, CELL_WIDTH, 1);
        render.hit_boxes.push(HitBox::new(rect, HitTarget::SeismicCell(i)));
        i = i + 1;
    }
}

/// Which of the grid's files are shown: from the `first`-th on, `count` of
/// them, starting at row `top`.
pub struct RowSpan {
    pub first: usize,
    pub count: usize,
    pub top: u16,
}

/// Rows of the grid for `file_count` files scrolled by `scroll` in the file
/// column `file_col`, whose first row holds the header.
pub fn row_span(file_count: usize, scroll: usize, file_col: Rect) -> (r: RowSpan)
    requires
        file_col@.1 < u16::MAX,
    ensures
        r.first == if scroll < file_count { scroll } else { file_count },
        r.count == if file_col@.3 < 1 {
            0
        } else if file_col@.3 - 1 < file_count - r.first {
            (file_col@.3 - 1) as usize
        } else {
            (file_count - r.first) as usize
        },
        r.top == file_col@.1 + 1,
        r.top + r.count <= u16::MAX,
{
    let first = if scroll < file_count {
        scroll
    } else {
        file_count
    };
    let max_rows = file_col.height().saturating_sub(1) as usize;
    let count = if max_rows < file_count - first {
        max_rows
    } else {
        file_count - first
    };
    // The column ends within the u16 range, so its rows below the header do too.
    let bottom = file_col.bottom();
    let top = file_col.y() + 1;
    assert(top + count <= bottom || file_col@.3 == 0);
    RowSpan { first, count, top }
}

/// The label of a file row: the path shortened to the column's width less
/// one, in bold cyan when the file is selected and gray otherwise.
pub fn file_label(path: &str, file_col: Rect, y: u16, selected: Option<&str>, render: &mut Render) -> (r: (String, Paint))
    ensures
        r.0@ == truncated_path(
            path@,
            if file_col@.2 >= 1 {
                (file_col@.2 - 1) as nat
            } else {
                0
            },
        ),
        r.1 == (if selected is Some && selected->0@ == path@ {
            Paint { fg: Some(Tone::Cyan), bg: None, bold: true }
        } else {
            fg_only(Tone::Gray)
        }),
        final(render).hit_boxes@.len() == old(render).hit_boxes@.len() + 1,
        forall|k: int|
            0 <= k < old(render).hit_boxes@.len() ==> #[trigger] final(render).hit_boxes@[k]
                == old(render).hit_boxes@[k],
        final(render).hit_boxes@.last().rect@ == (
            file_col@.0,
            y,
            clamp_extent(file_col@.0, file_col@.2),
            clamp_extent(y, 1),
        ),
        final(render).hit_boxes@.last().target matches HitTarget::File(p) && p@ == path@,
{
    let display_name = truncate_path(path, (file_col.width() as usize).saturating_sub(1));
    let is_selected = match selected {
        Some(s) => {
            let a = s.to_string();
            let b = path.to_string();
            a == b
        },
        None => false,
    };
    let paint = if is_selected {
        Paint { fg: Some(Tone::Cyan), bg: None, bold: true }
    } else {
        paint_fg(Tone::Gray)
    };
    let rect = Rect::new(file_col.x(), y, file_col.width(), 1);
    render.hit_boxes.push(HitBox::new(rect, HitTarget::File(path.to_string())));
    (display_name, paint)
}

} // verus!
