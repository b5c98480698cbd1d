use std::collections::HashMap;

use vstd::prelude::*;

use crate::sorting::{
    insert_pos, insertion_sort, lemma_insert_pos_props, lemma_insert_pos_scan, lemma_insertion_sort_multiset,
    lemma_insertion_sort_pairwise, lemma_insertion_sort_sorted, pairwise, sorted_by, strict_order,
};
use crate::error::TrekError;
use crate::text::take_chars;

verus! {

broadcast use vstd::std_specs::hash::group_hash_axioms;

/// Health status of a file based on change magnitude.
#[derive(Clone, Copy, Debug, PartialEq, Eq, Structural)]
pub enum Health {
    Stable,
    Grew,
    Shrank,
    Trauma,
    New,
    Deleted,
}

impl Default for Health {
    fn default() -> (h: Self)
        ensures
            h == Health::Stable,
    {
        Health::Stable
    }
}

/// Health of a file whose line count went from `old` (non-zero) to `new`:
/// below 70% of the old size is trauma, below 95% a shrink, above 105%
/// growth, and anything in between stable. An empty old file counts as new.
pub open spec fn ratio_health(old: nat, new: nat) -> Health {
    if old == 0 {
        Health::New
    } else if 100 * new < 70 * old {
        Health::Trauma
    } else if 100 * new < 95 * old {
        Health::Shrank
    } else if 100 * new > 105 * old {
        Health::Grew
    } else {
        Health::Stable
    }
}

/// Health of a file given its line count before and after, where `None`
/// means the file is absent.
pub open spec fn change_health(old: Option<usize>, new: Option<usize>) -> Health {
    match (old, new) {
        (None, None) => Health::Stable,
        (None, Some(_)) => Health::New,
        (Some(_), None) => Health::Deleted,
        (Some(o), Some(n)) => ratio_health(o as nat, n as nat),
    }
}

impl Health {
    /// Determine health from old and new line counts.
    pub fn from_change(old: Option<usize>, new: Option<usize>) -> (h: Self)
        ensures
            h == change_health(old, new),
    {
        match (old, new) {
            (None, None) => Health::Stable,
            (None, Some(_)) => Health::New,
            (Some(_), None) => Health::Deleted,
            (Some(o), Some(n)) => Health::from_ratio(o, n),
        }
    }

    fn from_ratio(old: usize, new: usize) -> (h: Self)
        ensures
            h == ratio_health(old as nat, new as nat),
    {
        if old == 0 {
            return Health::New;
        }
        let o = old as u128;
        let n = new as u128;
        if n * 100 < o * 70 {
            Health::Trauma
        } else if n * 100 < o * 95 {
            Health::Shrank
        } else if n * 100 > o * 105 {
            Health::Grew
        } else {
            Health::Stable
        }
    }
}

/// Snapshot of a file at a specific commit: its size in lines and in bytes.
#[derive(Clone, Copy, Debug, PartialEq, Eq, Structural)]
pub struct Snapshot {
    pub lines: usize,
    pub bytes: usize,
}

/// A file tracked across commits: its path and its snapshots keyed by commit
/// index.
#[derive(Clone, Debug)]
pub struct FileHistory {
    pub path: String,
    pub snapshots: HashMap<usize, Snapshot>,
}

impl Default for FileHistory {
    fn default() -> (f: Self)
        ensures
            f.path@ == Seq::<char>::empty(),
            f.snapshots@ == Map::<usize, Snapshot>::empty(),
    {
        FileHistory { path: String::new(), snapshots: HashMap::new() }
    }
}

/// Line count recorded in `snapshots` for commit `idx`, if any.
pub open spec fn lines_in(snapshots: Map<usize, Snapshot>, idx: usize) -> Option<usize> {
    if snapshots.contains_key(idx) {
        Some(snapshots[idx].lines)
    } else {
        None
    }
}

impl FileHistory {
    /// A file with no snapshots yet.
    pub fn new(path: String) -> (f: Self)
        ensures
            f.path == path,
            f.snapshots@ == Map::<usize, Snapshot>::empty(),
    {
        FileHistory { path, snapshots: HashMap::new() }
    }

    /// Line count of the file at commit `idx`, if it existed there.
    pub open spec fn spec_lines_at(&self, idx: usize) -> Option<usize> {
        lines_in(self.snapshots@, idx)
    }

    /// Health of the file at `commit_idx` compared with `prev_idx`.
    pub open spec fn spec_health_at(&self, commit_idx: usize, prev_idx: Option<usize>) -> Health {
        let old = match prev_idx {
            Some(i) => self.spec_lines_at(i),
            None => None,
        };
        change_health(old, self.spec_lines_at(commit_idx))
    }

    pub fn lines_at(&self, commit_idx: usize) -> (r: Option<usize>)
        ensures
            r == self.spec_lines_at(commit_idx),
    {
        match self.snapshots.get(&commit_idx) {
            Some(s) => Some(s.lines),
            None => None,
        }
    }

    pub fn health_at(&self, commit_idx: usize, prev_idx: Option<usize>) -> (h: Health)
        ensures
            h == self.spec_health_at(commit_idx, prev_idx),
    {
        let new_lines = self.lines_at(commit_idx);
        let old_lines = match prev_idx {
            Some(i) => self.lines_at(i),
            None => None,
        };
        Health::from_change(old_lines, new_lines)
    }
}

/// The lowercase hexadecimal digits.
pub open spec fn hex_alphabet() -> Seq<char> {
    seq!['0', '1', '2', '3', '4', '5', '6', '7', '8', '9', 'a', 'b', 'c', 'd', 'e', 'f']
}

/// Lowercase hexadecimal form of `bytes`, two digits per byte, high nibble first.
pub open spec fn hex_lower(bytes: Seq<u8>) -> Seq<char>
    decreases bytes.len(),
{
    if bytes.len() == 0 {
        Seq::empty()
    } else {
        seq![hex_alphabet()[(bytes[0] / 16) as int], hex_alphabet()[(bytes[0] % 16) as int]] + hex_lower(
            bytes.drop_first(),
        )
    }
}

proof fn lemma_hex_lower_len(bytes: Seq<u8>)
    ensures
        hex_lower(bytes).len() == 2 * bytes.len(),
    decreases bytes.len(),
{
    if bytes.len() > 0 {
        lemma_hex_lower_len(bytes.drop_first());
    }
}

/// `git2::Oid::from_bytes` and then `to_string` (`Display` for `Oid`):
/// libgit2's `git_oid_tostr` writes each of the twenty bytes as two lowercase
/// hexadecimal digits, high nibble first. `from_bytes` fails only when the
/// slice is not twenty bytes long, which an array of twenty cannot be.
#[verifier::external_body]
fn oid_hex(bytes: &[u8; 20]) -> (s: String)
    ensures
        s@ == hex_lower(bytes@),
{
    match git2::Oid::from_bytes(bytes) {
        Ok(oid) => oid.to_string(),
        Err(_) => String::new(),
    }
}

/// Information about a single commit: its object id (the twenty raw bytes),
/// the abbreviated id shown to the user, and the summary line.
#[derive(Clone, Debug)]
pub struct Commit {
    pub oid: [u8; 20],
    pub short_oid: String,
    pub summary: String,
}

impl Commit {
    /// The short id is the first eight hexadecimal digits of the object id.
    pub fn new(oid: [u8; 20], summary: String) -> (c: Self)
        ensures
            c.oid == oid,
            c.summary == summary,
            c.short_oid@ == hex_lower(oid@).take(8),
    {
        let hex = oid_hex(&oid);
        proof {
            lemma_hex_lower_len(oid@);
        }
        let short_oid = take_chars(hex.as_str(), 8);
        Commit { oid, short_oid, summary }
    }
}

/// Number of newline bytes in `content`.
pub open spec fn newline_count(content: Seq<u8>) -> nat
    decreases content.len(),
{
    if content.len() == 0 {
        0
    } else {
        newline_count(content.drop_last()) + if content.last() == 10u8 {
            1nat
        } else {
            0nat
        }
    }
}

/// Count lines in a byte slice: the number of newline bytes.
pub fn count_lines(content: &[u8]) -> (n: usize)
    ensures
        n == newline_count(content@),
{
    let mut n: usize = 0;
    let mut i: usize = 0;
    while i < content.len()
        invariant
            i <= content@.len(),
            n == newline_count(content@.take(i as int)),
            n <= i,
        decreases content@.len() - i,
    {
        assert(content@.take(i + 1).drop_last() =~= content@.take(i as int));
        if content[i] == 10u8 {
            n = n + 1;
        }
        i = i + 1;
    }
    assert(content@.take(i as int) =~= content@);
    n
}

/// `path` is the path of entry `i`, and of no entry before it.
pub open spec fn is_first_path(files: Seq<FileHistory>, path: Seq<char>, i: int) -> bool {
    &&& 0 <= i < files.len()
    &&& files[i].path@ == path
    &&& forall|j: int| 0 <= j < i ==> (#[trigger] files[j]).path@ != path
}

/// Some entry has the path `path`.
pub open spec fn has_path(files: Seq<FileHistory>, path: Seq<char>) -> bool {
    exists|i: int| 0 <= i < files.len() && (#[trigger] files[i]).path@ == path
}

/// Index of the first entry with the path `path` (meaningful when there is one).
pub open spec fn path_index(files: Seq<FileHistory>, path: Seq<char>) -> int {
    choose|i: int| is_first_path(files, path, i)
}

/// The history of the file `path`, if the table has one.
pub open spec fn file_of(files: Seq<FileHistory>, path: Seq<char>) -> Option<FileHistory> {
    if has_path(files, path) {
        Some(files[path_index(files, path)])
    } else {
        None
    }
}

proof fn lemma_first_below(files: Seq<FileHistory>, path: Seq<char>, w: int)
    requires
        0 <= w < files.len(),
        files[w].path@ == path,
    ensures
        exists|i: int| is_first_path(files, path, i),
    decreases w,
{
    if exists|j: int| 0 <= j < w && (#[trigger] files[j]).path@ == path {
        let j = choose|j: int| 0 <= j < w && (#[trigger] files[j]).path@ == path;
        lemma_first_below(files, path, j);
    } else {
        assert(is_first_path(files, path, w));
    }
}

/// There is at most one first entry for a path, and there is one whenever
/// some entry has the path.
pub proof fn lemma_first_path(files: Seq<FileHistory>, path: Seq<char>)
    ensures
        has_path(files, path) ==> is_first_path(files, path, path_index(files, path)),
        forall|i: int| #[trigger] is_first_path(files, path, i) ==> i == path_index(files, path),
{
    if has_path(files, path) {
        let w = choose|i: int| 0 <= i < files.len() && (#[trigger] files[i]).path@ == path;
        lemma_first_below(files, path, w);
    }
    assert forall|i: int| #[trigger] is_first_path(files, path, i) implies i == path_index(files, path) by {
        let p = path_index(files, path);
        assert(is_first_path(files, path, p));
        if i < p {
            assert(files[i].path@ != path);
        } else if p < i {
            assert(files[p].path@ != path);
        }
    }
}

/// No two entries of the table have the same path.
pub open spec fn distinct_paths(files: Seq<FileHistory>) -> bool {
    forall|i: int, j: int| 0 <= i < j < files.len() ==> (#[trigger] files[i]).path@ != (#[trigger] files[j]).path@
}

/// Line count of each file present at commit `idx`, in table order.
pub open spec fn present_at(files: Seq<FileHistory>, idx: usize) -> Seq<(String, usize)>
    decreases files.len(),
{
    if files.len() == 0 {
        Seq::empty()
    } else {
        let rest = present_at(files.drop_last(), idx);
        match files.last().spec_lines_at(idx) {
            Some(n) => rest.push((files.last().path, n)),
            None => rest,
        }
    }
}

/// No path occurs twice among the entries.
pub open spec fn distinct_entries(r: Seq<(String, usize)>) -> bool {
    forall|i: int, j: int| 0 <= i < j < r.len() ==> (#[trigger] r[i]).0@ != (#[trigger] r[j]).0@
}

/// Two entries have different paths.
pub open spec fn other_path() -> spec_fn((String, usize), (String, usize)) -> bool {
    |a: (String, usize), b: (String, usize)| a.0@ != b.0@
}

/// Each entry present at `idx` carries the path of some file of the table,
/// and a table without repeated paths lists no path twice.
proof fn lemma_present_at_distinct(files: Seq<FileHistory>, idx: usize)
    ensures
        forall|i: int|
            0 <= i < present_at(files, idx).len() ==> exists|k: int|
                0 <= k < files.len() && files[k].path == (#[trigger] present_at(files, idx)[i]).0,
        distinct_paths(files) ==> pairwise(present_at(files, idx), other_path()),
    decreases files.len(),
{
    if files.len() > 0 {
        let init = files.drop_last();
        lemma_present_at_distinct(init, idx);
        let rest = present_at(init, idx);
        let r = present_at(files, idx);
        assert forall|i: int| 0 <= i < r.len() implies exists|k: int|
            0 <= k < files.len() && files[k].path == (#[trigger] r[i]).0 by {
            if i < rest.len() {
                assert(r[i] == rest[i]);
                let k = choose|k: int| 0 <= k < init.len() && init[k].path == (#[trigger] rest[i]).0;
                assert(files[k] == init[k]);
            } else {
                assert(files[files.len() - 1].path == r[i].0);
            }
        }
        if distinct_paths(files) {
            assert forall|i: int, j: int| 0 <= i < j < init.len() implies (#[trigger] init[i]).path@
                != (#[trigger] init[j]).path@ by {
                assert(init[i] == files[i] && init[j] == files[j]);
            }
            assert forall|i: int, j: int| 0 <= i < j < r.len() implies (other_path())(#[trigger] r[i], #[trigger] r[j]) by {
                assert(r[i] == rest[i]);
                if j < rest.len() {
                    assert(r[j] == rest[j]);
                } else {
                    let k = choose|k: int| 0 <= k < init.len() && init[k].path == (#[trigger] rest[i]).0;
                    assert(files[k] == init[k]);
                    assert(r[j].0 == files[files.len() - 1].path);
                    assert(files[k].path@ != files[files.len() - 1].path@);
                }
            }
        }
    }
}

/// `a` comes strictly before `b` when it has more lines.
pub open spec fn more_lines() -> spec_fn((String, usize), (String, usize)) -> bool {
    |a: (String, usize), b: (String, usize)| a.1 > b.1
}

/// Any two relations hold: the relation that asks nothing.
pub open spec fn any_pair() -> spec_fn((String, usize), (String, usize)) -> bool {
    |a: (String, usize), b: (String, usize)| true
}

/// Sorting by line count is stable: two entries with the same line count
/// come in the order they had before.
proof fn lemma_more_lines_stable(s: Seq<(String, usize)>)
    ensures
        forall|i: int, j: int|
            0 <= i < j < insertion_sort(s, more_lines()).len() && (#[trigger] insertion_sort(s, more_lines())[i]).1
                == (#[trigger] insertion_sort(s, more_lines())[j]).1 ==> exists|a: int, b: int|
                0 <= a < b < s.len() && #[trigger] s[a] == insertion_sort(s, more_lines())[i] && #[trigger] s[b]
                    == insertion_sort(s, more_lines())[j],
    decreases s.len(),
{
    if s.len() > 0 {
        let init = s.drop_last();
        let x = s.last();
        let n = s.len() - 1;
        lemma_more_lines_stable(init);
        let t = insertion_sort(init, more_lines());
        lemma_insertion_sort_pairwise(init, more_lines(), any_pair());
        assert(strict_order(more_lines()));
        lemma_insertion_sort_sorted(init, more_lines());
        lemma_insert_pos_props(t, x, more_lines());
        let p = insert_pos(t, x, more_lines()) as int;
        let r = t.insert(p, x);
        t.insert_ensures(p, x);
        assert(r == insertion_sort(s, more_lines()));
        assert forall|i: int, j: int| 0 <= i < j < r.len() && (#[trigger] r[i]).1 == (#[trigger] r[j]).1 implies exists|a: int, b: int|
            0 <= a < b < s.len() && #[trigger] s[a] == r[i] && #[trigger] s[b] == r[j] by {
            if i == p {
                assert(r[j] == t[j - 1]);
                assert(p < t.len());
                assert((more_lines())(x, t[p]));
                if j - 1 > p {
                    assert(!(more_lines())(t[j - 1], t[p]));
                }
                assert(false);
            } else if j == p {
                assert(r[i] == t[i]);
                let a = choose|a: int| 0 <= a < init.len() && init[a] == #[trigger] t[i];
                assert(s[a] == r[i]);
                assert(s[n] == r[j]);
            } else {
                let mi = if i < p { i } else { i - 1 };
                let mj = if j < p { j } else { j - 1 };
                assert(r[i] == t[mi] && r[j] == t[mj]);
                assert(mi < mj);
                let (a, b) = choose|a: int, b: int|
                    0 <= a < b < init.len() && #[trigger] init[a] == t[mi] && #[trigger] init[b] == t[mj];
                assert(s[a] == init[a] && s[b] == init[b]);
            }
        }
    }
}

/// The entries of `v` ordered by line count, largest first; entries with equal
/// line counts keep their relative order.
fn sort_by_lines(v: &Vec<(String, usize)>) -> (r: Vec<(String, usize)>)
    ensures
        r@ == insertion_sort(v@, more_lines()),
{
    let mut out: Vec<(String, usize)> = Vec::new();
    let n = v.len();
    let mut i: usize = 0;
    while i < n
        invariant
            n == v@.len(),
            i <= n,
            out@ == insertion_sort(v@.take(i as int), more_lines()),
        decreases n - i,
    {
        let x = (v[i].0.clone(), v[i].1);
        assert(x == v@[i as int]);
        let mut j: usize = 0;
        while j < out.len() && out[j].1 >= x.1
            invariant
                j <= out@.len(),
                forall|k: int| 0 <= k < j ==> !(more_lines())(x, #[trigger] out@[k]),
            decreases out@.len() - j,
        {
            j = j + 1;
        }
        proof {
            lemma_insert_pos_scan(out@, x, more_lines(), j as int);
            assert(v@.take(i + 1).drop_last() =~= v@.take(i as int));
            assert(v@.take(i + 1).last() == x);
        }
        out.insert(j, x);
        i = i + 1;
    }
    assert(v@.take(n as int) =~= v@);
    out
}

/// `new` is `old` after recording `snapshot` for `path` at commit `idx`:
/// the snapshot goes into the first entry for `path`, or into a new entry at
/// the end when the table has none.
pub open spec fn recorded(
    old: Seq<FileHistory>,
    new: Seq<FileHistory>,
    path: Seq<char>,
    idx: usize,
    snapshot: Snapshot,
) -> bool {
    if has_path(old, path) {
        let p = path_index(old, path);
        &&& new.len() == old.len()
        &&& forall|k: int| 0 <= k < old.len() && k != p ==> #[trigger] new[k] == old[k]
        &&& new[p].path == old[p].path
        &&& new[p].snapshots@ == old[p].snapshots@.insert(idx, snapshot)
    } else {
        &&& new.len() == old.len() + 1
        &&& forall|k: int| 0 <= k < old.len() ==> #[trigger] new[k] == old[k]
        &&& new[old.len() as int].path@ == path
        &&& new[old.len() as int].snapshots@ == Map::<usize, Snapshot>::empty().insert(idx, snapshot)
    }
}

/// Complete repository data loaded for visualization: the commits, newest
/// first, and one history per file path. No path has two histories: the
/// table is kept as a map from paths to histories.
pub struct History {
    commits: Vec<Commit>,
    files: Vec<FileHistory>,
}

impl History {
    /// No two entries of the file table have the same path.
    #[verifier::type_invariant]
    spec fn paths_distinct(self) -> bool {
        distinct_paths(self.files@)
    }

    /// The commits, newest first.
    pub closed spec fn commit_seq(self) -> Seq<Commit> {
        self.commits@
    }

    /// The file table, one entry per path.
    pub closed spec fn file_seq(self) -> Seq<FileHistory> {
        self.files@
    }
}

impl Clone for History {
    /// A copy with the same commits and, entry by entry, the same file table.
    fn clone(&self) -> (r: Self)
        ensures
            r.commit_seq().len() == self.commit_seq().len(),
            forall|i: int|
                0 <= i < self.commit_seq().len() ==> (#[trigger] r.commit_seq()[i]).oid
                    == self.commit_seq()[i].oid && r.commit_seq()[i].short_oid@
                    == self.commit_seq()[i].short_oid@ && r.commit_seq()[i].summary@
                    == self.commit_seq()[i].summary@,
            r.file_seq().len() == self.file_seq().len(),
            forall|i: int|
                0 <= i < self.file_seq().len() ==> (#[trigger] r.file_seq()[i]).path@
                    == self.file_seq()[i].path@ && r.file_seq()[i].snapshots@
                    == self.file_seq()[i].snapshots@,
    {
        proof {
            use_type_invariant(self);
        }
        let mut commits: Vec<Commit> = Vec::new();
        let mut i: usize = 0;
        while i < self.commits.len()
            invariant
                i <= self.commits@.len(),
                commits@.len() == i,
                forall|k: int|
                    0 <= k < i ==> (#[trigger] commits@[k]).oid == self.commits@[k].oid
                        && commits@[k].short_oid@ == self.commits@[k].short_oid@
                        && commits@[k].summary@ == self.commits@[k].summary@,
            decreases self.commits@.len() - i,
        {
            let c = &self.commits[i];
            commits.push(
                Commit { oid: c.oid, short_oid: c.short_oid.clone(), summary: c.summary.clone() },
            );
            i = i + 1;
        }
        let mut files: Vec<FileHistory> = Vec::new();
        let mut j: usize = 0;
        while j < self.files.len()
            invariant
                j <= self.files@.len(),
                files@.len() == j,
                distinct_paths(self.files@),
                forall|k: int|
                    0 <= k < j ==> (#[trigger] files@[k]).path@ == self.files@[k].path@
                        && files@[k].snapshots@ == self.files@[k].snapshots@,
            decreases self.files@.len() - j,
        {
            let f = &self.files[j];
            files.push(FileHistory { path: f.path.clone(), snapshots: f.snapshots.clone() });
            j = j + 1;
        }
        assert forall|a: int, b: int| 0 <= a < b < files@.len() implies (#[trigger] files@[a]).path@
            != (#[trigger] files@[b]).path@ by {
            assert(self.files@[a].path@ != self.files@[b].path@);
        }
        History { commits, files }
    }
}

impl Default for History {
    fn default() -> (h: Self)
        ensures
            h.commit_seq().len() == 0,
            h.file_seq().len() == 0,
            distinct_paths(h.file_seq()),
    {
        History { commits: Vec::new(), files: Vec::new() }
    }
}

impl History {
    pub fn new() -> (h: Self)
        ensures
            h.commit_seq().len() == 0,
            h.file_seq().len() == 0,
            distinct_paths(h.file_seq()),
    {
        History::default()
    }

    /// The empty history that loading `commit_count` commits starts from;
    /// with no commits to load there is nothing to show, and loading is
    /// refused with `NoCommits`.
    pub fn start_loading(commit_count: usize) -> (r: Result<Self, TrekError>)
        ensures
            r is Ok <==> commit_count > 0,
            r matches Ok(h) ==> h.commit_seq().len() == 0 && h.file_seq().len() == 0,
            r is Err ==> r matches Err(TrekError::NoCommits),
    {
        if commit_count == 0 {
            return Err(TrekError::NoCommits);
        }
        Ok(History::new())
    }

    /// The commits, newest first.
    pub fn commits(&self) -> (r: &Vec<Commit>)
        ensures
            r@ == self.commit_seq(),
    {
        &self.commits
    }

    /// The file table.
    pub fn files(&self) -> (r: &Vec<FileHistory>)
        ensures
            r@ == self.file_seq(),
            distinct_paths(r@),
    {
        proof {
            use_type_invariant(self);
        }
        &self.files
    }

    /// Append `commit` as the oldest commit so far.
    pub fn push_commit(&mut self, commit: Commit)
        ensures
            final(self).commit_seq() == old(self).commit_seq().push(commit),
            final(self).file_seq() == old(self).file_seq(),
    {
        proof {
            use_type_invariant(&*self);
        }
        let mut commits: Vec<Commit> = Vec::new();
        std::mem::swap(&mut commits, &mut self.commits);
        commits.push(commit);
        self.commits = commits;
    }

    /// Position of the entry for `path`.
    pub fn find_file(&self, path: &String) -> (r: Option<usize>)
        ensures
            match r {
                Some(i) => is_first_path(self.file_seq(), path@, i as int),
                None => !has_path(self.file_seq(), path@),
            },
    {
        let mut i: usize = 0;
        while i < self.files.len()
            invariant
                i <= self.files@.len(),
                forall|j: int| 0 <= j < i ==> (#[trigger] self.files@[j]).path@ != path@,
            decreases self.files@.len() - i,
        {
            if self.files[i].path == *path {
                return Some(i);
            }
            i = i + 1;
        }
        None
    }

    /// Record that the file `path` has content `content` at commit `commit_idx`.
    pub fn record_file(&mut self, path: String, commit_idx: usize, content: &[u8])
        ensures
            final(self).commit_seq() == old(self).commit_seq(),
            recorded(
                old(self).file_seq(),
                final(self).file_seq(),
                path@,
                commit_idx,
                Snapshot { lines: newline_count(content@) as usize, bytes: content@.len() as usize },
            ),
            distinct_paths(final(self).file_seq()),
    {
        proof {
            use_type_invariant(&*self);
        }
        let snapshot = Snapshot { lines: count_lines(content), bytes: content.len() };
        let ghost path_view = path@;
        let found = self.find_file(&path);
        proof {
            lemma_first_path(old(self).files@, path@);
        }
        let mut files: Vec<FileHistory> = Vec::new();
        std::mem::swap(&mut files, &mut self.files);
        match found {
            Some(i) => {
                files[i].snapshots.insert(commit_idx, snapshot);
            },
            None => {
                let mut fh = FileHistory::new(path);
                fh.snapshots.insert(commit_idx, snapshot);
                files.push(fh);
            },
        }
        proof {
            crate::laws::law_record_keeps_paths_distinct(
                old(self).files@,
                files@,
                path_view,
                commit_idx,
                snapshot,
            );
        }
        self.files = files;
    }

    /// Files present at `commit_idx` with their line counts, largest first.
    pub fn files_at_commit(&self, commit_idx: usize) -> (r: Vec<(String, usize)>)
        ensures
            r@ == insertion_sort(present_at(self.file_seq(), commit_idx), more_lines()),
            forall|i: int, j: int| 0 <= i < j < r@.len() ==> (#[trigger] r@[i]).1 >= (#[trigger] r@[j]).1,
            r@.to_multiset() =~= present_at(self.file_seq(), commit_idx).to_multiset(),
            forall|i: int, j: int|
                0 <= i < j < r@.len() && (#[trigger] r@[i]).1 == (#[trigger] r@[j]).1 ==> exists|a: int, b: int|
                    0 <= a < b < present_at(self.file_seq(), commit_idx).len()
                        && #[trigger] present_at(self.file_seq(), commit_idx)[a] == r@[i]
                        && #[trigger] present_at(self.file_seq(), commit_idx)[b] == r@[j],
            distinct_entries(r@),
    {
        let mut present: Vec<(String, usize)> = Vec::new();
        let mut i: usize = 0;
        while i < self.files.len()
            invariant
                i <= self.files@.len(),
                present@ == present_at(self.files@.take(i as int), commit_idx),
            decreases self.files@.len() - i,
        {
            assert(self.files@.take(i + 1).drop_last() =~= self.files@.take(i as int));
            assert(self.files@.take(i + 1).last() == self.files@[i as int]);
            match self.files[i].lines_at(commit_idx) {
                Some(n) => {
                    present.push((self.files[i].path.clone(), n));
                },
                None => {},
            }
            i = i + 1;
        }
        assert(self.files@.take(i as int) =~= self.files@);
        let r = sort_by_lines(&present);
        proof {
            use_type_invariant(self);
            crate::laws::law_files_at_commit_sorted(self.files@, commit_idx);
            lemma_more_lines_stable(present@);
            lemma_present_at_distinct(self.files@, commit_idx);
            {
                lemma_insertion_sort_pairwise(present@, more_lines(), other_path());
                assert forall|i: int, j: int| 0 <= i < j < r@.len() implies (#[trigger] r@[i]).0@
                    != (#[trigger] r@[j]).0@ by {
                    assert((other_path())(r@[i], r@[j]));
                }
            }
        }
        r
    }
}

} // verus!
