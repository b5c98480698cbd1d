use git_trek::data::{count_lines, Commit, FileHistory, Health, History, Snapshot};
use git_trek::error::{decode_content, TrekError};

fn oid(first: [u8; 4]) -> [u8; 20] {
    let mut bytes = [0u8; 20];
    bytes[..4].copy_from_slice(&first);
    bytes
}

fn lines(n: usize) -> Vec<u8> {
    let mut v = Vec::new();
    for _ in 0..n {
        v.extend_from_slice(b"x\n");
    }
    v
}

#[test]
fn count_lines_counts_newlines() {
    assert_eq!(count_lines(b""), 0);
    assert_eq!(count_lines(b"no newline"), 0);
    assert_eq!(count_lines(b"a\nb\n"), 2);
    assert_eq!(count_lines(b"\n\n\nlast"), 3);
}

#[test]
fn commit_short_id_is_first_eight_hex_digits() {
    let c = Commit::new(oid([0xab, 0xcd, 0x01, 0x23]), "Initial commit".to_string());
    assert_eq!(c.short_oid, "abcd0123");
    assert_eq!(c.summary, "Initial commit");
    assert_eq!(c.oid[0], 0xab);
    let z = Commit::new([0u8; 20], String::new());
    assert_eq!(z.short_oid, "00000000");
}

#[test]
fn record_file_then_read_back() {
    let mut h = History::new();
    h.record_file("src/a.rs".to_string(), 0, &lines(3));
    h.record_file("src/a.rs".to_string(), 1, &lines(5));
    h.record_file("README.md".to_string(), 0, &lines(7));
    assert_eq!(h.files().len(), 2);
    assert_eq!(h.files()[0].path, "src/a.rs");
    assert_eq!(h.files()[0].lines_at(0), Some(3));
    assert_eq!(h.files()[0].lines_at(1), Some(5));
    assert_eq!(h.files()[0].snapshots.get(&1).map(|s| s.bytes), Some(10));
    assert_eq!(h.files()[1].lines_at(0), Some(7));
    assert_eq!(h.files()[1].lines_at(1), None);
    // Recording again at the same commit replaces the count.
    h.record_file("src/a.rs".to_string(), 0, &lines(4));
    assert_eq!(h.files()[0].lines_at(0), Some(4));
    assert_eq!(h.find_file(&"README.md".to_string()), Some(1));
    assert_eq!(h.find_file(&"missing".to_string()), None);
}

#[test]
fn files_at_commit_largest_first_ties_in_table_order() {
    let mut h = History::new();
    h.record_file("a.rs".to_string(), 0, &lines(3));
    h.record_file("b.rs".to_string(), 0, &lines(10));
    h.record_file("c.rs".to_string(), 0, &lines(3));
    h.record_file("d.rs".to_string(), 1, &lines(50));
    let at0 = h.files_at_commit(0);
    assert_eq!(
        at0,
        vec![("b.rs".to_string(), 10), ("a.rs".to_string(), 3), ("c.rs".to_string(), 3)]
    );
    assert_eq!(h.files_at_commit(1), vec![("d.rs".to_string(), 50)]);
    assert!(h.files_at_commit(2).is_empty());
}

#[test]
fn health_depends_only_on_ratio() {
    assert_eq!(Health::from_change(Some(10), Some(6)), Health::from_change(Some(1000), Some(600)));
    assert_eq!(Health::from_change(Some(20), Some(19)), Health::Stable);
    assert_eq!(Health::from_change(Some(0), Some(0)), Health::New);
    assert_eq!(Health::from_change(Some(7), Some(7)), Health::Stable);
    assert_eq!(Health::default(), Health::Stable);
}

#[test]
fn health_at_without_snapshot_is_deleted_or_stable() {
    let mut f = FileHistory::default();
    assert_eq!(f.path, "");
    f.snapshots.insert(3, Snapshot { lines: 10, bytes: 20 });
    assert_eq!(f.health_at(4, Some(3)), Health::Deleted);
    assert_eq!(f.health_at(4, Some(5)), Health::Stable);
    assert_eq!(f.health_at(3, Some(4)), Health::New);
}

#[test]
fn decode_content_accepts_utf8_only() {
    match decode_content("héllo\n".as_bytes()) {
        Ok(s) => assert_eq!(s, "héllo\n"),
        Err(e) => panic!("unexpected error {e:?}"),
    }
    assert!(matches!(decode_content(&[0x66, 0xff, 0x66]), Err(TrekError::InvalidUtf8)));
}

#[test]
fn health_never_worsens_as_the_new_size_grows() {
    fn rank(h: Health) -> u8 {
        match h {
            Health::Trauma => 0,
            Health::Shrank => 1,
            Health::Stable => 2,
            Health::Grew => 3,
            _ => 4,
        }
    }
    let mut last = 0;
    for n in 0..300 {
        let r = rank(Health::from_change(Some(100), Some(n)));
        assert!(r >= last);
        last = r;
    }
}

#[test]
fn loading_needs_a_commit() {
    assert!(matches!(History::start_loading(0), Err(TrekError::NoCommits)));
    let h = History::start_loading(3).ok().unwrap();
    assert!(h.commits().is_empty());
    assert!(h.files().is_empty());
}

#[test]
fn files_at_commit_lists_each_recorded_path_once() {
    let mut h = History::new();
    h.record_file("a.rs".to_string(), 0, &lines(3));
    h.record_file("b.rs".to_string(), 0, &lines(5));
    h.record_file("a.rs".to_string(), 0, &lines(7));
    assert_eq!(h.files().len(), 2);
    let listed = h.files_at_commit(0);
    assert_eq!(listed, vec![("a.rs".to_string(), 7), ("b.rs".to_string(), 5)]);
}

#[test]
fn cloned_history_has_the_same_commits_and_files() {
    let mut h = History::new();
    h.push_commit(Commit::new(oid([1, 2, 3, 4]), "one".to_string()));
    h.record_file("a.rs".to_string(), 0, &lines(2));
    h.record_file("b.rs".to_string(), 0, &lines(9));
    let c = h.clone();
    assert_eq!(c.commits().len(), 1);
    assert_eq!(c.commits()[0].short_oid, "01020304");
    assert_eq!(c.commits()[0].summary, "one");
    assert_eq!(c.files().len(), 2);
    assert_eq!(c.files_at_commit(0), h.files_at_commit(0));
}
