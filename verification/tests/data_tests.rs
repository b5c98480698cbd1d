use git_trek::data::{FileHistory, Health, Snapshot};

#[test]
fn test_health_none_to_none_is_stable() {
    assert_eq!(Health::from_change(None, None), Health::Stable);
}

#[test]
fn test_health_none_to_some_is_new() {
    assert_eq!(Health::from_change(None, Some(100)), Health::New);
}

#[test]
fn test_health_some_to_none_is_deleted() {
    assert_eq!(Health::from_change(Some(100), None), Health::Deleted);
}

#[test]
fn test_health_ratio_under_70_is_fucked() {
    assert_eq!(Health::from_change(Some(100), Some(69)), Health::Trauma);
    assert_eq!(Health::from_change(Some(100), Some(50)), Health::Trauma);
}

#[test]
fn test_health_ratio_70_to_95_is_shrank() {
    assert_eq!(Health::from_change(Some(100), Some(70)), Health::Shrank);
    assert_eq!(Health::from_change(Some(100), Some(94)), Health::Shrank);
}

#[test]
fn test_health_ratio_95_to_105_is_stable() {
    assert_eq!(Health::from_change(Some(100), Some(95)), Health::Stable);
    assert_eq!(Health::from_change(Some(100), Some(100)), Health::Stable);
    assert_eq!(Health::from_change(Some(100), Some(105)), Health::Stable);
}

#[test]
fn test_health_ratio_over_105_is_grew() {
    assert_eq!(Health::from_change(Some(100), Some(106)), Health::Grew);
    assert_eq!(Health::from_change(Some(100), Some(200)), Health::Grew);
}

#[test]
fn test_health_zero_old_is_new() {
    assert_eq!(Health::from_change(Some(0), Some(100)), Health::New);
}

#[test]
fn test_tracked_file_lines_at_missing() {
    let tf = FileHistory::new("test.rs".to_string());
    assert_eq!(tf.lines_at(0), None);
}

#[test]
fn test_tracked_file_lines_at_present() {
    let mut tf = FileHistory::new("test.rs".to_string());
    tf.snapshots.insert(0, Snapshot { lines: 100, bytes: 2000 });
    assert_eq!(tf.lines_at(0), Some(100));
}

#[test]
fn test_tracked_file_health_at_no_prev() {
    let mut tf = FileHistory::new("test.rs".to_string());
    tf.snapshots.insert(0, Snapshot { lines: 100, bytes: 2000 });
    assert_eq!(tf.health_at(0, None), Health::New);
}

#[test]
fn test_tracked_file_health_at_shrink() {
    let mut tf = FileHistory::new("test.rs".to_string());
    tf.snapshots.insert(0, Snapshot { lines: 100, bytes: 2000 });
    tf.snapshots.insert(1, Snapshot { lines: 200, bytes: 4000 });
    assert_eq!(tf.health_at(0, Some(1)), Health::Trauma);
}

#[test]
fn test_tracked_file_health_at_grow() {
    let mut tf = FileHistory::new("test.rs".to_string());
    tf.snapshots.insert(0, Snapshot { lines: 100, bytes: 2000 });
    tf.snapshots.insert(1, Snapshot { lines: 200, bytes: 4000 });
    assert_eq!(tf.health_at(1, Some(0)), Health::Grew);
}
