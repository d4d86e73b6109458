use fileindex::incremental::needs_rescan;

#[test]
fn new_file_needs_rescan() {
    assert!(needs_rescan(None, 0));
    assert!(needs_rescan(None, 1000));
}

#[test]
fn strictly_newer_time_needs_rescan() {
    assert!(needs_rescan(Some(1000), 1001));
}

#[test]
fn equal_time_is_unchanged() {
    assert!(!needs_rescan(Some(1000), 1000));
}

#[test]
fn older_time_is_unchanged() {
    assert!(!needs_rescan(Some(1000), 999));
}

#[test]
fn zero_stored_time_compares_like_any_other() {
    assert!(!needs_rescan(Some(0), 0));
    assert!(needs_rescan(Some(0), 1));
}
