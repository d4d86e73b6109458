use fileindex::file_indexer::{
    decide_entry, scan_and_store, EntryAction, EntryInfo, EntryMeta,
};
use fileindex::skipcompare::load_blacklisted_folders;
use fileindex::store::IndexStore;

fn file_entry(path: &str, size: u64, modified: u64) -> EntryInfo {
    EntryInfo {
        path: path.to_string(),
        filename: path.rsplit('/').next().unwrap().to_string(),
        is_file: true,
        meta: Some(EntryMeta {
            size,
            mode: Some(0o644),
            created: Some(100),
            modified: Some(modified),
        }),
    }
}

fn dir_entry(path: &str) -> EntryInfo {
    EntryInfo {
        path: path.to_string(),
        filename: path.rsplit('/').next().unwrap().to_string(),
        is_file: false,
        meta: Some(EntryMeta { size: 0, mode: Some(0o755), created: Some(100), modified: Some(100) }),
    }
}

fn broken_entry(path: &str) -> EntryInfo {
    EntryInfo {
        path: path.to_string(),
        filename: path.rsplit('/').next().unwrap().to_string(),
        is_file: true,
        meta: None,
    }
}

#[test]
fn full_scan_records_only_non_excluded_files() {
    let blacklist = load_blacklisted_folders("excluded_dir\n");
    let entries = vec![
        dir_entry("/root"),
        file_entry("/root/a.txt", 1024, 1000),
        dir_entry("/root/excluded_dir"),
        file_entry("/root/excluded_dir/b.txt", 10, 1000),
    ];
    let mut store = IndexStore::new();
    let outcome = scan_and_store(&mut store, &entries, &blacklist, false);
    assert_eq!(outcome.processed, 1);
    assert_eq!(outcome.unchanged, 0);
    assert_eq!(outcome.failed, 0);
    assert_eq!(store.count(), 1);
    let rec = store.get(&"/root/a.txt".to_string()).unwrap();
    assert_eq!(rec.size, 1024);
    assert!(store.get(&"/root/excluded_dir/b.txt".to_string()).is_none());
}

#[test]
fn empty_root_is_a_successful_run_with_zero_counts() {
    let blacklist = load_blacklisted_folders("excluded_dir\n");
    let entries: Vec<EntryInfo> = vec![dir_entry("/root")];
    let mut store = IndexStore::new();
    let outcome = scan_and_store(&mut store, &entries, &blacklist, false);
    assert_eq!(outcome.processed, 0);
    assert_eq!(outcome.unchanged, 0);
    assert_eq!(outcome.failed, 0);
    assert_eq!(store.count(), 0);
}

#[test]
fn incremental_scan_skips_file_with_equal_modified_time() {
    let blacklist = load_blacklisted_folders("");
    let entries = vec![file_entry("/root/a.txt", 1024, 1000)];
    let mut store = IndexStore::new();
    scan_and_store(&mut store, &entries, &blacklist, false);
    assert_eq!(store.lookup_modified(&"/root/a.txt".to_string()), Some(1000));

    // Live modification time maps to exactly the stored 1000: no write.
    let entries2 = vec![file_entry("/root/a.txt", 2048, 1000)];
    let outcome = scan_and_store(&mut store, &entries2, &blacklist, true);
    assert_eq!(outcome.processed, 0);
    assert_eq!(outcome.unchanged, 1);
    assert_eq!(outcome.failed, 0);
    let rec = store.get(&"/root/a.txt".to_string()).unwrap();
    assert_eq!(rec.size, 1024);
}

#[test]
fn incremental_scan_processes_newer_and_new_files() {
    let blacklist = load_blacklisted_folders("");
    let mut store = IndexStore::new();
    scan_and_store(
        &mut store,
        &vec![file_entry("/root/a.txt", 1024, 1000)],
        &blacklist,
        false,
    );
    let entries = vec![
        file_entry("/root/a.txt", 2048, 1001),
        file_entry("/root/new.txt", 3, 500),
    ];
    let outcome = scan_and_store(&mut store, &entries, &blacklist, true);
    assert_eq!(outcome.processed, 2);
    assert_eq!(outcome.unchanged, 0);
    assert_eq!(store.count(), 2);
    assert_eq!(store.get(&"/root/a.txt".to_string()).unwrap().size, 2048);
}

#[test]
fn metadata_failure_skips_only_that_entry() {
    let blacklist = load_blacklisted_folders("");
    let entries = vec![broken_entry("/root/locked.txt"), file_entry("/root/a.txt", 1, 1)];
    let mut store = IndexStore::new();
    let outcome = scan_and_store(&mut store, &entries, &blacklist, false);
    assert_eq!(outcome.processed, 1);
    assert_eq!(outcome.failed, 1);
    assert_eq!(store.count(), 1);
    assert!(store.get(&"/root/locked.txt".to_string()).is_none());
}

#[test]
fn two_full_scans_keep_one_record_per_path_with_identical_fields() {
    let blacklist = load_blacklisted_folders("excluded_dir\n");
    let entries = vec![file_entry("/root/f.txt", 77, 1234)];
    let mut store = IndexStore::new();
    let first = scan_and_store(&mut store, &entries, &blacklist, false);
    let (p1, f1, s1, m1, perm1, t1) = {
        let rec = store.get(&"/root/f.txt".to_string()).unwrap();
        (
            rec.path.clone(),
            rec.filename.clone(),
            rec.size,
            rec.modified,
            rec.permissions.clone(),
            rec.filetype.clone(),
        )
    };
    let second = scan_and_store(&mut store, &entries, &blacklist, false);
    assert_eq!(first.processed, 1);
    assert_eq!(second.processed, 1);
    assert_eq!(store.count(), 1);
    let rec = store.get(&"/root/f.txt".to_string()).unwrap();
    assert_eq!(rec.path, p1);
    assert_eq!(rec.filename, f1);
    assert_eq!(rec.size, s1);
    assert_eq!(rec.modified, m1);
    assert_eq!(rec.permissions, perm1);
    assert_eq!(rec.filetype, t1);
}

#[test]
fn decide_entry_matches_the_run_policy() {
    let blacklist = load_blacklisted_folders("build\n");
    let excluded = file_entry("/root/build/x.txt", 1, 1);
    assert!(matches!(
        decide_entry(&excluded, &blacklist, false, None),
        EntryAction::Ignore
    ));
    let dir = dir_entry("/root/src");
    assert!(matches!(decide_entry(&dir, &blacklist, false, None), EntryAction::Ignore));
    let broken = broken_entry("/root/src/locked");
    assert!(matches!(
        decide_entry(&broken, &blacklist, true, None),
        EntryAction::SkipFailed
    ));
    let fresh = file_entry("/root/src/a.txt", 9, 1000);
    assert!(matches!(
        decide_entry(&fresh, &blacklist, true, Some(1000)),
        EntryAction::SkipUnchanged
    ));
    match decide_entry(&fresh, &blacklist, true, Some(999)) {
        EntryAction::Store(rec) => {
            assert_eq!(rec.path, "/root/src/a.txt");
            assert_eq!(rec.size, 9);
        },
        _ => panic!("a newer file must be stored"),
    }
    // Full mode stores regardless of the stored time.
    assert!(matches!(
        decide_entry(&fresh, &blacklist, false, Some(1000)),
        EntryAction::Store(_)
    ));
}
