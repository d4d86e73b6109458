use fileindex::store::{FileRecord, IndexStore};

fn record(path: &str, modified: i64, size: i64) -> FileRecord {
    FileRecord {
        path: path.to_string(),
        filename: path.rsplit('/').next().unwrap().to_string(),
        filetype: "file".to_string(),
        size,
        permissions: "rw-r--r--".to_string(),
        created: 0,
        modified,
        content: None,
    }
}

#[test]
fn empty_store_has_no_records() {
    let store = IndexStore::new();
    assert_eq!(store.count(), 0);
    assert!(store.lookup_modified(&"/a".to_string()).is_none());
    assert!(store.get(&"/a".to_string()).is_none());
}

#[test]
fn upsert_inserts_new_paths() {
    let mut store = IndexStore::new();
    store.upsert(record("/a", 10, 1));
    store.upsert(record("/b", 20, 2));
    assert_eq!(store.count(), 2);
    assert_eq!(store.lookup_modified(&"/a".to_string()), Some(10));
    assert_eq!(store.lookup_modified(&"/b".to_string()), Some(20));
}

#[test]
fn upsert_replaces_by_path_instead_of_appending() {
    let mut store = IndexStore::new();
    store.upsert(record("/a", 10, 1));
    store.upsert(record("/a", 30, 5));
    assert_eq!(store.count(), 1);
    assert_eq!(store.lookup_modified(&"/a".to_string()), Some(30));
    let rec = store.get(&"/a".to_string()).unwrap();
    assert_eq!(rec.size, 5);
}

#[test]
fn get_returns_the_stored_fields() {
    let mut store = IndexStore::new();
    store.upsert(record("/dir/f.txt", 42, 9));
    let rec = store.get(&"/dir/f.txt".to_string()).unwrap();
    assert_eq!(rec.path, "/dir/f.txt");
    assert_eq!(rec.filename, "f.txt");
    assert_eq!(rec.filetype, "file");
    assert_eq!(rec.modified, 42);
    assert_eq!(rec.size, 9);
}
