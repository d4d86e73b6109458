use fileindex::skipcompare::{is_blacklisted, load_blacklisted_folders, ExclusionSet};

fn set_of(names: &[&str]) -> ExclusionSet {
    let mut s = ExclusionSet::new();
    for n in names {
        s.insert(n.to_string());
    }
    s
}

#[test]
fn component_matches_exactly() {
    let s = set_of(&["build"]);
    assert!(is_blacklisted("/root/build/x.txt", &s));
}

#[test]
fn substring_of_component_does_not_match() {
    let s = set_of(&["build"]);
    assert!(!is_blacklisted("/root/buildtools/x.txt", &s));
    assert!(!is_blacklisted("/root/mybuild/x.txt", &s));
}

#[test]
fn matching_is_case_sensitive() {
    let s = set_of(&["Build"]);
    assert!(!is_blacklisted("/root/build/x.txt", &s));
    assert!(is_blacklisted("/root/Build/x.txt", &s));
}

#[test]
fn any_component_counts_including_the_last() {
    let s = set_of(&["secret"]);
    assert!(is_blacklisted("a/b/secret", &s));
    assert!(is_blacklisted("secret/a/b", &s));
    assert!(!is_blacklisted("a/b/c", &s));
}

#[test]
fn empty_set_excludes_nothing() {
    let s = ExclusionSet::new();
    assert!(!is_blacklisted("/root/build/x.txt", &s));
}

#[test]
fn empty_path_is_not_excluded() {
    let s = set_of(&["build"]);
    assert!(!is_blacklisted("", &s));
}

#[test]
fn load_trims_and_filters_lines() {
    let s = load_blacklisted_folders("# comment\n\n  build  \nnode_modules\n");
    assert!(s.contains_name(&"build".to_string()));
    assert!(s.contains_name(&"node_modules".to_string()));
    assert!(!s.contains_name(&"# comment".to_string()));
    assert!(!s.contains_name(&"".to_string()));
    assert_eq!(s.names.len(), 2);
}

#[test]
fn load_deduplicates() {
    let s = load_blacklisted_folders("build\nbuild\n build \n");
    assert!(s.contains_name(&"build".to_string()));
    assert_eq!(s.names.len(), 1);
}

#[test]
fn load_handles_crlf_lines() {
    let s = load_blacklisted_folders("build\r\nnode_modules\r\n");
    assert!(s.contains_name(&"build".to_string()));
    assert!(s.contains_name(&"node_modules".to_string()));
    assert_eq!(s.names.len(), 2);
}

#[test]
fn load_of_empty_text_gives_empty_set() {
    let s = load_blacklisted_folders("");
    assert_eq!(s.names.len(), 0);
}

#[test]
fn loaded_set_filters_paths() {
    let s = load_blacklisted_folders("excluded_dir\n");
    assert!(is_blacklisted("/root/excluded_dir/b.txt", &s));
    assert!(!is_blacklisted("/root/a.txt", &s));
}
