use steam_cloud_sync::filter::ExclusionFilter;
use steam_cloud_sync::upload::{get_save_files, TreeEntry};

fn entry(path: &str, is_dir: bool) -> TreeEntry {
    TreeEntry { path: path.to_string(), is_dir }
}

fn paths(v: &[TreeEntry]) -> Vec<String> {
    v.iter().map(|e| e.path.clone()).collect()
}

#[test]
fn empty_rules_exclude_nothing() {
    let f = ExclusionFilter::build(&vec![]).unwrap();
    assert!(!f.is_excluded("a.txt"));
    assert!(f.keeps(""));
    assert!(f.keeps("deep/down/file.sav"));
}

#[test]
fn matching_file_is_left_out() {
    let f = ExclusionFilter::build(&vec!["*.log".to_string()]).unwrap();
    assert!(f.is_excluded("x.log"));
    assert!(!f.keeps("x.log"));
    assert!(f.keeps("x.sav"));
}

#[test]
fn matched_directory_prunes_descendants() {
    let f = ExclusionFilter::build(&vec!["cache".to_string()]).unwrap();
    assert!(!f.is_excluded("cache/tmp.log"));
    assert!(!f.keeps("cache"));
    assert!(!f.keeps("cache/tmp.log"));
    assert!(!f.keeps("cache/a/b/c"));
    assert!(f.keeps("cached.txt"));
}

#[test]
fn malformed_pattern_is_dropped() {
    let f = ExclusionFilter::build(&vec!["a[".to_string(), "*.tmp".to_string()]).unwrap();
    assert!(!f.keeps("x.tmp"));
    assert!(f.keeps("a["));
}

#[test]
fn save_files_follow_walk_order() {
    let entries = vec![
        entry("", true),
        entry("a.txt", false),
        entry("cache", true),
        entry("cache/tmp.log", false),
        entry("saves", true),
        entry("saves/one.sav", false),
    ];
    let kept = get_save_files(&entries, &vec!["cache/**".to_string()]).unwrap();
    assert_eq!(paths(&kept), vec!["", "a.txt", "cache", "saves", "saves/one.sav"]);
    let all = get_save_files(&entries, &vec![]).unwrap();
    assert_eq!(paths(&all), paths(&entries));
}

#[test]
fn unparsable_patterns_change_nothing() {
    let entries = vec![entry("", true), entry("a.log", false), entry("b.sav", false)];
    let with_bad = get_save_files(&entries, &vec!["a[".to_string(), "*.log".to_string()]).unwrap();
    let without = get_save_files(&entries, &vec!["*.log".to_string()]).unwrap();
    assert_eq!(paths(&with_bad), paths(&without));
    let only_bad = get_save_files(&entries, &vec!["{a".to_string(), "[".to_string()]).unwrap();
    assert_eq!(paths(&only_bad), paths(&entries));
}
