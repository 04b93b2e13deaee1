use steam_cloud_sync::catalog::{
    catalog_names, collect_game_ids, parse_index, select_interactive, select_latest, InvalidIndex,
};
use steam_cloud_sync::layout::{compat_root, get_save_path, namespace_root, snapshot_dir};
use steam_cloud_sync::restore::RemoteEntry;

fn dir(name: &str) -> RemoteEntry {
    RemoteEntry { name: name.to_string(), is_dir: true, is_file: false, size: None }
}

fn file(name: &str, size: u64) -> RemoteEntry {
    RemoteEntry { name: name.to_string(), is_dir: false, is_file: true, size: Some(size) }
}

fn two() -> Vec<String> {
    vec!["20240101_010101-h1".to_string(), "20240102_020202-h1".to_string()]
}

#[test]
fn latest_is_last_of_sorted_catalog() {
    assert_eq!(select_latest(&two()), Some("20240102_020202-h1".to_string()));
}

#[test]
fn latest_of_empty_catalog_is_nothing() {
    assert_eq!(select_latest(&vec![]), None);
}

#[test]
fn interactive_index_one_picks_second() {
    assert_eq!(select_interactive(&two(), "1"), Ok("20240102_020202-h1".to_string()));
    assert_eq!(select_interactive(&two(), "0\n"), Ok("20240101_010101-h1".to_string()));
}

#[test]
fn interactive_out_of_range_or_garbage_fails() {
    assert_eq!(select_interactive(&two(), "5"), Err(InvalidIndex));
    assert_eq!(select_interactive(&two(), "abc"), Err(InvalidIndex));
    assert_eq!(select_interactive(&two(), "2"), Err(InvalidIndex));
    assert_eq!(select_interactive(&two(), ""), Err(InvalidIndex));
    assert_eq!(select_interactive(&two(), "-1"), Err(InvalidIndex));
    assert_eq!(select_interactive(&vec![], "0"), Err(InvalidIndex));
}

#[test]
fn index_parsing_matches_trim_then_parse() {
    for s in ["1", " 1\n", "+1", "\t07 ", "x", "1 2", "+", "", "18446744073709551616", "00"] {
        assert_eq!(parse_index(s), s.trim().parse::<usize>().ok(), "input {s:?}");
    }
}

#[test]
fn catalog_keeps_directories_in_order() {
    let listing = vec![
        dir("20240102_020202-h1"),
        file("notes.txt", 3),
        dir("20231231_235959-h2"),
        dir("20240101_010101-h1"),
    ];
    assert_eq!(
        catalog_names(&listing),
        vec!["20231231_235959-h2", "20240101_010101-h1", "20240102_020202-h1"]
    );
}

#[test]
fn ids_skip_ignored_and_follow_filter() {
    let names: Vec<String> = ["100", "200", "300"].iter().map(|s| s.to_string()).collect();
    let ignore = vec!["200".to_string()];
    assert_eq!(collect_game_ids(&names, None, &ignore), vec!["100", "300"]);
    assert_eq!(collect_game_ids(&names, Some("300"), &ignore), vec!["300"]);
    assert_eq!(collect_game_ids(&names, Some("200"), &ignore), Vec::<String>::new());
    assert_eq!(collect_game_ids(&names, Some("999"), &vec![]), Vec::<String>::new());
}

#[test]
fn layout_paths() {
    assert_eq!(
        get_save_path("/c", "1234"),
        "/c/1234/pfx/drive_c/users/steamuser/AppData"
    );
    assert_eq!(namespace_root("/home/u"), "/home/u/.better-steam-cloud");
    assert_eq!(compat_root("/home/u"), "/home/u/.local/share/Steam/steamapps/compatdata");
    assert_eq!(
        snapshot_dir("/r", "game1", "20240101_010101-h1"),
        "/r/game1/20240101_010101-h1"
    );
}
