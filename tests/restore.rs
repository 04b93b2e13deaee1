use steam_cloud_sync::restore::{
    pre_restore_app_id, RemoteEntry, RemoteTally, RestoreAction, RestoreSession, TransferProgress,
};

fn dir(name: &str) -> RemoteEntry {
    RemoteEntry { name: name.to_string(), is_dir: true, is_file: false, size: None }
}

fn file(name: &str, size: Option<u64>) -> RemoteEntry {
    RemoteEntry { name: name.to_string(), is_dir: false, is_file: true, size }
}

#[test]
fn safety_snapshot_comes_first_and_repeats_until_confirmed() {
    let mut s = RestoreSession::new("game1", "/r/game1/snap", "/local");
    for _ in 0..3 {
        match s.next_action() {
            RestoreAction::TakeSafetySnapshot { app_id } => assert_eq!(app_id, "game1_pre_restore"),
            _ => panic!("the safety snapshot must come first"),
        }
    }
    s.confirm_safety_snapshot();
    match s.next_action() {
        RestoreAction::Visit { remote_dir, local_dir } => {
            assert_eq!(remote_dir, "/r/game1/snap");
            assert_eq!(local_dir, "/local");
        }
        _ => panic!("expected the snapshot root"),
    }
    assert!(matches!(s.next_action(), RestoreAction::Finished));
}

#[test]
fn listing_yields_copies_and_subdirectories() {
    let mut s = RestoreSession::new("g", "/r", "/l");
    s.confirm_safety_snapshot();
    let _ = s.next_action();
    let copies = s.absorb_listing("/r", "/l", &vec![file("a.sav", Some(1)), dir("sub")]);
    assert_eq!(copies.len(), 1);
    assert_eq!(copies[0].remote_path, "/r/a.sav");
    assert_eq!(copies[0].local_path, "/l/a.sav");
    match s.next_action() {
        RestoreAction::Visit { remote_dir, local_dir } => {
            assert_eq!(remote_dir, "/r/sub");
            assert_eq!(local_dir, "/l/sub");
        }
        _ => panic!("expected the subdirectory"),
    }
}

#[test]
fn pre_restore_id_suffix() {
    assert_eq!(pre_restore_app_id("730"), "730_pre_restore");
}

#[test]
fn tally_counts_and_sizes() {
    let mut t = RemoteTally::new("/r");
    assert_eq!(t.next_dir(), Some("/r".to_string()));
    assert!(t.absorb("/r", &vec![file("a", Some(10)), file("b", None), dir("d")]));
    assert_eq!(t.next_dir(), Some("/r/d".to_string()));
    assert!(t.absorb("/r/d", &vec![file("c", Some(5))]));
    assert_eq!(t.next_dir(), None);
    assert_eq!(t.files, 3);
    assert_eq!(t.bytes, 15);
}

#[test]
fn tally_refuses_overflow() {
    let mut t = RemoteTally::new("/r");
    let _ = t.next_dir();
    assert!(t.absorb("/r", &vec![file("a", Some(u64::MAX))]));
    assert!(!t.absorb("/r", &vec![file("b", Some(1))]));
    assert_eq!(t.bytes, u64::MAX);
    assert_eq!(t.files, 1);
}

#[test]
fn progress_counts_up() {
    let mut p = TransferProgress::new(2);
    p.advance();
    p.advance();
    assert_eq!(p.completed_files, 2);
    assert_eq!(p.total_files, 2);
}
