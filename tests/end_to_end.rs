use std::collections::BTreeMap;

use steam_cloud_sync::catalog::{catalog_names, select_latest};
use steam_cloud_sync::layout::snapshot_dir;
use steam_cloud_sync::naming::{make_snapshot_name, Timestamp};
use steam_cloud_sync::restore::{RemoteEntry, RestoreAction, RestoreSession};
use steam_cloud_sync::upload::{get_save_files, plan_upload, TreeEntry};

/// A file system held in memory: a path maps to `None` for a directory and
/// to the bytes of a file.
type Store = BTreeMap<String, Option<Vec<u8>>>;

fn children(store: &Store, dir: &str) -> Vec<RemoteEntry> {
    let prefix = format!("{dir}/");
    store
        .iter()
        .filter_map(|(p, v)| {
            let rest = p.strip_prefix(&prefix)?;
            if rest.is_empty() || rest.contains('/') {
                return None;
            }
            Some(RemoteEntry {
                name: rest.to_string(),
                is_dir: v.is_none(),
                is_file: v.is_some(),
                size: v.as_ref().map(|b| b.len() as u64),
            })
        })
        .collect()
}

/// Walk order of the tree below `root`, with paths relative to it.
fn walk(store: &Store, root: &str) -> Vec<TreeEntry> {
    let mut out = vec![TreeEntry { path: String::new(), is_dir: true }];
    let prefix = format!("{root}/");
    for (p, v) in store {
        if let Some(rest) = p.strip_prefix(&prefix) {
            out.push(TreeEntry { path: rest.to_string(), is_dir: v.is_none() });
        }
    }
    out
}

fn upload(local: &Store, root: &str, remote: &mut Store, app_id: &str, patterns: &[&str], when: u32) {
    let pats: Vec<String> = patterns.iter().map(|s| s.to_string()).collect();
    let kept = get_save_files(&walk(local, root), &pats).unwrap();
    let t = Timestamp::from_parts(2024, 1, 1, 0, 0, when).unwrap();
    let name = make_snapshot_name(&t, "host");
    let plan = plan_upload("/ns", app_id, &name, root, &kept);
    remote.insert(plan.app_dir.clone(), None);
    remote.insert(plan.snapshot_dir.clone(), None);
    for st in &plan.steps {
        if st.is_dir {
            remote.insert(st.remote_path.clone(), None);
        } else {
            let bytes = local.get(&st.local_path).unwrap().clone();
            remote.insert(st.remote_path.clone(), bytes);
        }
    }
}

/// Runs a restore; returns how many safety snapshots were written before
/// the first local write.
fn restore(remote: &mut Store, app_id: &str, local: &mut Store, root: &str) -> usize {
    let names = catalog_names(&children(remote, &format!("/ns/{app_id}")));
    let chosen = select_latest(&names).unwrap();
    let dir = snapshot_dir("/ns", app_id, &chosen);
    let mut session = RestoreSession::new(app_id, &dir, root);
    let mut safety = 0;
    let mut local_writes = 0;
    loop {
        match session.next_action() {
            RestoreAction::TakeSafetySnapshot { app_id } => {
                assert_eq!(local_writes, 0);
                let snapshot = local.clone();
                upload(&snapshot, root, remote, &app_id, &[], 59);
                safety += 1;
                session.confirm_safety_snapshot();
            }
            RestoreAction::Visit { remote_dir, local_dir } => {
                local.entry(local_dir.clone()).or_insert(None);
                let listing = children(remote, &remote_dir);
                for c in session.absorb_listing(&remote_dir, &local_dir, &listing) {
                    let bytes = remote.get(&c.remote_path).unwrap().clone();
                    local.insert(c.local_path, bytes);
                    local_writes += 1;
                }
            }
            RestoreAction::Finished => break,
        }
    }
    safety
}

fn tree(items: &[(&str, Option<&str>)]) -> Store {
    items.iter().map(|(p, v)| (p.to_string(), v.map(|s| s.as_bytes().to_vec()))).collect()
}

fn files(store: &Store, root: &str) -> Vec<(String, Vec<u8>)> {
    let prefix = format!("{root}/");
    store
        .iter()
        .filter_map(|(p, v)| Some((p.strip_prefix(&prefix)?.to_string(), v.clone()?)))
        .collect()
}

#[test]
fn excluded_cache_is_not_uploaded_nor_restored() {
    let local = tree(&[("/l", None), ("/l/a.txt", Some("x")), ("/l/cache", None), ("/l/cache/tmp.log", Some("y"))]);
    let mut remote = Store::new();
    upload(&local, "/l", &mut remote, "game1", &["cache/**"], 1);
    let snaps = catalog_names(&children(&remote, "/ns/game1"));
    assert_eq!(snaps, vec!["20240101_000001-host"]);
    let snap = snapshot_dir("/ns", "game1", &snaps[0]);
    assert_eq!(files(&remote, &snap), vec![("a.txt".to_string(), b"x".to_vec())]);

    let mut target = tree(&[("/t", None)]);
    let safety = restore(&mut remote, "game1", &mut target, "/t");
    assert_eq!(safety, 1);
    assert_eq!(files(&target, "/t"), vec![("a.txt".to_string(), b"x".to_vec())]);
    assert_eq!(catalog_names(&children(&remote, "/ns/game1_pre_restore")).len(), 1);
}

#[test]
fn upload_then_read_back_is_exact() {
    let local = tree(&[
        ("/l", None),
        ("/l/a", None),
        ("/l/a/one.sav", Some("1")),
        ("/l/a/two.bak", Some("2")),
        ("/l/b.sav", Some("three")),
        ("/l/skip", None),
        ("/l/skip/deep.sav", Some("4")),
    ]);
    let mut remote = Store::new();
    upload(&local, "/l", &mut remote, "g", &["*.bak", "skip"], 2);
    let snap = snapshot_dir("/ns", "g", "20240101_000002-host");
    assert_eq!(
        files(&remote, &snap),
        vec![("a/one.sav".to_string(), b"1".to_vec()), ("b.sav".to_string(), b"three".to_vec())]
    );
}

#[test]
fn restore_overwrites_and_keeps_other_files() {
    let local = tree(&[("/l", None), ("/l/a.txt", Some("new")), ("/l/d", None), ("/l/d/e.txt", Some("deep"))]);
    let mut remote = Store::new();
    upload(&local, "/l", &mut remote, "g", &[], 3);
    let mut target = tree(&[("/t", None), ("/t/a.txt", Some("old")), ("/t/keep.txt", Some("mine"))]);
    let safety = restore(&mut remote, "g", &mut target, "/t");
    assert_eq!(safety, 1);
    assert_eq!(
        files(&target, "/t"),
        vec![
            ("a.txt".to_string(), b"new".to_vec()),
            ("d/e.txt".to_string(), b"deep".to_vec()),
            ("keep.txt".to_string(), b"mine".to_vec()),
        ]
    );
    let pre = catalog_names(&children(&remote, "/ns/g_pre_restore"));
    assert_eq!(pre.len(), 1);
    let pre_dir = snapshot_dir("/ns", "g_pre_restore", &pre[0]);
    assert_eq!(
        files(&remote, &pre_dir),
        vec![("a.txt".to_string(), b"old".to_vec()), ("keep.txt".to_string(), b"mine".to_vec())]
    );
}
