use std::collections::BTreeMap;

use rpki_store::{
    CleanupAction, CleanupEvent, Config, DirEntry, EntryKind, HttpsUri, RsyncUri, Store,
    StoredManifest, Sweep, SweepAction, SweepEvent,
};

/// A directory tree held in memory: paths of files with their content, and
/// paths of directories.
#[derive(Default)]
struct Tree {
    files: BTreeMap<String, Vec<u8>>,
    dirs: Vec<String>,
}

impl Tree {
    fn add_file(&mut self, path: &str, content: &[u8]) {
        let mut dir = path.rsplit_once('/').unwrap().0.to_string();
        while !self.dirs.contains(&dir) {
            self.dirs.push(dir.clone());
            match dir.rsplit_once('/') {
                Some((parent, _)) if !parent.is_empty() => dir = parent.to_string(),
                _ => break,
            }
        }
        self.files.insert(path.to_string(), content.to_vec());
    }

    fn list(&self, path: &str) -> Option<Vec<DirEntry>> {
        if !self.dirs.iter().any(|d| d == path) {
            return None;
        }
        let prefix = format!("{}/", path);
        let mut res = Vec::new();
        for f in self.files.keys() {
            if let Some(rest) = f.strip_prefix(&prefix) {
                if !rest.contains('/') {
                    res.push(DirEntry { name: rest.to_string(), kind: EntryKind::File });
                }
            }
        }
        for d in &self.dirs {
            if let Some(rest) = d.strip_prefix(&prefix) {
                if !rest.contains('/') {
                    res.push(DirEntry { name: rest.to_string(), kind: EntryKind::Dir });
                }
            }
        }
        Some(res)
    }
}

fn sweep(tree: &mut Tree, root: &str, keep: impl Fn(&str) -> bool) {
    let (mut sweep, mut action) = Sweep::new(root.to_string());
    loop {
        let event = match action {
            SweepAction::ReadDir(path) => SweepEvent::Listed(tree.list(&path)),
            SweepAction::Judge(path) => SweepEvent::Judged(keep(&path)),
            SweepAction::RemoveFile(path) => {
                assert!(tree.files.remove(&path).is_some());
                SweepEvent::Removed
            }
            SweepAction::RemoveDir(path) => {
                let prefix = format!("{}/", path);
                assert!(!tree.files.keys().any(|f| f.starts_with(&prefix)));
                tree.dirs.retain(|d| d != &path);
                SweepEvent::Removed
            }
            SweepAction::Done => break,
        };
        action = sweep.step(event);
    }
}

#[test]
fn emptied_directories_go_and_kept_ones_stay() {
    let mut tree = Tree::default();
    tree.add_file("/r/a/old.cer", b"x");
    tree.add_file("/r/b/new.cer", b"y");
    tree.add_file("/r/b/c/old.cer", b"z");
    sweep(&mut tree, "/r", |path| path.ends_with("new.cer"));
    assert_eq!(tree.files.keys().collect::<Vec<_>>(), vec!["/r/b/new.cer"]);
    assert!(!tree.dirs.contains(&"/r/a".to_string()));
    assert!(!tree.dirs.contains(&"/r/b/c".to_string()));
    assert!(tree.dirs.contains(&"/r/b".to_string()));
    assert!(tree.dirs.contains(&"/r".to_string()));
}

#[test]
fn root_stays_when_everything_goes() {
    let mut tree = Tree::default();
    tree.add_file("/r/a/b/x", b"x");
    sweep(&mut tree, "/r", |_| false);
    assert!(tree.files.is_empty());
    assert_eq!(tree.dirs, vec!["/r".to_string()]);
}

#[test]
fn missing_root_is_done() {
    let (mut sweep, action) = Sweep::new("/nowhere".to_string());
    assert_eq!(action, SweepAction::ReadDir("/nowhere".to_string()));
    assert_eq!(sweep.step(SweepEvent::Listed(None)), SweepAction::Done);
}

#[test]
fn other_entries_keep_their_directory() {
    let (mut sweep, _) = Sweep::new("/r".to_string());
    let action = sweep.step(SweepEvent::Listed(Some(vec![DirEntry {
        name: "d".to_string(),
        kind: EntryKind::Dir,
    }])));
    assert_eq!(action, SweepAction::ReadDir("/r/d".to_string()));
    let action = sweep.step(SweepEvent::Listed(Some(vec![DirEntry {
        name: "sock".to_string(),
        kind: EntryKind::Other,
    }])));
    assert_eq!(action, SweepAction::Done);
}

#[test]
fn unexpected_event_ends_sweep() {
    let (mut sweep, _) = Sweep::new("/r".to_string());
    assert_eq!(sweep.step(SweepEvent::Removed), SweepAction::Done);
    assert_eq!(sweep.step(SweepEvent::Judged(true)), SweepAction::Done);
}

fn rsync(s: &str) -> RsyncUri {
    RsyncUri::from_slice(s.as_bytes()).unwrap()
}

fn header(not_after: i64, notify: Option<&str>) -> Vec<u8> {
    let m = StoredManifest::new(
        not_after,
        notify.map(|n| HttpsUri::from_slice(n.as_bytes()).unwrap()),
        rsync("rsync://h/m/"),
        rsync("rsync://h/m/x.mft"),
        vec![1],
        vec![2],
    );
    let mut out = Vec::new();
    m.write(&mut out);
    out
}

fn run_cleanup(tree: &mut Tree, store: &Store, now: i64, collector: bool) -> Vec<String> {
    let mut retained = Vec::new();
    let (mut run, mut action) = store.cleanup(now, collector);
    loop {
        let event = match action {
            CleanupAction::ReadDir(path) => CleanupEvent::Listed(tree.list(&path)),
            CleanupAction::ReadFile(path) => CleanupEvent::Read(tree.files[&path].clone()),
            CleanupAction::RemoveFile(path) => {
                assert!(tree.files.remove(&path).is_some());
                CleanupEvent::Removed
            }
            CleanupAction::RemoveDir(path) => {
                tree.dirs.retain(|d| d != &path);
                CleanupEvent::Removed
            }
            CleanupAction::RetainRrdp(uri) => {
                retained.push(String::from_utf8(uri.as_slice().to_vec()).unwrap());
                CleanupEvent::Retained
            }
            CleanupAction::RetainRsync(uri) => {
                retained.push(String::from_utf8(uri.as_slice().to_vec()).unwrap());
                CleanupEvent::Retained
            }
            CleanupAction::Commit => {
                retained.push("commit".to_string());
                CleanupEvent::Retained
            }
            CleanupAction::Done => break,
        };
        action = run.step(event);
    }
    retained
}

#[test]
fn cleanup_removes_expired_and_garbage_and_keeps_live_points() {
    let store = Store::new(&Config { cache_dir: "/c".to_string() });
    let mut tree = Tree::default();
    tree.add_file("/c/stored/ta/rsync/h/m/garbage.cer", b"not a certificate");
    tree.add_file("/c/stored/rrdp/aa/rsync/h/m/live.mft", &header(2000, Some("https://n/x.xml")));
    tree.add_file("/c/stored/rrdp/bb/rsync/h/m/old.mft", &header(500, Some("https://n/y.xml")));
    tree.add_file("/c/stored/rrdp/cc/rsync/h/m/bad.mft", b"\x07garbage");
    tree.add_file("/c/stored/rsync/rsync/h/m/live.mft", &header(2000, None));
    tree.add_file("/c/stored/tmp/0000abcd", b"partial");
    let retained = run_cleanup(&mut tree, &store, 1000, true);
    let files: Vec<&String> = tree.files.keys().collect();
    assert_eq!(
        files,
        vec!["/c/stored/rrdp/aa/rsync/h/m/live.mft", "/c/stored/rsync/rsync/h/m/live.mft"]
    );
    assert!(!tree.dirs.contains(&"/c/stored/ta/rsync".to_string()));
    assert!(!tree.dirs.contains(&"/c/stored/rrdp/bb".to_string()));
    assert!(!tree.dirs.contains(&"/c/stored/rrdp/cc".to_string()));
    assert!(tree.dirs.contains(&"/c/stored/rrdp/aa/rsync/h/m".to_string()));
    assert_eq!(retained, vec!["https://n/x.xml", "rsync://h/m/x.mft", "commit"]);
}

#[test]
fn cleanup_without_collector_registers_nothing() {
    let store = Store::new(&Config { cache_dir: "/c".to_string() });
    let mut tree = Tree::default();
    tree.add_file("/c/stored/rsync/rsync/h/m/live.mft", &header(2000, None));
    let retained = run_cleanup(&mut tree, &store, 1000, false);
    assert!(retained.is_empty());
    assert_eq!(tree.files.len(), 1);
}

#[test]
fn live_rrdp_point_without_notify_survives_cleanup() {
    let store = Store::new(&Config { cache_dir: "/c".to_string() });
    let mut tree = Tree::default();
    tree.add_file("/c/stored/rrdp/aa/rsync/h/m/plain.mft", &header(2000, None));
    let retained = run_cleanup(&mut tree, &store, 1000, true);
    assert_eq!(tree.files.len(), 1);
    assert_eq!(retained, vec!["commit"]);
}

#[test]
fn event_that_does_not_answer_is_noticed() {
    let (sweep, _) = Sweep::new("/r".to_string());
    assert!(sweep.expects(&SweepEvent::Listed(None)));
    assert!(!sweep.expects(&SweepEvent::Removed));
}

#[test]
fn listing_with_a_repeated_name_ends_the_sweep() {
    let (mut sweep, _) = Sweep::new("/r".to_string());
    let entry = |name: &str| DirEntry { name: name.to_string(), kind: EntryKind::File };
    assert!(!sweep.expects(&SweepEvent::Listed(Some(vec![entry("a"), entry("a")]))));
    assert_eq!(
        sweep.step(SweepEvent::Listed(Some(vec![entry("a"), entry("a")]))),
        SweepAction::Done
    );
}

#[test]
fn listing_with_a_slash_in_a_name_ends_the_sweep() {
    let (mut sweep, _) = Sweep::new("/r".to_string());
    let entries = vec![DirEntry { name: "a/b".to_string(), kind: EntryKind::File }];
    assert_eq!(sweep.step(SweepEvent::Listed(Some(entries))), SweepAction::Done);
}

#[test]
fn each_file_is_judged_once() {
    let mut tree = Tree::default();
    tree.add_file("/r/a/x", b"1");
    tree.add_file("/r/a/y", b"2");
    tree.add_file("/r/z", b"3");
    let (mut sweep, mut action) = Sweep::new("/r".to_string());
    let mut judged: Vec<String> = Vec::new();
    loop {
        let event = match action {
            SweepAction::ReadDir(path) => SweepEvent::Listed(tree.list(&path)),
            SweepAction::Judge(path) => {
                assert!(!judged.contains(&path));
                assert!(path.starts_with("/r/"));
                judged.push(path);
                SweepEvent::Judged(true)
            }
            SweepAction::Done => break,
            other => panic!("unexpected action {:?}", other),
        };
        action = sweep.step(event);
    }
    judged.sort();
    assert_eq!(judged, vec!["/r/a/x", "/r/a/y", "/r/z"]);
}
