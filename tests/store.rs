use rpki_store::{
    tmp_next, CreateOutcome, TmpAction, CaCert, Config, HttpsUri, Metrics, RsyncUri, Store, StoredManifest, TalUri, TMP_FILE_ATTEMPTS,
};

fn rsync(s: &str) -> RsyncUri {
    RsyncUri::from_slice(s.as_bytes()).unwrap()
}

fn https(s: &str) -> HttpsUri {
    HttpsUri::from_slice(s.as_bytes()).unwrap()
}

fn store() -> Store {
    Store::new(&Config { cache_dir: "/var/cache".to_string() })
}

// SHA-256 of "https://rrdp.example.net/notification.xml".
fn notify_dir() -> String {
    let digest = rpki::crypto::DigestAlgorithm::sha256()
        .digest(b"https://rrdp.example.net/notification.xml");
    digest.as_ref().iter().map(|b| format!("{:02x}", b)).collect()
}

#[test]
fn base_dir_is_stored_in_cache_dir() {
    let config = Config { cache_dir: "/var/cache".to_string() };
    assert_eq!(Store::base_dir(&config), "/var/cache/stored");
    assert_eq!(Store::new(&config).path(), "/var/cache/stored");
}

#[test]
fn point_path_is_the_same_in_both_repository_kinds() {
    let store = store();
    let run = store.start();
    let manifest = rsync("rsync://a/m/p/q");
    let rrdp_ca = CaCert::new(
        Some(https("https://rrdp.example.net/notification.xml")),
        rsync("rsync://a/m/p/q"),
    );
    let rsync_ca = CaCert::new(None, rsync("rsync://a/m/p/q"));
    let rrdp = run.repository(&rrdp_ca);
    let shared = run.repository(&rsync_ca);
    assert!(rrdp.is_rrdp());
    assert!(!shared.is_rrdp());
    let rrdp_path = rrdp.point_path(&manifest);
    let shared_path = shared.point_path(&manifest);
    assert_eq!(
        rrdp_path,
        format!("/var/cache/stored/rrdp/{}/rsync/a/m/p/q", notify_dir())
    );
    assert_eq!(shared_path, "/var/cache/stored/rsync/rsync/a/m/p/q");
    assert!(rrdp_path.ends_with("/rsync/a/m/p/q"));
    assert!(shared_path.ends_with("/rsync/a/m/p/q"));
}

#[test]
fn rrdp_directory_is_the_hex_digest_of_the_notify_uri() {
    let store = store();
    let path = store.rrdp_repository_path(&https("https://rrdp.example.net/notification.xml"));
    let name = path.rsplit('/').next().unwrap();
    assert_eq!(name.len(), 64);
    assert_eq!(name, notify_dir());
    assert_eq!(store.rrdp_repository_base(), "/var/cache/stored/rrdp");
    assert_eq!(store.rsync_repository_path(), "/var/cache/stored/rsync");
}

#[test]
fn authority_is_lower_cased_in_paths() {
    let store = store();
    let run = store.start();
    let repo = run.repository(&CaCert::new(None, rsync("rsync://A.Example/m/x.mft")));
    assert_eq!(
        repo.point_path(&rsync("rsync://A.Example/Mod/x.mft")),
        "/var/cache/stored/rsync/rsync/a.example/Mod/x.mft"
    );
}

#[test]
fn ta_paths_follow_the_uri_scheme() {
    let store = store();
    assert_eq!(
        store.ta_path(&TalUri::Rsync(rsync("rsync://ta.example/repo/ta.cer"))),
        "/var/cache/stored/ta/rsync/ta.example/repo/ta.cer"
    );
    let https_path = store.ta_path(&TalUri::Https(https("https://ta.example/ta/ta.cer")));
    assert!(https_path.starts_with("/var/cache/stored/ta/https/ta.example/"));
    assert!(https_path.ends_with("ta/ta.cer"));
}

#[test]
fn tmp_path_has_eight_hex_digits() {
    let store = store();
    assert_eq!(store.tmp_path(0x00ab12ff), "/var/cache/stored/tmp/00ab12ff");
    assert_eq!(store.tmp_dir(), "/var/cache/stored/tmp");
    assert_eq!(TMP_FILE_ATTEMPTS, 100);
}

#[test]
fn get_point_without_file_is_absent() {
    let store = store();
    let run = store.start();
    let ca = CaCert::new(None, rsync("rsync://a/m/x.mft"));
    let point = run.pub_point(&ca, None).unwrap();
    assert!(!point.exisits());
    assert!(!point.has_file());
    assert!(!point.is_rrdp());
    assert_eq!(point.path(), "/var/cache/stored/rsync/rsync/a/m/x.mft");
}

#[test]
fn get_point_with_garbage_fails() {
    let store = store();
    let run = store.start();
    let ca = CaCert::new(None, rsync("rsync://a/m/x.mft"));
    assert!(run.pub_point(&ca, Some(vec![1, 2, 3])).is_err());
}

#[test]
fn get_point_reads_header() {
    let store = store();
    let run = store.start();
    let ca = CaCert::new(
        Some(https("https://rrdp.example.net/notification.xml")),
        rsync("rsync://a/m/x.mft"),
    );
    let m = StoredManifest::new(
        1000,
        Some(https("https://rrdp.example.net/notification.xml")),
        rsync("rsync://a/m/"),
        rsync("rsync://a/m/x.mft"),
        vec![1],
        vec![2],
    );
    let mut data = Vec::new();
    m.write(&mut data);
    let point = run.pub_point(&ca, Some(data)).unwrap();
    assert!(point.exisits());
    assert!(point.is_rrdp());
    assert_eq!(point.manifest().unwrap(), &m);
}

#[test]
fn done_leaves_metrics() {
    let store = store();
    let run = store.start();
    let mut metrics = Metrics {};
    run.done(&mut metrics);
    assert_eq!(metrics, Metrics {});
}

#[test]
fn staging_name_is_retried_only_while_attempts_remain() {
    assert_eq!(tmp_next(0, CreateOutcome::Created), TmpAction::Use);
    assert_eq!(tmp_next(0, CreateOutcome::OtherError), TmpAction::Fatal);
    assert_eq!(tmp_next(0, CreateOutcome::Exists), TmpAction::Retry);
    assert_eq!(tmp_next(98, CreateOutcome::Exists), TmpAction::Retry);
    assert_eq!(tmp_next(99, CreateOutcome::Exists), TmpAction::Fatal);
}
