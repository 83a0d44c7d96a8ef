use rpki_store::{DumpRegistry, HttpsUri, RsyncUri, StoredManifest};

fn rsync(s: &str) -> RsyncUri {
    RsyncUri::from_slice(s.as_bytes()).unwrap()
}

fn https(s: &str) -> HttpsUri {
    HttpsUri::from_slice(s.as_bytes()).unwrap()
}

fn manifest(notify: Option<&str>) -> StoredManifest {
    StoredManifest::new(
        0,
        notify.map(https),
        rsync("rsync://h/m/"),
        rsync("rsync://h/m/x.mft"),
        vec![],
        vec![],
    )
}

#[test]
fn same_authority_gets_numbered_directories() {
    let mut repos = DumpRegistry::new("/out/stored".to_string());
    let a = repos.get_repo_path(&manifest(Some("https://rrdp.example.net/one.xml")));
    let b = repos.get_repo_path(&manifest(Some("https://rrdp.example.net/two.xml")));
    let c = repos.get_repo_path(&manifest(Some("https://RRDP.example.net/three.xml")));
    assert_eq!(a, "/out/stored/rrdp.example.net");
    assert_eq!(b, "/out/stored/rrdp.example.net-1");
    assert_eq!(c, "/out/stored/rrdp.example.net-2");
    assert_eq!(repos.len(), 3);
    let (uri, name) = repos.entry(0);
    assert_eq!(uri.as_slice(), b"https://rrdp.example.net/one.xml");
    assert_eq!(name, "rrdp.example.net");
    let (uri, name) = repos.entry(1);
    assert_eq!(uri.as_slice(), b"https://rrdp.example.net/two.xml");
    assert_eq!(name, "rrdp.example.net-1");
}

#[test]
fn known_repository_keeps_its_directory() {
    let mut repos = DumpRegistry::new("/out".to_string());
    let a = repos.get_repo_path(&manifest(Some("https://rrdp.example.net/one.xml")));
    let again = repos.get_repo_path(&manifest(Some("https://RRDP.EXAMPLE.NET/one.xml")));
    assert_eq!(a, again);
    assert_eq!(repos.len(), 1);
}

#[test]
fn rsync_points_go_to_rsync() {
    let mut repos = DumpRegistry::new("/out".to_string());
    assert_eq!(repos.get_repo_path(&manifest(None)), "/out/rsync");
    assert_eq!(repos.len(), 0);
}

#[test]
fn suffix_skips_names_taken_by_other_authorities() {
    let mut repos = DumpRegistry::new("/out".to_string());
    let a = repos.get_repo_path(&manifest(Some("https://a-1/x.xml")));
    let b = repos.get_repo_path(&manifest(Some("https://a/x.xml")));
    let c = repos.get_repo_path(&manifest(Some("https://a/y.xml")));
    assert_eq!(a, "/out/a-1");
    assert_eq!(b, "/out/a");
    assert_eq!(c, "/out/a-2");
}

#[test]
fn many_suffixes_count_in_decimal() {
    let mut repos = DumpRegistry::new("/out".to_string());
    let mut last = String::new();
    for i in 0..12 {
        last = repos.get_repo_path(&manifest(Some(&format!("https://h/{}.xml", i))));
    }
    assert_eq!(last, "/out/h-11");
}

#[test]
fn undecodable_point_is_skipped() {
    let mut repos = DumpRegistry::new("/out".to_string());
    assert!(rpki_store::plan_point_dump(&mut repos, b"garbage").is_none());
    assert!(rpki_store::plan_point_dump(&mut repos, &[]).is_none());
    assert_eq!(repos.len(), 0);
}

#[test]
fn point_with_undecodable_manifest_is_skipped() {
    let mut content = Vec::new();
    manifest(Some("https://rrdp.example.net/one.xml")).write(&mut content);
    let mut repos = DumpRegistry::new("/out".to_string());
    assert!(rpki_store::plan_point_dump(&mut repos, &content).is_none());
    assert_eq!(repos.len(), 0);
}

#[test]
fn objects_mirror_their_uri() {
    assert_eq!(
        rpki_store::mirror_path_of("/out/rsync", &rsync("rsync://Host.Example/mod/a/b.roa")),
        "/out/rsync/host.example/mod/a/b.roa"
    );
}
