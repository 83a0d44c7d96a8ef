use rpki_store::{
    RsyncUri, StoredManifest, StoredObject, StoredPoint, UpdateError, UpdateStep,
};

fn rsync(s: &str) -> RsyncUri {
    RsyncUri::from_slice(s.as_bytes()).unwrap()
}

fn manifest(not_after: i64, content: &[u8]) -> StoredManifest {
    StoredManifest::new(
        not_after,
        None,
        rsync("rsync://h/m/"),
        rsync("rsync://h/m/x.mft"),
        content.to_vec(),
        vec![0xcc],
    )
}

fn object(name: &str, content: &[u8]) -> StoredObject {
    StoredObject::new(rsync(&format!("rsync://h/m/{}", name)), content.to_vec(), None)
}

fn committed_point() -> (StoredPoint, Vec<u8>) {
    let mut point = StoredPoint::open("/c/stored/rsync/rsync/h/m/x.mft".to_string(), None, false)
        .unwrap();
    let mut staging = point.start_update(manifest(10, b"old"));
    let header_len = staging.bytes().len();
    assert_eq!(staging.feed(Ok(Some(object("a.cer", b"A")))), UpdateStep::Write(header_len));
    assert_eq!(staging.bytes().len(), header_len + 32);
    assert_eq!(staging.feed(Ok(None)), UpdateStep::Commit);
    let bytes = staging.bytes().to_vec();
    point.commit(staging);
    (point, bytes)
}

#[test]
fn update_yields_supplied_objects_in_order() {
    let (mut point, _) = committed_point();
    let mut staging = point.start_update(manifest(20, b"new"));
    let header_len = staging.bytes().len();
    assert_eq!(staging.feed(Ok(Some(object("b.cer", b"B")))), UpdateStep::Write(header_len));
    assert_eq!(staging.feed(Ok(Some(object("c.cer", b"CC")))), UpdateStep::Write(header_len + 32));
    assert_eq!(staging.feed(Ok(None)), UpdateStep::Commit);
    point.commit(staging);
    assert_eq!(point.manifest().unwrap().not_after(), 20);
    assert_eq!(point.manifest().unwrap().manifest(), b"new");
    assert_eq!(point.next().unwrap().unwrap(), object("b.cer", b"B"));
    assert_eq!(point.next().unwrap().unwrap(), object("c.cer", b"CC"));
    assert!(point.next().is_none());
    point.rewind();
    assert_eq!(point.next().unwrap().unwrap(), object("b.cer", b"B"));
}

#[test]
fn aborted_update_leaves_point_unchanged() {
    let (mut point, before) = committed_point();
    let mut staging = point.start_update(manifest(20, b"new"));
    let staged = staging.bytes().to_vec();
    assert_eq!(staging.feed(Err(UpdateError::Abort)), UpdateStep::Abort(UpdateError::Abort));
    assert_eq!(staging.bytes(), &staged[..]);
    drop(staging);
    assert_eq!(point.manifest().unwrap().not_after(), 10);
    assert_eq!(point.next().unwrap().unwrap(), object("a.cer", b"A"));
    assert!(point.next().is_none());
    let reopened = StoredPoint::open(point.path().to_string(), Some(before), false).unwrap();
    assert_eq!(reopened.manifest().unwrap(), point.manifest().unwrap());
}

#[test]
fn fatal_source_error_aborts() {
    let (point, _) = committed_point();
    let mut staging = point.start_update(manifest(20, b"new"));
    assert_eq!(staging.feed(Err(UpdateError::Fatal)), UpdateStep::Abort(UpdateError::Fatal));
    assert_eq!(UpdateError::from(rpki_store::Failed), UpdateError::Fatal);
}

#[test]
fn take_manifest_empties_header() {
    let (mut point, _) = committed_point();
    assert!(point.exisits());
    let m = point.take_manifest().unwrap();
    assert_eq!(m.not_after(), 10);
    assert!(!point.exisits());
    assert!(point.has_file());
}

#[test]
fn corrupt_object_is_a_fault() {
    let (_, mut bytes) = committed_point();
    let last = bytes.len() - 2;
    bytes.truncate(last);
    let mut point = StoredPoint::open("/p".to_string(), Some(bytes), true).unwrap();
    assert!(point.is_rrdp());
    assert!(matches!(point.next(), Some(Err(_))));
}

#[test]
fn absent_point_has_no_objects() {
    let mut point = StoredPoint::open("/p".to_string(), None, false).unwrap();
    assert!(point.next().is_none());
    assert!(point.manifest().is_none());
}
