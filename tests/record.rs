use rpki::repository::x509::Time;
use rpki_store::{DecodeError, HttpsUri, ManifestHash, RsyncUri, StoredManifest, StoredObject};

fn rsync(s: &str) -> RsyncUri {
    RsyncUri::from_slice(s.as_bytes()).unwrap()
}

fn https(s: &str) -> HttpsUri {
    HttpsUri::from_slice(s.as_bytes()).unwrap()
}

fn sample_manifest(notify: bool) -> StoredManifest {
    StoredManifest::new(
        Time::utc(2021, 02, 18, 13, 22, 06).timestamp(),
        if notify { Some(https("https://foo.bar/bla/blubb")) } else { None },
        rsync("rsync://foo.bar/bla/blubb"),
        rsync("rsync://foo.bar/bla/blubb"),
        b"foobar".to_vec(),
        b"blablubb".to_vec(),
    )
}

#[test]
fn write_read_stored_manifest() {
    let orig = sample_manifest(true);
    let mut written = Vec::new();
    orig.write(&mut written);
    let mut pos = 0;
    let decoded = StoredManifest::read(&written, &mut pos).unwrap();
    assert_eq!(orig, decoded);

    let orig = sample_manifest(false);
    let mut written = Vec::new();
    orig.write(&mut written);
    let mut pos = 0;
    let decoded = StoredManifest::read(&written, &mut pos).unwrap();
    assert_eq!(orig, decoded);
}

#[test]
fn write_read_stored_object() {
    let orig = StoredObject::new(rsync("rsync://foo.bar/bla/blubb"), b"foobar".to_vec(), None);
    let mut written = Vec::new();
    orig.write(&mut written);
    let mut pos = 0;
    let decoded = StoredObject::read(&written, &mut pos).unwrap().unwrap();
    assert_eq!(orig, decoded);
}

#[test]
fn manifest_record_layout() {
    let m = StoredManifest::new(
        0x0102030405060708,
        None,
        rsync("rsync://a/m/"),
        rsync("rsync://a/m/x.mft"),
        vec![0xaa],
        vec![],
    );
    let mut out = Vec::new();
    m.write(&mut out);
    let mut expected = vec![0u8, 1, 2, 3, 4, 5, 6, 7, 8, 0, 0, 0, 0];
    expected.extend_from_slice(&[0, 0, 0, 12]);
    expected.extend_from_slice(b"rsync://a/m/");
    expected.extend_from_slice(&[0, 0, 0, 17]);
    expected.extend_from_slice(b"rsync://a/m/x.mft");
    expected.extend_from_slice(&[0, 0, 0, 0, 0, 0, 0, 1, 0xaa]);
    expected.extend_from_slice(&[0, 0, 0, 0, 0, 0, 0, 0]);
    assert_eq!(out, expected);
    let mut pos = 0;
    let back = StoredManifest::read(&out, &mut pos).unwrap();
    assert_eq!(pos, out.len());
    assert_eq!(back.not_after(), 0x0102030405060708);
    assert!(back.rpki_notify().is_none());
    assert_eq!(back.manifest(), &[0xaa][..]);
    assert_eq!(back.crl(), &[][..]);
}

#[test]
fn negative_expiry_round_trips() {
    let m = StoredManifest::new(
        -86400,
        Some(https("https://rrdp.example.net/notification.xml")),
        rsync("rsync://a/m/"),
        rsync("rsync://a/m/x.mft"),
        vec![1, 2, 3],
        vec![4, 5],
    );
    let mut out = Vec::new();
    m.write(&mut out);
    let mut pos = 0;
    let back = StoredManifest::read(&out, &mut pos).unwrap();
    assert_eq!(back.not_after(), -86400);
    assert_eq!(back, m);
}

#[test]
fn object_with_hash_round_trips() {
    let hash = ManifestHash::from_sha256(vec![7u8; 32]).unwrap();
    let orig = StoredObject::new(rsync("rsync://foo.bar/bla/x.roa"), vec![9, 8, 7], Some(hash));
    let mut written = Vec::new();
    orig.write(&mut written);
    assert_eq!(written.len(), 1 + 4 + 25 + 1 + 32 + 8 + 3);
    assert_eq!(written[30], 1);
    let mut pos = 0;
    let decoded = StoredObject::read(&written, &mut pos).unwrap().unwrap();
    assert_eq!(decoded, orig);
    assert_eq!(decoded.hash().unwrap().as_slice(), &[7u8; 32][..]);
    assert_eq!(pos, written.len());
}

#[test]
fn hash_of_wrong_length_is_refused() {
    assert!(ManifestHash::from_sha256(vec![0u8; 31]).is_none());
    assert!(ManifestHash::from_sha256(vec![0u8; 32]).is_some());
}

#[test]
fn every_proper_prefix_of_a_manifest_fails() {
    let mut out = Vec::new();
    sample_manifest(true).write(&mut out);
    for k in 0..out.len() {
        let mut pos = 0;
        assert_eq!(StoredManifest::read(&out[..k], &mut pos), Err(DecodeError));
        assert_eq!(pos, 0);
    }
}

#[test]
fn every_proper_prefix_of_an_object_fails_or_ends() {
    let hash = ManifestHash::from_sha256(vec![1u8; 32]).unwrap();
    let obj = StoredObject::new(rsync("rsync://foo.bar/bla/blubb"), b"foobar".to_vec(), Some(hash));
    let mut out = Vec::new();
    obj.write(&mut out);
    let mut pos = 0;
    assert_eq!(StoredObject::read(&out[..0], &mut pos), Ok(None));
    for k in 1..out.len() {
        let mut pos = 0;
        assert_eq!(StoredObject::read(&out[..k], &mut pos), Err(DecodeError));
    }
}

#[test]
fn empty_object_stream_ends() {
    let mut pos = 0;
    assert_eq!(StoredObject::read(&[], &mut pos), Ok(None));
    assert_eq!(pos, 0);
}

#[test]
fn wrong_version_is_refused() {
    let mut out = Vec::new();
    sample_manifest(false).write(&mut out);
    out[0] = 1;
    let mut pos = 0;
    assert_eq!(StoredManifest::read(&out, &mut pos), Err(DecodeError));

    let obj = StoredObject::new(rsync("rsync://foo.bar/bla/blubb"), vec![], None);
    let mut out = Vec::new();
    obj.write(&mut out);
    out[0] = 2;
    let mut pos = 0;
    assert_eq!(StoredObject::read(&out, &mut pos), Err(DecodeError));
}

#[test]
fn unknown_hash_type_is_refused() {
    let obj = StoredObject::new(rsync("rsync://foo.bar/bla/blubb"), vec![], None);
    let mut out = Vec::new();
    obj.write(&mut out);
    out[1 + 4 + 25] = 2;
    let mut pos = 0;
    assert_eq!(StoredObject::read(&out, &mut pos), Err(DecodeError));
}

#[test]
fn invalid_uri_is_refused() {
    let mut out = vec![0u8, 0, 0, 0, 9];
    out.extend_from_slice(b"https://x");
    out.push(0);
    out.extend_from_slice(&[0u8; 8]);
    let mut pos = 0;
    assert_eq!(StoredObject::read(&out, &mut pos), Err(DecodeError));
    assert!(RsyncUri::from_slice(b"https://x").is_none());
    assert!(HttpsUri::from_slice(b"").is_none());
}

#[test]
fn objects_follow_each_other() {
    let a = StoredObject::new(rsync("rsync://h/m/a.cer"), vec![1], None);
    let b = StoredObject::new(rsync("rsync://h/m/b.cer"), vec![2, 2], None);
    let mut out = Vec::new();
    a.write(&mut out);
    b.write(&mut out);
    let mut pos = 0;
    assert_eq!(StoredObject::read(&out, &mut pos).unwrap().unwrap(), a);
    assert_eq!(StoredObject::read(&out, &mut pos).unwrap().unwrap(), b);
    assert_eq!(StoredObject::read(&out, &mut pos), Ok(None));
}

#[test]
fn verify_hash_uses_stored_hash_or_digest() {
    let content = b"foobar".to_vec();
    // SHA-256 of "foobar".
    let digest: Vec<u8> = vec![
        0xc3, 0xab, 0x8f, 0xf1, 0x37, 0x20, 0xe8, 0xad, 0x90, 0x47, 0xdd, 0x39, 0x46, 0x6b, 0x3c,
        0x89, 0x74, 0xe5, 0x92, 0xc2, 0xfa, 0x38, 0x3d, 0x4a, 0x39, 0x60, 0x71, 0x4c, 0xae, 0xf0,
        0xc4, 0xf2,
    ];
    let plain = StoredObject::new(rsync("rsync://h/m/a.cer"), content.clone(), None);
    assert!(plain.verify_hash(&ManifestHash::from_sha256(digest.clone()).unwrap()).is_ok());
    assert!(plain.verify_hash(&ManifestHash::from_sha256(vec![0u8; 32]).unwrap()).is_err());

    let stored = StoredObject::new(
        rsync("rsync://h/m/a.cer"),
        content,
        Some(ManifestHash::from_sha256(vec![5u8; 32]).unwrap()),
    );
    assert!(stored.verify_hash(&ManifestHash::from_sha256(vec![5u8; 32]).unwrap()).is_ok());
    assert!(stored.verify_hash(&ManifestHash::from_sha256(digest).unwrap()).is_err());
}
