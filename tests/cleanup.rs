use rpki::repository::x509::Time;
use rpki_store::{
    retain_rrdp_point, retain_rsync_point, retain_ta, retain_ta_expiry, HttpsUri, RsyncUri,
    StoredManifest,
};

fn rsync(s: &str) -> RsyncUri {
    RsyncUri::from_slice(s.as_bytes()).unwrap()
}

fn https(s: &str) -> HttpsUri {
    HttpsUri::from_slice(s.as_bytes()).unwrap()
}

fn header(not_after: i64, notify: bool) -> Vec<u8> {
    let m = StoredManifest::new(
        not_after,
        if notify { Some(https("https://rrdp.example.net/n.xml")) } else { None },
        rsync("rsync://h/m/"),
        rsync("rsync://h/m/x.mft"),
        vec![1],
        vec![2],
    );
    let mut out = Vec::new();
    m.write(&mut out);
    out
}

#[test]
fn expired_trust_anchor_goes_and_valid_one_stays() {
    let now = Time::utc(2024, 1, 1, 0, 0, 0).timestamp();
    let expired = Time::utc(2020, 1, 1, 0, 0, 0).timestamp();
    let valid = Time::utc(2099, 1, 1, 0, 0, 0).timestamp();
    assert!(!retain_ta_expiry(Some(expired), now));
    assert!(retain_ta_expiry(Some(valid), now));
    assert!(!retain_ta_expiry(None, now));
    assert!(!retain_ta_expiry(Some(now), now));
}

#[test]
fn undecodable_trust_anchor_goes() {
    assert!(!retain_ta(b"not a certificate", 0));
    assert!(!retain_ta(&[], 0));
}

#[test]
fn undecodable_point_goes() {
    let now = Time::utc(2024, 1, 1, 0, 0, 0).timestamp();
    let mut garbage = header(Time::utc(2099, 1, 1, 0, 0, 0).timestamp(), true);
    garbage[0] = 7;
    assert!(retain_rrdp_point(&garbage, now).is_none());
    assert!(retain_rsync_point(&garbage, now).is_none());
    assert!(retain_rsync_point(b"garbage", now).is_none());
    assert!(retain_rrdp_point(&[], now).is_none());
}

#[test]
fn live_points_are_kept_with_their_identity() {
    let now = 1_000;
    let kept = retain_rrdp_point(&header(2_000, true), now).unwrap().unwrap();
    assert_eq!(kept.as_slice(), b"https://rrdp.example.net/n.xml");
    let kept = retain_rsync_point(&header(2_000, false), now).unwrap();
    assert_eq!(kept.as_slice(), b"rsync://h/m/x.mft");
}

#[test]
fn expired_points_go() {
    assert!(retain_rrdp_point(&header(1_000, true), 1_000).is_none());
    assert!(retain_rsync_point(&header(999, false), 1_000).is_none());
}

#[test]
fn live_rrdp_point_without_notify_is_kept() {
    assert!(retain_rrdp_point(&header(2_000, false), 1_000).unwrap().is_none());
    assert!(retain_rrdp_point(&header(1_000, false), 1_000).is_none());
}
