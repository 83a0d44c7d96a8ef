//! The binary record format of stored publication points.
//!
//! A point's file holds one manifest record followed by any number of object
//! records. Each record starts with a version octet, currently always zero.
//! URIs carry a four-octet big-endian length, payloads an eight-octet one,
//! and the expiry time is an eight-octet big-endian count of seconds since
//! the Unix epoch.

use vstd::prelude::*;
use vstd::slice::slice_subrange;
use vstd::slice::slice_to_vec;
use crate::digest::{sha256, sha256_of};
use crate::uri::{bytes_eq, https_valid, rsync_valid, HttpsUri, RsyncUri};

verus! {

//------------ Big-endian integers ------------------------------------------

/// The four octets of `n`, most significant first.
pub open spec fn be_u32(n: u32) -> Seq<u8> {
    seq![(n >> 24u32) as u8, (n >> 16u32) as u8, (n >> 8u32) as u8, n as u8]
}

/// The eight octets of `n`, most significant first.
pub open spec fn be_u64(n: u64) -> Seq<u8> {
    seq![
        (n >> 56u64) as u8, (n >> 48u64) as u8, (n >> 40u64) as u8, (n >> 32u64) as u8,
        (n >> 24u64) as u8, (n >> 16u64) as u8, (n >> 8u64) as u8, n as u8,
    ]
}

/// The integer that four octets encode, most significant first.
pub open spec fn u32_of(b: Seq<u8>) -> u32 {
    ((b[0] as u32) << 24u32) | ((b[1] as u32) << 16u32) | ((b[2] as u32) << 8u32) | (b[3] as u32)
}

/// The integer that eight octets encode, most significant first.
pub open spec fn u64_of(b: Seq<u8>) -> u64 {
    ((b[0] as u64) << 56u64) | ((b[1] as u64) << 48u64) | ((b[2] as u64) << 40u64) | ((
    b[3] as u64) << 32u64) | ((b[4] as u64) << 24u64) | ((b[5] as u64) << 16u64) | ((
    b[6] as u64) << 8u64) | (b[7] as u64)
}

proof fn lemma_u32_round_trip(n: u32)
    ensures
        u32_of(be_u32(n)) == n,
{
    let b = be_u32(n);
    assert(b[0] == (n >> 24u32) as u8 && b[1] == (n >> 16u32) as u8 && b[2] == (n >> 8u32) as u8
        && b[3] == n as u8);
    assert((((((n >> 24u32) as u8) as u32) << 24u32) | (((((n >> 16u32) as u8) as u32)
        << 16u32)) | (((((n >> 8u32) as u8) as u32) << 8u32)) | (((n as u8) as u32))) == n)
        by (bit_vector);
}

proof fn lemma_u64_round_trip(n: u64)
    ensures
        u64_of(be_u64(n)) == n,
{
    let b = be_u64(n);
    assert(b[0] == (n >> 56u64) as u8 && b[1] == (n >> 48u64) as u8 && b[2] == (n >> 40u64) as u8
        && b[3] == (n >> 32u64) as u8 && b[4] == (n >> 24u64) as u8 && b[5] == (n >> 16u64) as u8
        && b[6] == (n >> 8u64) as u8 && b[7] == n as u8);
    assert((((((n >> 56u64) as u8) as u64) << 56u64) | (((((n >> 48u64) as u8) as u64)
        << 48u64)) | (((((n >> 40u64) as u8) as u64) << 40u64)) | (((((n >> 32u64) as u8) as u64)
        << 32u64)) | (((((n >> 24u64) as u8) as u64) << 24u64)) | (((((n >> 16u64) as u8) as u64)
        << 16u64)) | (((((n >> 8u64) as u8) as u64) << 8u64)) | (((n as u8) as u64))) == n)
        by (bit_vector);
}

proof fn lemma_i64_round_trip(t: i64)
    ensures
        ((t as u64) as i64) == t,
{
    assert(((t as u64) as i64) == t) by (bit_vector);
}

//------------ Length-prefixed fields ---------------------------------------

/// A field with a four-octet length prefix.
pub open spec fn lp32(b: Seq<u8>) -> Seq<u8> {
    be_u32(b.len() as u32) + b
}

/// A field with an eight-octet length prefix.
pub open spec fn lp64(b: Seq<u8>) -> Seq<u8> {
    be_u64(b.len() as u64) + b
}

/// Reads a field with a four-octet length prefix at `i`.
///
/// Gives the field's content and the position after it.
pub open spec fn field32_at(s: Seq<u8>, i: int) -> Option<(Seq<u8>, int)> {
    if 0 <= i && i + 4 <= s.len() {
        let end = i + 4 + u32_of(s.subrange(i, i + 4)) as int;
        if end <= s.len() {
            Some((s.subrange(i + 4, end), end))
        } else {
            None
        }
    } else {
        None
    }
}

/// Reads a field with an eight-octet length prefix at `i`.
///
/// Gives the field's content and the position after it.
pub open spec fn field64_at(s: Seq<u8>, i: int) -> Option<(Seq<u8>, int)> {
    if 0 <= i && i + 8 <= s.len() {
        let end = i + 8 + u64_of(s.subrange(i, i + 8)) as int;
        if end <= s.len() {
            Some((s.subrange(i + 8, end), end))
        } else {
            None
        }
    } else {
        None
    }
}

/// Where `x` stands in `s` at `i`.
pub open spec fn holds_at(s: Seq<u8>, i: int, x: Seq<u8>) -> bool {
    0 <= i && i + x.len() <= s.len() && s.subrange(i, i + x.len()) == x
}

proof fn lemma_holds_split(s: Seq<u8>, i: int, a: Seq<u8>, b: Seq<u8>)
    requires
        holds_at(s, i, a + b),
    ensures
        holds_at(s, i, a),
        holds_at(s, i + a.len(), b),
{
    assert(s.subrange(i, i + a.len()) =~= (a + b).subrange(0, a.len() as int));
    assert(s.subrange(i + a.len(), i + a.len() + b.len()) =~= (a + b).subrange(
        a.len() as int,
        (a + b).len() as int,
    ));
    assert((a + b).subrange(0, a.len() as int) =~= a);
    assert((a + b).subrange(a.len() as int, (a + b).len() as int) =~= b);
}

proof fn lemma_field32_holds(s: Seq<u8>, i: int, b: Seq<u8>)
    requires
        holds_at(s, i, lp32(b)),
        b.len() <= u32::MAX,
    ensures
        field32_at(s, i) == Some((b, i + 4 + b.len())),
{
    lemma_holds_split(s, i, be_u32(b.len() as u32), b);
    lemma_u32_round_trip(b.len() as u32);
}

proof fn lemma_field64_holds(s: Seq<u8>, i: int, b: Seq<u8>)
    requires
        holds_at(s, i, lp64(b)),
        b.len() <= u64::MAX,
    ensures
        field64_at(s, i) == Some((b, i + 8 + b.len())),
{
    lemma_holds_split(s, i, be_u64(b.len() as u64), b);
    lemma_u64_round_trip(b.len() as u64);
}

/// A field read from a prefix of `s` reads the same from `s`.
proof fn lemma_field32_extend(s: Seq<u8>, k: int, i: int)
    requires
        0 <= k <= s.len(),
        field32_at(s.subrange(0, k), i) is Some,
    ensures
        field32_at(s, i) == field32_at(s.subrange(0, k), i),
{
    let p = s.subrange(0, k);
    assert(p.subrange(i, i + 4) =~= s.subrange(i, i + 4));
    let end = i + 4 + u32_of(s.subrange(i, i + 4)) as int;
    assert(p.subrange(i + 4, end) =~= s.subrange(i + 4, end));
}

/// A field read from a prefix of `s` reads the same from `s`.
proof fn lemma_field64_extend(s: Seq<u8>, k: int, i: int)
    requires
        0 <= k <= s.len(),
        field64_at(s.subrange(0, k), i) is Some,
    ensures
        field64_at(s, i) == field64_at(s.subrange(0, k), i),
{
    let p = s.subrange(0, k);
    assert(p.subrange(i, i + 8) =~= s.subrange(i, i + 8));
    let end = i + 8 + u64_of(s.subrange(i, i + 8)) as int;
    assert(p.subrange(i + 8, end) =~= s.subrange(i + 8, end));
}

//------------ Reading and writing octets -----------------------------------

/// Reads four octets at `pos` as a big-endian integer.
fn read_u32(data: &[u8], pos: usize) -> (r: u32)
    requires
        pos + 4 <= data@.len(),
    ensures
        r == u32_of(data@.subrange(pos as int, pos + 4)),
{
    let ghost b = data@.subrange(pos as int, pos + 4);
    assert(b[0] == data@[pos as int] && b[1] == data@[pos + 1] && b[2] == data@[pos + 2] && b[3]
        == data@[pos + 3]);
    ((data[pos] as u32) << 24u32) | ((data[pos + 1] as u32) << 16u32) | ((data[pos + 2] as u32)
        << 8u32) | (data[pos + 3] as u32)
}

/// Reads eight octets at `pos` as a big-endian integer.
fn read_u64(data: &[u8], pos: usize) -> (r: u64)
    requires
        pos + 8 <= data@.len(),
    ensures
        r == u64_of(data@.subrange(pos as int, pos + 8)),
{
    let ghost b = data@.subrange(pos as int, pos + 8);
    assert(b[0] == data@[pos as int] && b[1] == data@[pos + 1] && b[2] == data@[pos + 2] && b[3]
        == data@[pos + 3] && b[4] == data@[pos + 4] && b[5] == data@[pos + 5] && b[6] == data@[pos
        + 6] && b[7] == data@[pos + 7]);
    ((data[pos] as u64) << 56u64) | ((data[pos + 1] as u64) << 48u64) | ((data[pos + 2] as u64)
        << 40u64) | ((data[pos + 3] as u64) << 32u64) | ((data[pos + 4] as u64) << 24u64) | ((
    data[pos + 5] as u64) << 16u64) | ((data[pos + 6] as u64) << 8u64) | (data[pos + 7] as u64)
}

/// Locates a field with a four-octet length prefix at `pos`.
///
/// Returns the position after the field.
fn locate32(data: &[u8], pos: usize) -> (r: Option<usize>)
    ensures
        match field32_at(data@, pos as int) {
            Some((_, end)) => r == Some(end as usize),
            None => r is None,
        },
{
    if pos > data.len() || data.len() - pos < 4 {
        return None;
    }
    let len = read_u32(data, pos) as usize;
    if data.len() - pos - 4 < len {
        return None;
    }
    Some(pos + 4 + len)
}

/// Locates a field with an eight-octet length prefix at `pos`.
///
/// Returns the position after the field.
fn locate64(data: &[u8], pos: usize) -> (r: Option<usize>)
    ensures
        match field64_at(data@, pos as int) {
            Some((_, end)) => r == Some(end as usize),
            None => r is None,
        },
{
    if pos > data.len() || data.len() - pos < 8 {
        return None;
    }
    let len = read_u64(data, pos);
    if ((data.len() - pos - 8) as u64) < len {
        return None;
    }
    Some(pos + 8 + len as usize)
}

/// Appends `n` as four big-endian octets.
pub(crate) fn push_u32(out: &mut Vec<u8>, n: u32)
    ensures
        final(out)@ == old(out)@ + be_u32(n),
{
    out.push((n >> 24u32) as u8);
    out.push((n >> 16u32) as u8);
    out.push((n >> 8u32) as u8);
    out.push(n as u8);
    assert(final(out)@ =~= old(out)@ + be_u32(n));
}

/// Appends `n` as eight big-endian octets.
fn push_u64(out: &mut Vec<u8>, n: u64)
    ensures
        final(out)@ == old(out)@ + be_u64(n),
{
    out.push((n >> 56u64) as u8);
    out.push((n >> 48u64) as u8);
    out.push((n >> 40u64) as u8);
    out.push((n >> 32u64) as u8);
    out.push((n >> 24u64) as u8);
    out.push((n >> 16u64) as u8);
    out.push((n >> 8u64) as u8);
    out.push(n as u8);
    assert(final(out)@ =~= old(out)@ + be_u64(n));
}

/// Appends octets.
fn push_bytes(out: &mut Vec<u8>, b: &[u8])
    ensures
        final(out)@ == old(out)@ + b@,
{
    let ghost start = out@;
    let mut i: usize = 0;
    while i < b.len()
        invariant
            i <= b@.len(),
            out@ == start + b@.subrange(0, i as int),
        decreases b@.len() - i,
    {
        out.push(b[i]);
        i = i + 1;
        assert(out@ =~= start + b@.subrange(0, i as int));
    }
    assert(b@.subrange(0, b@.len() as int) =~= b@);
}

/// Appends a field with a four-octet length prefix.
fn push_field32(out: &mut Vec<u8>, b: &[u8])
    requires
        b@.len() <= u32::MAX,
    ensures
        final(out)@ == old(out)@ + lp32(b@),
{
    push_u32(out, b.len() as u32);
    push_bytes(out, b);
    assert(final(out)@ =~= old(out)@ + lp32(b@));
}

/// Appends a field with an eight-octet length prefix.
fn push_field64(out: &mut Vec<u8>, b: &[u8])
    ensures
        final(out)@ == old(out)@ + lp64(b@),
{
    push_u64(out, b.len() as u64);
    push_bytes(out, b);
    assert(final(out)@ =~= old(out)@ + lp64(b@));
}

/// Copies the octets from `from` up to `to`.
fn copy_range(data: &[u8], from: usize, to: usize) -> (r: Vec<u8>)
    requires
        from <= to <= data@.len(),
    ensures
        r@ == data@.subrange(from as int, to as int),
{
    slice_to_vec(slice_subrange(data, from, to))
}

//------------ DecodeError --------------------------------------------------

/// Octets that do not form a record: a wrong version, a truncated field, or
/// an invalid URI.
#[derive(Clone, Copy, Debug, PartialEq, Eq, Structural)]
pub struct DecodeError;

//------------ StoredManifest -----------------------------------------------

/// What a stored manifest holds.
pub struct ManifestView {
    pub not_after: i64,
    pub rpki_notify: Option<Seq<u8>>,
    pub ca_repository: Seq<u8>,
    pub rpki_manifest: Seq<u8>,
    pub manifest: Seq<u8>,
    pub crl: Seq<u8>,
}

/// The values that a manifest record can carry.
pub open spec fn manifest_view_wf(v: ManifestView) -> bool {
    &&& (v.rpki_notify matches Some(n) ==> https_valid(n) && 0 < n.len() <= u32::MAX)
    &&& rsync_valid(v.ca_repository) && v.ca_repository.len() <= u32::MAX
    &&& rsync_valid(v.rpki_manifest) && v.rpki_manifest.len() <= u32::MAX
    &&& v.manifest.len() <= u64::MAX
    &&& v.crl.len() <= u64::MAX
}

/// The notify field: its length and octets, or a zero length when absent.
pub open spec fn notify_field(n: Option<Seq<u8>>) -> Seq<u8> {
    match n {
        Some(b) => lp32(b),
        None => be_u32(0),
    }
}

/// The octets of a manifest record.
pub open spec fn manifest_record(v: ManifestView) -> Seq<u8> {
    seq![0u8] + be_u64(v.not_after as u64) + notify_field(v.rpki_notify) + lp32(v.ca_repository)
        + lp32(v.rpki_manifest) + lp64(v.manifest) + lp64(v.crl)
}

/// Decodes a manifest record at `i`.
///
/// Gives what the record holds and the position after it, or `None` where
/// the octets there are not a complete, valid record.
pub open spec fn parse_manifest(s: Seq<u8>, i: int) -> Option<(ManifestView, int)> {
    if !(0 <= i && i + 9 <= s.len()) || s[i] != 0 {
        None
    } else {
        let not_after = u64_of(s.subrange(i + 1, i + 9)) as i64;
        match field32_at(s, i + 9) {
            None => None,
            Some((notify, a)) => match field32_at(s, a) {
                None => None,
                Some((ca, b)) => match field32_at(s, b) {
                    None => None,
                    Some((mft, c)) => match field64_at(s, c) {
                        None => None,
                        Some((manifest, d)) => match field64_at(s, d) {
                            None => None,
                            Some((crl, e)) => {
                                if (notify.len() > 0 && !https_valid(notify)) || !rsync_valid(ca)
                                    || !rsync_valid(mft) {
                                    None
                                } else {
                                    Some(
                                        (
                                            ManifestView {
                                                not_after,
                                                rpki_notify: if notify.len() == 0 {
                                                    None
                                                } else {
                                                    Some(notify)
                                                },
                                                ca_repository: ca,
                                                rpki_manifest: mft,
                                                manifest,
                                                crl,
                                            },
                                            e,
                                        ),
                                    )
                                }
                            },
                        },
                    },
                },
            },
        }
    }
}

/// The header record of a stored publication point.
///
/// It holds the expiry time of the manifest's EE certificate, the rpkiNotify
/// URI of the issuing CA if it has one, the CA's repository URI, the
/// manifest's own rsync URI, and the raw manifest and CRL.
#[derive(Debug)]
pub struct StoredManifest {
    not_after: i64,
    rpki_notify: Option<HttpsUri>,
    ca_repository: RsyncUri,
    rpki_manifest: RsyncUri,
    manifest: Vec<u8>,
    crl: Vec<u8>,
}

impl View for StoredManifest {
    type V = ManifestView;

    closed spec fn view(&self) -> ManifestView {
        ManifestView {
            not_after: self.not_after,
            rpki_notify: match self.rpki_notify {
                Some(u) => Some(u@),
                None => None,
            },
            ca_repository: self.ca_repository@,
            rpki_manifest: self.rpki_manifest@,
            manifest: self.manifest@,
            crl: self.crl@,
        }
    }
}

impl StoredManifest {
    pub open spec fn wf(&self) -> bool {
        manifest_view_wf(self@)
    }

    /// Creates a stored manifest from its parts.
    pub fn new(
        not_after: i64,
        rpki_notify: Option<HttpsUri>,
        ca_repository: RsyncUri,
        rpki_manifest: RsyncUri,
        manifest: Vec<u8>,
        crl: Vec<u8>,
    ) -> (r: StoredManifest)
        requires
            rpki_notify matches Some(u) ==> u.wf(),
            ca_repository.wf(),
            rpki_manifest.wf(),
            manifest@.len() <= u64::MAX,
            crl@.len() <= u64::MAX,
        ensures
            r.wf(),
            r@.not_after == not_after,
            r@.rpki_notify == (match rpki_notify {
                Some(u) => Some(u@),
                None => None::<Seq<u8>>,
            }),
            r@.ca_repository == ca_repository@,
            r@.rpki_manifest == rpki_manifest@,
            r@.manifest == manifest@,
            r@.crl == crl@,
    {
        StoredManifest { not_after, rpki_notify, ca_repository, rpki_manifest, manifest, crl }
    }

    /// Decodes a manifest record starting at `*pos`.
    ///
    /// On success, `*pos` moves past the record.
    pub fn read(data: &[u8], pos: &mut usize) -> (r: Result<StoredManifest, DecodeError>)
        requires
            *old(pos) <= data@.len(),
        ensures
            match parse_manifest(data@, *old(pos) as int) {
                Some((v, end)) => r matches Ok(m) && m@ == v && m.wf() && *final(pos) == end,
                None => r is Err && *final(pos) == *old(pos),
            },
    {
        let start = *pos;
        if data.len() - start < 9 || data[start] != 0 {
            return Err(DecodeError);
        }
        let not_after = read_u64(data, start + 1) as i64;
        let a = match locate32(data, start + 9) {
            Some(a) => a,
            None => return Err(DecodeError),
        };
        let b = match locate32(data, a) {
            Some(b) => b,
            None => return Err(DecodeError),
        };
        let c = match locate32(data, b) {
            Some(c) => c,
            None => return Err(DecodeError),
        };
        let d = match locate64(data, c) {
            Some(d) => d,
            None => return Err(DecodeError),
        };
        let e = match locate64(data, d) {
            Some(e) => e,
            None => return Err(DecodeError),
        };
        let rpki_notify = if a == start + 13 {
            None
        } else {
            match HttpsUri::from_slice(slice_subrange(data, start + 13, a)) {
                Some(u) => Some(u),
                None => return Err(DecodeError),
            }
        };
        let ca_repository = match RsyncUri::from_slice(slice_subrange(data, a + 4, b)) {
            Some(u) => u,
            None => return Err(DecodeError),
        };
        let rpki_manifest = match RsyncUri::from_slice(slice_subrange(data, b + 4, c)) {
            Some(u) => u,
            None => return Err(DecodeError),
        };
        let manifest = copy_range(data, c + 8, d);
        let crl = copy_range(data, d + 8, e);
        *pos = e;
        Ok(StoredManifest { not_after, rpki_notify, ca_repository, rpki_manifest, manifest, crl })
    }

    /// Returns the expiry time, in seconds since the Unix epoch.
    pub fn not_after(&self) -> (r: i64)
        ensures
            r == self@.not_after,
    {
        self.not_after
    }

    /// Returns the rpkiNotify URI of the issuing CA, if it has one.
    pub fn rpki_notify(&self) -> (r: Option<&HttpsUri>)
        ensures
            match r {
                Some(u) => self@.rpki_notify == Some(u@),
                None => self@.rpki_notify is None,
            },
    {
        match &self.rpki_notify {
            Some(u) => Some(u),
            None => None,
        }
    }

    /// Returns the rsync URI of the directory that holds the objects.
    pub fn ca_repository(&self) -> (r: &RsyncUri)
        ensures
            r@ == self@.ca_repository,
    {
        &self.ca_repository
    }

    /// Returns the rsync URI of the manifest.
    pub fn rpki_manifest(&self) -> (r: &RsyncUri)
        ensures
            r@ == self@.rpki_manifest,
    {
        &self.rpki_manifest
    }

    /// Returns the raw manifest.
    pub fn manifest(&self) -> (r: &[u8])
        ensures
            r@ == self@.manifest,
    {
        self.manifest.as_slice()
    }

    /// Returns the raw CRL.
    pub fn crl(&self) -> (r: &[u8])
        ensures
            r@ == self@.crl,
    {
        self.crl.as_slice()
    }

    /// Decides whether a point in an RRDP repository is kept at time `now`.
    ///
    /// Returns `None` if the manifest has expired and the point goes.
    /// Otherwise the point is kept, and the result holds the rpkiNotify URI
    /// to keep alive, if the point has one.
    pub fn retain_rrdp(&self, now: i64) -> (r: Option<Option<HttpsUri>>)
        requires
            self.wf(),
        ensures
            r is Some <==> self@.not_after > now,
            r matches Some(n) ==> match n {
                Some(u) => self@.rpki_notify == Some(u@) && u.wf(),
                None => self@.rpki_notify is None,
            },
    {
        if self.not_after <= now {
            return None;
        }
        match &self.rpki_notify {
            Some(u) => Some(Some(u.duplicate())),
            None => Some(None),
        }
    }

    /// Decides whether a point in the rsync repository is kept at time
    /// `now`.
    ///
    /// Returns the manifest's URI, whose module is kept alive, if the
    /// manifest has not expired yet; `None` means the point goes.
    pub fn retain_rsync(&self, now: i64) -> (r: Option<RsyncUri>)
        requires
            self.wf(),
        ensures
            match r {
                Some(u) => self@.not_after > now && u@ == self@.rpki_manifest && u.wf(),
                None => self@.not_after <= now,
            },
    {
        if self.not_after <= now {
            None
        } else {
            Some(self.rpki_manifest.duplicate())
        }
    }

    /// Appends the manifest record to `out`.
    pub fn write(&self, out: &mut Vec<u8>)
        requires
            self.wf(),
        ensures
            final(out)@ == old(out)@ + manifest_record(self@),
    {
        let ghost start = out@;
        out.push(0u8);
        push_u64(out, self.not_after as u64);
        match &self.rpki_notify {
            Some(u) => push_field32(out, u.as_slice()),
            None => push_u32(out, 0),
        }
        push_field32(out, self.ca_repository.as_slice());
        push_field32(out, self.rpki_manifest.as_slice());
        push_field64(out, self.manifest.as_slice());
        push_field64(out, self.crl.as_slice());
        assert(out@ =~= start + manifest_record(self@));
    }
}

proof fn lemma_zero_field32(s: Seq<u8>, i: int)
    requires
        holds_at(s, i, be_u32(0)),
    ensures
        field32_at(s, i) matches Some((b, e)) && b.len() == 0 && e == i + 4,
{
    lemma_u32_round_trip(0);
    assert(s.subrange(i, i + 4) =~= be_u32(0));
}

/// A manifest record standing at `i` decodes to what it was written from.
pub proof fn lemma_manifest_at(s: Seq<u8>, i: int, v: ManifestView)
    requires
        manifest_view_wf(v),
        holds_at(s, i, manifest_record(v)),
    ensures
        parse_manifest(s, i) == Some((v, i + manifest_record(v).len())),
{
    let r1 = seq![0u8] + be_u64(v.not_after as u64);
    let r2 = r1 + notify_field(v.rpki_notify);
    let r3 = r2 + lp32(v.ca_repository);
    let r4 = r3 + lp32(v.rpki_manifest);
    let r5 = r4 + lp64(v.manifest);
    lemma_holds_split(s, i, r5, lp64(v.crl));
    lemma_holds_split(s, i, r4, lp64(v.manifest));
    lemma_holds_split(s, i, r3, lp32(v.rpki_manifest));
    lemma_holds_split(s, i, r2, lp32(v.ca_repository));
    lemma_holds_split(s, i, r1, notify_field(v.rpki_notify));
    lemma_holds_split(s, i, seq![0u8], be_u64(v.not_after as u64));
    assert(s[i] == s.subrange(i, i + 1)[0]);
    assert(s.subrange(i + 1, i + 9) =~= be_u64(v.not_after as u64));
    lemma_u64_round_trip(v.not_after as u64);
    lemma_i64_round_trip(v.not_after);
    match v.rpki_notify {
        Some(n) => lemma_field32_holds(s, i + 9, n),
        None => lemma_zero_field32(s, i + 9),
    }
    lemma_field32_holds(s, i + r2.len(), v.ca_repository);
    lemma_field32_holds(s, i + r3.len(), v.rpki_manifest);
    lemma_field64_holds(s, i + r4.len(), v.manifest);
    lemma_field64_holds(s, i + r5.len(), v.crl);
}

/// A manifest record read from a prefix of `s` reads the same from `s`.
proof fn lemma_manifest_extend(s: Seq<u8>, k: int, i: int)
    requires
        0 <= k <= s.len(),
        parse_manifest(s.subrange(0, k), i) is Some,
    ensures
        parse_manifest(s, i) == parse_manifest(s.subrange(0, k), i),
{
    let p = s.subrange(0, k);
    assert(p[i] == s[i]);
    assert(p.subrange(i + 1, i + 9) =~= s.subrange(i + 1, i + 9));
    lemma_field32_extend(s, k, i + 9);
    let a = field32_at(p, i + 9)->Some_0.1;
    lemma_field32_extend(s, k, a);
    let b = field32_at(p, a)->Some_0.1;
    lemma_field32_extend(s, k, b);
    let c = field32_at(p, b)->Some_0.1;
    lemma_field64_extend(s, k, c);
    let d = field64_at(p, c)->Some_0.1;
    lemma_field64_extend(s, k, d);
}

/// Decoding the record that `StoredManifest::write` appends gives back the
/// manifest that was written, and consumes the whole record.
pub proof fn lemma_manifest_round_trip(m: StoredManifest)
    requires
        m.wf(),
    ensures
        parse_manifest(manifest_record(m@), 0) == Some((m@, manifest_record(m@).len() as int)),
{
    let r = manifest_record(m@);
    assert(r.subrange(0, r.len() as int) =~= r);
    lemma_manifest_at(r, 0, m@);
}

/// No proper prefix of a manifest record decodes.
pub proof fn lemma_manifest_prefix_rejected(m: StoredManifest, k: int)
    requires
        m.wf(),
        0 <= k < manifest_record(m@).len(),
    ensures
        parse_manifest(manifest_record(m@).subrange(0, k), 0) is None,
{
    let r = manifest_record(m@);
    lemma_manifest_round_trip(m);
    if parse_manifest(r.subrange(0, k), 0) is Some {
        lemma_manifest_extend(r, k, 0);
    }
}

impl PartialEq for StoredManifest {
    fn eq(&self, other: &StoredManifest) -> (r: bool) {
        let notify_eq = match (&self.rpki_notify, &other.rpki_notify) {
            (Some(a), Some(b)) => bytes_eq(a.as_slice(), b.as_slice()),
            (None, None) => true,
            _ => false,
        };
        let r = self.not_after == other.not_after && notify_eq && bytes_eq(
            self.ca_repository.as_slice(),
            other.ca_repository.as_slice(),
        ) && bytes_eq(self.rpki_manifest.as_slice(), other.rpki_manifest.as_slice()) && bytes_eq(
            self.manifest.as_slice(),
            other.manifest.as_slice(),
        ) && bytes_eq(self.crl.as_slice(), other.crl.as_slice());
        assert(r ==> self@ == other@);
        r
    }
}

impl vstd::std_specs::cmp::PartialEqSpecImpl for StoredManifest {
    open spec fn obeys_eq_spec() -> bool {
        true
    }

    open spec fn eq_spec(&self, other: &StoredManifest) -> bool {
        self@ == other@
    }
}

//------------ StoredObject -------------------------------------------------

/// A SHA-256 digest of an object as listed on a manifest.
#[derive(Debug)]
pub struct ManifestHash {
    value: Vec<u8>,
}

impl View for ManifestHash {
    type V = Seq<u8>;

    closed spec fn view(&self) -> Seq<u8> {
        self.value@
    }
}

impl ManifestHash {
    /// Creates a hash from a SHA-256 digest value.
    ///
    /// Returns `None` unless the value has the 32 octets of such a digest.
    pub fn from_sha256(value: Vec<u8>) -> (r: Option<ManifestHash>)
        ensures
            r.is_some() == (value@.len() == 32),
            r matches Some(h) ==> h@ == value@,
    {
        if value.len() == 32 {
            Some(ManifestHash { value })
        } else {
            None
        }
    }

    /// Returns the digest value.
    pub fn as_slice(&self) -> (r: &[u8])
        ensures
            r@ == self@,
    {
        self.value.as_slice()
    }
}

/// An object does not match the hash it was checked against.
#[derive(Clone, Copy, Debug, PartialEq, Eq, Structural)]
pub struct ValidationError;

/// What a stored object holds.
pub struct ObjectView {
    pub uri: Seq<u8>,
    pub hash: Option<Seq<u8>>,
    pub content: Seq<u8>,
}

/// The values that an object record can carry.
pub open spec fn object_view_wf(v: ObjectView) -> bool {
    &&& rsync_valid(v.uri) && v.uri.len() <= u32::MAX
    &&& (v.hash matches Some(h) ==> h.len() == 32)
    &&& v.content.len() <= u64::MAX
}

/// The hash field: a type octet, then the digest if there is one.
pub open spec fn hash_field(h: Option<Seq<u8>>) -> Seq<u8> {
    match h {
        Some(d) => seq![1u8] + d,
        None => seq![0u8],
    }
}

/// The octets of an object record.
pub open spec fn object_record(v: ObjectView) -> Seq<u8> {
    seq![0u8] + lp32(v.uri) + hash_field(v.hash) + lp64(v.content)
}

/// The octets of a sequence of object records.
pub open spec fn objects_record(vs: Seq<ObjectView>) -> Seq<u8>
    decreases vs.len(),
{
    if vs.len() == 0 {
        Seq::empty()
    } else {
        objects_record(vs.drop_last()) + object_record(vs.last())
    }
}

/// Decodes an object record at `i`.
///
/// Gives what the record holds and the position after it, or `None` where
/// the octets there are not a complete, valid record.
pub open spec fn parse_object(s: Seq<u8>, i: int) -> Option<(ObjectView, int)> {
    if !(0 <= i < s.len()) || s[i] != 0 {
        None
    } else {
        match field32_at(s, i + 1) {
            None => None,
            Some((uri, a)) => {
                if !(a < s.len()) || s[a] > 1 {
                    None
                } else {
                    let b = if s[a] == 0 {
                        a + 1
                    } else {
                        a + 33
                    };
                    if b > s.len() {
                        None
                    } else {
                        match field64_at(s, b) {
                            None => None,
                            Some((content, c)) => {
                                if !rsync_valid(uri) {
                                    None
                                } else {
                                    Some(
                                        (
                                            ObjectView {
                                                uri,
                                                hash: if s[a] == 0 {
                                                    None
                                                } else {
                                                    Some(s.subrange(a + 1, a + 33))
                                                },
                                                content,
                                            },
                                            c,
                                        ),
                                    )
                                }
                            },
                        }
                    }
                }
            },
        }
    }
}

/// One object listed on a manifest: its rsync URI, its hash if known, and
/// its content.
#[derive(Debug)]
pub struct StoredObject {
    uri: RsyncUri,
    hash: Option<ManifestHash>,
    content: Vec<u8>,
}

impl View for StoredObject {
    type V = ObjectView;

    closed spec fn view(&self) -> ObjectView {
        ObjectView {
            uri: self.uri@,
            hash: match self.hash {
                Some(h) => Some(h@),
                None => None,
            },
            content: self.content@,
        }
    }
}

impl StoredObject {
    pub open spec fn wf(&self) -> bool {
        object_view_wf(self@)
    }

    /// Creates a stored object from its URI, content and hash.
    pub fn new(uri: RsyncUri, content: Vec<u8>, hash: Option<ManifestHash>) -> (r: StoredObject)
        requires
            uri.wf(),
            content@.len() <= u64::MAX,
            hash matches Some(h) ==> h@.len() == 32,
        ensures
            r.wf(),
            r@.uri == uri@,
            r@.content == content@,
            r@.hash == (match hash {
                Some(h) => Some(h@),
                None => None::<Seq<u8>>,
            }),
    {
        StoredObject { uri, hash, content }
    }

    /// Decodes the object record starting at `*pos`.
    ///
    /// Returns `Ok(None)` where `*pos` is at the end of the data: the
    /// sequence of records ends there. On success, `*pos` moves past the
    /// record.
    pub fn read(data: &[u8], pos: &mut usize) -> (r: Result<Option<StoredObject>, DecodeError>)
        requires
            *old(pos) <= data@.len(),
        ensures
            *old(pos) == data@.len() ==> r == Ok::<Option<StoredObject>, DecodeError>(None)
                && *final(pos) == *old(pos),
            *old(pos) < data@.len() ==> match parse_object(data@, *old(pos) as int) {
                Some((v, end)) => r matches Ok(Some(o)) && o@ == v && o.wf() && *final(pos)
                    == end,
                None => r is Err && *final(pos) == *old(pos),
            },
    {
        let start = *pos;
        if start == data.len() {
            return Ok(None);
        }
        if data[start] != 0 {
            return Err(DecodeError);
        }
        let a = match locate32(data, start + 1) {
            Some(a) => a,
            None => return Err(DecodeError),
        };
        if a >= data.len() || data[a] > 1 {
            return Err(DecodeError);
        }
        let b = if data[a] == 0 {
            a + 1
        } else {
            if data.len() - a < 33 {
                return Err(DecodeError);
            }
            a + 33
        };
        let c = match locate64(data, b) {
            Some(c) => c,
            None => return Err(DecodeError),
        };
        let uri = match RsyncUri::from_slice(slice_subrange(data, start + 5, a)) {
            Some(u) => u,
            None => return Err(DecodeError),
        };
        let hash = if data[a] == 0 {
            None
        } else {
            Some(ManifestHash { value: copy_range(data, a + 1, a + 33) })
        };
        let content = copy_range(data, b + 8, c);
        *pos = c;
        Ok(Some(StoredObject { uri, hash, content }))
    }

    /// Appends the object record to `out`.
    pub fn write(&self, out: &mut Vec<u8>)
        requires
            self.wf(),
        ensures
            final(out)@ == old(out)@ + object_record(self@),
    {
        let ghost start = out@;
        out.push(0u8);
        push_field32(out, self.uri.as_slice());
        match &self.hash {
            Some(h) => {
                out.push(1u8);
                push_bytes(out, h.as_slice());
            },
            None => out.push(0u8),
        }
        push_field64(out, self.content.as_slice());
        assert(out@ =~= start + object_record(self@));
    }

    /// Checks the object against a hash from a manifest.
    ///
    /// Where the object has a stored hash, that hash is compared; otherwise
    /// the SHA-256 digest of the content is.
    pub fn verify_hash(&self, hash: &ManifestHash) -> (r: Result<(), ValidationError>)
        ensures
            r is Ok == match self@.hash {
                Some(h) => h == hash@,
                None => sha256_of(self@.content) == hash@,
            },
    {
        let matched = match &self.hash {
            Some(h) => bytes_eq(h.as_slice(), hash.as_slice()),
            None => {
                let digest = sha256(self.content.as_slice());
                bytes_eq(digest.as_slice(), hash.as_slice())
            },
        };
        if matched {
            Ok(())
        } else {
            Err(ValidationError)
        }
    }

    /// Returns the URI of the object.
    pub fn uri(&self) -> (r: &RsyncUri)
        ensures
            r@ == self@.uri,
    {
        &self.uri
    }

    /// Returns the stored hash of the object, if there is one.
    pub fn hash(&self) -> (r: Option<&ManifestHash>)
        ensures
            match r {
                Some(h) => self@.hash == Some(h@),
                None => self@.hash is None,
            },
    {
        match &self.hash {
            Some(h) => Some(h),
            None => None,
        }
    }

    /// Returns the content of the object.
    pub fn content(&self) -> (r: &[u8])
        ensures
            r@ == self@.content,
    {
        self.content.as_slice()
    }

    /// Converts the object into its content.
    pub fn into_content(self) -> (r: Vec<u8>)
        ensures
            r@ == self@.content,
    {
        self.content
    }
}

impl PartialEq for StoredObject {
    fn eq(&self, other: &StoredObject) -> (r: bool) {
        let hash_eq = match (&self.hash, &other.hash) {
            (Some(a), Some(b)) => bytes_eq(a.as_slice(), b.as_slice()),
            (None, None) => true,
            _ => false,
        };
        let r = hash_eq && bytes_eq(self.uri.as_slice(), other.uri.as_slice()) && bytes_eq(
            self.content.as_slice(),
            other.content.as_slice(),
        );
        assert(r ==> self@ == other@);
        r
    }
}

impl vstd::std_specs::cmp::PartialEqSpecImpl for StoredObject {
    open spec fn obeys_eq_spec() -> bool {
        true
    }

    open spec fn eq_spec(&self, other: &StoredObject) -> bool {
        self@ == other@
    }
}

/// An object record standing at `i` decodes to what it was written from.
pub proof fn lemma_object_at(s: Seq<u8>, i: int, v: ObjectView)
    requires
        object_view_wf(v),
        holds_at(s, i, object_record(v)),
    ensures
        parse_object(s, i) == Some((v, i + object_record(v).len())),
{
    let r1 = seq![0u8] + lp32(v.uri);
    let r2 = r1 + hash_field(v.hash);
    lemma_holds_split(s, i, r2, lp64(v.content));
    lemma_holds_split(s, i, r1, hash_field(v.hash));
    lemma_holds_split(s, i, seq![0u8], lp32(v.uri));
    assert(s[i] == s.subrange(i, i + 1)[0]);
    lemma_field32_holds(s, i + 1, v.uri);
    let a = i + r1.len();
    assert(s[a] == s.subrange(a, a + hash_field(v.hash).len())[0]);
    match v.hash {
        Some(d) => {
            lemma_holds_split(s, a, seq![1u8], d);
        },
        None => {},
    }
    lemma_field64_holds(s, i + r2.len(), v.content);
}

/// An object record read from a prefix of `s` reads the same from `s`.
proof fn lemma_object_extend(s: Seq<u8>, k: int, i: int)
    requires
        0 <= k <= s.len(),
        parse_object(s.subrange(0, k), i) is Some,
    ensures
        parse_object(s, i) == parse_object(s.subrange(0, k), i),
{
    let p = s.subrange(0, k);
    assert(p[i] == s[i]);
    lemma_field32_extend(s, k, i + 1);
    let a = field32_at(p, i + 1)->Some_0.1;
    assert(p[a] == s[a]);
    if p[a] != 0 {
        assert(p.subrange(a + 1, a + 33) =~= s.subrange(a + 1, a + 33));
    }
    let b = if p[a] == 0 {
        a + 1
    } else {
        a + 33
    };
    lemma_field64_extend(s, k, b);
}

/// Decoding the record that `StoredObject::write` appends gives back the
/// object that was written, and consumes the whole record.
pub proof fn lemma_object_round_trip(o: StoredObject)
    requires
        o.wf(),
    ensures
        parse_object(object_record(o@), 0) == Some((o@, object_record(o@).len() as int)),
{
    let r = object_record(o@);
    assert(r.subrange(0, r.len() as int) =~= r);
    lemma_object_at(r, 0, o@);
}

/// No proper prefix of an object record decodes.
pub proof fn lemma_object_prefix_rejected(o: StoredObject, k: int)
    requires
        o.wf(),
        0 <= k < object_record(o@).len(),
    ensures
        parse_object(object_record(o@).subrange(0, k), 0) is None,
{
    let r = object_record(o@);
    lemma_object_round_trip(o);
    if parse_object(r.subrange(0, k), 0) is Some {
        lemma_object_extend(r, k, 0);
    }
}

} // verus!
