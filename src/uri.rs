//! The two kinds of URI that the store files data under.
//!
//! Both are held as their raw octets. Whether octets form a valid URI, and
//! the parts of a valid URI, are decided by the `rpki` crate.

use vstd::prelude::*;

verus! {

/// Whether the octets form a valid rsync URI.
pub uninterp spec fn rsync_valid(b: Seq<u8>) -> bool;

/// The position of the first `/` in `b` at or after `i`, or the length of
/// `b` if there is none.
pub open spec fn slash_from(b: Seq<u8>, i: int) -> int
    decreases b.len() - i,
{
    if i >= b.len() {
        b.len() as int
    } else if b[i] == 47 {
        i
    } else {
        slash_from(b, i + 1)
    }
}

/// An ASCII octet as a character, upper-case letters lowered.
pub open spec fn lower_char(c: u8) -> char {
    if 65 <= c <= 90 {
        ((c + 32) as u8) as char
    } else {
        c as char
    }
}

/// ASCII octets as characters.
pub open spec fn ascii_chars(b: Seq<u8>) -> Seq<char> {
    b.map_values(|c: u8| c as char)
}

/// ASCII octets as characters, upper-case letters lowered.
pub open spec fn lower_chars(b: Seq<u8>) -> Seq<char> {
    b.map_values(|c: u8| lower_char(c))
}

/// Where the authority of an rsync URI ends: the first `/` after the
/// eight octets of `rsync://`.
pub open spec fn rsync_authority_end(b: Seq<u8>) -> int {
    slash_from(b, 8)
}

/// Where the module name of an rsync URI ends.
pub open spec fn rsync_module_end(b: Seq<u8>) -> int {
    slash_from(b, rsync_authority_end(b) + 1)
}

/// The canonical authority of a valid rsync URI: what stands between
/// `rsync://` and the next `/`, lower-cased.
pub open spec fn rsync_authority(b: Seq<u8>) -> Seq<char> {
    lower_chars(b.subrange(8, rsync_authority_end(b)))
}

/// The module name of a valid rsync URI: the segment after the authority.
pub open spec fn rsync_module(b: Seq<u8>) -> Seq<char> {
    ascii_chars(b.subrange(rsync_authority_end(b) + 1, rsync_module_end(b)))
}

/// The path of a valid rsync URI: everything after the module's `/`.
pub open spec fn rsync_path(b: Seq<u8>) -> Seq<char> {
    ascii_chars(b.subrange(rsync_module_end(b) + 1, b.len() as int))
}

/// An octet that may stand in a URI: `!`, `$` to `;`, `=`, the ASCII
/// letters, `_` and `~`.
pub open spec fn uri_char(c: u8) -> bool {
    c == 33 || (36 <= c <= 59) || c == 61 || (65 <= c <= 90) || c == 95 || (97 <= c <= 122)
        || c == 126
}

/// Whether the octets form a valid HTTPS URI: URI characters only,
/// starting with `https://` in any case.
pub open spec fn https_valid(b: Seq<u8>) -> bool {
    &&& forall|i: int| 0 <= i < b.len() ==> uri_char(#[trigger] b[i])
    &&& b.len() >= 8
    &&& lower_chars(b.subrange(0, 8)) == seq!['h', 't', 't', 'p', 's', ':', '/', '/']
}

/// Where the authority of an HTTPS URI ends: the first `/` after the
/// eight octets of `https://`, or the end.
pub open spec fn https_authority_end(b: Seq<u8>) -> int {
    slash_from(b, 8)
}

/// The canonical authority of a valid HTTPS URI, lower-cased.
pub open spec fn https_authority(b: Seq<u8>) -> Seq<char> {
    lower_chars(b.subrange(8, https_authority_end(b)))
}

/// The path of a valid HTTPS URI: everything from the `/` that ends the
/// authority, that `/` included.
pub open spec fn https_path(b: Seq<u8>) -> Seq<char> {
    ascii_chars(b.subrange(https_authority_end(b), b.len() as int))
}

/// Whether two valid HTTPS URIs are equal: the authority ends at the same
/// place, everything up to it is equal ignoring ASCII case, and the rest
/// is equal.
pub open spec fn https_same(a: Seq<u8>, b: Seq<u8>) -> bool {
    let n = https_authority_end(a);
    &&& n == https_authority_end(b)
    &&& lower_chars(a.subrange(0, n)) == lower_chars(b.subrange(0, n))
    &&& a.subrange(n, a.len() as int) == b.subrange(n, b.len() as int)
}

/// Relies on `rpki::uri::Rsync::from_slice`: whether it accepts the octets.
#[verifier::external_body]
fn check_rsync(b: &[u8]) -> (r: bool)
    ensures
        r == rsync_valid(b@),
{
    rpki::uri::Rsync::from_slice(b).is_ok()
}

/// Relies on `rpki::uri::Rsync::canonical_authority`.
#[verifier::external_body]
fn rsync_canonical_authority(b: &[u8]) -> (r: String)
    requires
        rsync_valid(b@),
    ensures
        r@ == rsync_authority(b@),
{
    match rpki::uri::Rsync::from_slice(b) {
        Ok(uri) => uri.canonical_authority().into_owned(),
        Err(_) => String::new(),
    }
}

/// Relies on `rpki::uri::Rsync::module_name`.
#[verifier::external_body]
fn rsync_module_name(b: &[u8]) -> (r: String)
    requires
        rsync_valid(b@),
    ensures
        r@ == rsync_module(b@),
{
    match rpki::uri::Rsync::from_slice(b) {
        Ok(uri) => uri.module_name().to_string(),
        Err(_) => String::new(),
    }
}

/// Relies on `rpki::uri::Rsync::path`.
#[verifier::external_body]
fn rsync_path_of(b: &[u8]) -> (r: String)
    requires
        rsync_valid(b@),
    ensures
        r@ == rsync_path(b@),
{
    match rpki::uri::Rsync::from_slice(b) {
        Ok(uri) => uri.path().to_string(),
        Err(_) => String::new(),
    }
}

/// Relies on `rpki::uri::Https::from_slice`: whether it accepts the octets.
#[verifier::external_body]
fn check_https(b: &[u8]) -> (r: bool)
    ensures
        r == https_valid(b@),
{
    rpki::uri::Https::from_slice(b).is_ok()
}

/// Relies on `rpki::uri::Https::canonical_authority`.
#[verifier::external_body]
fn https_canonical_authority(b: &[u8]) -> (r: String)
    requires
        https_valid(b@),
    ensures
        r@ == https_authority(b@),
{
    match rpki::uri::Https::from_slice(b) {
        Ok(uri) => uri.canonical_authority().into_owned(),
        Err(_) => String::new(),
    }
}

/// Relies on `rpki::uri::Https::path`.
#[verifier::external_body]
fn https_path_of(b: &[u8]) -> (r: String)
    requires
        https_valid(b@),
    ensures
        r@ == https_path(b@),
{
    match rpki::uri::Https::from_slice(b) {
        Ok(uri) => uri.path().to_string(),
        Err(_) => String::new(),
    }
}

/// Relies on the `PartialEq` impl of `rpki::uri::Https`.
#[verifier::external_body]
fn https_eq(a: &[u8], b: &[u8]) -> (r: bool)
    requires
        https_valid(a@),
        https_valid(b@),
    ensures
        r == https_same(a@, b@),
        a@ == b@ ==> r,
{
    match (rpki::uri::Https::from_slice(a), rpki::uri::Https::from_slice(b)) {
        (Ok(x), Ok(y)) => x == y,
        _ => false,
    }
}

/// Copies a byte slice into a new vector.
pub fn copy_bytes(b: &[u8]) -> (r: Vec<u8>)
    ensures
        r@ == b@,
{
    let mut r: Vec<u8> = Vec::new();
    let mut i: usize = 0;
    while i < b.len()
        invariant
            i <= b@.len(),
            r@ == b@.subrange(0, i as int),
        decreases b@.len() - i,
    {
        r.push(b[i]);
        i = i + 1;
    }
    assert(r@ =~= b@);
    r
}

/// Whether two byte slices hold the same octets.
pub fn bytes_eq(a: &[u8], b: &[u8]) -> (r: bool)
    ensures
        r == (a@ == b@),
{
    if a.len() != b.len() {
        return false;
    }
    let mut i: usize = 0;
    while i < a.len()
        invariant
            a@.len() == b@.len(),
            i <= a@.len(),
            a@.subrange(0, i as int) == b@.subrange(0, i as int),
        decreases a@.len() - i,
    {
        if a[i] != b[i] {
            assert(a@[i as int] != b@[i as int]);
            return false;
        }
        assert(a@.subrange(0, i + 1) =~= a@.subrange(0, i as int).push(a@[i as int]));
        assert(b@.subrange(0, i + 1) =~= b@.subrange(0, i as int).push(b@[i as int]));
        i = i + 1;
    }
    assert(a@ =~= a@.subrange(0, a@.len() as int));
    assert(b@ =~= b@.subrange(0, b@.len() as int));
    true
}

/// An rsync URI, held as its octets.
#[derive(Debug)]
pub struct RsyncUri {
    bytes: Vec<u8>,
}

impl View for RsyncUri {
    type V = Seq<u8>;

    closed spec fn view(&self) -> Seq<u8> {
        self.bytes@
    }
}

impl RsyncUri {
    /// A valid URI that fits a four-octet length field.
    pub open spec fn wf(&self) -> bool {
        rsync_valid(self@) && self@.len() <= u32::MAX
    }

    /// Creates a URI from its octets.
    ///
    /// Returns `None` unless the octets are a valid rsync URI whose length
    /// fits in 32 bits.
    pub fn from_slice(b: &[u8]) -> (r: Option<RsyncUri>)
        ensures
            r.is_some() == (rsync_valid(b@) && b@.len() <= u32::MAX),
            r matches Some(u) ==> u@ == b@ && u.wf(),
    {
        if b.len() > 4294967295 {
            return None;
        }
        if !check_rsync(b) {
            return None;
        }
        Some(RsyncUri { bytes: copy_bytes(b) })
    }

    /// Returns the octets of the URI.
    pub fn as_slice(&self) -> (r: &[u8])
        ensures
            r@ == self@,
    {
        self.bytes.as_slice()
    }

    /// Returns the canonical authority.
    pub fn canonical_authority(&self) -> (r: String)
        requires
            self.wf(),
        ensures
            r@ == rsync_authority(self@),
    {
        rsync_canonical_authority(self.bytes.as_slice())
    }

    /// Returns the module name.
    pub fn module_name(&self) -> (r: String)
        requires
            self.wf(),
        ensures
            r@ == rsync_module(self@),
    {
        rsync_module_name(self.bytes.as_slice())
    }

    /// Returns the path below the module.
    pub fn path(&self) -> (r: String)
        requires
            self.wf(),
        ensures
            r@ == rsync_path(self@),
    {
        rsync_path_of(self.bytes.as_slice())
    }

    /// Returns an equal copy.
    pub fn duplicate(&self) -> (r: RsyncUri)
        ensures
            r@ == self@,
            self.wf() ==> r.wf(),
    {
        RsyncUri { bytes: copy_bytes(self.bytes.as_slice()) }
    }
}

/// An HTTPS URI, held as its octets.
#[derive(Debug)]
pub struct HttpsUri {
    bytes: Vec<u8>,
}

impl View for HttpsUri {
    type V = Seq<u8>;

    closed spec fn view(&self) -> Seq<u8> {
        self.bytes@
    }
}

impl HttpsUri {
    /// A valid, non-empty URI that fits a four-octet length field.
    pub open spec fn wf(&self) -> bool {
        https_valid(self@) && 0 < self@.len() <= u32::MAX
    }

    /// Creates a URI from its octets.
    ///
    /// Returns `None` unless the octets are a valid HTTPS URI whose length
    /// fits in 32 bits.
    pub fn from_slice(b: &[u8]) -> (r: Option<HttpsUri>)
        ensures
            r.is_some() == (https_valid(b@) && b@.len() <= u32::MAX),
            r matches Some(u) ==> u@ == b@ && u.wf(),
    {
        if b.len() > 4294967295 {
            return None;
        }
        if !check_https(b) {
            return None;
        }
        Some(HttpsUri { bytes: copy_bytes(b) })
    }

    /// Returns the octets of the URI.
    pub fn as_slice(&self) -> (r: &[u8])
        ensures
            r@ == self@,
    {
        self.bytes.as_slice()
    }

    /// Returns the canonical authority.
    pub fn canonical_authority(&self) -> (r: String)
        requires
            self.wf(),
        ensures
            r@ == https_authority(self@),
    {
        https_canonical_authority(self.bytes.as_slice())
    }

    /// Returns whether `other` is the same URI.
    pub fn same_as(&self, other: &HttpsUri) -> (r: bool)
        requires
            self.wf(),
            other.wf(),
        ensures
            r == https_same(self@, other@),
            self@ == other@ ==> r,
    {
        https_eq(self.bytes.as_slice(), other.bytes.as_slice())
    }

    /// Returns the path, as the `rpki` crate gives it.
    pub fn path(&self) -> (r: String)
        requires
            self.wf(),
        ensures
            r@ == https_path(self@),
    {
        https_path_of(self.bytes.as_slice())
    }

    /// Returns an equal copy.
    pub fn duplicate(&self) -> (r: HttpsUri)
        ensures
            r@ == self@,
            self.wf() ==> r.wf(),
    {
        HttpsUri { bytes: copy_bytes(self.bytes.as_slice()) }
    }
}

} // verus!
