//! The layout of the store: where trust anchors, repositories and
//! publication points live below the store's base directory.

use vstd::prelude::*;
use crate::digest::{hex_of, lemma_hex_len, push_hex, sha256, sha256_of};
use crate::error::Failed;
use crate::point::StoredPoint;
use crate::record::parse_manifest;
use crate::uri::{
    https_authority, https_path, rsync_authority, rsync_module, rsync_path, HttpsUri, RsyncUri,
};

verus! {

/// `seg` as a path component below `base`.
pub open spec fn join(base: Seq<char>, seg: Seq<char>) -> Seq<char> {
    base + seq!['/'] + seg
}

/// Appends `seg` as a path component.
fn push_seg(out: &mut String, seg: &str)
    ensures
        final(out)@ == join(old(out)@, seg@),
{
    out.append("/");
    out.append(seg);
    proof {
        reveal_strlit("/");
    }
    assert(final(out)@ =~= join(old(out)@, seg@));
}

/// The path of the point whose manifest has the rsync URI `u`, within the
/// repository at `repo`.
pub open spec fn point_path_of(repo: Seq<char>, u: Seq<u8>) -> Seq<char> {
    join(join(join(join(repo, "rsync"@), rsync_authority(u)), rsync_module(u)), rsync_path(u))
}

/// The directory of the repository with the rpkiNotify URI `u`.
pub open spec fn rrdp_path_of(base: Seq<char>, u: Seq<u8>) -> Seq<char> {
    join(join(base, "rrdp"@), hex_of(sha256_of(u)))
}

/// The configuration the store needs.
#[derive(Debug)]
pub struct Config {
    /// The directory that holds the store among other caches.
    pub cache_dir: String,
}

/// A trust anchor's URI, as a TAL gives it.
#[derive(Debug)]
pub enum TalUri {
    Rsync(RsyncUri),
    Https(HttpsUri),
}

impl TalUri {
    pub open spec fn wf(&self) -> bool {
        match self {
            TalUri::Rsync(u) => u.wf(),
            TalUri::Https(u) => u.wf(),
        }
    }
}

/// The part of a CA certificate that decides where its data is stored.
#[derive(Debug)]
pub struct CaCert {
    rpki_notify: Option<HttpsUri>,
    rpki_manifest: RsyncUri,
}

impl CaCert {
    pub open spec fn wf(&self) -> bool {
        &&& (self.spec_rpki_notify() matches Some(u) ==> u.wf())
        &&& self.spec_rpki_manifest().wf()
    }

    pub closed spec fn spec_rpki_notify(&self) -> Option<HttpsUri> {
        self.rpki_notify
    }

    pub closed spec fn spec_rpki_manifest(&self) -> RsyncUri {
        self.rpki_manifest
    }

    /// Creates the value from the certificate's rpkiNotify and rpkiManifest
    /// URIs.
    pub fn new(rpki_notify: Option<HttpsUri>, rpki_manifest: RsyncUri) -> (r: CaCert)
        ensures
            r.spec_rpki_notify() == rpki_notify,
            r.spec_rpki_manifest() == rpki_manifest,
    {
        CaCert { rpki_notify, rpki_manifest }
    }

    /// Returns the rpkiNotify URI, if the CA has one.
    pub fn rpki_notify(&self) -> (r: Option<&HttpsUri>)
        ensures
            match r {
                Some(u) => self.spec_rpki_notify() == Some(*u),
                None => self.spec_rpki_notify() is None,
            },
    {
        match &self.rpki_notify {
            Some(u) => Some(u),
            None => None,
        }
    }

    /// Returns the rsync URI of the CA's manifest.
    pub fn rpki_manifest(&self) -> (r: &RsyncUri)
        ensures
            *r == self.spec_rpki_manifest(),
    {
        &self.rpki_manifest
    }
}

/// The sink for what a validation run reports when it is done.
///
/// The store has nothing to report yet.
#[derive(Debug, PartialEq, Eq, Structural)]
pub struct Metrics {}

/// A store for correctly published RPKI objects.
#[derive(Debug)]
pub struct Store {
    path: String,
}

impl Store {
    /// The base directory of the store.
    pub closed spec fn spec_path(&self) -> Seq<char> {
        self.path@
    }

    /// Returns the base directory that `config` gives the store.
    ///
    /// The directory is called `stored`, within the cache directory.
    pub fn base_dir(config: &Config) -> (r: String)
        ensures
            r@ == join(config.cache_dir@, "stored"@),
    {
        let mut path = config.cache_dir.clone();
        push_seg(&mut path, "stored");
        path
    }

    /// Creates the store for `config`.
    ///
    /// The caller makes sure that its base directory exists.
    pub fn new(config: &Config) -> (r: Store)
        ensures
            r.spec_path() == join(config.cache_dir@, "stored"@),
    {
        Store { path: Self::base_dir(config) }
    }

    /// Returns the base directory of the store.
    pub fn path(&self) -> (r: &str)
        ensures
            r@ == self.spec_path(),
    {
        self.path.as_str()
    }

    /// Starts a validation run.
    pub fn start(&self) -> (r: Run<'_>)
        ensures
            *r.store() == *self,
    {
        Run::new(self)
    }

    /// Returns the directory of the trust anchor certificates.
    pub fn ta_base(&self) -> (r: String)
        ensures
            r@ == join(self.spec_path(), "ta"@),
    {
        let mut path = self.path.clone();
        push_seg(&mut path, "ta");
        path
    }

    /// Returns the path of the stored trust anchor certificate for `uri`.
    ///
    /// An rsync URI gives `ta/rsync/<authority>/<module>/<path>`, an HTTPS
    /// URI `ta/https/<authority>/<path>`.
    pub fn ta_path(&self, uri: &TalUri) -> (r: String)
        requires
            uri.wf(),
        ensures
            match uri {
                TalUri::Rsync(u) => r@ == join(
                    join(join(join(self.ta_base_spec(), "rsync"@), rsync_authority(u@)), rsync_module(u@)),
                    rsync_path(u@),
                ),
                TalUri::Https(u) => r@ == join(
                    join(join(self.ta_base_spec(), "https"@), https_authority(u@)),
                    https_path(u@),
                ),
            },
    {
        let mut path = self.ta_base();
        match uri {
            TalUri::Rsync(u) => {
                push_seg(&mut path, "rsync");
                push_seg(&mut path, u.canonical_authority().as_str());
                push_seg(&mut path, u.module_name().as_str());
                push_seg(&mut path, u.path().as_str());
            },
            TalUri::Https(u) => {
                push_seg(&mut path, "https");
                push_seg(&mut path, u.canonical_authority().as_str());
                push_seg(&mut path, u.path().as_str());
            },
        }
        path
    }

    pub open spec fn ta_base_spec(&self) -> Seq<char> {
        join(self.spec_path(), "ta"@)
    }

    /// Returns the directory that holds all RRDP repositories.
    pub fn rrdp_repository_base(&self) -> (r: String)
        ensures
            r@ == join(self.spec_path(), "rrdp"@),
    {
        let mut path = self.path.clone();
        push_seg(&mut path, "rrdp");
        path
    }

    /// Returns the directory of the RRDP repository with rpkiNotify URI
    /// `uri`: named by the SHA-256 digest of the URI in lower-case hex.
    pub fn rrdp_repository_path(&self, uri: &HttpsUri) -> (r: String)
        ensures
            r@ == rrdp_path_of(self.spec_path(), uri@),
            hex_of(sha256_of(uri@)).len() == 64,
    {
        let mut path = self.rrdp_repository_base();
        let digest = sha256(uri.as_slice());
        path.append("/");
        push_hex(&mut path, digest.as_slice());
        proof {
            reveal_strlit("/");
            lemma_hex_len(digest@);
        }
        assert(path@ =~= rrdp_path_of(self.spec_path(), uri@));
        path
    }

    /// Returns the directory of the shared rsync repository.
    pub fn rsync_repository_path(&self) -> (r: String)
        ensures
            r@ == join(self.spec_path(), "rsync"@),
    {
        let mut path = self.path.clone();
        push_seg(&mut path, "rsync");
        path
    }

    /// Returns the scratch directory for staging files.
    pub fn tmp_dir(&self) -> (r: String)
        ensures
            r@ == join(self.spec_path(), "tmp"@),
    {
        let mut path = self.path.clone();
        push_seg(&mut path, "tmp");
        path
    }

    /// Returns the path of the staging file named by the random value `n`:
    /// its eight lower-case hex digits in the scratch directory.
    pub fn tmp_path(&self, n: u32) -> (r: String)
        ensures
            r@ == join(join(self.spec_path(), "tmp"@), hex_of(crate::record::be_u32(n))),
    {
        let mut path = self.tmp_dir();
        let mut octets: Vec<u8> = Vec::new();
        crate::record::push_u32(&mut octets, n);
        assert(octets@ =~= crate::record::be_u32(n));
        path.append("/");
        push_hex(&mut path, octets.as_slice());
        proof {
            reveal_strlit("/");
        }
        assert(path@ =~= join(join(self.spec_path(), "tmp"@), hex_of(crate::record::be_u32(n))));
        path
    }
}

/// Relies on `rand::random`, here for the name of a staging file. Nothing
/// is known of the value drawn.
pub assume_specification<T>[ rand::random::<T> ]() -> (r: T)
    where
        rand::distributions::Standard: rand::distributions::Distribution<T>,
;

impl Store {
    /// Returns the path of a new staging file with a random name.
    pub fn random_tmp_path(&self) -> (r: String)
        ensures
            exists|n: u32|
                r@ == join(join(self.spec_path(), "tmp"@), hex_of(crate::record::be_u32(n))),
    {
        let n: u32 = rand::random::<u32>();
        self.tmp_path(n)
    }
}

/// The number of random names tried for a staging file before giving up.
pub const TMP_FILE_ATTEMPTS: u32 = 100;

/// What came of creating a staging file under a fresh random name.
#[derive(Clone, Copy, Debug, PartialEq, Eq, Structural)]
pub enum CreateOutcome {
    /// The file was created.
    Created,
    /// A file of that name exists already.
    Exists,
    /// Creating failed for another reason.
    OtherError,
}

/// What to do after an attempt to create a staging file.
#[derive(Clone, Copy, Debug, PartialEq, Eq, Structural)]
pub enum TmpAction {
    /// Use the file just created.
    Use,
    /// Try again with another random name.
    Retry,
    /// Give up: a storage fault.
    Fatal,
}

/// Decides what follows the attempt numbered `attempt`, counting from
/// zero, to create a staging file.
///
/// A name that is taken is retried with another until
/// [`TMP_FILE_ATTEMPTS`] attempts have been made; any other failure is
/// fatal at once.
pub fn tmp_next(attempt: u32, outcome: CreateOutcome) -> (r: TmpAction)
    ensures
        outcome is Created ==> r is Use,
        outcome is OtherError ==> r is Fatal,
        outcome is Exists ==> (r is Retry <==> attempt + 1 < TMP_FILE_ATTEMPTS) && (!(
        r is Retry) ==> r is Fatal),
{
    match outcome {
        CreateOutcome::Created => TmpAction::Use,
        CreateOutcome::OtherError => TmpAction::Fatal,
        CreateOutcome::Exists => if attempt < TMP_FILE_ATTEMPTS - 1 {
            TmpAction::Retry
        } else {
            TmpAction::Fatal
        },
    }
}

/// A validation run using the store.
#[derive(Debug)]
pub struct Run<'a> {
    store: &'a Store,
}

impl<'a> Run<'a> {
    pub closed spec fn store(&self) -> &'a Store {
        self.store
    }

    fn new(store: &'a Store) -> (r: Run<'a>)
        ensures
            *r.store() == *store,
    {
        Run { store }
    }

    /// Returns the store of the run.
    pub fn get_store(&self) -> (r: &'a Store)
        ensures
            *r == *self.store(),
    {
        self.store
    }

    /// Finishes the run, reporting to `metrics`.
    ///
    /// The store reports nothing, so `metrics` stays as it is.
    pub fn done(self, metrics: &mut Metrics)
        ensures
            *final(metrics) == *old(metrics),
    {
    }

    /// Returns the repository that stores the data of the CA `ca_cert`.
    ///
    /// A CA with an rpkiNotify URI is stored in the RRDP repository of that
    /// URI, even where its data came by rsync; any other CA in the shared
    /// rsync repository.
    pub fn repository(&self, ca_cert: &CaCert) -> (r: Repository<'a>)
        ensures
            *r.store() == *self.store(),
            match ca_cert.spec_rpki_notify() {
                Some(u) => r.spec_is_rrdp() && r.spec_path() == rrdp_path_of(
                    self.store().spec_path(),
                    u@,
                ),
                None => !r.spec_is_rrdp() && r.spec_path() == join(
                    self.store().spec_path(),
                    "rsync"@,
                ),
            },
    {
        match ca_cert.rpki_notify() {
            Some(u) => Repository::new(self.store, self.store.rrdp_repository_path(u), true),
            None => Repository::new(self.store, self.store.rsync_repository_path(), false),
        }
    }

    /// Opens the publication point of the CA `ca_cert`, given the content
    /// of its file if there is one.
    pub fn pub_point(&self, ca_cert: &CaCert, content: Option<Vec<u8>>) -> (r: Result<
        StoredPoint,
        Failed,
    >)
        requires
            ca_cert.wf(),
        ensures
            match content {
                None => r matches Ok(p) && p.spec_file() is None && p.spec_manifest() is None,
                Some(d) => match parse_manifest(d@, 0) {
                    Some((v, end)) => r matches Ok(p) && p.spec_file() == Some(d@)
                        && p.spec_manifest() == Some(v) && p.spec_pos() == end
                        && p.spec_object_start() == end,
                    None => r is Err,
                },
            },
            r matches Ok(p) ==> p.wf() && p.spec_is_rrdp() == ca_cert.spec_rpki_notify() is Some
                && p.spec_path() == point_path_of(
                match ca_cert.spec_rpki_notify() {
                    Some(u) => rrdp_path_of(self.store().spec_path(), u@),
                    None => join(self.store().spec_path(), "rsync"@),
                },
                ca_cert.spec_rpki_manifest()@,
            ),
    {
        self.repository(ca_cert).get_point(ca_cert.rpki_manifest(), content)
    }
}

/// A repository during a validation run: a directory of publication
/// points.
#[derive(Debug)]
pub struct Repository<'a> {
    store: &'a Store,
    path: String,
    is_rrdp: bool,
}

impl<'a> Repository<'a> {
    pub closed spec fn store(&self) -> &'a Store {
        self.store
    }

    pub closed spec fn spec_path(&self) -> Seq<char> {
        self.path@
    }

    pub closed spec fn spec_is_rrdp(&self) -> bool {
        self.is_rrdp
    }

    fn new(store: &'a Store, path: String, is_rrdp: bool) -> (r: Repository<'a>)
        ensures
            *r.store() == *store,
            r.spec_path() == path@,
            r.spec_is_rrdp() == is_rrdp,
    {
        Repository { store, path, is_rrdp }
    }

    /// Returns whether this is an RRDP repository.
    pub fn is_rrdp(&self) -> (r: bool)
        ensures
            r == self.spec_is_rrdp(),
    {
        self.is_rrdp
    }

    /// Returns the directory of the repository.
    pub fn path(&self) -> (r: &str)
        ensures
            r@ == self.spec_path(),
    {
        self.path.as_str()
    }

    /// Returns the path of the point whose manifest has the URI
    /// `manifest_uri`: `rsync/<authority>/<module>/<path>` within the
    /// repository, whichever transport delivered the point.
    pub fn point_path(&self, manifest_uri: &RsyncUri) -> (r: String)
        requires
            manifest_uri.wf(),
        ensures
            r@ == point_path_of(self.spec_path(), manifest_uri@),
    {
        let mut path = self.path.clone();
        push_seg(&mut path, "rsync");
        push_seg(&mut path, manifest_uri.canonical_authority().as_str());
        push_seg(&mut path, manifest_uri.module_name().as_str());
        push_seg(&mut path, manifest_uri.path().as_str());
        path
    }

    /// Opens the point whose manifest has the URI `manifest_uri`, given the
    /// content of its file if there is one.
    ///
    /// A point is returned whether or not data is stored for it; a file
    /// whose header does not decode is a storage fault.
    pub fn get_point(&self, manifest_uri: &RsyncUri, content: Option<Vec<u8>>) -> (r: Result<
        StoredPoint,
        Failed,
    >)
        requires
            manifest_uri.wf(),
        ensures
            match content {
                None => r matches Ok(p) && p.spec_file() is None && p.spec_manifest() is None,
                Some(d) => match parse_manifest(d@, 0) {
                    Some((v, end)) => r matches Ok(p) && p.spec_file() == Some(d@)
                        && p.spec_manifest() == Some(v) && p.spec_pos() == end
                        && p.spec_object_start() == end,
                    None => r is Err,
                },
            },
            r matches Ok(p) ==> p.wf() && p.spec_path() == point_path_of(
                self.spec_path(),
                manifest_uri@,
            ) && p.spec_is_rrdp() == self.spec_is_rrdp(),
    {
        StoredPoint::open(self.point_path(manifest_uri), content, self.is_rrdp)
    }
}

} // verus!
