//! The directories of the export of the store into a plain file tree.
//!
//! Each RRDP repository gets a directory of its own, named after the
//! authority of its rpkiNotify URI; where another repository already has
//! that name, a suffix `-1`, `-2`, ... is added. The shared rsync
//! repository goes to the directory `rsync`.

use vstd::prelude::*;
use vstd::set_lib::{lemma_int_range, lemma_len_subset, set_int_range};
use crate::digest::{digit_str, hex_digit};
use crate::record::{parse_manifest, parse_object, ManifestView, StoredManifest, StoredObject};
use crate::store::join;
use crate::uri::{
    https_authority, https_same, rsync_authority, rsync_module, rsync_path, rsync_valid, HttpsUri,
    RsyncUri,
};

verus! {

/// The decimal digits of `n`.
pub open spec fn dec_of(n: nat) -> Seq<char>
    decreases n,
{
    if n < 10 {
        seq![hex_digit(n as u8)]
    } else {
        dec_of(n / 10) + seq![hex_digit((n % 10) as u8)]
    }
}

/// The `i`-th alternative name for a directory named `a`.
pub open spec fn suffixed(a: Seq<char>, i: nat) -> Seq<char> {
    a + seq!['-'] + dec_of(i)
}

/// `name` is the first of `a`, `a-1`, `a-2`, ... that `dirs` does not
/// hold.
pub open spec fn first_free(dirs: Seq<Seq<char>>, a: Seq<char>, name: Seq<char>) -> bool {
    if !dirs.contains(a) {
        name == a
    } else {
        exists|i: nat|
            #![trigger suffixed(a, i)]
            i >= 1 && name == suffixed(a, i) && !dirs.contains(name) && forall|j: nat|
                1 <= j < i ==> dirs.contains(#[trigger] suffixed(a, j))
    }
}

proof fn lemma_dec_len(n: nat)
    ensures
        dec_of(n).len() >= 1,
        n >= 10 ==> dec_of(n).len() >= 2,
    decreases n,
{
    if n >= 10 {
        lemma_dec_len(n / 10);
    }
}

proof fn lemma_dec_injective(n: nat, m: nat)
    requires
        dec_of(n) == dec_of(m),
    ensures
        n == m,
    decreases n,
{
    lemma_dec_len(n);
    lemma_dec_len(m);
    let d = dec_of(n);
    if n < 10 {
        assert(m < 10);
        assert(d[0] == hex_digit(n as u8));
    } else {
        assert(m >= 10);
        assert(d.last() == hex_digit((n % 10) as u8));
        assert(dec_of(m).last() == hex_digit((m % 10) as u8));
        assert(n % 10 == m % 10);
        assert(d.drop_last() =~= dec_of(n / 10));
        assert(dec_of(m).drop_last() =~= dec_of(m / 10));
        lemma_dec_injective(n / 10, m / 10);
    }
}

proof fn lemma_suffixed_injective(a: Seq<char>, i: nat, j: nat)
    requires
        suffixed(a, i) == suffixed(a, j),
    ensures
        i == j,
{
    let s = suffixed(a, i);
    assert(s.subrange(a.len() as int + 1, s.len() as int) =~= dec_of(i));
    assert(suffixed(a, j).subrange(a.len() as int + 1, s.len() as int) =~= dec_of(j));
    lemma_dec_injective(i, j);
}

/// Appends the decimal digits of `n`.
fn push_decimal(out: &mut String, n: usize)
    ensures
        final(out)@ == old(out)@ + dec_of(n as nat),
    decreases n,
{
    if n >= 10 {
        push_decimal(out, n / 10);
    }
    out.append(digit_str((n % 10) as u8));
    assert(final(out)@ =~= old(out)@ + dec_of(n as nat));
}

/// Finds `name` among `dirs`.
fn find_name(dirs: &Vec<String>, name: &String) -> (r: Option<usize>)
    ensures
        match r {
            Some(k) => k < dirs@.len() && dirs@[k as int]@ == name@,
            None => forall|k: int| 0 <= k < dirs@.len() ==> dirs@[k]@ != name@,
        },
{
    let mut k: usize = 0;
    while k < dirs.len()
        invariant
            k <= dirs@.len(),
            forall|j: int| 0 <= j < k ==> dirs@[j]@ != name@,
        decreases dirs@.len() - k,
    {
        if dirs[k] == *name {
            return Some(k);
        }
        k = k + 1;
    }
    None
}

/// The names of `dirs`.
pub open spec fn names(dirs: Seq<String>) -> Seq<Seq<char>> {
    dirs.map_values(|s: String| s@)
}

/// Returns the first of `authority`, `authority-1`, `authority-2`, ... that
/// `dirs` does not hold.
fn free_name(dirs: &Vec<String>, authority: String) -> (r: String)
    requires
        dirs@.len() < usize::MAX,
    ensures
        first_free(names(dirs@), authority@, r@),
        !names(dirs@).contains(r@),
{
    let ghost all = names(dirs@);
    let ghost n = all.len();
    let ghost a = authority@;
    match find_name(dirs, &authority) {
        None => {
            assert(!all.contains(a)) by {
                if all.contains(a) {
                    let k = choose|k: int| 0 <= k < all.len() && all[k] == a;
                    assert(dirs@[k]@ == a);
                }
            }
            return authority;
        },
        Some(k0) => {
            assert(all[k0 as int] == a);
        },
    }
    let mut i: usize = 1;
    let ghost mut taken: Set<int> = Set::empty();
    loop
        invariant
            1 <= i,
            all == names(dirs@),
            n == all.len(),
            n < usize::MAX,
            a == authority@,
            all.contains(a),
            taken.finite(),
            taken.len() == i - 1,
            forall|k: int| taken.contains(k) ==> 0 <= k < n,
            forall|k: int|
                taken.contains(k) ==> exists|j: nat|
                    1 <= j < i && all[k] == #[trigger] suffixed(a, j),
            forall|j: nat| 1 <= j < i ==> all.contains(#[trigger] suffixed(a, j)),
        decreases n + 1 - i,
    {
        let mut candidate = authority.clone();
        candidate.append("-");
        push_decimal(&mut candidate, i);
        proof {
            reveal_strlit("-");
        }
        assert(candidate@ =~= suffixed(a, i as nat));
        match find_name(dirs, &candidate) {
            None => {
                assert(!all.contains(suffixed(a, i as nat))) by {
                    if all.contains(suffixed(a, i as nat)) {
                        let k = choose|k: int|
                            0 <= k < all.len() && all[k] == suffixed(a, i as nat);
                        assert(dirs@[k]@ == suffixed(a, i as nat));
                    }
                }
                return candidate;
            },
            Some(k) => {
                proof {
                    assert(all[k as int] == suffixed(a, i as nat));
                    assert(!taken.contains(k as int)) by {
                        if taken.contains(k as int) {
                            let j = choose|j: nat|
                                1 <= j < i && all[k as int] == #[trigger] suffixed(a, j);
                            lemma_suffixed_injective(a, j, i as nat);
                        }
                    }
                    let next = taken.insert(k as int);
                    lemma_int_range(0, n as int);
                    assert(next.subset_of(set_int_range(0, n as int)));
                    lemma_len_subset(next, set_int_range(0, n as int));
                    assert forall|kk: int| next.contains(kk) implies exists|j: nat|
                        1 <= j < i + 1 && all[kk] == #[trigger] suffixed(a, j) by {
                        if kk == k as int {
                            assert(all[kk] == suffixed(a, i as nat));
                        } else {
                            let j = choose|j: nat|
                                1 <= j < i && all[kk] == #[trigger] suffixed(a, j);
                            assert(all[kk] == suffixed(a, j));
                        }
                    }
                    assert(all.contains(suffixed(a, i as nat)));
                    taken = next;
                }
                i = i + 1;
            },
        }
    }
}

/// `new` is `old` after looking up the directory `dir` for a point with
/// the rpkiNotify URI `notify`.
///
/// A point without one goes to `rsync`. A repository already registered
/// keeps its directory; a new one is registered with the first free name.
pub open spec fn registered(
    old: DumpRegistry,
    new: DumpRegistry,
    notify: Option<Seq<u8>>,
    dir: Seq<char>,
) -> bool {
    &&& new.wf()
    &&& new.spec_base() == old.spec_base()
    &&& match notify {
        None => dir == join(old.spec_base(), "rsync"@) && new.spec_uris() == old.spec_uris()
            && new.spec_dirs() == old.spec_dirs(),
        Some(n) => if exists|k: int|
            0 <= k < old.spec_uris().len() && https_same(#[trigger] old.spec_uris()[k].0, n) {
            exists|k: int|
                0 <= k < old.spec_uris().len() && https_same(#[trigger] old.spec_uris()[k].0, n)
                    && dir == join(old.spec_base(), old.spec_uris()[k].1) && new.spec_uris()
                    == old.spec_uris() && new.spec_dirs() == old.spec_dirs()
        } else {
            new.spec_dirs().drop_last() == old.spec_dirs() && new.spec_dirs().len()
                == old.spec_dirs().len() + 1 && first_free(
                old.spec_dirs(),
                https_authority(n),
                new.spec_dirs().last(),
            ) && new.spec_uris() == old.spec_uris().push((n, new.spec_dirs().last())) && dir
                == join(old.spec_base(), new.spec_dirs().last())
        },
    }
}

/// The repositories met during an export, and their directories.
#[derive(Debug)]
pub struct DumpRegistry {
    base_dir: String,
    rrdp_uris: Vec<(HttpsUri, String)>,
    rrdp_dirs: Vec<String>,
}

impl DumpRegistry {
    /// The directory below which the repositories go.
    pub closed spec fn spec_base(&self) -> Seq<char> {
        self.base_dir@
    }

    /// The directory names given out so far.
    pub closed spec fn spec_dirs(&self) -> Seq<Seq<char>> {
        names(self.rrdp_dirs@)
    }

    /// The RRDP repositories met so far, each with its directory name.
    pub closed spec fn spec_uris(&self) -> Seq<(Seq<u8>, Seq<char>)> {
        self.rrdp_uris@.map_values(|e: (HttpsUri, String)| (e.0@, e.1@))
    }

    /// No directory name is given out twice, each repository has its own,
    /// and only valid URIs are registered.
    pub closed spec fn wf(&self) -> bool {
        &&& self.rrdp_uris@.len() == self.rrdp_dirs@.len()
        &&& forall|i: int, j: int|
            0 <= i < j < self.rrdp_dirs@.len() ==> self.rrdp_dirs@[i]@ != self.rrdp_dirs@[j]@
        &&& forall|i: int|
            0 <= i < self.rrdp_uris@.len() ==> (#[trigger] self.rrdp_uris@[i]).1@
                == self.rrdp_dirs@[i]@ && self.rrdp_uris@[i].0.wf()
    }

    /// Creates an empty registry for the export directory `base_dir`.
    pub fn new(base_dir: String) -> (r: DumpRegistry)
        ensures
            r.wf(),
            r.spec_base() == base_dir@,
            r.spec_dirs() == Seq::<Seq<char>>::empty(),
            r.spec_uris() == Seq::<(Seq<u8>, Seq<char>)>::empty(),
    {
        let r = DumpRegistry { base_dir, rrdp_uris: Vec::new(), rrdp_dirs: Vec::new() };
        assert(r.spec_dirs() =~= Seq::<Seq<char>>::empty());
        assert(r.spec_uris() =~= Seq::<(Seq<u8>, Seq<char>)>::empty());
        r
    }

    /// Returns the number of RRDP repositories registered.
    pub fn len(&self) -> (r: usize)
        ensures
            r == self.spec_uris().len(),
    {
        self.rrdp_uris.len()
    }

    /// Returns the `k`-th RRDP repository registered and its directory name.
    pub fn entry(&self, k: usize) -> (r: (&HttpsUri, &str))
        requires
            k < self.spec_uris().len(),
        ensures
            (r.0@, r.1@) == self.spec_uris()[k as int],
    {
        let e = &self.rrdp_uris[k];
        (&e.0, e.1.as_str())
    }

    /// Returns the export directory.
    pub fn base_dir(&self) -> (r: &str)
        ensures
            r@ == self.spec_base(),
    {
        self.base_dir.as_str()
    }

    /// Registers a new RRDP repository and returns its directory.
    ///
    /// The directory is named by the first of `a`, `a-1`, `a-2`, ... not
    /// yet given out, where `a` is the authority of `uri`.
    pub fn make_path(&mut self, uri: &HttpsUri) -> (r: String)
        requires
            old(self).wf(),
            uri.wf(),
            old(self).spec_dirs().len() < usize::MAX,
        ensures
            final(self).wf(),
            final(self).spec_base() == old(self).spec_base(),
            final(self).spec_dirs().len() == old(self).spec_dirs().len() + 1,
            final(self).spec_dirs().drop_last() == old(self).spec_dirs(),
            first_free(old(self).spec_dirs(), https_authority(uri@), final(self).spec_dirs().last()),
            final(self).spec_uris() == old(self).spec_uris().push(
                (uri@, final(self).spec_dirs().last()),
            ),
            r@ == join(old(self).spec_base(), final(self).spec_dirs().last()),
    {
        let ghost dirs = self.spec_dirs();
        let ghost n = dirs.len();
        let authority = uri.canonical_authority();
        let ghost a = authority@;
        let name = free_name(&self.rrdp_dirs, authority);
        let ghost fresh = name@;
        assert(first_free(dirs, a, fresh));
        assert(!dirs.contains(fresh));
        let mut path = self.base_dir.clone();
        path.append("/");
        path.append(name.as_str());
        proof {
            reveal_strlit("/");
        }
        assert(path@ =~= join(self.base_dir@, fresh));
        self.rrdp_dirs.push(name.clone());
        self.rrdp_uris.push((uri.duplicate(), name));
        assert(self.spec_dirs() =~= dirs.push(fresh));
        assert(self.spec_dirs().drop_last() =~= dirs);
        assert forall|i: int, j: int|
            0 <= i < j < self.rrdp_dirs@.len() implies self.rrdp_dirs@[i]@
            != self.rrdp_dirs@[j]@ by {
            if j == n {
                assert(dirs[i] == self.rrdp_dirs@[i]@);
            }
        }
        path
    }

    /// Returns the directory for the repository of the point with header
    /// `manifest`, registering its RRDP repository if it is new.
    ///
    /// A point without an rpkiNotify URI goes to `rsync`.
    pub fn get_repo_path(&mut self, manifest: &StoredManifest) -> (r: String)
        requires
            old(self).wf(),
            manifest.wf(),
            old(self).spec_dirs().len() < usize::MAX,
        ensures
            final(self).wf(),
            final(self).spec_base() == old(self).spec_base(),
            registered(*old(self), *final(self), manifest@.rpki_notify, r@),
    {
        match manifest.rpki_notify() {
            None => {
                let mut path = self.base_dir.clone();
                path.append("/");
                path.append("rsync");
                proof {
                    reveal_strlit("/");
                }
                assert(path@ =~= join(self.base_dir@, "rsync"@));
                path
            },
            Some(notify) => {
                let mut k: usize = 0;
                while k < self.rrdp_uris.len()
                    invariant
                        self.wf(),
                        *self == *old(self),
                        notify.wf(),
                        manifest@.rpki_notify == Some(notify@),
                        k <= self.rrdp_uris@.len(),
                        forall|j: int|
                            0 <= j < k ==> !https_same(#[trigger] self.spec_uris()[j].0, notify@),
                    decreases self.rrdp_uris@.len() - k,
                {
                    let e = &self.rrdp_uris[k];
                    if e.0.same_as(notify) {
                        assert(self.spec_uris()[k as int] == (e.0@, e.1@));
                        assert(https_same(self.spec_uris()[k as int].0, notify@));
                        let mut path = self.base_dir.clone();
                        path.append("/");
                        path.append(e.1.as_str());
                        proof {
                            reveal_strlit("/");
                        }
                        assert(path@ =~= join(self.base_dir@, self.spec_uris()[k as int].1));
                        return path;
                    }
                    assert(self.spec_uris()[k as int] == (e.0@, e.1@));
                    k = k + 1;
                }
                self.make_path(notify)
            },
        }
    }
}

//------------ Planning the export of a point ------------------------------

/// The signedObject and CRL URIs of the EE certificate of the manifest
/// that the octets encode, or `None` if they do not encode a manifest.
pub uninterp spec fn manifest_uris(b: Seq<u8>) -> Option<(Option<Seq<u8>>, Option<Seq<u8>>)>;

pub open spec fn opt_view(o: Option<Vec<u8>>) -> Option<Seq<u8>> {
    match o {
        Some(v) => Some(v@),
        None => None,
    }
}

/// Relies on `rpki::repository::Manifest::decode`, not strict, and on
/// `Cert::signed_object` and `Cert::crl_uri` of the manifest's EE
/// certificate.
#[verifier::external_body]
fn manifest_object_uris(b: &[u8]) -> (r: Option<(Option<Vec<u8>>, Option<Vec<u8>>)>)
    ensures
        match r {
            Some((so, crl)) => manifest_uris(b@) == Some((opt_view(so), opt_view(crl))),
            None => manifest_uris(b@) is None,
        },
{
    match rpki::repository::Manifest::decode(bytes::Bytes::copy_from_slice(b), false) {
        Ok(mft) => Some(
            (
                mft.cert().signed_object().map(|u| u.as_slice().to_vec()),
                mft.cert().crl_uri().map(|u| u.as_slice().to_vec()),
            ),
        ),
        Err(_) => None,
    }
}

/// Where the object with rsync URI `u` goes within the directory `dir`.
pub open spec fn mirror_path(dir: Seq<char>, u: Seq<u8>) -> Seq<char> {
    join(join(join(dir, rsync_authority(u)), rsync_module(u)), rsync_path(u))
}

/// The file for `content` at the place of the rsync URI `u`, if `u` is
/// one.
pub open spec fn uri_write(dir: Seq<char>, u: Option<Seq<u8>>, content: Seq<u8>) -> Seq<
    (Seq<char>, Seq<u8>),
> {
    match u {
        Some(b) => if rsync_valid(b) && b.len() <= u32::MAX {
            seq![(mirror_path(dir, b), content)]
        } else {
            Seq::empty()
        },
        None => Seq::empty(),
    }
}

/// The files for the objects of a point file `d` from position `pos` on,
/// up to its end or to the first record that does not decode.
pub open spec fn object_writes(dir: Seq<char>, d: Seq<u8>, pos: int) -> Seq<(Seq<char>, Seq<u8>)>
    decreases d.len() - pos,
{
    if pos < 0 || pos >= d.len() {
        Seq::empty()
    } else {
        match parse_object(d, pos) {
            Some((o, e)) => if e > pos {
                seq![(mirror_path(dir, o.uri), o.content)] + object_writes(dir, d, e)
            } else {
                Seq::empty()
            },
            None => Seq::empty(),
        }
    }
}

/// One file of the export.
#[derive(Debug)]
pub struct DumpWrite {
    pub path: String,
    pub content: Vec<u8>,
}

pub open spec fn writes_view(ws: Seq<DumpWrite>) -> Seq<(Seq<char>, Seq<u8>)> {
    ws.map_values(|w: DumpWrite| (w.path@, w.content@))
}

/// Returns the path for the object with URI `uri` within `dir`:
/// `<authority>/<module>/<path>`.
pub fn mirror_path_of(dir: &str, uri: &RsyncUri) -> (r: String)
    requires
        uri.wf(),
    ensures
        r@ == mirror_path(dir@, uri@),
{
    let mut path = dir.to_string();
    let authority = uri.canonical_authority();
    let module = uri.module_name();
    let rest = uri.path();
    path.append("/");
    path.append(authority.as_str());
    path.append("/");
    path.append(module.as_str());
    path.append("/");
    path.append(rest.as_str());
    proof {
        reveal_strlit("/");
    }
    assert(path@ =~= mirror_path(dir@, uri@));
    path
}

fn push_uri_write(ws: &mut Vec<DumpWrite>, dir: &String, u: Option<Vec<u8>>, content: &[u8])
    ensures
        writes_view(final(ws)@) == writes_view(old(ws)@) + uri_write(dir@, opt_view(u), content@),
{
    let ghost before = writes_view(ws@);
    match u {
        Some(b) => match RsyncUri::from_slice(b.as_slice()) {
            Some(uri) => {
                let path = mirror_path_of(dir.as_str(), &uri);
                ws.push(DumpWrite { path, content: crate::uri::copy_bytes(content) });
                assert(writes_view(ws@) =~= before + uri_write(dir@, opt_view(Some(b)), content@));
            },
            None => {
                assert(writes_view(ws@) =~= before + uri_write(dir@, opt_view(Some(b)), content@));
            },
        },
        None => {
            assert(writes_view(ws@) =~= before + uri_write(dir@, None, content@));
        },
    }
}

proof fn lemma_parse_object_moves(s: Seq<u8>, i: int)
    requires
        parse_object(s, i) is Some,
    ensures
        parse_object(s, i)->Some_0.1 > i,
{
}

/// Plans the export of one stored point, given the content of its file.
///
/// Returns the files to write: the manifest and the CRL at the places of
/// the manifest's signedObject and CRL URIs, then every object up to the
/// end of the file or to the first record that does not decode, each below
/// the directory of the point's repository. Returns `None`, and leaves the
/// registry as it is, where the header or the manifest in it does not
/// decode: such a point is skipped.
pub fn plan_point_dump(repos: &mut DumpRegistry, content: &[u8]) -> (r: Option<Vec<DumpWrite>>)
    requires
        old(repos).wf(),
        old(repos).spec_dirs().len() < usize::MAX,
    ensures
        match parse_manifest(content@, 0) {
            None => r is None && *final(repos) == *old(repos),
            Some((v, end)) => match manifest_uris(v.manifest) {
                None => r is None && *final(repos) == *old(repos),
                Some((so, crl)) => r matches Some(ws) && exists|dir: Seq<char>|
                    registered(*old(repos), *final(repos), v.rpki_notify, dir) && writes_view(ws@)
                        == uri_write(dir, so, v.manifest) + uri_write(dir, crl, v.crl)
                        + object_writes(dir, content@, end),
            },
        },
{
    let mut pos: usize = 0;
    let header = match StoredManifest::read(content, &mut pos) {
        Ok(h) => h,
        Err(_) => return None,
    };
    let ghost end = pos as int;
    let (so, crl) = match manifest_object_uris(header.manifest()) {
        Some(uris) => uris,
        None => return None,
    };
    let ghost so_view = opt_view(so);
    let ghost crl_view = opt_view(crl);
    let dir = repos.get_repo_path(&header);
    let mut ws: Vec<DumpWrite> = Vec::new();
    push_uri_write(&mut ws, &dir, so, header.manifest());
    push_uri_write(&mut ws, &dir, crl, header.crl());
    let ghost head = writes_view(ws@);
    assert(head =~= Seq::empty() + head);
    assert(Seq::<(Seq<char>, Seq<u8>)>::empty() + uri_write(dir@, so_view, header@.manifest)
        + uri_write(dir@, crl_view, header@.crl) =~= head);
    loop
        invariant
            pos <= content@.len(),
            registered(*old(repos), *repos, header@.rpki_notify, dir@),
            parse_manifest(content@, 0) == Some((header@, end)),
            manifest_uris(header@.manifest) == Some((so_view, crl_view)),
            head == uri_write(dir@, so_view, header@.manifest) + uri_write(
                dir@,
                crl_view,
                header@.crl,
            ),
            head + object_writes(dir@, content@, end) == writes_view(ws@) + object_writes(
                dir@,
                content@,
                pos as int,
            ),
        decreases content@.len() - pos,
    {
        let start = pos;
        match StoredObject::read(content, &mut pos) {
            Ok(Some(obj)) => {
                proof {
                    lemma_parse_object_moves(content@, start as int);
                }
                let ghost before = writes_view(ws@);
                let path = mirror_path_of(dir.as_str(), obj.uri());
                ws.push(DumpWrite { path, content: obj.into_content() });
                assert(writes_view(ws@) =~= before.push(
                    (mirror_path(dir@, parse_object(content@, start as int)->Some_0.0.uri), parse_object(content@, start as int)->Some_0.0.content),
                ));
                assert(writes_view(ws@) + object_writes(dir@, content@, pos as int) =~= before
                    + object_writes(dir@, content@, start as int));
            },
            _ => {
                assert(object_writes(dir@, content@, start as int) =~= Seq::empty());
                assert(writes_view(ws@) =~= writes_view(ws@) + object_writes(
                    dir@,
                    content@,
                    start as int,
                ));
                return Some(ws);
            },
        }
    }
}

} // verus!
