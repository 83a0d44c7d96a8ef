//! A stored publication point: its header, a cursor over its objects, and
//! the staged replacement of its content.

use vstd::prelude::*;
use crate::error::{Failed, UpdateError};
use crate::record::{
    holds_at, lemma_manifest_at, lemma_object_at, manifest_record, manifest_view_wf, object_record,
    object_view_wf, objects_record, parse_manifest, parse_object, ManifestView, ObjectView,
    StoredManifest, StoredObject,
};

verus! {

/// A publication point of the store.
///
/// A point is either absent, with no file behind it, or present, with the
/// content of its file: a manifest record followed by object records. A
/// present point keeps a cursor into the object records and the position
/// where they start, so that it can be read again from the beginning.
#[derive(Debug)]
pub struct StoredPoint {
    path: String,
    is_rrdp: bool,
    file: Option<Vec<u8>>,
    manifest: Option<StoredManifest>,
    object_start: usize,
    pos: usize,
}

impl StoredPoint {
    /// The path of the point's file.
    pub closed spec fn spec_path(&self) -> Seq<char> {
        self.path@
    }

    /// The content of the point's file, if it has one.
    pub closed spec fn spec_file(&self) -> Option<Seq<u8>> {
        match self.file {
            Some(d) => Some(d@),
            None => None,
        }
    }

    /// The header, unless absent or taken.
    pub closed spec fn spec_manifest(&self) -> Option<ManifestView> {
        match self.manifest {
            Some(m) => Some(m@),
            None => None,
        }
    }

    /// Where the object records start.
    pub closed spec fn spec_object_start(&self) -> int {
        self.object_start as int
    }

    /// Where the next object record is read.
    pub closed spec fn spec_pos(&self) -> int {
        self.pos as int
    }

    pub closed spec fn spec_is_rrdp(&self) -> bool {
        self.is_rrdp
    }

    /// The cursor stays within the file.
    pub closed spec fn wf(&self) -> bool {
        &&& self.object_start <= self.pos
        &&& (self.file matches Some(d) ==> self.pos <= d@.len())
        &&& (self.manifest matches Some(m) ==> m.wf())
    }

    /// Opens the point stored at `path`, given the content of its file.
    ///
    /// Without a file the point is absent. A file whose header does not
    /// decode is a storage fault.
    pub fn open(path: String, content: Option<Vec<u8>>, is_rrdp: bool) -> (r: Result<
        StoredPoint,
        Failed,
    >)
        ensures
            match content {
                None => r matches Ok(p) && p.wf() && p.spec_file() is None
                    && p.spec_manifest() is None,
                Some(d) => match parse_manifest(d@, 0) {
                    Some((v, end)) => r matches Ok(p) && p.wf() && p.spec_file() == Some(d@)
                        && p.spec_manifest() == Some(v) && p.spec_object_start() == end
                        && p.spec_pos() == end,
                    None => r is Err,
                },
            },
            r matches Ok(p) ==> p.spec_path() == path@ && p.spec_is_rrdp() == is_rrdp,
    {
        match content {
            None => Ok(
                StoredPoint {
                    path,
                    is_rrdp,
                    file: None,
                    manifest: None,
                    object_start: 0,
                    pos: 0,
                },
            ),
            Some(data) => {
                let mut pos: usize = 0;
                match StoredManifest::read(data.as_slice(), &mut pos) {
                    Ok(manifest) => Ok(
                        StoredPoint {
                            path,
                            is_rrdp,
                            file: Some(data),
                            manifest: Some(manifest),
                            object_start: pos,
                            pos,
                        },
                    ),
                    Err(_) => Err(Failed),
                }
            },
        }
    }

    /// Returns the path of the point's file.
    pub fn path(&self) -> (r: &str)
        ensures
            r@ == self.spec_path(),
    {
        self.path.as_str()
    }

    /// Returns whether the point belongs to an RRDP repository.
    pub fn is_rrdp(&self) -> (r: bool)
        ensures
            r == self.spec_is_rrdp(),
    {
        self.is_rrdp
    }

    /// Returns whether the point has a header.
    pub fn exisits(&self) -> (r: bool)
        ensures
            r == self.spec_manifest() is Some,
    {
        self.manifest.is_some()
    }

    /// Returns whether a file stands behind the point.
    pub fn has_file(&self) -> (r: bool)
        ensures
            r == self.spec_file() is Some,
    {
        self.file.is_some()
    }

    /// Returns the header.
    pub fn manifest(&self) -> (r: Option<&StoredManifest>)
        ensures
            match r {
                Some(m) => self.spec_manifest() == Some(m@),
                None => self.spec_manifest() is None,
            },
    {
        match &self.manifest {
            Some(m) => Some(m),
            None => None,
        }
    }

    /// Takes the header out of the point.
    pub fn take_manifest(&mut self) -> (r: Option<StoredManifest>)
        requires
            old(self).wf(),
        ensures
            match r {
                Some(m) => old(self).spec_manifest() == Some(m@),
                None => old(self).spec_manifest() is None,
            },
            final(self).wf(),
            final(self).spec_manifest() is None,
            final(self).spec_file() == old(self).spec_file(),
            final(self).spec_pos() == old(self).spec_pos(),
            final(self).spec_object_start() == old(self).spec_object_start(),
            final(self).spec_path() == old(self).spec_path(),
            final(self).spec_is_rrdp() == old(self).spec_is_rrdp(),
    {
        self.manifest.take()
    }

    /// Moves the cursor back to the first object.
    pub fn rewind(&mut self)
        requires
            old(self).wf(),
        ensures
            final(self).wf(),
            final(self).spec_pos() == old(self).spec_object_start(),
            final(self).spec_object_start() == old(self).spec_object_start(),
            final(self).spec_file() == old(self).spec_file(),
            final(self).spec_manifest() == old(self).spec_manifest(),
            final(self).spec_path() == old(self).spec_path(),
            final(self).spec_is_rrdp() == old(self).spec_is_rrdp(),
    {
        self.pos = self.object_start;
    }

    /// Reads the next object.
    ///
    /// Returns `None` at the end of the objects and for an absent point. An
    /// object record that does not decode is a storage fault.
    pub fn next(&mut self) -> (r: Option<Result<StoredObject, Failed>>)
        requires
            old(self).wf(),
        ensures
            final(self).wf(),
            final(self).spec_file() == old(self).spec_file(),
            final(self).spec_manifest() == old(self).spec_manifest(),
            final(self).spec_object_start() == old(self).spec_object_start(),
            final(self).spec_path() == old(self).spec_path(),
            final(self).spec_is_rrdp() == old(self).spec_is_rrdp(),
            match old(self).spec_file() {
                None => r is None && final(self).spec_pos() == old(self).spec_pos(),
                Some(d) => if old(self).spec_pos() == d.len() {
                    r is None && final(self).spec_pos() == old(self).spec_pos()
                } else {
                    match parse_object(d, old(self).spec_pos()) {
                        Some((v, end)) => r matches Some(Ok(o)) && o@ == v && o.wf()
                            && final(self).spec_pos() == end,
                        None => r == Some(Err::<StoredObject, Failed>(Failed))
                            && final(self).spec_pos() == old(self).spec_pos(),
                    }
                },
            },
    {
        match &self.file {
            None => None,
            Some(data) => {
                let mut pos = self.pos;
                let res = StoredObject::read(data.as_slice(), &mut pos);
                self.pos = pos;
                match res {
                    Ok(Some(o)) => Some(Ok(o)),
                    Ok(None) => None,
                    Err(_) => Some(Err(Failed)),
                }
            },
        }
    }

    /// Begins replacing the point's content with a new header.
    ///
    /// The returned staging area holds the octets of the new file as they
    /// are produced; the point itself stays as it is until
    /// [`commit`](Self::commit).
    pub fn start_update(&self, manifest: StoredManifest) -> (r: Staging)
        requires
            manifest.wf(),
        ensures
            r.wf(),
            r.spec_manifest() == manifest@,
            r.spec_objects() == Seq::<ObjectView>::empty(),
            r.spec_bytes() == manifest_record(manifest@),
            r.spec_object_start() == manifest_record(manifest@).len(),
    {
        let mut bytes: Vec<u8> = Vec::new();
        manifest.write(&mut bytes);
        assert(bytes@ =~= manifest_record(manifest@));
        let object_start = bytes.len();
        assert(objects_record(Seq::<ObjectView>::empty()) =~= Seq::<u8>::empty());
        Staging { manifest, bytes, object_start, objects: Ghost(Seq::empty()) }
    }

    /// Makes the staged content the point's content.
    ///
    /// The caller has moved the staging file onto the point's path. The
    /// point then holds the new header and is positioned at its first
    /// object.
    pub fn commit(&mut self, staging: Staging)
        requires
            staging.wf(),
        ensures
            final(self).wf(),
            final(self).spec_file() == Some(staging.spec_bytes()),
            final(self).spec_manifest() == Some(staging.spec_manifest()),
            final(self).spec_object_start() == staging.spec_object_start(),
            final(self).spec_pos() == staging.spec_object_start(),
            final(self).spec_path() == old(self).spec_path(),
            final(self).spec_is_rrdp() == old(self).spec_is_rrdp(),
    {
        let Staging { manifest, bytes, object_start, objects: _ } = staging;
        self.file = Some(bytes);
        self.manifest = Some(manifest);
        self.object_start = object_start;
        self.pos = object_start;
    }
}

/// The next thing to do with the staging file of an update.
#[derive(Debug, PartialEq, Eq, Structural)]
pub enum UpdateStep {
    /// Append the staged octets from this position on to the staging file.
    Write(usize),
    /// The objects are complete: replace the point's file with the staging
    /// file and commit.
    Commit,
    /// Delete the staging file and return the error; the point stays as it
    /// was.
    Abort(UpdateError),
}

/// The new content of a point while its objects are produced.
pub struct Staging {
    manifest: StoredManifest,
    bytes: Vec<u8>,
    object_start: usize,
    objects: Ghost<Seq<ObjectView>>,
}

impl Staging {
    /// The new header.
    pub closed spec fn spec_manifest(&self) -> ManifestView {
        self.manifest@
    }

    /// The objects staged so far, in the order they came.
    pub closed spec fn spec_objects(&self) -> Seq<ObjectView> {
        self.objects@
    }

    /// The octets of the new file so far.
    pub closed spec fn spec_bytes(&self) -> Seq<u8> {
        self.bytes@
    }

    /// Where the object records start.
    pub closed spec fn spec_object_start(&self) -> int {
        self.object_start as int
    }

    /// The octets are the header followed by the staged objects.
    pub closed spec fn wf(&self) -> bool {
        &&& self.manifest.wf()
        &&& self.object_start == manifest_record(self.manifest@).len()
        &&& self.bytes@ == manifest_record(self.manifest@) + objects_record(self.objects@)
    }

    /// Returns the staged octets.
    pub fn bytes(&self) -> (r: &[u8])
        ensures
            r@ == self.spec_bytes(),
    {
        self.bytes.as_slice()
    }

    /// Takes what the object source produced next.
    ///
    /// An object is staged after those before it; the end of the objects
    /// asks for the commit; an error of the source aborts the update and
    /// leaves the staged content as it was.
    pub fn feed(&mut self, item: Result<Option<StoredObject>, UpdateError>) -> (r: UpdateStep)
        requires
            old(self).wf(),
            item matches Ok(Some(o)) ==> o.wf(),
        ensures
            final(self).wf(),
            final(self).spec_manifest() == old(self).spec_manifest(),
            final(self).spec_object_start() == old(self).spec_object_start(),
            match item {
                Ok(Some(o)) => r == UpdateStep::Write(old(self).spec_bytes().len() as usize)
                    && final(self).spec_objects() == old(self).spec_objects().push(o@)
                    && final(self).spec_bytes() == old(self).spec_bytes() + object_record(o@),
                Ok(None) => r == UpdateStep::Commit && final(self).spec_objects()
                    == old(self).spec_objects() && final(self).spec_bytes()
                    == old(self).spec_bytes(),
                Err(e) => r == UpdateStep::Abort(e) && final(self).spec_objects()
                    == old(self).spec_objects() && final(self).spec_bytes()
                    == old(self).spec_bytes(),
            },
    {
        match item {
            Ok(Some(o)) => {
                let from = self.bytes.len();
                o.write(&mut self.bytes);
                let ghost objs = self.objects@.push(o@);
                assert(objs.drop_last() =~= self.objects@);
                assert(objects_record(objs) == objects_record(self.objects@) + object_record(o@));
                assert(self.bytes@ =~= manifest_record(self.manifest@) + objects_record(objs));
                self.objects = Ghost(objs);
                UpdateStep::Write(from)
            },
            Ok(None) => UpdateStep::Commit,
            Err(e) => UpdateStep::Abort(e),
        }
    }
}

proof fn lemma_objects_record_append(a: Seq<ObjectView>, b: Seq<ObjectView>)
    ensures
        objects_record(a + b) == objects_record(a) + objects_record(b),
    decreases b.len(),
{
    if b.len() == 0 {
        assert(a + b =~= a);
        assert(objects_record(a) + objects_record(b) =~= objects_record(a));
    } else {
        assert((a + b).drop_last() =~= a + b.drop_last());
        assert((a + b).last() == b.last());
        lemma_objects_record_append(a, b.drop_last());
        assert(objects_record(a + b) =~= objects_record(a) + objects_record(b));
    }
}

/// Where the `k`-th object record of a committed point starts.
pub open spec fn object_offset(m: ManifestView, objs: Seq<ObjectView>, k: int) -> int {
    manifest_record(m).len() as int + objects_record(objs.take(k)).len() as int
}

proof fn lemma_holds_middle(h: Seq<u8>, x: Seq<u8>, t: Seq<u8>)
    ensures
        holds_at(h + x + t, h.len() as int, x),
{
    assert((h + x + t).subrange(h.len() as int, h.len() + x.len() as int) =~= x);
}

/// The `k`-th object record after any header decodes to the `k`-th object.
proof fn lemma_object_after(h: Seq<u8>, objs: Seq<ObjectView>, k: int)
    requires
        0 <= k < objs.len(),
        object_view_wf(objs[k]),
    ensures
        parse_object(
            h + objects_record(objs),
            h.len() as int + objects_record(objs.take(k)).len() as int,
        ) == Some((objs[k], h.len() as int + objects_record(objs.take(k + 1)).len() as int)),
{
    let pre = objs.take(k);
    let one = seq![objs[k]];
    let post = objs.skip(k + 1);
    assert(objs =~= pre + one + post);
    assert(objs.take(k + 1) =~= pre + one);
    lemma_objects_record_append(pre + one, post);
    lemma_objects_record_append(pre, one);
    assert(one.drop_last() =~= Seq::<ObjectView>::empty());
    assert(objects_record(Seq::<ObjectView>::empty()) =~= Seq::<u8>::empty());
    assert(objects_record(one) =~= object_record(objs[k]));
    let x = object_record(objs[k]);
    let head = h + objects_record(pre);
    assert(h + objects_record(objs) =~= head + x + objects_record(post));
    lemma_holds_middle(head, x, objects_record(post));
    lemma_object_at(h + objects_record(objs), head.len() as int, objs[k]);
}

/// A point committed with header `m` and objects `objs` reads back as
/// that header, followed by exactly those objects in that order, followed
/// by the end of the objects.
pub proof fn lemma_committed_point(m: ManifestView, objs: Seq<ObjectView>)
    requires
        manifest_view_wf(m),
        forall|i: int| 0 <= i < objs.len() ==> object_view_wf(#[trigger] objs[i]),
    ensures
        parse_manifest(manifest_record(m) + objects_record(objs), 0) == Some(
            (m, object_offset(m, objs, 0)),
        ),
        forall|k: int|
            0 <= k < objs.len() ==> parse_object(
                manifest_record(m) + objects_record(objs),
                #[trigger] object_offset(m, objs, k),
            ) == Some((objs[k], object_offset(m, objs, k + 1))),
        object_offset(m, objs, objs.len() as int) == (manifest_record(m) + objects_record(
            objs,
        )).len(),
{
    let d = manifest_record(m) + objects_record(objs);
    assert(objs.take(0) =~= Seq::<ObjectView>::empty());
    assert(objects_record(Seq::<ObjectView>::empty()) =~= Seq::<u8>::empty());
    assert(d.subrange(0, manifest_record(m).len() as int) =~= manifest_record(m));
    lemma_manifest_at(d, 0, m);
    assert(objs.take(objs.len() as int) =~= objs);
    assert forall|k: int| 0 <= k < objs.len() implies parse_object(
        d,
        #[trigger] object_offset(m, objs, k),
    ) == Some((objs[k], object_offset(m, objs, k + 1))) by {
        lemma_object_after(manifest_record(m), objs, k);
    }
}


/// Reading a committed point: with the cursor at the start of the `k`-th
/// staged object, [`StoredPoint::next`] yields that object and moves to
/// the next one; with the cursor past the last, it yields the end.
pub proof fn lemma_next_after_commit(p: StoredPoint, m: ManifestView, objs: Seq<ObjectView>, k: int)
    requires
        manifest_view_wf(m),
        forall|i: int| 0 <= i < objs.len() ==> object_view_wf(#[trigger] objs[i]),
        p.spec_file() == Some(manifest_record(m) + objects_record(objs)),
        0 <= k <= objs.len(),
        p.spec_pos() == object_offset(m, objs, k),
    ensures
        k < objs.len() ==> p.spec_pos() < p.spec_file()->Some_0.len() && parse_object(
            p.spec_file()->Some_0,
            p.spec_pos(),
        ) == Some((objs[k], object_offset(m, objs, k + 1))),
        k == objs.len() ==> p.spec_pos() == p.spec_file()->Some_0.len(),
{
    lemma_committed_point(m, objs);
    if k < objs.len() {
        assert(parse_object(manifest_record(m) + objects_record(objs), object_offset(m, objs, k))
            == Some((objs[k], object_offset(m, objs, k + 1))));
    }
}

} // verus!
