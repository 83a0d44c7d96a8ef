//! The retention rules of the cleanup sweep.
//!
//! Cleanup deletes every stored file that is no longer of use: trust anchor
//! certificates that do not decode or have expired, and publication points
//! whose header does not decode or whose manifest has expired. Times are
//! seconds since the Unix epoch.

use vstd::prelude::*;
use crate::record::{parse_manifest, StoredManifest};
use crate::store::{join, Store};
use crate::sweep::{
    below, dir_cleared, listing_sane, listing_view, record_ok, swept, DirEntry, EntryKind, SweptDir, Sweep, SweepAction,
    SweepEvent,
};
use crate::uri::{HttpsUri, RsyncUri};

verus! {

/// The expiry time of the certificate that the octets encode, or `None` if
/// they do not encode one.
pub uninterp spec fn cert_expiry(b: Seq<u8>) -> Option<i64>;

/// Relies on `rpki::repository::Cert::decode`, and on the not-after time
/// of the decoded certificate's validity.
#[verifier::external_body]
fn cert_not_after(b: &[u8]) -> (r: Option<i64>)
    ensures
        r == cert_expiry(b@),
{
    match rpki::repository::Cert::decode(bytes::Bytes::copy_from_slice(b)) {
        Ok(cert) => Some(cert.validity().not_after().timestamp()),
        Err(_) => None,
    }
}

/// Relies on `rpki::repository::x509::Time::now`: the current time in
/// seconds since the Unix epoch. Nothing is known of the value.
#[verifier::external_body]
fn current_time() -> (r: i64) {
    rpki::repository::x509::Time::now().timestamp()
}

/// Whether a trust anchor certificate with this expiry is kept at `now`.
pub open spec fn ta_kept(expiry: Option<i64>, now: i64) -> bool {
    expiry matches Some(t) && t > now
}

/// Decides whether a trust anchor certificate is kept at `now`, given its
/// expiry time, or `None` where it did not decode.
pub fn retain_ta_expiry(expiry: Option<i64>, now: i64) -> (r: bool)
    ensures
        r == ta_kept(expiry, now),
{
    match expiry {
        Some(t) => t > now,
        None => false,
    }
}

/// Decides whether the trust anchor certificate file with content `content`
/// is kept at `now`: only a certificate that decodes and has not expired
/// is.
pub fn retain_ta(content: &[u8], now: i64) -> (r: bool)
    ensures
        r == ta_kept(cert_expiry(content@), now),
{
    retain_ta_expiry(cert_not_after(content), now)
}

/// Decides whether the file `content` of a point in an RRDP repository is
/// kept at `now`.
///
/// Returns `None` where the file goes: its header does not decode or has
/// expired. Otherwise the file is kept, and the result holds the
/// rpkiNotify URI to keep alive, if the header names one.
pub fn retain_rrdp_point(content: &[u8], now: i64) -> (r: Option<Option<HttpsUri>>)
    ensures
        match parse_manifest(content@, 0) {
            Some((v, _)) => (r is Some <==> v.not_after > now) && (r matches Some(n) ==> match n {
                Some(u) => v.rpki_notify == Some(u@) && u.wf(),
                None => v.rpki_notify is None,
            }),
            None => r is None,
        },
{
    let mut pos: usize = 0;
    match StoredManifest::read(content, &mut pos) {
        Ok(m) => m.retain_rrdp(now),
        Err(_) => None,
    }
}

/// Decides whether the file `content` of a point in the rsync repository
/// is kept at `now`.
///
/// Returns the manifest URI, whose module is kept alive, where the header
/// decodes and has not expired; otherwise the file goes.
pub fn retain_rsync_point(content: &[u8], now: i64) -> (r: Option<RsyncUri>)
    ensures
        match parse_manifest(content@, 0) {
            Some((v, _)) => match r {
                Some(u) => v.not_after > now && u@ == v.rpki_manifest && u.wf(),
                None => v.not_after <= now,
            },
            None => r is None,
        },
{
    let mut pos: usize = 0;
    match StoredManifest::read(content, &mut pos) {
        Ok(m) => m.retain_rsync(now),
        Err(_) => None,
    }
}

//------------ The cleanup run ---------------------------------------------

/// What the caller of a cleanup does next.
#[derive(Debug)]
pub enum CleanupAction {
    /// List the directory; answer with [`CleanupEvent::Listed`].
    ReadDir(String),
    /// Read the whole file; answer with [`CleanupEvent::Read`].
    ReadFile(String),
    /// Delete the file; answer with [`CleanupEvent::Removed`].
    RemoveFile(String),
    /// Delete the empty directory; answer with [`CleanupEvent::Removed`].
    RemoveDir(String),
    /// Tell the collector to keep this RRDP repository; answer with
    /// [`CleanupEvent::Retained`].
    RetainRrdp(HttpsUri),
    /// Tell the collector to keep the rsync module of this URI; answer
    /// with [`CleanupEvent::Retained`].
    RetainRsync(RsyncUri),
    /// Tell the collector to clean up everything not kept; answer with
    /// [`CleanupEvent::Retained`].
    Commit,
    /// The cleanup is complete.
    Done,
}

/// The outcome of the last action of a cleanup.
#[derive(Debug)]
pub enum CleanupEvent {
    Listed(Option<Vec<DirEntry>>),
    Read(Vec<u8>),
    Removed,
    Retained,
}

/// Which tree a cleanup is sweeping.
#[derive(Clone, Copy, Debug, PartialEq, Eq, Structural)]
pub enum CleanupPhase {
    TrustAnchors,
    Rrdp,
    Rsync,
    Scratch,
    Committing,
    Finished,
}

/// The tree swept `k`-th.
pub open spec fn phase_of(k: int) -> CleanupPhase {
    if k == 0 {
        CleanupPhase::TrustAnchors
    } else if k == 1 {
        CleanupPhase::Rrdp
    } else if k == 2 {
        CleanupPhase::Rsync
    } else {
        CleanupPhase::Scratch
    }
}

/// How many trees are swept completely before `phase`.
pub open spec fn phase_index(phase: CleanupPhase) -> int {
    match phase {
        CleanupPhase::TrustAnchors => 0,
        CleanupPhase::Rrdp => 1,
        CleanupPhase::Rsync => 2,
        CleanupPhase::Scratch => 3,
        _ => 4,
    }
}

/// The root of the tree that a phase sweeps.
pub open spec fn phase_root(base: Seq<char>, phase: CleanupPhase) -> Seq<char> {
    match phase {
        CleanupPhase::TrustAnchors => join(base, "ta"@),
        CleanupPhase::Rrdp => join(base, "rrdp"@),
        CleanupPhase::Rsync => join(base, "rsync"@),
        _ => join(base, "tmp"@),
    }
}

/// Whether a file with content `c` in the tree of `phase` is kept at `now`.
///
/// A trust anchor is kept while its certificate decodes and has not
/// expired, a point while its header decodes and has not expired; scratch
/// files never are.
pub open spec fn kept(phase: CleanupPhase, c: Seq<u8>, now: i64) -> bool {
    match phase {
        CleanupPhase::TrustAnchors => ta_kept(cert_expiry(c), now),
        CleanupPhase::Rrdp => parse_manifest(c, 0) matches Some((v, _)) && v.not_after > now,
        CleanupPhase::Rsync => parse_manifest(c, 0) matches Some((v, _)) && v.not_after > now,
        _ => false,
    }
}

/// Every judgement of a file in the tree of `phase` follows from the
/// file's content as read.
pub open spec fn verdicts_ok(
    judged: Set<(Seq<char>, bool)>,
    reads: Set<(Seq<char>, Seq<u8>)>,
    phase: CleanupPhase,
    now: i64,
) -> bool {
    forall|pv: (Seq<char>, bool)|
        #[trigger] judged.contains(pv) ==> if phase is Scratch {
            !pv.1
        } else {
            exists|c: Seq<u8>| #[trigger] reads.contains((pv.0, c)) && pv.1 == kept(phase, c, now)
        }
}

/// What the sweep of one tree left behind.
pub struct PhaseRecord {
    pub root: Seq<char>,
    pub log: Seq<SweptDir>,
    pub listings: Set<(Seq<char>, Seq<(Seq<char>, EntryKind)>)>,
    pub judged: Set<(Seq<char>, bool)>,
    pub removed: Set<Seq<char>>,
}

/// The `k`-th tree was swept completely, on listings received and
/// removals asked for during the run, and judged by the contents read.
pub open spec fn phase_done(
    rec: PhaseRecord,
    k: int,
    base: Seq<char>,
    received: Set<(Seq<char>, Seq<(Seq<char>, EntryKind)>)>,
    reads: Set<(Seq<char>, Seq<u8>)>,
    issued: Set<Seq<char>>,
    now: i64,
) -> bool {
    &&& rec.root == phase_root(base, phase_of(k))
    &&& swept(rec.log, rec.listings, rec.judged, rec.removed, rec.root)
    &&& rec.listings.subset_of(received)
    &&& rec.removed.subset_of(issued)
    &&& verdicts_ok(rec.judged, reads, phase_of(k), now)
}

/// All four trees were swept completely.
pub open spec fn cleanup_complete(
    phases: Seq<PhaseRecord>,
    base: Seq<char>,
    received: Set<(Seq<char>, Seq<(Seq<char>, EntryKind)>)>,
    reads: Set<(Seq<char>, Seq<u8>)>,
    issued: Set<Seq<char>>,
    now: i64,
) -> bool {
    &&& phases.len() == 4
    &&& forall|k: int|
        0 <= k < 4 ==> #[trigger] phase_done(phases[k], k, base, received, reads, issued, now)
}

/// What a complete cleanup did to every file and directory it swept.
///
/// Each file of the three stored trees was read and judged by its
/// content, and removed where that content is not kept: a trust anchor
/// that does not decode or has expired, a point whose header does not
/// decode or has expired. Every scratch file was removed. Every directory
/// below a root that kept nothing was removed.
pub proof fn lemma_cleanup_outcome(
    phases: Seq<PhaseRecord>,
    base: Seq<char>,
    received: Set<(Seq<char>, Seq<(Seq<char>, EntryKind)>)>,
    reads: Set<(Seq<char>, Seq<u8>)>,
    issued: Set<Seq<char>>,
    now: i64,
    k: int,
    i: int,
    j: int,
)
    requires
        cleanup_complete(phases, base, received, reads, issued, now),
        0 <= k < 4,
        0 <= i < phases[k].log.len(),
        0 <= j < phases[k].log[i].entries.len(),
    ensures
        ({
            let r = phases[k].log[i];
            let f = join(r.path, r.entries[j].0);
            &&& (r.entries[j].1 is File && phase_of(k) is Scratch ==> issued.contains(f))
            &&& (r.entries[j].1 is File && !(phase_of(k) is Scratch) ==> exists|c: Seq<u8>|
                #[trigger] reads.contains((f, c)) && (!kept(phase_of(k), c, now) ==> issued.contains(f)))
            &&& (r.cleared && r.path != phases[k].root ==> issued.contains(r.path))
        }),
{
    let rec = phases[k];
    assert(phase_done(rec, k, base, received, reads, issued, now));
    assert(record_ok(rec.log, i, rec.listings, rec.judged, rec.removed, rec.root));
    let r = rec.log[i];
    let f = join(r.path, r.entries[j].0);
    assert(r.entries[j] == r.entries[j]);
    if r.entries[j].1 is File {
        let pv = (f, r.verdicts[j]);
        assert(rec.judged.contains(pv));
        if !(phase_of(k) is Scratch) {
            let c = choose|c: Seq<u8>| #[trigger] reads.contains((pv.0, c)) && pv.1 == kept(phase_of(k), c, now);
            assert(reads.contains((f, c)));
        }
    }
}

proof fn lemma_verdicts_grow(
    judged: Set<(Seq<char>, bool)>,
    reads: Set<(Seq<char>, Seq<u8>)>,
    reads2: Set<(Seq<char>, Seq<u8>)>,
    phase: CleanupPhase,
    now: i64,
)
    requires
        verdicts_ok(judged, reads, phase, now),
        reads.subset_of(reads2),
    ensures
        verdicts_ok(judged, reads2, phase, now),
{
    assert forall|pv: (Seq<char>, bool)| #[trigger] judged.contains(pv) implies if phase is Scratch {
        !pv.1
    } else {
        exists|c: Seq<u8>| #[trigger] reads2.contains((pv.0, c)) && pv.1 == kept(phase, c, now)
    } by {
        if !(phase is Scratch) {
            let c = choose|c: Seq<u8>| #[trigger] reads.contains((pv.0, c)) && pv.1 == kept(phase, c, now);
            assert(reads2.contains((pv.0, c)));
        }
    }
}

/// A cleanup of the whole store at one point in time.
///
/// It sweeps the trust anchors, the RRDP repositories, the rsync
/// repository and the scratch directory in turn. With a collector, every
/// repository that keeps a point is registered with it, and it is
/// committed once all sweeps are done.
pub struct CleanupRun {
    base: String,
    now: i64,
    collector: bool,
    phase: CleanupPhase,
    sweep: Sweep,
    reading: Option<String>,
    pending: Ghost<Option<(Seq<char>, Seq<u8>)>>,
    received: Ghost<Set<(Seq<char>, Seq<(Seq<char>, EntryKind)>)>>,
    reads: Ghost<Set<(Seq<char>, Seq<u8>)>>,
    issued: Ghost<Set<Seq<char>>>,
    phases: Ghost<Seq<PhaseRecord>>,
    aborted: Ghost<bool>,
    committed: Ghost<bool>,
}

impl CleanupRun {
    pub closed spec fn spec_base(&self) -> Seq<char> {
        self.base@
    }

    pub closed spec fn spec_phase(&self) -> CleanupPhase {
        self.phase
    }

    /// The file whose content the run waits for.
    pub closed spec fn spec_reading(&self) -> Option<Seq<char>> {
        match self.reading {
            Some(p) => Some(p@),
            None => None,
        }
    }

    /// The directory whose listing the run waits for.
    pub closed spec fn spec_listing(&self) -> Option<Seq<char>> {
        if self.reading is None && !(self.phase is Committing || self.phase is Finished) {
            self.sweep.spec_listing()
        } else {
            None
        }
    }

    pub closed spec fn spec_now(&self) -> i64 {
        self.now
    }

    pub closed spec fn spec_collector(&self) -> bool {
        self.collector
    }

    /// Whether the run ended on an event that did not answer its action.
    pub closed spec fn spec_aborted(&self) -> bool {
        self.aborted@
    }

    /// Whether the collector was asked to commit.
    pub closed spec fn spec_committed(&self) -> bool {
        self.committed@
    }

    /// Every listing received, with the directory it is of.
    pub closed spec fn spec_received(&self) -> Set<(Seq<char>, Seq<(Seq<char>, EntryKind)>)> {
        self.received@
    }

    /// Every file content read, with the file it is of.
    pub closed spec fn spec_reads(&self) -> Set<(Seq<char>, Seq<u8>)> {
        self.reads@
    }

    /// Every file and directory whose removal was asked for.
    pub closed spec fn spec_issued(&self) -> Set<Seq<char>> {
        self.issued@
    }

    /// The trees swept completely so far, in order.
    pub closed spec fn spec_phases(&self) -> Seq<PhaseRecord> {
        self.phases@
    }

    /// The listings received by the sweep of the current tree.
    pub closed spec fn spec_listed(&self) -> Map<Seq<char>, Seq<(Seq<char>, EntryKind)>> {
        self.sweep.spec_listed()
    }

    /// The removals asked for by the sweep of the current tree.
    pub closed spec fn spec_removed(&self) -> Set<Seq<char>> {
        self.sweep.spec_removed()
    }

    /// Whether `event` answers the action the run asked for last.
    pub closed spec fn answers(&self, event: CleanupEvent) -> bool {
        match event {
            CleanupEvent::Read(_) => self.reading is Some,
            CleanupEvent::Retained => self.phase is Committing || self.pending@ is Some,
            CleanupEvent::Listed(es) => self.spec_listing() is Some && listing_sane(es),
            CleanupEvent::Removed => self.reading is None && !(self.phase is Committing
                || self.phase is Finished) && self.sweep.spec_removing(),
        }
    }

    spec fn sweeping(&self) -> bool {
        !(self.phase is Committing || self.phase is Finished)
    }

    pub closed spec fn wf(&self) -> bool {
        &&& self.sweep.wf()
        &&& forall|k: int|
            0 <= k < self.phases@.len() ==> #[trigger] phase_done(
                self.phases@[k],
                k,
                self.base@,
                self.received@,
                self.reads@,
                self.issued@,
                self.now,
            )
        &&& (self.sweeping() ==> {
            &&& !self.aborted@
            &&& !self.sweep.spec_aborted()
            &&& !self.sweep.spec_finished()
            &&& self.sweep.spec_root() == phase_root(self.base@, self.phase)
            &&& self.phases@.len() == phase_index(self.phase)
            &&& self.sweep.spec_listings().subset_of(self.received@)
            &&& self.sweep.spec_removed().subset_of(self.issued@)
            &&& verdicts_ok(self.sweep.spec_judged(), self.reads@, self.phase, self.now)
            &&& (self.sweep.spec_judging() is Some ==> self.reading is Some || self.pending@ is Some)
        })
        &&& (self.reading matches Some(p) ==> self.sweeping() && self.sweep.spec_judging() == Some(
            p@,
        ) && self.pending@ is None && !(self.phase is Scratch))
        &&& (self.pending@ matches Some(pc) ==> self.sweeping() && self.reading is None
            && self.sweep.spec_judging() == Some(pc.0) && self.reads@.contains(pc) && kept(
            self.phase,
            pc.1,
            self.now,
        ))
        &&& (self.phase is Committing ==> self.phases@.len() == 4 && self.collector
            && self.committed@)
        &&& (self.phase is Finished && !self.aborted@ ==> self.phases@.len() == 4 && (
        self.collector ==> self.committed@))
        &&& (self.sweeping() ==> !self.committed@)
        &&& (!self.collector ==> !self.committed@)
        &&& (self.committed@ ==> self.phases@.len() == 4)
    }

    fn phase_dir(&self, phase: CleanupPhase) -> (r: String)
        ensures
            r@ == phase_root(self.base@, phase),
    {
        let mut path = self.base.clone();
        path.append("/");
        match phase {
            CleanupPhase::TrustAnchors => path.append("ta"),
            CleanupPhase::Rrdp => path.append("rrdp"),
            CleanupPhase::Rsync => path.append("rsync"),
            _ => path.append("tmp"),
        }
        proof {
            reveal_strlit("/");
        }
        assert(path@ =~= phase_root(self.base@, phase));
        path
    }

    /// Ends the run on an event that does not answer its action.
    fn abort(&mut self) -> (r: CleanupAction)
        requires
            old(self).sweep.wf(),
            !old(self).collector ==> !old(self).committed@,
            old(self).committed@ ==> old(self).phases@.len() == 4,
            forall|k: int|
                0 <= k < old(self).phases@.len() ==> #[trigger] phase_done(
                    old(self).phases@[k],
                    k,
                    old(self).base@,
                    old(self).received@,
                    old(self).reads@,
                    old(self).issued@,
                    old(self).now,
                ),
        ensures
            final(self).wf(),
            final(self).base == old(self).base,
            final(self).now == old(self).now,
            final(self).collector == old(self).collector,
            final(self).received == old(self).received,
            final(self).reads == old(self).reads,
            final(self).issued == old(self).issued,
            final(self).aborted@,
            final(self).phase is Finished,
            final(self).phases == old(self).phases,
            final(self).committed == old(self).committed,
            r is Done,
    {
        self.phase = CleanupPhase::Finished;
        self.reading = None;
        self.pending = Ghost(None);
        self.aborted = Ghost(true);
        CleanupAction::Done
    }

    /// Turns what the sweep of the current tree asks for into the next
    /// action, moving on to the next tree when a sweep is complete.
    fn follow(&mut self, first: SweepAction) -> (r: CleanupAction)
        requires
            old(self).sweep.wf(),
            forall|k: int|
                0 <= k < old(self).phases@.len() ==> #[trigger] phase_done(
                    old(self).phases@[k],
                    k,
                    old(self).base@,
                    old(self).received@,
                    old(self).reads@,
                    old(self).issued@,
                    old(self).now,
                ),
            old(self).sweeping(),
            !old(self).aborted@,
            !old(self).committed@,
            !old(self).sweep.spec_aborted(),
            old(self).sweep.spec_root() == phase_root(old(self).base@, old(self).phase),
            old(self).phases@.len() == phase_index(old(self).phase),
            old(self).sweep.spec_listings().subset_of(old(self).received@),
            old(self).sweep.spec_removed().subset_of(old(self).issued@),
            verdicts_ok(old(self).sweep.spec_judged(), old(self).reads@, old(self).phase, old(self).now),
            old(self).reading is None,
            old(self).pending@ is None,
            old(self).sweep.spec_judging() is None || first is Judge,
            first matches SweepAction::Judge(p) ==> old(self).sweep.spec_judging() == Some(p@),
            first matches SweepAction::ReadDir(p) ==> old(self).sweep.spec_listing() == Some(p@),
            !(first is ReadDir) ==> old(self).sweep.spec_listing() is None,
            first is Done <==> old(self).sweep.spec_finished(),
            first is Done ==> swept(
                old(self).sweep.spec_log(),
                old(self).sweep.spec_listings(),
                old(self).sweep.spec_judged(),
                old(self).sweep.spec_removed(),
                old(self).sweep.spec_root(),
            ),
            !(first is RemoveFile),
            first matches SweepAction::RemoveDir(q) ==> dir_cleared(
                old(self).sweep.spec_listed(),
                old(self).sweep.spec_removed(),
                q@,
            ),
            first matches SweepAction::ReadDir(p) ==> below(old(self).sweep.spec_root(), p@),
            first matches SweepAction::Judge(p) ==> below(old(self).sweep.spec_root(), p@),
            first matches SweepAction::RemoveDir(p) ==> below(old(self).sweep.spec_root(), p@),
        ensures
            final(self).wf(),
            final(self).base == old(self).base,
            final(self).now == old(self).now,
            final(self).collector == old(self).collector,
            final(self).received == old(self).received,
            final(self).reads == old(self).reads,
            final(self).aborted == old(self).aborted,
            final(self).committed@ == r is Commit,
            match r {
                CleanupAction::RemoveFile(p) => final(self).issued@ == old(self).issued@.insert(p@),
                _ => final(self).issued == old(self).issued,
            },
            r is Done <==> final(self).phase is Finished,
            r is RemoveFile ==> old(self).phase is Scratch && final(self).phase is Scratch,
            r is Done || r is Commit ==> old(self).phase is Scratch,
            r is Commit ==> final(self).phase is Committing,
            r matches CleanupAction::RemoveDir(q) ==> dir_cleared(
                final(self).spec_listed(),
                final(self).spec_removed(),
                q@,
            ),
            r matches CleanupAction::ReadDir(p) ==> final(self).spec_listing() == Some(p@),
            r matches CleanupAction::ReadFile(p) ==> final(self).spec_reading() == Some(p@),
            r matches CleanupAction::ReadDir(p) ==> below(phase_root(final(self).base@, final(self).phase), p@),
            r matches CleanupAction::ReadFile(p) ==> below(phase_root(final(self).base@, final(self).phase), p@),
            r matches CleanupAction::RemoveFile(p) ==> below(phase_root(final(self).base@, final(self).phase), p@),
            r matches CleanupAction::RemoveDir(p) ==> below(phase_root(final(self).base@, final(self).phase), p@),
            !(r is RetainRrdp || r is RetainRsync),
            r is RemoveFile ==> first is Judge,
            r matches CleanupAction::RemoveDir(q) ==> first matches SweepAction::RemoveDir(q0)
                && q0@ == q@,
            first matches SweepAction::RemoveDir(q0) ==> (r matches CleanupAction::RemoveDir(q)
                && q0@ == q@),
    {
        let ghost a0 = first;
        let mut action = first;
        loop
            invariant
                self.sweep.wf(),
                forall|k: int|
                    0 <= k < self.phases@.len() ==> #[trigger] phase_done(
                        self.phases@[k],
                        k,
                        self.base@,
                        self.received@,
                        self.reads@,
                        self.issued@,
                        self.now,
                    ),
                self.sweeping(),
                !self.aborted@,
                !self.committed@,
                !self.sweep.spec_aborted(),
                self.sweep.spec_root() == phase_root(self.base@, self.phase),
                self.phases@.len() == phase_index(self.phase),
                self.sweep.spec_listings().subset_of(self.received@),
                self.sweep.spec_removed().subset_of(self.issued@),
                verdicts_ok(self.sweep.spec_judged(), self.reads@, self.phase, self.now),
                self.reading is None,
                self.pending@ is None,
                self.sweep.spec_judging() is None || action is Judge,
                action matches SweepAction::Judge(p) ==> self.sweep.spec_judging() == Some(p@),
                action matches SweepAction::ReadDir(p) ==> self.sweep.spec_listing() == Some(p@),
                !(action is ReadDir) ==> self.sweep.spec_listing() is None,
                action is Done <==> self.sweep.spec_finished(),
                action is Done ==> swept(
                    self.sweep.spec_log(),
                    self.sweep.spec_listings(),
                    self.sweep.spec_judged(),
                    self.sweep.spec_removed(),
                    self.sweep.spec_root(),
                ),
                !(action is RemoveFile),
                action matches SweepAction::RemoveDir(q) ==> dir_cleared(
                    self.sweep.spec_listed(),
                    self.sweep.spec_removed(),
                    q@,
                ),
                action matches SweepAction::ReadDir(p) ==> below(self.sweep.spec_root(), p@),
                action matches SweepAction::Judge(p) ==> below(self.sweep.spec_root(), p@),
                action matches SweepAction::RemoveDir(p) ==> below(self.sweep.spec_root(), p@),
                self.base == old(self).base,
                self.now == old(self).now,
                self.collector == old(self).collector,
                self.received == old(self).received,
                self.reads == old(self).reads,
                self.issued == old(self).issued,
                self.aborted == old(self).aborted,
                self.phase != old(self).phase ==> action is ReadDir,
                self.phase == old(self).phase ==> action == a0,
                first == a0,
                first is RemoveDir ==> self.phase == old(self).phase,
            decreases 4 - phase_index(self.phase),
        {
            match action {
                SweepAction::ReadDir(p) => return CleanupAction::ReadDir(p),
                SweepAction::RemoveFile(p) => return CleanupAction::RemoveFile(p),
                SweepAction::RemoveDir(p) => {
                    assert(a0 matches SweepAction::RemoveDir(q0) && q0@ == p@);
                    return CleanupAction::RemoveDir(p);
                },
                SweepAction::Judge(p) => {
                    if self.phase == CleanupPhase::Scratch {
                        let ghost judged0 = self.sweep.spec_judged();
                        assert(a0 is Judge);
                        let next = self.sweep.step(SweepEvent::Judged(false));
                        match next {
                            SweepAction::RemoveFile(q) => {
                                self.issued = Ghost(self.issued@.insert(q@));
                                proof {
                                    assert forall|pv: (Seq<char>, bool)| #[trigger] self.sweep.spec_judged().contains(pv) implies !pv.1 by {
                                        if pv != (p@, false) {
                                            assert(judged0.contains(pv));
                                        }
                                    }
                                    lemma_phases_grow(self.phases@, self.base@, self.received@, self.reads@, old(self).issued@, self.received@, self.reads@, self.issued@, self.now);
                                }
                                return CleanupAction::RemoveFile(q);
                            },
                            _ => {
                                return self.abort();
                            },
                        }
                    }
                    self.reading = Some(p.clone());
                    return CleanupAction::ReadFile(p);
                },
                SweepAction::Done => {
                    let ghost k = phase_index(self.phase);
                    let ghost record = PhaseRecord {
                        root: self.sweep.spec_root(),
                        log: self.sweep.spec_log(),
                        listings: self.sweep.spec_listings(),
                        judged: self.sweep.spec_judged(),
                        removed: self.sweep.spec_removed(),
                    };
                    let ghost phases0 = self.phases@;
                    self.phases = Ghost(self.phases@.push(record));
                    proof {
                        assert(phase_of(k) == self.phase);
                        assert(phase_done(record, k, self.base@, self.received@, self.reads@, self.issued@, self.now));
                        assert forall|kk: int| 0 <= kk < self.phases@.len() implies #[trigger] phase_done(
                            self.phases@[kk],
                            kk,
                            self.base@,
                            self.received@,
                            self.reads@,
                            self.issued@,
                            self.now,
                        ) by {
                            if kk < k {
                                assert(self.phases@[kk] == phases0[kk]);
                            }
                        }
                    }
                    if self.phase == CleanupPhase::Scratch {
                        if self.collector {
                            self.phase = CleanupPhase::Committing;
                            self.committed = Ghost(true);
                            return CleanupAction::Commit;
                        } else {
                            self.phase = CleanupPhase::Finished;
                            return CleanupAction::Done;
                        }
                    }
                    let next = match self.phase {
                        CleanupPhase::TrustAnchors => CleanupPhase::Rrdp,
                        CleanupPhase::Rrdp => CleanupPhase::Rsync,
                        _ => CleanupPhase::Scratch,
                    };
                    self.phase = next;
                    let root = self.phase_dir(next);
                    let (sweep, first) = Sweep::new(root);
                    self.sweep = sweep;
                    action = first;
                    proof {
                        assert(self.sweep.spec_judged() =~= Set::<(Seq<char>, bool)>::empty());
                    }
                },
            }
        }
    }

    /// Takes the outcome of the last action and returns the next one.
    ///
    /// The content of a file decides whether it is kept: see [`kept`]. A
    /// file that is not kept is deleted next; a kept point is registered
    /// with the collector, if there is one, before the sweep goes on.
    /// Scratch files are all deleted. A run that ends without being
    /// aborted has swept all four trees completely: see
    /// [`cleanup_complete`]. The collector is committed only then.
    pub fn step(&mut self, event: CleanupEvent) -> (r: CleanupAction)
        requires
            old(self).wf(),
        ensures
            final(self).wf(),
            final(self).spec_base() == old(self).spec_base(),
            final(self).spec_now() == old(self).spec_now(),
            final(self).spec_collector() == old(self).spec_collector(),
            r is Done <==> final(self).spec_phase() is Finished,
            final(self).spec_aborted() ==> old(self).spec_aborted() || !old(self).answers(event),
            (r is Done || r is Commit) && !final(self).spec_aborted() ==> cleanup_complete(
                final(self).spec_phases(),
                final(self).spec_base(),
                final(self).spec_received(),
                final(self).spec_reads(),
                final(self).spec_issued(),
                final(self).spec_now(),
            ),
            r is Commit ==> old(self).spec_phase() is Scratch && final(self).spec_collector()
                && !old(self).spec_committed() && final(self).spec_committed(),
            !(r is Commit) ==> final(self).spec_committed() == old(self).spec_committed(),
            final(self).spec_committed() ==> cleanup_complete(
                final(self).spec_phases(),
                final(self).spec_base(),
                final(self).spec_received(),
                final(self).spec_reads(),
                final(self).spec_issued(),
                final(self).spec_now(),
            ),
            !final(self).spec_collector() ==> !final(self).spec_committed(),
            r is Done && final(self).spec_collector() && !final(self).spec_aborted()
                ==> final(self).spec_committed(),
            match (old(self).spec_listing(), event) {
                (Some(p), CleanupEvent::Listed(es)) => if listing_sane(es) {
                    final(self).spec_received() == old(self).spec_received().insert(
                        (
                            p,
                            match es {
                                Some(v) => listing_view(v@),
                                None => Seq::empty(),
                            },
                        ),
                    )
                } else {
                    final(self).spec_received() == old(self).spec_received()
                },
                _ => final(self).spec_received() == old(self).spec_received(),
            },
            match (old(self).spec_reading(), event) {
                (Some(p), CleanupEvent::Read(c)) => final(self).spec_reads()
                    == old(self).spec_reads().insert((p, c@)),
                _ => final(self).spec_reads() == old(self).spec_reads(),
            },
            match r {
                CleanupAction::RemoveFile(p) => final(self).spec_issued()
                    == old(self).spec_issued().insert(p@),
                CleanupAction::RemoveDir(p) => final(self).spec_issued()
                    == old(self).spec_issued().insert(p@),
                _ => final(self).spec_issued() == old(self).spec_issued(),
            },
            r matches CleanupAction::ReadDir(p) ==> final(self).spec_listing() == Some(p@),
            r matches CleanupAction::ReadFile(p) ==> final(self).spec_reading() == Some(p@),
            r matches CleanupAction::ReadDir(p) ==> below(phase_root(final(self).spec_base(), final(self).spec_phase()), p@),
            r matches CleanupAction::ReadFile(p) ==> below(phase_root(final(self).spec_base(), final(self).spec_phase()), p@),
            r matches CleanupAction::RemoveFile(p) ==> below(phase_root(final(self).spec_base(), final(self).spec_phase()), p@),
            r matches CleanupAction::RemoveDir(p) ==> below(phase_root(final(self).spec_base(), final(self).spec_phase()), p@),
            old(self).spec_reading() matches Some(p) ==> event matches CleanupEvent::Read(c)
                ==> {
                &&& (r matches CleanupAction::RemoveFile(q) && q@ == p) <==> !kept(
                    old(self).spec_phase(),
                    c@,
                    old(self).spec_now(),
                )
                &&& (r is RetainRrdp || r is RetainRsync) ==> old(self).spec_collector()
                &&& r matches CleanupAction::RetainRrdp(u) ==> (old(self).spec_phase() is Rrdp
                    && (parse_manifest(c@, 0) matches Some((v, _)) && v.rpki_notify == Some(u@)))
                &&& r matches CleanupAction::RetainRsync(u) ==> (old(self).spec_phase() is Rsync
                    && (parse_manifest(c@, 0) matches Some((v, _)) && v.rpki_manifest == u@))
                &&& (old(self).spec_collector() && old(self).spec_phase() is Rrdp && kept(
                    old(self).spec_phase(),
                    c@,
                    old(self).spec_now(),
                ) && (parse_manifest(c@, 0) matches Some((v, _)) && v.rpki_notify is Some)) ==> r is RetainRrdp
                &&& (old(self).spec_collector() && old(self).spec_phase() is Rsync && kept(
                    old(self).spec_phase(),
                    c@,
                    old(self).spec_now(),
                )) ==> r is RetainRsync
            },
            r matches CleanupAction::RemoveFile(q) ==> final(self).spec_phase() is Scratch || (
            old(self).spec_reading() == Some(q@) && (event matches CleanupEvent::Read(c)
                && !kept(old(self).spec_phase(), c@, old(self).spec_now()))),
            r matches CleanupAction::RemoveDir(q) ==> dir_cleared(
                final(self).spec_listed(),
                final(self).spec_removed(),
                q@,
            ),
    {
        if self.phase == CleanupPhase::Finished {
            return CleanupAction::Done;
        }
        if self.phase == CleanupPhase::Committing {
            return match event {
                CleanupEvent::Retained => {
                    self.phase = CleanupPhase::Finished;
                    CleanupAction::Done
                },
                _ => self.abort(),
            };
        }
        match self.reading.take() {
            Some(path) => {
                let content = match event {
                    CleanupEvent::Read(c) => c,
                    _ => {
                        return self.abort();
                    },
                };
                let ghost reads0 = self.reads@;
                let ghost judged0 = self.sweep.spec_judged();
                self.reads = Ghost(self.reads@.insert((path@, content@)));
                proof {
                    lemma_verdicts_grow(judged0, reads0, self.reads@, self.phase, self.now);
                    lemma_phases_grow(self.phases@, self.base@, self.received@, reads0, self.issued@, self.received@, self.reads@, self.issued@, self.now);
                }
                let keep = match self.phase {
                    CleanupPhase::TrustAnchors => retain_ta(content.as_slice(), self.now),
                    CleanupPhase::Rrdp => match retain_rrdp_point(content.as_slice(), self.now) {
                        Some(Some(u)) => {
                            if self.collector {
                                self.pending = Ghost(Some((path@, content@)));
                                return CleanupAction::RetainRrdp(u);
                            }
                            true
                        },
                        Some(None) => true,
                        None => false,
                    },
                    _ => match retain_rsync_point(content.as_slice(), self.now) {
                        Some(u) => {
                            if self.collector {
                                self.pending = Ghost(Some((path@, content@)));
                                return CleanupAction::RetainRsync(u);
                            }
                            true
                        },
                        None => false,
                    },
                };
                assert(keep == kept(self.phase, content@, self.now));
                let next = self.sweep.step(SweepEvent::Judged(keep));
                proof {
                    assert forall|pv: (Seq<char>, bool)| #[trigger] self.sweep.spec_judged().contains(pv) implies (if self.phase is Scratch {
                        !pv.1
                    } else {
                        exists|c: Seq<u8>| #[trigger] self.reads@.contains((pv.0, c)) && pv.1 == kept(self.phase, c, self.now)
                    }) by {
                        if pv == (path@, keep) {
                            assert(self.reads@.contains((pv.0, content@)) && pv.1 == kept(self.phase, content@, self.now));
                        } else {
                            assert(judged0.contains(pv));
                        }
                    }
                }
                if keep {
                    let ghost issued0 = self.issued@;
                    match &next {
                        SweepAction::RemoveDir(q) => {
                            self.issued = Ghost(self.issued@.insert(q@));
                        },
                        _ => {},
                    }
                    proof {
                        lemma_phases_grow(self.phases@, self.base@, self.received@, self.reads@, issued0, self.received@, self.reads@, self.issued@, self.now);
                    }
                    self.follow(next)
                } else {
                    match next {
                        SweepAction::RemoveFile(q) => {
                            let ghost issued0 = self.issued@;
                            self.issued = Ghost(self.issued@.insert(q@));
                            proof {
                                lemma_phases_grow(self.phases@, self.base@, self.received@, self.reads@, issued0, self.received@, self.reads@, self.issued@, self.now);
                            }
                            CleanupAction::RemoveFile(q)
                        },
                        _ => self.abort(),
                    }
                }
            },
            None => {
                let sweep_event = match event {
                    CleanupEvent::Read(_) => {
                        return self.abort();
                    },
                    CleanupEvent::Retained => SweepEvent::Judged(true),
                    CleanupEvent::Listed(entries) => SweepEvent::Listed(entries),
                    CleanupEvent::Removed => SweepEvent::Removed,
                };
                if !self.sweep.expects(&sweep_event) {
                    return self.abort();
                }
                let ghost judged0 = self.sweep.spec_judged();
                let ghost pending0 = self.pending@;
                let ghost listing0 = self.sweep.spec_listing();
                let ghost received0 = self.received@;
                let ghost issued0 = self.issued@;
                let ghost is_listed = sweep_event is Listed;
                let ghost view = match &sweep_event {
                    SweepEvent::Listed(Some(v)) => listing_view(v@),
                    _ => Seq::<(Seq<char>, EntryKind)>::empty(),
                };
                let next = self.sweep.step(sweep_event);
                self.pending = Ghost(None);
                self.received = Ghost(
                    if is_listed {
                        self.received@.insert((listing0->Some_0, view))
                    } else {
                        self.received@
                    },
                );
                match &next {
                    SweepAction::RemoveDir(q) => {
                        self.issued = Ghost(self.issued@.insert(q@));
                    },
                    _ => {},
                }
                proof {
                    lemma_phases_grow(self.phases@, self.base@, received0, self.reads@, issued0, self.received@, self.reads@, self.issued@, self.now);
                    assert forall|pv: (Seq<char>, bool)| #[trigger] self.sweep.spec_judged().contains(pv) implies (if self.phase is Scratch {
                        !pv.1
                    } else {
                        exists|c: Seq<u8>| #[trigger] self.reads@.contains((pv.0, c)) && pv.1 == kept(self.phase, c, self.now)
                    }) by {
                        if !judged0.contains(pv) {
                            let pc = pending0->Some_0;
                            assert(pv == (pc.0, true));
                            assert(self.reads@.contains((pv.0, pc.1)) && pv.1 == kept(self.phase, pc.1, self.now));
                        }
                    }
                }
                self.follow(next)
            },
        }
    }
}

proof fn lemma_phases_grow(
    phases: Seq<PhaseRecord>,
    base: Seq<char>,
    received: Set<(Seq<char>, Seq<(Seq<char>, EntryKind)>)>,
    reads: Set<(Seq<char>, Seq<u8>)>,
    issued: Set<Seq<char>>,
    received2: Set<(Seq<char>, Seq<(Seq<char>, EntryKind)>)>,
    reads2: Set<(Seq<char>, Seq<u8>)>,
    issued2: Set<Seq<char>>,
    now: i64,
)
    requires
        forall|k: int| 0 <= k < phases.len() ==> #[trigger] phase_done(phases[k], k, base, received, reads, issued, now),
        received.subset_of(received2),
        reads.subset_of(reads2),
        issued.subset_of(issued2),
    ensures
        forall|k: int| 0 <= k < phases.len() ==> #[trigger] phase_done(phases[k], k, base, received2, reads2, issued2, now),
{
    assert forall|k: int| 0 <= k < phases.len() implies #[trigger] phase_done(phases[k], k, base, received2, reads2, issued2, now) by {
        assert(phase_done(phases[k], k, base, received, reads, issued, now));
        lemma_verdicts_grow(phases[k].judged, reads, reads2, phase_of(k), now);
    }
}

impl Store {
    /// Starts a cleanup of the store at the current time, with or without a
    /// collector to keep in step.
    pub fn start_cleanup(&self, collector: bool) -> (r: (CleanupRun, CleanupAction))
        ensures
            r.0.wf(),
            r.0.spec_base() == self.spec_path(),
            r.0.spec_collector() == collector,
            r.0.spec_phase() is TrustAnchors,
            !r.0.spec_aborted(),
            !r.0.spec_committed(),
            r.1 matches CleanupAction::ReadDir(p) && p@ == join(self.spec_path(), "ta"@)
                && r.0.spec_listing() == Some(p@),
    {
        self.cleanup(current_time(), collector)
    }

    /// Starts a cleanup of the store at time `now`, with or without a
    /// collector to keep in step.
    pub fn cleanup(&self, now: i64, collector: bool) -> (r: (CleanupRun, CleanupAction))
        ensures
            r.0.wf(),
            r.0.spec_base() == self.spec_path(),
            r.0.spec_now() == now,
            r.0.spec_collector() == collector,
            r.0.spec_phase() is TrustAnchors,
            !r.0.spec_aborted(),
            !r.0.spec_committed(),
            r.0.spec_phases() == Seq::<PhaseRecord>::empty(),
            r.0.spec_received() == Set::<(Seq<char>, Seq<(Seq<char>, EntryKind)>)>::empty(),
            r.0.spec_reads() == Set::<(Seq<char>, Seq<u8>)>::empty(),
            r.0.spec_issued() == Set::<Seq<char>>::empty(),
            r.1 matches CleanupAction::ReadDir(p) && p@ == join(self.spec_path(), "ta"@)
                && r.0.spec_listing() == Some(p@),
    {
        let root = self.ta_base();
        let (sweep, _) = Sweep::new(root.clone());
        let run = CleanupRun {
            base: String::from_str(self.path()),
            now,
            collector,
            phase: CleanupPhase::TrustAnchors,
            sweep,
            reading: None,
            pending: Ghost(None),
            received: Ghost(Set::empty()),
            reads: Ghost(Set::empty()),
            issued: Ghost(Set::empty()),
            phases: Ghost(Seq::empty()),
            aborted: Ghost(false),
            committed: Ghost(false),
        };
        assert(run.sweep.spec_judged() =~= Set::<(Seq<char>, bool)>::empty());
        (run, CleanupAction::ReadDir(root))
    }
}

} // verus!
