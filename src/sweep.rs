//! A post-order sweep over a directory tree that deletes what is not kept.
//!
//! The sweep decides; the caller performs the file-system work. Starting
//! with [`Sweep::new`], the caller carries out each [`SweepAction`] and
//! hands the outcome back to [`Sweep::step`] as a [`SweepEvent`], until the
//! sweep answers [`SweepAction::Done`].
//!
//! Every file is judged by the caller. A file that is not kept is deleted.
//! A directory is deleted once all its entries are gone; one holding a kept
//! file, a kept directory, or an entry that is neither file nor directory
//! stays. The root directory itself is never deleted.

use vstd::prelude::*;
use crate::store::join;

verus! {

/// What a directory entry is.
#[derive(Clone, Copy, Debug, PartialEq, Eq, Structural)]
pub enum EntryKind {
    File,
    Dir,
    Other,
}

/// One entry of a directory listing.
#[derive(Debug)]
pub struct DirEntry {
    pub name: String,
    pub kind: EntryKind,
}

/// What the caller does next.
#[derive(Debug, PartialEq, Eq)]
pub enum SweepAction {
    /// List the directory; answer with [`SweepEvent::Listed`].
    ReadDir(String),
    /// Decide whether the file is kept; answer with [`SweepEvent::Judged`].
    Judge(String),
    /// Delete the file; answer with [`SweepEvent::Removed`].
    RemoveFile(String),
    /// Delete the empty directory; answer with [`SweepEvent::Removed`].
    RemoveDir(String),
    /// The sweep is complete.
    Done,
}

/// The outcome of the last action.
#[derive(Debug)]
pub enum SweepEvent {
    /// The directory's entries, or `None` where it does not exist.
    Listed(Option<Vec<DirEntry>>),
    /// Whether the file is kept.
    Judged(bool),
    /// The file or directory was deleted.
    Removed,
}

/// What the sweep waits for.
enum Waiting {
    Listing(String),
    Judging(String),
    Removal,
    Finished,
}

/// A directory being swept.
struct Frame {
    path: String,
    entries: Vec<DirEntry>,
    next: usize,
    keep: bool,
    /// For each directory entry dealt with: where its record is in the log.
    kids: Ghost<Seq<int>>,
    /// For each file entry dealt with: whether it was kept.
    verdicts: Ghost<Seq<bool>>,
}

spec fn frame_left(f: Frame) -> nat {
    if f.next <= f.entries@.len() {
        (f.entries@.len() - f.next) as nat
    } else {
        0
    }
}

/// The entries of the frames not yet visited.
spec fn entries_left(s: Seq<Frame>) -> nat
    decreases s.len(),
{
    if s.len() == 0 {
        0
    } else {
        entries_left(s.drop_last()) + frame_left(s.last())
    }
}

/// The names and kinds of a directory listing.
pub open spec fn listing_view(es: Seq<DirEntry>) -> Seq<(Seq<char>, EntryKind)> {
    es.map_values(|e: DirEntry| (e.name@, e.kind))
}

/// The path of the `j`-th entry of a frame.
spec fn entry_path(f: Frame, j: int) -> Seq<char> {
    join(f.path@, f.entries@[j].name@)
}

/// Whether `p` is `root` or lies below it.
pub open spec fn below(root: Seq<char>, p: Seq<char>) -> bool {
    p == root || (p.len() > root.len() && p.subrange(0, root.len() as int + 1) == root.push('/'))
}

proof fn lemma_below_join(root: Seq<char>, a: Seq<char>, n: Seq<char>)
    requires
        below(root, a),
    ensures
        below(root, join(a, n)),
        join(a, n).len() > a.len(),
{
    let j = join(a, n);
    if a == root {
        assert(j.subrange(0, root.len() as int + 1) =~= root.push('/'));
    } else {
        assert(j.subrange(0, root.len() as int + 1) =~= a.subrange(0, root.len() as int + 1));
    }
}

/// `p` lies strictly below `a`.
pub open spec fn strictly_below(a: Seq<char>, p: Seq<char>) -> bool {
    p.len() > a.len() && p.subrange(0, a.len() as int + 1) == a.push('/')
}

/// A name holds no `/`.
pub open spec fn slash_free(n: Seq<char>) -> bool {
    forall|i: int| 0 <= i < n.len() ==> n[i] != '/'
}

/// A listing that a directory can have: no name holds a `/`, and no name
/// occurs twice.
pub open spec fn names_ok(es: Seq<DirEntry>) -> bool {
    &&& forall|j: int| 0 <= j < es.len() ==> slash_free(#[trigger] es[j].name@)
    &&& forall|i: int, j: int|
        #![trigger es[i].name@, es[j].name@]
        0 <= i < j < es.len() ==> es[i].name@ != es[j].name@
}

/// Whether a reported listing is one that a directory can have.
pub open spec fn listing_sane(es: Option<Vec<DirEntry>>) -> bool {
    match es {
        Some(v) => names_ok(v@),
        None => true,
    }
}

proof fn lemma_join_strict(a: Seq<char>, n: Seq<char>)
    ensures
        strictly_below(a, join(a, n)),
{
    assert(join(a, n).subrange(0, a.len() as int + 1) =~= a.push('/'));
}

proof fn lemma_strict_trans(a: Seq<char>, b: Seq<char>, c: Seq<char>)
    requires
        below(a, b),
        strictly_below(b, c),
    ensures
        strictly_below(a, c),
{
    if b != a {
        assert(c.subrange(0, a.len() as int + 1) =~= c.subrange(0, b.len() as int + 1).subrange(
            0,
            a.len() as int + 1,
        ));
        assert(b.subrange(0, a.len() as int + 1) =~= b.push('/').subrange(0, a.len() as int + 1));
    }
}

proof fn lemma_below_trans(a: Seq<char>, b: Seq<char>, c: Seq<char>)
    requires
        below(a, b),
        below(b, c),
    ensures
        below(a, c),
{
    if c != b {
        lemma_strict_trans(a, b, c);
    }
}

/// A path below `a/x/` is not `a/y` for a name `y`.
proof fn lemma_not_sibling(a: Seq<char>, x: Seq<char>, y: Seq<char>, h: Seq<char>)
    requires
        strictly_below(join(a, x), h),
        slash_free(y),
    ensures
        h != join(a, y),
{
    if h == join(a, y) {
        let k: int = a.len() as int + 1 + x.len() as int;
        assert(h.subrange(0, k + 1)[k] == '/');
        assert(h[k] == '/');
        assert(y[x.len() as int] == h[k]);
    }
}

/// Paths below `a/x/` and `a/y/` differ for different names `x` and `y`.
proof fn lemma_apart(a: Seq<char>, x: Seq<char>, y: Seq<char>, h: Seq<char>, p: Seq<char>)
    requires
        strictly_below(join(a, x), h),
        strictly_below(join(a, y), p),
        slash_free(x),
        slash_free(y),
        x != y,
    ensures
        h != p,
{
    if h == p {
        let s: int = a.len() as int + 1;
        if x.len() == y.len() {
            assert(x =~= h.subrange(0, s + x.len() as int + 1).subrange(s, s + x.len() as int));
            assert(y =~= p.subrange(0, s + y.len() as int + 1).subrange(s, s + y.len() as int));
        } else if x.len() < y.len() {
            let k: int = s + x.len() as int;
            assert(h.subrange(0, k + 1)[k] == '/');
            assert(p.subrange(0, s + y.len() as int + 1)[k] == y[x.len() as int]);
        } else {
            let k: int = s + y.len() as int;
            assert(p.subrange(0, k + 1)[k] == '/');
            assert(h.subrange(0, s + x.len() as int + 1)[k] == x[y.len() as int]);
        }
    }
}

proof fn lemma_join_inj(a: Seq<char>, x: Seq<char>, y: Seq<char>)
    requires
        join(a, x) == join(a, y),
    ensures
        x == y,
{
    let s: int = a.len() as int + 1;
    assert(x =~= join(a, x).subrange(s, join(a, x).len() as int));
    assert(y =~= join(a, y).subrange(s, join(a, y).len() as int));
}

/// Whether `name` holds no `/`.
fn name_ok(name: &String) -> (r: bool)
    ensures
        r == slash_free(name@),
{
    let s = name.as_str();
    let n = s.unicode_len();
    let mut i: usize = 0;
    while i < n
        invariant
            n == name@.len(),
            s@ == name@,
            i <= n,
            forall|k: int| 0 <= k < i ==> name@[k] != '/',
        decreases n - i,
    {
        if s.get_char(i) == '/' {
            return false;
        }
        i = i + 1;
    }
    true
}

/// Returns whether a listing is one that a directory can have.
pub fn listing_ok(es: &Option<Vec<DirEntry>>) -> (r: bool)
    ensures
        r == listing_sane(*es),
{
    match es {
        Some(v) => names_check(v),
        None => true,
    }
}

fn names_check(v: &Vec<DirEntry>) -> (r: bool)
    ensures
        r == names_ok(v@),
{
    let mut j: usize = 0;
    while j < v.len()
        invariant
            j <= v@.len(),
            forall|jj: int| 0 <= jj < j ==> slash_free(#[trigger] v@[jj].name@),
            forall|i: int, jj: int|
                #![trigger v@[i].name@, v@[jj].name@]
                0 <= i < jj < j ==> v@[i].name@ != v@[jj].name@,
        decreases v@.len() - j,
    {
        if !name_ok(&v[j].name) {
            assert(!slash_free(v@[j as int].name@));
            assert(!names_ok(v@));
            return false;
        }
        let mut i: usize = 0;
        while i < j
            invariant
                j < v@.len(),
                i <= j,
                forall|ii: int| 0 <= ii < i ==> v@[ii].name@ != v@[j as int].name@,
            decreases j - i,
        {
            if v[i].name == v[j].name {
                assert(v@[i as int].name@ == v@[j as int].name@);
                assert(!names_ok(v@));
                return false;
            }
            i = i + 1;
        }
        j = j + 1;
    }
    true
}

/// A directory whose sweep is complete.
pub struct SweptDir {
    /// Its path.
    pub path: Seq<char>,
    /// Its listing.
    pub entries: Seq<(Seq<char>, EntryKind)>,
    /// For each directory entry, the position of its record in the log.
    pub kids: Seq<int>,
    /// For each file entry, whether it was kept.
    pub verdicts: Seq<bool>,
    /// Whether nothing in it was kept.
    pub cleared: bool,
}

/// Whether an entry keeps nothing: a file judged not to be kept, or a
/// directory that keeps nothing. Entries of other kinds are always kept.
pub open spec fn entry_cleared(log: Seq<SweptDir>, kind: EntryKind, kid: int, verdict: bool) -> bool {
    match kind {
        EntryKind::Other => false,
        EntryKind::File => !verdict,
        EntryKind::Dir => log[kid].cleared,
    }
}

/// The `i`-th record of the log is complete: every subdirectory has an
/// earlier record, every file was judged, the directory is cleared exactly
/// when all its entries are, and what is cleared was removed (the root
/// aside).
pub open spec fn record_ok(
    log: Seq<SweptDir>,
    i: int,
    listings: Set<(Seq<char>, Seq<(Seq<char>, EntryKind)>)>,
    judged: Set<(Seq<char>, bool)>,
    removed: Set<Seq<char>>,
    root: Seq<char>,
) -> bool {
    let r = log[i];
    &&& r.kids.len() == r.entries.len()
    &&& r.verdicts.len() == r.entries.len()
    &&& listings.contains((r.path, r.entries))
    &&& forall|j: int|
        #![trigger r.entries[j]]
        0 <= j < r.entries.len() ==> {
            &&& (r.entries[j].1 is Dir ==> 0 <= r.kids[j] < i && log[r.kids[j]].path == join(
                r.path,
                r.entries[j].0,
            ))
            &&& (r.entries[j].1 is File ==> judged.contains(
                (join(r.path, r.entries[j].0), r.verdicts[j]),
            ) && (!r.verdicts[j] ==> removed.contains(join(r.path, r.entries[j].0))))
        }
    &&& (r.cleared <==> forall|j: int|
        #![trigger r.entries[j]]
        0 <= j < r.entries.len() ==> entry_cleared(log, r.entries[j].1, r.kids[j], r.verdicts[j]))
    &&& (r.cleared && r.path != root ==> removed.contains(r.path))
}

/// The sweep of the tree below `root` is complete: the last record is the
/// root's, and every record of the log is complete.
pub open spec fn swept(
    log: Seq<SweptDir>,
    listings: Set<(Seq<char>, Seq<(Seq<char>, EntryKind)>)>,
    judged: Set<(Seq<char>, bool)>,
    removed: Set<Seq<char>>,
    root: Seq<char>,
) -> bool {
    &&& log.len() > 0
    &&& log.last().path == root
    &&& forall|i: int| 0 <= i < log.len() ==> #[trigger] record_ok(log, i, listings, judged, removed, root)
}

/// Entry `j` of frame `f` is dealt with.
spec fn entry_done(log: Seq<SweptDir>, judged: Set<(Seq<char>, bool)>, removed: Set<Seq<char>>, f: Frame, j: int) -> bool {
    &&& (f.entries@[j].kind is Dir ==> 0 <= f.kids@[j] < log.len() && log[f.kids@[j]].path
        == entry_path(f, j))
    &&& (f.entries@[j].kind is File ==> judged.contains((entry_path(f, j), f.verdicts@[j])) && (
    !f.verdicts@[j] ==> removed.contains(entry_path(f, j))))
}

/// The first `n` entries of `f` are dealt with, and `f` keeps something
/// exactly when one of them does.
spec fn entries_ok(log: Seq<SweptDir>, judged: Set<(Seq<char>, bool)>, removed: Set<Seq<char>>, f: Frame, n: int) -> bool {
    &&& forall|j: int| #![trigger f.entries@[j]] 0 <= j < n ==> entry_done(log, judged, removed, f, j)
    &&& (!f.keep <==> forall|j: int|
        #![trigger f.entries@[j]]
        0 <= j < n ==> entry_cleared(log, f.entries@[j].kind, f.kids@[j], f.verdicts@[j]))
}

proof fn lemma_entries_grow(
    log: Seq<SweptDir>,
    judged: Set<(Seq<char>, bool)>,
    removed: Set<Seq<char>>,
    log2: Seq<SweptDir>,
    judged2: Set<(Seq<char>, bool)>,
    removed2: Set<Seq<char>>,
    f: Frame,
    n: int,
)
    requires
        entries_ok(log, judged, removed, f, n),
        log.len() <= log2.len(),
        forall|k: int| 0 <= k < log.len() ==> log2[k] == log[k],
        judged.subset_of(judged2),
        removed.subset_of(removed2),
    ensures
        entries_ok(log2, judged2, removed2, f, n),
{
    assert forall|j: int| #![trigger f.entries@[j]] 0 <= j < n implies entry_done(log2, judged2, removed2, f, j) by {
        assert(entry_done(log, judged, removed, f, j));
    }
    assert forall|j: int| #![trigger f.entries@[j]] 0 <= j < n implies entry_cleared(log2, f.entries@[j].kind, f.kids@[j], f.verdicts@[j]) == entry_cleared(log, f.entries@[j].kind, f.kids@[j], f.verdicts@[j]) by {
        assert(entry_done(log, judged, removed, f, j));
    }
}

proof fn lemma_records_grow(
    log: Seq<SweptDir>,
    listings: Set<(Seq<char>, Seq<(Seq<char>, EntryKind)>)>,
    judged: Set<(Seq<char>, bool)>,
    removed: Set<Seq<char>>,
    log2: Seq<SweptDir>,
    listings2: Set<(Seq<char>, Seq<(Seq<char>, EntryKind)>)>,
    judged2: Set<(Seq<char>, bool)>,
    removed2: Set<Seq<char>>,
    root: Seq<char>,
)
    requires
        forall|i: int| 0 <= i < log.len() ==> #[trigger] record_ok(log, i, listings, judged, removed, root),
        log.len() <= log2.len(),
        forall|k: int| 0 <= k < log.len() ==> log2[k] == log[k],
        listings.subset_of(listings2),
        judged.subset_of(judged2),
        removed.subset_of(removed2),
    ensures
        forall|i: int| 0 <= i < log.len() ==> #[trigger] record_ok(log2, i, listings2, judged2, removed2, root),
{
    assert forall|i: int| 0 <= i < log.len() implies #[trigger] record_ok(log2, i, listings2, judged2, removed2, root) by {
        assert(record_ok(log, i, listings, judged, removed, root));
        let r = log[i];
        assert(log2[i] == r);
        assert forall|j: int| #![trigger r.entries[j]] 0 <= j < r.entries.len() implies entry_cleared(log2, r.entries[j].1, r.kids[j], r.verdicts[j]) == entry_cleared(log, r.entries[j].1, r.kids[j], r.verdicts[j]) by {
        }
    }
}

/// A sweep over the tree below one root directory.
pub struct Sweep {
    root: String,
    stack: Vec<Frame>,
    waiting: Waiting,
    listed: Ghost<Map<Seq<char>, Seq<(Seq<char>, EntryKind)>>>,
    removed: Ghost<Set<Seq<char>>>,
    listings: Ghost<Set<(Seq<char>, Seq<(Seq<char>, EntryKind)>)>>,
    judged: Ghost<Set<(Seq<char>, bool)>>,
    log: Ghost<Seq<SweptDir>>,
    aborted: Ghost<bool>,
    handed: Ghost<Set<Seq<char>>>,
}

impl Sweep {
    /// The root directory.
    pub closed spec fn spec_root(&self) -> Seq<char> {
        self.root@
    }

    /// The file being judged, if the sweep waits for a judgement.
    pub closed spec fn spec_judging(&self) -> Option<Seq<char>> {
        match self.waiting {
            Waiting::Judging(p) => Some(p@),
            _ => None,
        }
    }

    /// The directory being listed, if the sweep waits for a listing.
    pub closed spec fn spec_listing(&self) -> Option<Seq<char>> {
        match self.waiting {
            Waiting::Listing(p) => Some(p@),
            _ => None,
        }
    }

    /// Whether the sweep waits for a removal to be done.
    pub closed spec fn spec_removing(&self) -> bool {
        self.waiting is Removal
    }

    /// Whether the sweep is complete.
    pub closed spec fn spec_finished(&self) -> bool {
        self.waiting is Finished
    }

    /// Whether the sweep ended on an event that did not answer its action.
    pub closed spec fn spec_aborted(&self) -> bool {
        self.aborted@
    }

    /// The listings received so far, by directory.
    pub closed spec fn spec_listed(&self) -> Map<Seq<char>, Seq<(Seq<char>, EntryKind)>> {
        self.listed@
    }

    /// Every listing received so far, with the directory it is of.
    pub closed spec fn spec_listings(&self) -> Set<(Seq<char>, Seq<(Seq<char>, EntryKind)>)> {
        self.listings@
    }

    /// Every judgement received so far, with the file it is of.
    pub closed spec fn spec_judged(&self) -> Set<(Seq<char>, bool)> {
        self.judged@
    }

    /// The files and directories whose removal was asked for so far.
    pub closed spec fn spec_removed(&self) -> Set<Seq<char>> {
        self.removed@
    }

    /// The paths handed out so far to be listed or judged.
    pub closed spec fn spec_handed(&self) -> Set<Seq<char>> {
        self.handed@
    }

    /// Where `h` stands relative to frame `i`: its directory, one of the
    /// entries visited, or inside one of the subdirectories dealt with.
    spec fn accounted_at(&self, i: int, h: Seq<char>) -> bool {
        let f = self.stack@[i];
        ||| h == f.path@
        ||| exists|j: int| 0 <= j < f.next && h == #[trigger] entry_path(f, j)
        ||| exists|j: int| 0 <= j < self.settled(i) && strictly_below(#[trigger] entry_path(f, j), h)
    }

    /// A path handed out stands where the walk has been.
    spec fn accounted(&self, h: Seq<char>) -> bool {
        self.stack@.len() == 0 || exists|i: int| 0 <= i < self.stack@.len() && #[trigger] self.accounted_at(i, h)
    }

    /// Each directory on the stack lies below the entry of its parent, and
    /// every path handed out stands where the walk has been.
    #[verifier::opaque]
    spec fn walk_ok(&self) -> bool {
        &&& forall|i: int, j: int|
            #![trigger self.stack@[i], self.stack@[j]]
            0 < i <= j < self.stack@.len() ==> below(self.stack@[i].path@, self.stack@[j].path@)
        &&& forall|h: Seq<char>| #[trigger] self.handed@.contains(h) ==> self.accounted(h)
    }

    /// The directories whose sweep is complete, each after its
    /// subdirectories.
    pub closed spec fn spec_log(&self) -> Seq<SweptDir> {
        self.log@
    }

    /// Whether `event` answers the action the sweep asked for last.
    pub open spec fn answers(&self, event: SweepEvent) -> bool {
        match event {
            SweepEvent::Listed(es) => self.spec_listing() is Some && listing_sane(es),
            SweepEvent::Judged(_) => self.spec_judging() is Some,
            SweepEvent::Removed => self.spec_removing(),
        }
    }

    /// Returns whether `event` answers the action the sweep asked for last.
    pub fn expects(&self, event: &SweepEvent) -> (r: bool)
        ensures
            r == self.answers(*event),
    {
        match (event, &self.waiting) {
            (SweepEvent::Listed(es), Waiting::Listing(_)) => listing_ok(es),
            (SweepEvent::Judged(_), Waiting::Judging(_)) => true,
            (SweepEvent::Removed, Waiting::Removal) => true,
            _ => false,
        }
    }

    /// Whether the last entry visited in frame `i` is still being dealt
    /// with.
    spec fn in_flight(&self, i: int) -> bool {
        i < self.stack@.len() - 1 || (i == self.stack@.len() - 1 && (self.waiting is Judging
            || self.waiting is Listing))
    }

    /// How many entries of frame `i` are dealt with.
    spec fn settled(&self, i: int) -> int {
        if self.in_flight(i) {
            self.stack@[i].next - 1
        } else {
            self.stack@[i].next as int
        }
    }

    spec fn frame_ok(&self, i: int) -> bool {
        let f = self.stack@[i];
        &&& f.next <= f.entries@.len()
        &&& f.kids@.len() == f.entries@.len()
        &&& f.verdicts@.len() == f.entries@.len()
        &&& names_ok(f.entries@)
        &&& f.path@.len() >= self.root@.len()
        &&& (i > 0 ==> f.path@.len() > self.root@.len())
        &&& (i == 0 ==> f.path@ == self.root@)
        &&& below(self.root@, f.path@)
        &&& self.listed@.contains_key(f.path@)
        &&& self.listed@[f.path@] == listing_view(f.entries@)
        &&& self.listings@.contains((f.path@, listing_view(f.entries@)))
        &&& (self.in_flight(i) ==> f.next >= 1)
        &&& entries_ok(self.log@, self.judged@, self.removed@, f, self.settled(i))
        &&& (i + 1 < self.stack@.len() ==> self.stack@[i + 1].path@ == entry_path(f, f.next - 1)
            && f.entries@[f.next - 1].kind == EntryKind::Dir)
    }

    /// The stack holds the directories from the root down to the one being
    /// swept, and the log the ones whose sweep is complete.
    pub closed spec fn wf(&self) -> bool {
        &&& forall|i: int| 0 <= i < self.stack@.len() ==> #[trigger] self.frame_ok(i)
        &&& forall|i: int, j: int|
            #![trigger self.stack@[i], self.stack@[j]]
            0 <= i < j < self.stack@.len() ==> self.stack@[i].path@.len()
                < self.stack@[j].path@.len()
        &&& forall|i: int|
            0 <= i < self.log@.len() ==> #[trigger] record_ok(
                self.log@,
                i,
                self.listings@,
                self.judged@,
                self.removed@,
                self.root@,
            )
        &&& (self.stack@.len() == 0 ==> (self.waiting is Finished || self.waiting
            == Waiting::Listing(self.root)))
        &&& (self.waiting matches Waiting::Listing(p) ==> self.stack@.len() > 0 ==> {
            let f = self.stack@.last();
            p@ == entry_path(f, f.next - 1) && f.entries@[f.next - 1].kind == EntryKind::Dir
        })
        &&& (self.waiting matches Waiting::Judging(p) ==> self.stack@.len() > 0 && {
            let f = self.stack@.last();
            p@ == entry_path(f, f.next - 1) && f.entries@[f.next - 1].kind == EntryKind::File
        })
        &&& (self.waiting is Removal ==> self.stack@.len() > 0)
        &&& (self.waiting matches Waiting::Listing(p) ==> below(self.root@, p@))
        &&& (self.waiting matches Waiting::Judging(p) ==> below(self.root@, p@))
        &&& self.walk_ok()
        &&& forall|pv: (Seq<char>, bool)| #[trigger] self.judged@.contains(pv) ==> self.handed@.contains(pv.0)
        &&& (self.waiting matches Waiting::Listing(p) ==> self.handed@.contains(p@))
        &&& (self.waiting matches Waiting::Judging(p) ==> self.handed@.contains(p@))
        &&& (self.stack@.len() == 0 && !(self.waiting is Finished) ==> forall|h: Seq<char>|
            #[trigger] self.handed@.contains(h) ==> h == self.root@)
    }

    /// Starts a sweep of the tree below `root`, asking for its listing.
    pub fn new(root: String) -> (r: (Sweep, SweepAction))
        ensures
            r.0.wf(),
            r.0.spec_root() == root@,
            !r.0.spec_finished(),
            !r.0.spec_aborted(),
            r.0.spec_judging() is None,
            r.0.spec_listing() == Some(root@),
            r.0.spec_listed() == Map::<Seq<char>, Seq<(Seq<char>, EntryKind)>>::empty(),
            r.0.spec_listings() == Set::<(Seq<char>, Seq<(Seq<char>, EntryKind)>)>::empty(),
            r.0.spec_judged() == Set::<(Seq<char>, bool)>::empty(),
            r.0.spec_removed() == Set::<Seq<char>>::empty(),
            r.0.spec_log() == Seq::<SweptDir>::empty(),
            r.0.spec_handed() == Set::<Seq<char>>::empty().insert(root@),
            r.1 == SweepAction::ReadDir(root),
    {
        let action = SweepAction::ReadDir(root.clone());
        let ghost r0 = root@;
        let sweep = Sweep {
                waiting: Waiting::Listing(root.clone()),
                root,
                stack: Vec::new(),
                listed: Ghost(Map::empty()),
                removed: Ghost(Set::empty()),
                listings: Ghost(Set::empty()),
                judged: Ghost(Set::empty()),
                log: Ghost(Seq::empty()),
                aborted: Ghost(false),
                handed: Ghost(Set::empty().insert(r0)),
            };
        proof {
            reveal(Sweep::walk_ok);
        }
        (sweep, action)
    }

    /// Moves on to the next entry, or finishes directories that are done.
    #[verifier::rlimit(100)]
    #[verifier::spinoff_prover]
    fn advance(&mut self) -> (r: SweepAction)
        requires
            old(self).wf(),
            old(self).waiting is Finished,
            old(self).stack@.len() > 0,
        ensures
            final(self).wf(),
            final(self).root == old(self).root,
            final(self).listed == old(self).listed,
            final(self).listings == old(self).listings,
            final(self).judged == old(self).judged,
            final(self).aborted == old(self).aborted,
            r is Done <==> final(self).spec_finished(),
            r is Done ==> swept(
                final(self).log@,
                final(self).listings@,
                final(self).judged@,
                final(self).removed@,
                final(self).root@,
            ),
            r matches SweepAction::RemoveDir(q) ==> q@ != final(self).root@
                && final(self).removed@ == old(self).removed@.insert(q@) && dir_cleared(
                final(self).listed@,
                final(self).removed@,
                q@,
            ) && final(self).spec_removing(),
            !(r is RemoveDir) ==> final(self).removed == old(self).removed,
            r matches SweepAction::Judge(p) ==> final(self).spec_judging() == Some(p@),
            r matches SweepAction::ReadDir(p) ==> final(self).spec_listing() == Some(p@),
            !(r is RemoveFile),
            !(r is Judge) ==> final(self).spec_judging() is None,
            !(r is ReadDir) ==> final(self).spec_listing() is None,
            r matches SweepAction::ReadDir(p) ==> below(old(self).root@, p@),
            r matches SweepAction::Judge(p) ==> below(old(self).root@, p@),
            r matches SweepAction::RemoveDir(p) ==> below(old(self).root@, p@),
            r matches SweepAction::ReadDir(p) ==> strictly_below(old(self).root@, p@)
                && !old(self).handed@.contains(p@) && final(self).handed@ == old(self).handed@.insert(p@),
            r matches SweepAction::Judge(p) ==> strictly_below(old(self).root@, p@)
                && !old(self).handed@.contains(p@) && final(self).handed@ == old(self).handed@.insert(p@),
            !(r is ReadDir || r is Judge) ==> final(self).handed == old(self).handed,
            old(self).stack@.len() == 1 && old(self).stack@[0].next == old(
                self,
            ).stack@[0].entries@.len() ==> r is Done,
    {
        loop
            invariant
                old(self).stack@.len() == 1 && old(self).stack@[0].next == old(
                    self,
                ).stack@[0].entries@.len() ==> self.stack@ == old(self).stack@,
                self.wf(),
                self.waiting is Finished,
                self.root == old(self).root,
                self.handed == old(self).handed,
                self.listed == old(self).listed,
                self.listings == old(self).listings,
                self.judged == old(self).judged,
                self.removed == old(self).removed,
                self.aborted == old(self).aborted,
                self.stack@.len() > 0,
            decreases entries_left(self.stack@), self.stack@.len(),
        {
            let ghost before = self.stack@;
            let ghost s0 = *self;
            let top = self.stack.len() - 1;
            if self.stack[top].next < self.stack[top].entries.len() {
                let k = self.stack[top].next;
                let kind = self.stack[top].entries[k].kind;
                let mut child = self.stack[top].path.clone();
                child.append("/");
                child.append(self.stack[top].entries[k].name.as_str());
                proof {
                    reveal_strlit("/");
                    assert(child@ == entry_path(before[top as int], k as int));
                    assert(s0.frame_ok(top as int));
                    lemma_below_join(self.root@, before[top as int].path@, before[top as int].entries@[k as int].name@);
                    lemma_join_strict(before[top as int].path@, before[top as int].entries@[k as int].name@);
                    lemma_strict_trans(self.root@, before[top as int].path@, child@);
                    assert forall|h: Seq<char>| #[trigger] s0.handed@.contains(h) implies h != child@ by {
                        lemma_fresh(s0, h);
                    }
                    assert(child@ == entry_path(s0.stack@.last(), k as int));
                }
                let ghost cp = child@;
                let mut frame = self.stack.pop().unwrap();
                frame.next = k + 1;
                if kind == EntryKind::Other {
                    frame.keep = true;
                }
                self.stack.push(frame);
                match kind {
                    EntryKind::Dir => {
                        self.waiting = Waiting::Listing(child.clone());
                        self.handed = Ghost(self.handed@.insert(cp));
                    },
                    EntryKind::File => {
                        self.waiting = Waiting::Judging(child.clone());
                        self.handed = Ghost(self.handed@.insert(cp));
                    },
                    EntryKind::Other => {},
                }
                proof {
                    let old_top = before[top as int];
                    assert(self.stack@ =~= before.drop_last().push(frame));
                    assert(self.stack@.drop_last() =~= before.drop_last());
                    assert(entries_left(self.stack@) == entries_left(before.drop_last())
                        + frame_left(frame));
                    assert(entries_ok(s0.log@, s0.judged@, s0.removed@, old_top, k as int));
                    if kind == EntryKind::Other {
                        assert(frame.entries@[k as int].kind == EntryKind::Other);
                        assert(!entry_cleared(self.log@, frame.entries@[k as int].kind, frame.kids@[k as int], frame.verdicts@[k as int]));
                        assert forall|j: int| #![trigger frame.entries@[j]] 0 <= j < k + 1 implies entry_done(self.log@, self.judged@, self.removed@, frame, j) by {
                            if j < k {
                                assert(old_top.entries@[j] == frame.entries@[j]);
                                assert(entry_done(s0.log@, s0.judged@, s0.removed@, old_top, j));
                            }
                        }
                        assert(entries_ok(self.log@, self.judged@, self.removed@, frame, k + 1));
                    } else {
                        assert forall|j: int| #![trigger frame.entries@[j]] 0 <= j < k implies entry_done(self.log@, self.judged@, self.removed@, frame, j) by {
                            assert(old_top.entries@[j] == frame.entries@[j]);
                            assert(entry_done(s0.log@, s0.judged@, s0.removed@, old_top, j));
                        }
                        assert(entries_ok(self.log@, self.judged@, self.removed@, frame, k as int));
                    }
                    assert forall|i: int| 0 <= i < self.stack@.len() implies #[trigger] self.frame_ok(
                        i,
                    ) by {
                        assert(s0.frame_ok(i));
                        if i < top {
                            assert(self.stack@[i] == before[i]);
                            assert(self.in_flight(i) == s0.in_flight(i));
                        } else {
                            assert(self.stack@[i] == frame);
                        }
                    }
                    assert forall|i: int, j: int|
                        0 <= i < j < self.stack@.len() implies self.stack@[i].path@.len()
                        < self.stack@[j].path@.len() by {
                        assert(before[i].path == self.stack@[i].path);
                        assert(before[j].path == self.stack@[j].path);
                    }
                    if kind != EntryKind::Other {
                        assert(entry_path(frame, k as int) == cp);
                        assert(self.accounted_at(top as int, cp));
                    }
                    assert forall|i: int| 0 <= i < self.stack@.len() implies #[trigger] self.stack@[i].path == s0.stack@[i].path
                        && self.stack@[i].entries == s0.stack@[i].entries && self.stack@[i].next >= s0.stack@[i].next
                        && self.settled(i) >= s0.settled(i) by {
                        assert(self.stack@[i] == self.stack@[i]);
                    }
                    lemma_walk_same(s0, *self);
                    assert forall|pv: (Seq<char>, bool)| #[trigger] self.judged@.contains(pv) implies self.handed@.contains(pv.0) by {
                        assert(s0.handed@.contains(pv.0));
                    }
                }
                match kind {
                    EntryKind::Dir => {
                        return SweepAction::ReadDir(child);
                    },
                    EntryKind::File => {
                        return SweepAction::Judge(child);
                    },
                    EntryKind::Other => {},
                }
            } else {
                let frame = self.stack.pop().unwrap();
                let ghost idx = self.log@.len() as int;
                let ghost record = SweptDir {
                    path: frame.path@,
                    entries: listing_view(frame.entries@),
                    kids: frame.kids@,
                    verdicts: frame.verdicts@,
                    cleared: !frame.keep,
                };
                proof {
                    assert(self.stack@ =~= before.drop_last());
                    assert(s0.frame_ok(top as int));
                    assert(!s0.in_flight(top as int));
                }
                if self.stack.len() == 0 {
                    self.log = Ghost(self.log@.push(record));
                    self.waiting = Waiting::Finished;
                    proof {
                        reveal(Sweep::walk_ok);
                        lemma_close(s0.log@, s0.listings@, s0.judged@, s0.removed@, s0.root@, frame, record);
                        lemma_records_grow(s0.log@, s0.listings@, s0.judged@, s0.removed@, self.log@, self.listings@, self.judged@, self.removed@, s0.root@);
                        assert forall|i: int| 0 <= i < self.log@.len() implies #[trigger] record_ok(self.log@, i, self.listings@, self.judged@, self.removed@, self.root@) by {
                            if i == idx {
                            }
                        }
                        assert(self.log@.last() == record);
                    }
                    return SweepAction::Done;
                }
                let ghost mid = self.stack@;
                let ptop = self.stack.len() - 1;
                proof {
                    assert(s0.frame_ok(ptop as int));
                    assert(frame.path@ == entry_path(mid[ptop as int], mid[ptop as int].next - 1));
                    assert(frame.path@.len() > self.root@.len());
                }
                if !frame.keep {
                    self.removed = Ghost(self.removed@.insert(frame.path@));
                }
                self.log = Ghost(self.log@.push(record));
                let mut parent = self.stack.pop().unwrap();
                let ghost old_parent = parent;
                let pk = parent.next - 1;
                parent.kids = Ghost(parent.kids@.update(pk as int, idx));
                if frame.keep {
                    parent.keep = true;
                }
                self.stack.push(parent);
                if !frame.keep {
                    self.waiting = Waiting::Removal;
                }
                proof {
                    assert(self.stack@ =~= mid.drop_last().push(parent));
                    assert(self.stack@.drop_last() =~= mid.drop_last());
                    assert(mid.drop_last() =~= before.drop_last().drop_last());
                    assert(entries_left(self.stack@) == entries_left(mid));
                    assert(s0.removed@.subset_of(self.removed@));
                    lemma_close(s0.log@, s0.listings@, s0.judged@, self.removed@, s0.root@, frame, record);
                    lemma_entries_grow(s0.log@, s0.judged@, s0.removed@, s0.log@, s0.judged@, self.removed@, frame, frame.entries@.len() as int);
                    lemma_records_grow(s0.log@, s0.listings@, s0.judged@, s0.removed@, self.log@, self.listings@, self.judged@, self.removed@, s0.root@);
                    assert forall|i: int| 0 <= i < self.log@.len() implies #[trigger] record_ok(self.log@, i, self.listings@, self.judged@, self.removed@, self.root@) by {
                        if i == idx {
                        }
                    }
                    assert(s0.in_flight(ptop as int));
                    assert(entries_ok(s0.log@, s0.judged@, s0.removed@, old_parent, pk as int));
                    lemma_entries_grow(s0.log@, s0.judged@, s0.removed@, self.log@, self.judged@, self.removed@, old_parent, pk as int);
                    assert(self.log@[idx] == record);
                    lemma_settle_dir(self.log@, self.judged@, self.removed@, old_parent, parent, pk as int, idx);
                    assert forall|i: int| 0 <= i < self.stack@.len() implies #[trigger] self.frame_ok(
                        i,
                    ) by {
                        assert(s0.frame_ok(i));
                        if i < ptop {
                            assert(self.stack@[i] == before[i]);
                            assert(self.in_flight(i) == s0.in_flight(i));
                            lemma_entries_grow(s0.log@, s0.judged@, s0.removed@, self.log@, self.judged@, self.removed@, before[i], s0.settled(i));
                            if i + 1 < ptop {
                                assert(self.stack@[i + 1] == before[i + 1]);
                            } else {
                                assert(self.stack@[i + 1] == parent);
                            }
                        } else {
                            assert(self.stack@[i] == parent);
                            assert(!self.in_flight(i));
                        }
                    }
                    assert forall|i: int, j: int|
                        0 <= i < j < self.stack@.len() implies self.stack@[i].path@.len()
                        < self.stack@[j].path@.len() by {
                        assert(before[i].path == self.stack@[i].path);
                        assert(before[j].path == self.stack@[j].path);
                    }
                    assert(s0.frame_ok(top as int));
                    assert(s0.frame_ok(ptop as int));
                    assert forall|i: int| 0 <= i < self.stack@.len() implies #[trigger] self.stack@[i].path == s0.stack@[i].path
                        && self.stack@[i].entries == s0.stack@[i].entries && self.stack@[i].next == s0.stack@[i].next
                        && self.settled(i) >= s0.settled(i) by {
                        if i < ptop {
                            assert(self.stack@[i] == before[i]);
                        }
                    }
                    lemma_walk_pop(s0, *self);
                }
                if !frame.keep {
                    proof {
                        let q = frame.path@;
                        assert(self.listed@[q] == listing_view(frame.entries@));
                        assert forall|j: int|
                            0 <= j < self.listed@[q].len() implies !(self.listed@[q][j].1 is Other) && self.removed@.contains(
                            join(q, #[trigger] self.listed@[q][j].0),
                        ) by {
                            assert(join(q, self.listed@[q][j].0) == entry_path(frame, j));
                            assert(frame.entries@[j] == frame.entries@[j]);
                            assert(entry_done(s0.log@, s0.judged@, self.removed@, frame, j));
                            assert(entry_cleared(s0.log@, frame.entries@[j].kind, frame.kids@[j], frame.verdicts@[j]));
                            if frame.entries@[j].kind is Dir {
                                let kid = frame.kids@[j];
                                assert(record_ok(s0.log@, kid, s0.listings@, s0.judged@, s0.removed@, s0.root@));
                                assert(entry_path(frame, j).len() > self.root@.len());
                            }
                        }
                    }
                    return SweepAction::RemoveDir(frame.path);
                }
            }
        }
    }
}

/// Closing frame `f` with all its entries dealt with gives a complete
/// record.
proof fn lemma_close(
    log: Seq<SweptDir>,
    listings: Set<(Seq<char>, Seq<(Seq<char>, EntryKind)>)>,
    judged: Set<(Seq<char>, bool)>,
    removed: Set<Seq<char>>,
    root: Seq<char>,
    f: Frame,
    x: SweptDir,
)
    requires
        entries_ok(log, judged, removed, f, f.entries@.len() as int),
        f.kids@.len() == f.entries@.len(),
        f.verdicts@.len() == f.entries@.len(),
        listings.contains((f.path@, listing_view(f.entries@))),
        x == (SweptDir {
            path: f.path@,
            entries: listing_view(f.entries@),
            kids: f.kids@,
            verdicts: f.verdicts@,
            cleared: !f.keep,
        }),
        x.cleared && x.path != root ==> removed.contains(x.path),
    ensures
        record_ok(log.push(x), log.len() as int, listings, judged, removed, root),
{
    let l2 = log.push(x);
    assert(l2[log.len() as int] == x);
    assert forall|j: int| #![trigger x.entries[j]] 0 <= j < x.entries.len() implies {
        &&& (x.entries[j].1 is Dir ==> 0 <= x.kids[j] < log.len() && l2[x.kids[j]].path == join(
            x.path,
            x.entries[j].0,
        ))
        &&& (x.entries[j].1 is File ==> judged.contains(
            (join(x.path, x.entries[j].0), x.verdicts[j]),
        ) && (!x.verdicts[j] ==> removed.contains(join(x.path, x.entries[j].0))))
    } && entry_cleared(l2, x.entries[j].1, x.kids[j], x.verdicts[j]) == entry_cleared(log, f.entries@[j].kind, f.kids@[j], f.verdicts@[j]) by {
        assert(f.entries@[j] == f.entries@[j]);
        assert(entry_done(log, judged, removed, f, j));
        assert(x.entries[j] == (f.entries@[j].name@, f.entries@[j].kind));
        assert(join(x.path, x.entries[j].0) == entry_path(f, j));
    }
    assert(x.cleared <==> forall|j: int|
        #![trigger x.entries[j]]
        0 <= j < x.entries.len() ==> entry_cleared(l2, x.entries[j].1, x.kids[j], x.verdicts[j])) by {
        if !x.cleared {
            let j = choose|j: int| #![trigger f.entries@[j]] 0 <= j < f.entries@.len() && !entry_cleared(log, f.entries@[j].kind, f.kids@[j], f.verdicts@[j]);
            assert(x.entries[j] == x.entries[j]);
        } else {
            assert forall|j: int| #![trigger x.entries[j]] 0 <= j < x.entries.len() implies entry_cleared(l2, x.entries[j].1, x.kids[j], x.verdicts[j]) by {
                assert(f.entries@[j] == f.entries@[j]);
            }
        }
    }
}

/// Settling the directory entry `n` of a frame whose record is at `idx`.
proof fn lemma_settle_dir(
    log: Seq<SweptDir>,
    judged: Set<(Seq<char>, bool)>,
    removed: Set<Seq<char>>,
    p: Frame,
    q: Frame,
    n: int,
    idx: int,
)
    requires
        entries_ok(log, judged, removed, p, n),
        0 <= n < p.entries@.len(),
        p.kids@.len() == p.entries@.len(),
        0 <= idx < log.len(),
        p.entries@[n].kind == EntryKind::Dir,
        log[idx].path == entry_path(p, n),
        q.path == p.path,
        q.entries == p.entries,
        q.verdicts == p.verdicts,
        q.kids@ == p.kids@.update(n, idx),
        q.keep == (p.keep || !log[idx].cleared),
    ensures
        entries_ok(log, judged, removed, q, n + 1),
{
    assert forall|j: int| #![trigger q.entries@[j]] 0 <= j < n + 1 implies entry_done(log, judged, removed, q, j) by {
        if j < n {
            assert(p.entries@[j] == q.entries@[j]);
            assert(entry_done(log, judged, removed, p, j));
        }
    }
    if q.keep {
        if p.keep {
            let j = choose|j: int| #![trigger p.entries@[j]] 0 <= j < n && !entry_cleared(log, p.entries@[j].kind, p.kids@[j], p.verdicts@[j]);
            assert(q.entries@[j] == p.entries@[j]);
        } else {
            assert(q.entries@[n] == p.entries@[n]);
        }
    } else {
        assert forall|j: int| #![trigger q.entries@[j]] 0 <= j < n + 1 implies entry_cleared(log, q.entries@[j].kind, q.kids@[j], q.verdicts@[j]) by {
            if j < n {
                assert(p.entries@[j] == q.entries@[j]);
            }
        }
    }
}

/// Settling the file entry `n` of a frame with the verdict `v`.
proof fn lemma_settle_file(
    log: Seq<SweptDir>,
    judged: Set<(Seq<char>, bool)>,
    removed: Set<Seq<char>>,
    p: Frame,
    q: Frame,
    n: int,
    v: bool,
)
    requires
        entries_ok(log, judged, removed, p, n),
        0 <= n < p.entries@.len(),
        p.verdicts@.len() == p.entries@.len(),
        p.entries@[n].kind == EntryKind::File,
        judged.contains((entry_path(p, n), v)),
        !v ==> removed.contains(entry_path(p, n)),
        q.path == p.path,
        q.entries == p.entries,
        q.kids == p.kids,
        q.verdicts@ == p.verdicts@.update(n, v),
        q.keep == (p.keep || v),
    ensures
        entries_ok(log, judged, removed, q, n + 1),
{
    assert forall|j: int| #![trigger q.entries@[j]] 0 <= j < n + 1 implies entry_done(log, judged, removed, q, j) by {
        if j < n {
            assert(p.entries@[j] == q.entries@[j]);
            assert(entry_done(log, judged, removed, p, j));
        }
    }
    if q.keep {
        if p.keep {
            let j = choose|j: int| #![trigger p.entries@[j]] 0 <= j < n && !entry_cleared(log, p.entries@[j].kind, p.kids@[j], p.verdicts@[j]);
            assert(q.entries@[j] == p.entries@[j]);
        } else {
            assert(q.entries@[n] == p.entries@[n]);
        }
    } else {
        assert forall|j: int| #![trigger q.entries@[j]] 0 <= j < n + 1 implies entry_cleared(log, q.entries@[j].kind, q.kids@[j], q.verdicts@[j]) by {
            if j < n {
                assert(p.entries@[j] == q.entries@[j]);
            }
        }
    }
}

/// The walk stays consistent when no frame is added or removed, the
/// frames only move on, and what is newly handed out is accounted for.
proof fn lemma_walk_same(a: Sweep, b: Sweep)
    requires
        a.walk_ok(),
        b.stack@.len() == a.stack@.len(),
        forall|i: int|
            #![trigger b.stack@[i]]
            0 <= i < b.stack@.len() ==> b.stack@[i].path == a.stack@[i].path && b.stack@[i].entries
                == a.stack@[i].entries && b.stack@[i].next >= a.stack@[i].next && b.settled(i)
                >= a.settled(i),
        forall|h: Seq<char>| #[trigger] b.handed@.contains(h) ==> a.handed@.contains(h) || b.accounted(h),
    ensures
        b.walk_ok(),
{
    reveal(Sweep::walk_ok);
    assert forall|i: int, j: int|
        #![trigger b.stack@[i], b.stack@[j]]
        0 < i <= j < b.stack@.len() implies below(b.stack@[i].path@, b.stack@[j].path@) by {
        assert(b.stack@[i].path == a.stack@[i].path);
        assert(b.stack@[j].path == a.stack@[j].path);
    }
    assert forall|h: Seq<char>| #[trigger] b.handed@.contains(h) implies b.accounted(h) by {
        if !b.accounted(h) {
            assert(a.accounted(h));
            let i = choose|i: int| 0 <= i < a.stack@.len() && #[trigger] a.accounted_at(i, h);
            assert(b.stack@[i] == b.stack@[i]);
            lemma_acc_transfer(a, i, b, i, h);
        }
    }
}

/// The walk stays consistent when the top frame, finished, is removed.
proof fn lemma_walk_pop(a: Sweep, b: Sweep)
    requires
        a.walk_ok(),
        a.stack@.len() >= 2,
        a.frame_ok(a.stack@.len() - 1),
        a.frame_ok(a.stack@.len() - 2),
        a.in_flight(a.stack@.len() - 2),
        b.stack@.len() == a.stack@.len() - 1,
        !b.in_flight(b.stack@.len() - 1),
        forall|i: int|
            #![trigger b.stack@[i]]
            0 <= i < b.stack@.len() ==> b.stack@[i].path == a.stack@[i].path && b.stack@[i].entries
                == a.stack@[i].entries && b.stack@[i].next == a.stack@[i].next && b.settled(i)
                >= a.settled(i),
        b.handed == a.handed,
    ensures
        b.walk_ok(),
{
    reveal(Sweep::walk_ok);
    let t = a.stack@.len() - 1;
    assert forall|i: int, j: int|
        #![trigger b.stack@[i], b.stack@[j]]
        0 < i <= j < b.stack@.len() implies below(b.stack@[i].path@, b.stack@[j].path@) by {
        assert(b.stack@[i].path == a.stack@[i].path);
        assert(b.stack@[j].path == a.stack@[j].path);
    }
    assert forall|h: Seq<char>| #[trigger] b.handed@.contains(h) implies b.accounted(h) by {
        assert(a.accounted(h));
        let i = choose|i: int| 0 <= i < a.stack@.len() && #[trigger] a.accounted_at(i, h);
        if i < t {
            assert(b.stack@[i] == b.stack@[i]);
            lemma_acc_transfer(a, i, b, i, h);
        } else {
            assert(b.stack@[t - 1] == b.stack@[t - 1]);
            lemma_acc_child(a, t, b, h);
        }
    }
}

/// The walk stays consistent when the listing of the directory handed
/// out last arrives and becomes the top frame.
proof fn lemma_walk_push(a: Sweep, b: Sweep)
    requires
        a.walk_ok(),
        a.wf(),
        a.waiting is Listing,
        b.stack@.len() == a.stack@.len() + 1,
        forall|i: int|
            #![trigger b.stack@[i]]
            0 <= i < a.stack@.len() ==> b.stack@[i].path == a.stack@[i].path && b.stack@[i].entries
                == a.stack@[i].entries && b.stack@[i].next == a.stack@[i].next && b.settled(i)
                == a.settled(i),
        b.stack@.last().path@ == a.spec_listing()->Some_0,
        b.handed == a.handed,
        b.root == a.root,
    ensures
        b.walk_ok(),
{
    reveal(Sweep::walk_ok);
    let n = a.stack@.len() as int;
    let p = b.stack@[n].path@;
    if n > 0 {
        let t = a.stack@[n - 1];
        assert(a.frame_ok(n - 1));
        lemma_join_strict(t.path@, t.entries@[t.next - 1].name@);
    }
    assert forall|i: int, j: int|
        #![trigger b.stack@[i], b.stack@[j]]
        0 < i <= j < b.stack@.len() implies below(b.stack@[i].path@, b.stack@[j].path@) by {
        if j < n {
            assert(b.stack@[i].path == a.stack@[i].path);
            assert(b.stack@[j].path == a.stack@[j].path);
        } else if i < n {
            assert(b.stack@[i].path == a.stack@[i].path);
            assert(a.stack@[n - 1].path@.len() >= 0);
            assert(below(a.stack@[i].path@, a.stack@[n - 1].path@));
            lemma_strict_trans(a.stack@[i].path@, a.stack@[n - 1].path@, p);
        }
    }
    assert forall|h: Seq<char>| #[trigger] b.handed@.contains(h) implies b.accounted(h) by {
        if n == 0 {
            assert(h == a.root@);
            assert(b.accounted_at(0, h));
        } else {
            assert(a.accounted(h));
            let i = choose|i: int| 0 <= i < a.stack@.len() && #[trigger] a.accounted_at(i, h);
            assert(b.stack@[i] == b.stack@[i]);
            lemma_acc_transfer(a, i, b, i, h);
        }
    }
}

/// Where a path stands relative to a frame stays true when the frame
/// moves on.
proof fn lemma_acc_transfer(a: Sweep, i: int, b: Sweep, ib: int, h: Seq<char>)
    requires
        0 <= i < a.stack@.len(),
        0 <= ib < b.stack@.len(),
        a.accounted_at(i, h),
        b.stack@[ib].path == a.stack@[i].path,
        b.stack@[ib].entries == a.stack@[i].entries,
        b.stack@[ib].next >= a.stack@[i].next,
        b.settled(ib) >= a.settled(i),
    ensures
        b.accounted_at(ib, h),
{
    let f = a.stack@[i];
    let g = b.stack@[ib];
    if h == f.path@ {
    } else if exists|j: int| 0 <= j < f.next && h == #[trigger] entry_path(f, j) {
        let j = choose|j: int| 0 <= j < f.next && h == #[trigger] entry_path(f, j);
        assert(entry_path(g, j) == entry_path(f, j));
    } else {
        let j = choose|j: int| 0 <= j < a.settled(i) && strictly_below(#[trigger] entry_path(f, j), h);
        assert(entry_path(g, j) == entry_path(f, j));
    }
}

/// What stood inside a finished frame stands inside its parent's entry.
proof fn lemma_acc_child(a: Sweep, t: int, b: Sweep, h: Seq<char>)
    requires
        1 <= t < a.stack@.len(),
        t - 1 < b.stack@.len(),
        a.accounted_at(t, h),
        a.frame_ok(t),
        a.frame_ok(t - 1),
        b.stack@[t - 1].path == a.stack@[t - 1].path,
        b.stack@[t - 1].entries == a.stack@[t - 1].entries,
        b.stack@[t - 1].next == a.stack@[t - 1].next,
        a.stack@[t - 1].next >= 1,
        b.settled(t - 1) == a.stack@[t - 1].next,
        a.stack@[t].path@ == entry_path(a.stack@[t - 1], a.stack@[t - 1].next - 1),
    ensures
        b.accounted_at(t - 1, h),
{
    let f = a.stack@[t];
    let p = a.stack@[t - 1];
    let q = b.stack@[t - 1];
    let m = p.next - 1;
    assert(entry_path(q, m) == entry_path(p, m));
    if h == f.path@ {
        assert(h == entry_path(q, m));
    } else if exists|j: int| 0 <= j < f.next && h == #[trigger] entry_path(f, j) {
        let j = choose|j: int| 0 <= j < f.next && h == #[trigger] entry_path(f, j);
        lemma_join_strict(f.path@, f.entries@[j].name@);
        assert(strictly_below(entry_path(q, m), h));
    } else {
        let j = choose|j: int| 0 <= j < a.settled(t) && strictly_below(#[trigger] entry_path(f, j), h);
        lemma_join_strict(f.path@, f.entries@[j].name@);
        lemma_strict_trans(f.path@, entry_path(f, j), h);
        assert(strictly_below(entry_path(q, m), h));
    }
}

/// The next entry of the top frame was never handed out.
proof fn lemma_fresh(s: Sweep, h: Seq<char>)
    requires
        s.wf(),
        s.waiting is Finished,
        s.stack@.len() > 0,
        s.stack@.last().next < s.stack@.last().entries@.len(),
        s.handed@.contains(h),
    ensures
        h != entry_path(s.stack@.last(), s.stack@.last().next as int),
{
    reveal(Sweep::walk_ok);
    let t = s.stack@.len() - 1;
    let top = s.stack@[t];
    let k = top.next as int;
    let p = entry_path(top, k);
    assert(s.frame_ok(t));
    lemma_join_strict(top.path@, top.entries@[k].name@);
    let i = choose|i: int| 0 <= i < s.stack@.len() && #[trigger] s.accounted_at(i, h);
    let f = s.stack@[i];
    assert(s.frame_ok(i));
    if i < t {
        let m = f.next - 1;
        assert(s.in_flight(i));
        assert(s.stack@[i + 1].path@ == entry_path(f, m));
        assert(below(s.stack@[i + 1].path@, top.path@));
        lemma_strict_trans(entry_path(f, m), top.path@, p);
        assert(f.path@.len() < top.path@.len());
    }
    if h == f.path@ {
        if i < t {
            assert(f.path@.len() < top.path@.len());
        }
    } else if exists|j: int| 0 <= j < f.next && h == #[trigger] entry_path(f, j) {
        let j = choose|j: int| 0 <= j < f.next && h == #[trigger] entry_path(f, j);
        if i == t {
            if h == p {
                lemma_join_inj(top.path@, top.entries@[j].name@, top.entries@[k].name@);
                assert(top.entries@[j].name@ != top.entries@[k].name@);
            }
        } else {
            let m = f.next - 1;
            if j == m {
                assert(h == s.stack@[i + 1].path@);
            } else {
                assert(slash_free(f.entries@[j].name@));
                lemma_not_sibling(f.path@, f.entries@[m].name@, f.entries@[j].name@, p);
            }
        }
    } else {
        let j = choose|j: int| 0 <= j < s.settled(i) && strictly_below(#[trigger] entry_path(f, j), h);
        if i == t {
            assert(slash_free(top.entries@[k].name@));
            lemma_not_sibling(top.path@, top.entries@[j].name@, top.entries@[k].name@, h);
        } else {
            let m = f.next - 1;
            assert(slash_free(f.entries@[j].name@));
            assert(slash_free(f.entries@[m].name@));
            assert(f.entries@[j].name@ != f.entries@[m].name@);
            lemma_apart(f.path@, f.entries@[j].name@, f.entries@[m].name@, h, p);
        }
    }
}

/// Every entry of the listing of the directory `q` is a file or directory
/// whose removal was asked for.
pub open spec fn dir_cleared(
    listed: Map<Seq<char>, Seq<(Seq<char>, EntryKind)>>,
    removed: Set<Seq<char>>,
    q: Seq<char>,
) -> bool {
    &&& listed.contains_key(q)
    &&& forall|j: int|
        0 <= j < listed[q].len() ==> !(listed[q][j].1 is Other) && removed.contains(
            join(q, #[trigger] listed[q][j].0),
        )
}

impl Sweep {
    /// Takes the outcome of the last action and returns the next one.
    ///
    /// A file judged not to be kept is deleted next. A directory is deleted
    /// only once every entry of its listing has been. An event that does
    /// not answer the last action aborts the sweep. A sweep that ends
    /// without being aborted has listed every directory and judged every
    /// file below the root, and has removed every directory other than the
    /// root that keeps nothing: see [`swept`].
    pub fn step(&mut self, event: SweepEvent) -> (r: SweepAction)
        requires
            old(self).wf(),
        ensures
            final(self).wf(),
            final(self).spec_root() == old(self).spec_root(),
            r is Done <==> final(self).spec_finished(),
            old(self).spec_finished() ==> r is Done,
            final(self).spec_aborted() == (old(self).spec_aborted() || !old(self).answers(event)),
            r is Done && !final(self).spec_aborted() ==> swept(
                final(self).spec_log(),
                final(self).spec_listings(),
                final(self).spec_judged(),
                final(self).spec_removed(),
                final(self).spec_root(),
            ),
            old(self).spec_listing() == Some(old(self).spec_root()) && event
                == SweepEvent::Listed(None) ==> r is Done,
            r matches SweepAction::RemoveFile(p) ==> old(self).spec_judging() == Some(p@)
                && event == SweepEvent::Judged(false),
            old(self).spec_judging() matches Some(p) ==> event == SweepEvent::Judged(false)
                ==> (r matches SweepAction::RemoveFile(q) && q@ == p),
            r matches SweepAction::RemoveDir(q) ==> q@ != old(self).spec_root() && dir_cleared(
                final(self).spec_listed(),
                final(self).spec_removed(),
                q@,
            ),
            match r {
                SweepAction::RemoveFile(p) => final(self).spec_removed()
                    == old(self).spec_removed().insert(p@),
                SweepAction::RemoveDir(p) => final(self).spec_removed()
                    == old(self).spec_removed().insert(p@),
                _ => final(self).spec_removed() == old(self).spec_removed(),
            },
            match (old(self).spec_listing(), event) {
                (Some(p), SweepEvent::Listed(es)) => if listing_sane(es) {
                    let view = match es {
                        Some(v) => listing_view(v@),
                        None => Seq::empty(),
                    };
                    &&& final(self).spec_listed() == old(self).spec_listed().insert(p, view)
                    &&& final(self).spec_listings() == old(self).spec_listings().insert((p, view))
                } else {
                    final(self).spec_listed() == old(self).spec_listed()
                        && final(self).spec_listings() == old(self).spec_listings()
                },
                _ => final(self).spec_listed() == old(self).spec_listed()
                    && final(self).spec_listings() == old(self).spec_listings(),
            },
            match (old(self).spec_judging(), event) {
                (Some(p), SweepEvent::Judged(v)) => final(self).spec_judged()
                    == old(self).spec_judged().insert((p, v)),
                _ => final(self).spec_judged() == old(self).spec_judged(),
            },
            r matches SweepAction::Judge(p) ==> final(self).spec_judging() == Some(p@),
            !(r is Judge) ==> final(self).spec_judging() is None,
            r matches SweepAction::ReadDir(p) ==> final(self).spec_listing() == Some(p@),
            !(r is ReadDir) ==> final(self).spec_listing() is None,
            r is RemoveFile || r is RemoveDir ==> final(self).spec_removing(),
            r matches SweepAction::ReadDir(p) ==> below(old(self).spec_root(), p@),
            r matches SweepAction::Judge(p) ==> below(old(self).spec_root(), p@),
            r matches SweepAction::RemoveFile(p) ==> below(old(self).spec_root(), p@),
            r matches SweepAction::RemoveDir(p) ==> below(old(self).spec_root(), p@),
            r matches SweepAction::Judge(p) ==> strictly_below(old(self).spec_root(), p@) && !(
            exists|v: bool| old(self).spec_judged().contains((p@, v))),
            r matches SweepAction::ReadDir(p) ==> strictly_below(old(self).spec_root(), p@),
            r matches SweepAction::ReadDir(p) ==> !old(self).spec_handed().contains(p@)
                && final(self).spec_handed() == old(self).spec_handed().insert(p@),
            r matches SweepAction::Judge(p) ==> !old(self).spec_handed().contains(p@)
                && final(self).spec_handed() == old(self).spec_handed().insert(p@),
            !(r is ReadDir || r is Judge) ==> final(self).spec_handed() == old(self).spec_handed(),
    {
        let ghost s0 = *self;
        match event {
            SweepEvent::Listed(entries) => {
                let path = match &self.waiting {
                    Waiting::Listing(p) => p.clone(),
                    _ => {
                        return self.finish();
                    },
                };
                if !listing_ok(&entries) {
                    return self.finish();
                }
                let ghost old_entries_view = match &entries {
                    Some(e) => Some(listing_view(e@)),
                    None => None::<Seq<(Seq<char>, EntryKind)>>,
                };
                let entries = match entries {
                    Some(e) => e,
                    None => Vec::new(),
                };
                proof {
                    if old_entries_view is None {
                        assert(listing_view(entries@) =~= Seq::<(Seq<char>, EntryKind)>::empty());
                    }
                }
                proof {
                    if old_entries_view is None {
                        assert(names_ok(entries@));
                    }
                }
                let ghost view = listing_view(entries@);
                let ghost before = self.stack@;
                let ghost p = path@;
                proof {
                    if s0.stack@.len() > 0 {
                        let t = before.last();
                        assert(s0.frame_ok(before.len() - 1));
                        assert(p == entry_path(t, t.next - 1));
                        assert(p.len() > t.path@.len());
                    }
                }
                let n = entries.len();
                self.listed = Ghost(self.listed@.insert(path@, view));
                self.listings = Ghost(self.listings@.insert((path@, view)));
                let ghost kids = Seq::new(n as nat, |j: int| 0int);
                let ghost verdicts = Seq::new(n as nat, |j: int| false);
                let frame = Frame { path, entries, next: 0, keep: false, kids: Ghost(kids), verdicts: Ghost(verdicts) };
                self.stack.push(frame);
                self.waiting = Waiting::Finished;
                proof {
                    let n = before.len() as int;
                    assert(self.stack@ == before.push(self.stack@[n]));
                    assert(s0.listings@.subset_of(self.listings@));
                    lemma_records_grow(s0.log@, s0.listings@, s0.judged@, s0.removed@, self.log@, self.listings@, self.judged@, self.removed@, s0.root@);
                    assert forall|i: int| 0 <= i < self.stack@.len() implies #[trigger] self.frame_ok(
                        i,
                    ) by {
                        if i < n {
                            assert(s0.frame_ok(i));
                            assert(self.stack@[i] == before[i]);
                            assert(self.in_flight(i));
                            assert(s0.in_flight(i));
                            assert(self.settled(i) == s0.settled(i));
                            assert(before[i].path@.len() <= before[n - 1].path@.len());
                            assert(before[i].path@ != p);
                            assert(self.listed@[before[i].path@] == s0.listed@[before[i].path@]);
                            if i + 1 < n {
                                assert(self.stack@[i + 1] == before[i + 1]);
                            }
                        } else {
                            assert(!self.in_flight(i));
                            assert(self.settled(i) == 0);
                            assert(self.stack@[i].path@ == p);
                            assert(self.listed@[p] == view);
                            assert(entries_ok(self.log@, self.judged@, self.removed@, frame, 0));
                            if i == 0 {
                                assert(s0.waiting == Waiting::Listing(s0.root));
                            }
                        }
                    }
                    assert forall|i: int, j: int|
                        0 <= i < j < self.stack@.len() implies self.stack@[i].path@.len()
                        < self.stack@[j].path@.len() by {
                        if j == n && i < n - 1 {
                            assert(before[i].path@.len() < before[n - 1].path@.len());
                        }
                    }
                    assert forall|i: int| 0 <= i < s0.stack@.len() implies #[trigger] self.stack@[i].path == s0.stack@[i].path
                        && self.stack@[i].entries == s0.stack@[i].entries && self.stack@[i].next == s0.stack@[i].next
                        && self.settled(i) == s0.settled(i) by {
                        assert(self.stack@[i] == before[i]);
                        assert(self.in_flight(i));
                        assert(s0.in_flight(i));
                    }
                    lemma_walk_push(s0, *self);
                    if s0.spec_listing() == Some(s0.root@) {
                        assert(n == 0);
                        if old_entries_view is None {
                            assert(self.stack@[0].entries@.len() == 0);
                        }
                    }
                }
                self.advance()
            },
            SweepEvent::Judged(keep) => {
                let path = match &self.waiting {
                    Waiting::Judging(p) => p.clone(),
                    _ => {
                        return self.finish();
                    },
                };
                let top = self.stack.len() - 1;
                let ghost before = self.stack@;
                proof {
                    assert(s0.frame_ok(top as int));
                    assert(s0.in_flight(top as int));
                }
                let mut frame = self.stack.pop().unwrap();
                let ghost old_frame = frame;
                let k = frame.next - 1;
                frame.verdicts = Ghost(frame.verdicts@.update(k as int, keep));
                if keep {
                    frame.keep = true;
                }
                self.stack.push(frame);
                self.judged = Ghost(self.judged@.insert((path@, keep)));
                if !keep {
                    self.removed = Ghost(self.removed@.insert(path@));
                }
                proof {
                    assert(s0.frame_ok(top as int));
                    assert(self.stack@ =~= before.drop_last().push(frame));
                    assert(s0.judged@.subset_of(self.judged@));
                    assert(s0.removed@.subset_of(self.removed@));
                    lemma_records_grow(s0.log@, s0.listings@, s0.judged@, s0.removed@, self.log@, self.listings@, self.judged@, self.removed@, s0.root@);
                    lemma_entries_grow(s0.log@, s0.judged@, s0.removed@, self.log@, self.judged@, self.removed@, old_frame, k as int);
                    lemma_settle_file(self.log@, self.judged@, self.removed@, old_frame, frame, k as int, keep);
                }
                if keep {
                    self.waiting = Waiting::Finished;
                } else {
                    self.waiting = Waiting::Removal;
                }
                proof {
                    assert forall|i: int| 0 <= i < self.stack@.len() implies #[trigger] self.frame_ok(
                        i,
                    ) by {
                        assert(s0.frame_ok(i));
                        if i < top {
                            assert(self.stack@[i] == before[i]);
                            assert(self.in_flight(i) == s0.in_flight(i));
                            lemma_entries_grow(s0.log@, s0.judged@, s0.removed@, self.log@, self.judged@, self.removed@, before[i], s0.settled(i));
                            if i + 1 < top {
                                assert(self.stack@[i + 1] == before[i + 1]);
                            }
                        } else {
                            assert(self.stack@[i] == frame);
                        }
                    }
                    assert forall|i: int, j: int|
                        0 <= i < j < self.stack@.len() implies self.stack@[i].path@.len()
                        < self.stack@[j].path@.len() by {
                        assert(before[i].path == self.stack@[i].path);
                        assert(before[j].path == self.stack@[j].path);
                    }
                    assert forall|i: int| 0 <= i < self.stack@.len() implies #[trigger] self.stack@[i].path == s0.stack@[i].path
                        && self.stack@[i].entries == s0.stack@[i].entries && self.stack@[i].next >= s0.stack@[i].next
                        && self.settled(i) >= s0.settled(i) by {
                        if i < top {
                            assert(self.stack@[i] == before[i]);
                        }
                    }
                    lemma_walk_same(s0, *self);
                    assert(s0.handed@.contains(path@));
                }
                if keep {
                    self.advance()
                } else {
                    SweepAction::RemoveFile(path)
                }
            },
            SweepEvent::Removed => {
                match &self.waiting {
                    Waiting::Removal => {},
                    _ => {
                        return self.finish();
                    },
                }
                self.waiting = Waiting::Finished;
                proof {
                    assert forall|i: int| 0 <= i < self.stack@.len() implies #[trigger] self.frame_ok(
                        i,
                    ) by {
                        assert(s0.frame_ok(i));
                        assert(self.in_flight(i) == s0.in_flight(i));
                    }
                    assert forall|i: int| 0 <= i < self.stack@.len() implies #[trigger] self.stack@[i].path == s0.stack@[i].path
                        && self.stack@[i].entries == s0.stack@[i].entries && self.stack@[i].next >= s0.stack@[i].next
                        && self.settled(i) >= s0.settled(i) by {
                    }
                    lemma_walk_same(s0, *self);
                }
                self.advance()
            },
        }
    }

    /// Ends the sweep on an event that does not answer its action.
    fn finish(&mut self) -> (r: SweepAction)
        requires
            old(self).wf(),
        ensures
            final(self).wf(),
            final(self).root == old(self).root,
            final(self).listed == old(self).listed,
            final(self).listings == old(self).listings,
            final(self).judged == old(self).judged,
            final(self).removed == old(self).removed,
            final(self).handed == old(self).handed,
            final(self).aborted@,
            final(self).spec_finished(),
            r is Done,
    {
        self.stack.clear();
        self.waiting = Waiting::Finished;
        self.aborted = Ghost(true);
        proof {
            reveal(Sweep::walk_ok);
        }
        SweepAction::Done
    }
}

} // verus!
