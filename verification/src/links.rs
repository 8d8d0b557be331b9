//! The link manager: planning symlink creation and removal against a
//! snapshot of the relevant filesystem entries.
//!
//! The planner never touches the filesystem.  It receives what is known
//! about the paths involved (does an entry exist, is it a symlink),
//! decides in declaration order which links may be created or removed,
//! and stops at the first refusal, exactly as the performing caller
//! would.  Safety: a plan never creates over an existing entry and never
//! removes anything but a recorded symlink.

use vstd::prelude::*;

use crate::errors::LinkError;
use crate::errors::LinkErrorView;
use crate::paths::is_traversal;
use crate::paths::join_path;
use crate::paths::link_path_value;
use crate::paths::path_is_traversal;
use crate::paths::spec_join;
use crate::paths::spec_link_path;
use crate::smap::lemma_map_of_index;
use crate::smap::map_of;
use crate::smap::unique_keys;
use crate::smap::StrMap;
use crate::state::encode_link_record_line;
use crate::state::link_record_line;

verus! {

/// What is known about one filesystem path: whether something exists
/// there (following symlinks) and whether the entry itself is a symlink.
#[derive(PartialEq, Eq, Structural, Clone, Copy, Debug)]
pub struct FsEntry {
    pub exists: bool,
    pub is_symlink: bool,
}

/// The entry of a path nothing is known about: nothing is there.
pub open spec fn absent_entry() -> FsEntry {
    FsEntry { exists: false, is_symlink: false }
}

/// The entry recorded for a path in a snapshot, absent by default.
pub open spec fn spec_entry(m: Map<Seq<char>, FsEntry>, p: Seq<char>) -> FsEntry {
    if m.contains_key(p) {
        m[p]
    } else {
        absent_entry()
    }
}

pub open spec fn path_exists(m: Map<Seq<char>, FsEntry>, p: Seq<char>) -> bool {
    spec_entry(m, p).exists
}

pub open spec fn path_is_symlink(m: Map<Seq<char>, FsEntry>, p: Seq<char>) -> bool {
    spec_entry(m, p).is_symlink
}

/// A snapshot of the filesystem entries relevant to one plan, viewed as
/// a partial map from path to entry.
pub struct FsSnapshot {
    entries: Vec<(String, FsEntry)>,
}

impl View for FsSnapshot {
    type V = Map<Seq<char>, FsEntry>;

    open spec fn view(&self) -> Map<Seq<char>, FsEntry> {
        map_of(self.kvs())
    }
}

impl FsSnapshot {
    pub closed spec fn kvs(self) -> Seq<(Seq<char>, FsEntry)> {
        Seq::new(self.entries@.len(), |i: int| (self.entries@[i].0@, self.entries@[i].1))
    }

    pub open spec fn wf(self) -> bool {
        unique_keys(self.kvs())
    }

    pub fn new() -> (s: FsSnapshot)
        ensures
            s.wf(),
            s@ == Map::<Seq<char>, FsEntry>::empty(),
    {
        let s = FsSnapshot { entries: Vec::new() };
        proof {
            assert(s.kvs() =~= Seq::<(Seq<char>, FsEntry)>::empty());
        }
        s
    }

    /// Records what is known about one path, replacing any earlier entry.
    pub fn record(&mut self, path: String, entry: FsEntry)
        requires
            old(self).wf(),
        ensures
            final(self).wf(),
            final(self)@ == old(self)@.insert(path@, entry),
    {
        let n = self.entries.len();
        let mut i: usize = 0;
        while i < n
            invariant
                i <= n,
                n == self.kvs().len(),
                self.wf(),
                self.kvs() == old(self).kvs(),
                forall|j: int| 0 <= j < i ==> self.kvs()[j].0 != path@,
            decreases n - i,
        {
            if self.entries[i].0.eq(&path) {
                let ghost old_kvs = self.kvs();
                self.entries[i] = (path, entry);
                proof {
                    assert(self.kvs() =~= old_kvs.update(i as int, (path@, entry)));
                    crate::smap::lemma_map_of_update(old_kvs, i as int, path@, entry);
                }
                return;
            }
            i += 1;
        }
        let ghost old_kvs = self.kvs();
        self.entries.push((path, entry));
        proof {
            assert(self.kvs() =~= old_kvs.push((path@, entry)));
            assert(self.kvs().drop_last() =~= old_kvs);
        }
    }

    /// What is known about a path.
    pub fn lookup(&self, path: &String) -> (e: FsEntry)
        requires
            self.wf(),
        ensures
            e == spec_entry(self@, path@),
    {
        let n = self.entries.len();
        let mut i: usize = 0;
        while i < n
            invariant
                i <= n,
                n == self.kvs().len(),
                self.wf(),
                forall|j: int| 0 <= j < i ==> self.kvs()[j].0 != path@,
            decreases n - i,
        {
            if self.entries[i].0.eq(path) {
                proof {
                    lemma_map_of_index(self.kvs(), i as int);
                }
                return self.entries[i].1;
            }
            i += 1;
        }
        proof {
            crate::smap::lemma_map_of_contains(self.kvs(), path@);
        }
        FsEntry { exists: false, is_symlink: false }
    }

    /// An independent copy of the snapshot.
    pub fn clone_snapshot(&self) -> (s: FsSnapshot)
        ensures
            s.kvs() == self.kvs(),
            s@ == self@,
            s.wf() == self.wf(),
    {
        let n = self.entries.len();
        let mut out: Vec<(String, FsEntry)> = Vec::new();
        let mut i: usize = 0;
        while i < n
            invariant
                i <= n,
                n == self.kvs().len(),
                out.len() == i,
                forall|j: int| 0 <= j < i ==> (out@[j].0@, out@[j].1) == self.kvs()[j],
            decreases n - i,
        {
            let k = self.entries[i].0.clone();
            let e = self.entries[i].1;
            out.push((k, e));
            i += 1;
        }
        let s = FsSnapshot { entries: out };
        proof {
            assert(s.kvs() =~= self.kvs());
        }
        s
    }

    /// The snapshot after the given paths have been removed from disk.
    pub fn clear_paths(&mut self, ps: &Vec<String>)
        requires
            old(self).wf(),
        ensures
            final(self).wf(),
            final(self)@ == spec_clear_paths(old(self)@, ps.deep_view()),
    {
        let n = ps.len();
        let mut i: usize = 0;
        while i < n
            invariant
                i <= n,
                n == ps.deep_view().len(),
                self.wf(),
                self@ == spec_clear_paths(old(self)@, ps.deep_view().take(i as int)),
            decreases n - i,
        {
            let p = ps[i].clone();
            self.record(p, FsEntry { exists: false, is_symlink: false });
            proof {
                assert(ps.deep_view().take(i + 1).drop_last() =~= ps.deep_view().take(i as int));
                assert(ps.deep_view().take(i + 1).last() == ps.deep_view()[i as int]);
            }
            i += 1;
        }
        proof {
            assert(ps.deep_view().take(n as int) =~= ps.deep_view());
        }
    }
}

/// The snapshot map after the given paths have been removed from disk.
pub open spec fn spec_clear_paths(m: Map<Seq<char>, FsEntry>, ps: Seq<Seq<char>>) -> Map<
    Seq<char>,
    FsEntry,
>
    decreases ps.len(),
{
    if ps.len() == 0 {
        m
    } else {
        spec_clear_paths(m, ps.drop_last()).insert(ps.last(), absent_entry())
    }
}

/// One planned symlink creation, fully resolved: where the link goes,
/// the path value stored inside it, the record line persisting it, and
/// the entry it points at.
pub struct LinkCreate {
    pub target: String,
    pub link_path: String,
    pub record_line: String,
    pub source: String,
}

/// Specification-level image of `LinkCreate`.
pub struct LinkCreateView {
    pub target: Seq<char>,
    pub link_path: Seq<char>,
    pub record_line: Seq<char>,
    pub source: Seq<char>,
}

impl View for LinkCreate {
    type V = LinkCreateView;

    open spec fn view(&self) -> LinkCreateView {
        LinkCreateView {
            target: self.target@,
            link_path: self.link_path@,
            record_line: self.record_line@,
            source: self.source@,
        }
    }
}

/// The resolved creation for one declared link `(target, source)`.
pub open spec fn link_create_view(kv: (Seq<char>, Seq<char>), dir: Seq<char>) -> LinkCreateView {
    LinkCreateView {
        target: spec_join(dir, kv.0),
        link_path: spec_link_path(kv.0, kv.1),
        record_line: link_record_line(kv.0, kv.1),
        source: spec_join(dir, kv.1),
    }
}

/// All safety checks for creating one declared link `(target, source)`:
/// neither path escapes the directory, the source is real, and nothing
/// occupies the target.
pub open spec fn link_checks_ok(
    kv: (Seq<char>, Seq<char>),
    m: Map<Seq<char>, FsEntry>,
    dir: Seq<char>,
) -> bool {
    &&& !is_traversal(kv.1)
    &&& path_exists(m, spec_join(dir, kv.1))
    &&& !is_traversal(kv.0)
    &&& !path_exists(m, spec_join(dir, kv.0))
    &&& !path_is_symlink(m, spec_join(dir, kv.0))
}

/// The first check that refuses a declared link, in checking order.
pub open spec fn link_failure(
    kv: (Seq<char>, Seq<char>),
    m: Map<Seq<char>, FsEntry>,
    dir: Seq<char>,
) -> LinkErrorView {
    if is_traversal(kv.1) {
        LinkErrorView::InvalidPath(kv.1)
    } else if !path_exists(m, spec_join(dir, kv.1)) {
        LinkErrorView::SourceMissing(spec_join(dir, kv.1))
    } else if is_traversal(kv.0) {
        LinkErrorView::InvalidPath(kv.0)
    } else if path_exists(m, spec_join(dir, kv.0)) {
        LinkErrorView::TargetExists(spec_join(dir, kv.0))
    } else {
        LinkErrorView::LinkExists(spec_join(dir, kv.0))
    }
}

/// The snapshot after one planned creation: a symlink now occupies the
/// target.
pub open spec fn fs_after_create(
    m: Map<Seq<char>, FsEntry>,
    kv: (Seq<char>, Seq<char>),
    dir: Seq<char>,
) -> Map<Seq<char>, FsEntry> {
    m.insert(spec_join(dir, kv.0), FsEntry { exists: true, is_symlink: true })
}

/// The plan for a declared link list: the creations for the longest
/// prefix whose checks pass, each checked against the snapshot as the
/// earlier creations leave it, and the refusal that stopped the walk,
/// if one did.
pub open spec fn spec_plan_creates(
    kvs: Seq<(Seq<char>, Seq<char>)>,
    m: Map<Seq<char>, FsEntry>,
    dir: Seq<char>,
) -> (Seq<LinkCreateView>, Option<LinkErrorView>)
    decreases kvs.len(),
{
    if kvs.len() == 0 {
        (Seq::<LinkCreateView>::empty(), None::<LinkErrorView>)
    } else if !link_checks_ok(kvs[0], m, dir) {
        (Seq::<LinkCreateView>::empty(), Some(link_failure(kvs[0], m, dir)))
    } else {
        let rest = spec_plan_creates(kvs.skip(1), fs_after_create(m, kvs[0], dir), dir);
        (seq![link_create_view(kvs[0], dir)] + rest.0, rest.1)
    }
}

/// The outcome of planning link creation.
pub struct AddLinksPlan {
    /// The creations to perform, in declaration order.
    pub creates: Vec<LinkCreate>,
    /// The refusal that stopped the walk, after the listed creations.
    pub failure: Option<LinkError>,
}

impl AddLinksPlan {
    pub open spec fn plan_view(self) -> (Seq<LinkCreateView>, Option<LinkErrorView>) {
        (
            Seq::new(self.creates@.len(), |i: int| self.creates@[i]@),
            match self.failure {
                Some(e) => Some(e@),
                None => None,
            },
        )
    }
}

/// Plans the creation of every declared link of `links` (target to
/// source) under `dir`, against the snapshot `fs`.
pub fn plan_add_links(links: &StrMap, fs: &FsSnapshot, dir: &str) -> (r: AddLinksPlan)
    requires
        fs.wf(),
    ensures
        r.plan_view() == spec_plan_creates(links.kvs(), fs@, dir@),
{
    let entries = links.entries();
    let n = entries.len();
    let mut cur = fs.clone_snapshot();
    let mut creates: Vec<LinkCreate> = Vec::new();
    let mut i: usize = 0;
    proof {
        assert(links.kvs().skip(0) =~= links.kvs());
        assert(Seq::new(creates@.len(), |k: int| creates@[k]@) =~= Seq::<LinkCreateView>::empty());
    }
    while i < n
        invariant
            i <= n,
            n == links.kvs().len(),
            entries.deep_view() == links.kvs(),
            cur.wf(),
            creates.len() == i,
            spec_plan_creates(links.kvs(), fs@, dir@).0 == Seq::new(
                creates@.len(),
                |k: int| creates@[k]@,
            ) + spec_plan_creates(links.kvs().skip(i as int), cur@, dir@).0,
            spec_plan_creates(links.kvs(), fs@, dir@).1 == spec_plan_creates(
                links.kvs().skip(i as int),
                cur@,
                dir@,
            ).1,
        decreases n - i,
    {
        let ghost kv = links.kvs()[i as int];
        proof {
            assert(links.kvs().skip(i as int)[0] == kv);
            assert(links.kvs().skip(i as int).skip(1) =~= links.kvs().skip(i + 1));
        }
        let target_rel = &entries[i].0;
        let source_rel = &entries[i].1;
        let mut refusal: Option<LinkError> = None;
        if path_is_traversal(source_rel.as_str()) {
            refusal = Some(LinkError::InvalidPath(source_rel.clone()));
        } else {
            let source_full = join_path(dir, source_rel.as_str());
            if !cur.lookup(&source_full).exists {
                refusal = Some(LinkError::SourceMissing(source_full));
            } else if path_is_traversal(target_rel.as_str()) {
                refusal = Some(LinkError::InvalidPath(target_rel.clone()));
            } else {
                let target_full = join_path(dir, target_rel.as_str());
                let target_entry = cur.lookup(&target_full);
                if target_entry.exists {
                    refusal = Some(LinkError::TargetExists(target_full));
                } else if target_entry.is_symlink {
                    refusal = Some(LinkError::LinkExists(target_full));
                }
            }
        }
        if let Some(e) = refusal {
            proof {
                assert(e@ == link_failure(kv, cur@, dir@));
                assert(Seq::new(creates@.len(), |k: int| creates@[k]@) + Seq::<
                    LinkCreateView,
                >::empty() =~= Seq::new(creates@.len(), |k: int| creates@[k]@));
            }
            return AddLinksPlan { creates, failure: Some(e) };
        }
        proof {
            assert(link_checks_ok(kv, cur@, dir@));
        }
        let target_full = join_path(dir, target_rel.as_str());
        let lp = link_path_value(target_rel.as_str(), source_rel.as_str());
        let line = encode_link_record_line(target_rel.as_str(), source_rel.as_str());
        let source_full = join_path(dir, source_rel.as_str());
        let ghost creates_before = Seq::new(creates@.len(), |k: int| creates@[k]@);
        creates.push(
            LinkCreate {
                target: target_full.clone(),
                link_path: lp,
                record_line: line,
                source: source_full,
            },
        );
        cur.record(target_full, FsEntry { exists: true, is_symlink: true });
        proof {
            assert(Seq::new(creates@.len(), |k: int| creates@[k]@) =~= creates_before.push(
                link_create_view(kv, dir@),
            ));
            assert(creates_before + seq![link_create_view(kv, dir@)] + spec_plan_creates(
                links.kvs().skip(i + 1),
                cur@,
                dir@,
            ).0 =~= creates_before.push(link_create_view(kv, dir@)) + spec_plan_creates(
                links.kvs().skip(i + 1),
                cur@,
                dir@,
            ).0);
        }
        i += 1;
    }
    proof {
        assert(links.kvs().skip(n as int) =~= Seq::<(Seq<char>, Seq<char>)>::empty());
        assert(Seq::new(creates@.len(), |k: int| creates@[k]@) + Seq::<LinkCreateView>::empty()
            =~= Seq::new(creates@.len(), |k: int| creates@[k]@));
    }
    AddLinksPlan { creates, failure: None }
}

/// The plan for removing the recorded links `kvs` (target to source):
/// which target paths to delete, in record order, skipping paths where
/// nothing exists, and stopping at the first recorded target that is no
/// longer a symlink.
pub open spec fn spec_plan_removals(
    kvs: Seq<(Seq<char>, Seq<char>)>,
    m: Map<Seq<char>, FsEntry>,
    dir: Seq<char>,
) -> (Seq<Seq<char>>, Option<LinkErrorView>)
    decreases kvs.len(),
{
    if kvs.len() == 0 {
        (Seq::<Seq<char>>::empty(), None::<LinkErrorView>)
    } else {
        let t = spec_join(dir, kvs[0].0);
        if !path_exists(m, t) {
            spec_plan_removals(kvs.skip(1), m, dir)
        } else if path_is_symlink(m, t) {
            let rest = spec_plan_removals(kvs.skip(1), m, dir);
            (seq![t] + rest.0, rest.1)
        } else {
            (Seq::<Seq<char>>::empty(), Some(LinkErrorView::NotASymlink(t)))
        }
    }
}

/// The outcome of planning link removal.
pub struct RemoveLinksPlan {
    /// The symlinks to delete, in record order.
    pub removals: Vec<String>,
    /// The recorded target that is no longer a symlink, if one was met.
    pub failure: Option<LinkError>,
}

impl RemoveLinksPlan {
    pub open spec fn plan_view(self) -> (Seq<Seq<char>>, Option<LinkErrorView>) {
        (
            self.removals.deep_view(),
            match self.failure {
                Some(e) => Some(e@),
                None => None,
            },
        )
    }
}

/// Plans the removal of every recorded link of `links` under `dir`,
/// against the snapshot `fs`.
pub fn plan_remove_links(links: &StrMap, fs: &FsSnapshot, dir: &str) -> (r: RemoveLinksPlan)
    requires
        fs.wf(),
    ensures
        r.plan_view() == spec_plan_removals(links.kvs(), fs@, dir@),
{
    let entries = links.entries();
    let n = entries.len();
    let mut removals: Vec<String> = Vec::new();
    let mut i: usize = 0;
    proof {
        assert(links.kvs().skip(0) =~= links.kvs());
    }
    while i < n
        invariant
            i <= n,
            n == links.kvs().len(),
            entries.deep_view() == links.kvs(),
            fs.wf(),
            spec_plan_removals(links.kvs(), fs@, dir@).0 == removals.deep_view()
                + spec_plan_removals(links.kvs().skip(i as int), fs@, dir@).0,
            spec_plan_removals(links.kvs(), fs@, dir@).1 == spec_plan_removals(
                links.kvs().skip(i as int),
                fs@,
                dir@,
            ).1,
        decreases n - i,
    {
        let ghost kv = links.kvs()[i as int];
        proof {
            assert(links.kvs().skip(i as int)[0] == kv);
            assert(links.kvs().skip(i as int).skip(1) =~= links.kvs().skip(i + 1));
        }
        let target_full = join_path(dir, entries[i].0.as_str());
        let e = fs.lookup(&target_full);
        if e.exists {
            if e.is_symlink {
                let ghost before = removals.deep_view();
                removals.push(target_full);
                proof {
                    assert(removals.deep_view() =~= before.push(spec_join(dir@, kv.0)));
                    assert(before + (seq![spec_join(dir@, kv.0)] + spec_plan_removals(
                        links.kvs().skip(i + 1),
                        fs@,
                        dir@,
                    ).0) =~= removals.deep_view() + spec_plan_removals(
                        links.kvs().skip(i + 1),
                        fs@,
                        dir@,
                    ).0);
                }
            } else {
                proof {
                    assert(removals.deep_view() + Seq::<Seq<char>>::empty()
                        =~= removals.deep_view());
                }
                return RemoveLinksPlan {
                    removals,
                    failure: Some(LinkError::NotASymlink(target_full)),
                };
            }
        }
        i += 1;
    }
    proof {
        assert(links.kvs().skip(n as int) =~= Seq::<(Seq<char>, Seq<char>)>::empty());
        assert(removals.deep_view() + Seq::<Seq<char>>::empty() =~= removals.deep_view());
    }
    RemoveLinksPlan { removals, failure: None }
}

/// A plan that met no refusal creates every declared link, in order,
/// each fully resolved from its declaration.
pub proof fn lemma_plan_creates_complete(
    kvs: Seq<(Seq<char>, Seq<char>)>,
    m: Map<Seq<char>, FsEntry>,
    dir: Seq<char>,
)
    requires
        spec_plan_creates(kvs, m, dir).1 is None,
    ensures
        spec_plan_creates(kvs, m, dir).0.len() == kvs.len(),
        forall|i: int|
            0 <= i < kvs.len() ==> spec_plan_creates(kvs, m, dir).0[i] == link_create_view(
                kvs[i],
                dir,
            ),
    decreases kvs.len(),
{
    if kvs.len() > 0 {
        let m2 = fs_after_create(m, kvs[0], dir);
        lemma_plan_creates_complete(kvs.skip(1), m2, dir);
        assert forall|i: int| 0 <= i < kvs.len() implies spec_plan_creates(kvs, m, dir).0[i]
            == link_create_view(kvs[i], dir) by {
            if i > 0 {
                assert(spec_plan_creates(kvs, m, dir).0[i] == spec_plan_creates(
                    kvs.skip(1),
                    m2,
                    dir,
                ).0[i - 1]);
                assert(kvs.skip(1)[i - 1] == kvs[i]);
            }
        }
    }
}

/// No clobbering: a declared link whose target path already holds an
/// entry is never created.  Planning stops at or before it, with a
/// refusal.
pub proof fn lemma_no_clobber(
    kvs: Seq<(Seq<char>, Seq<char>)>,
    m: Map<Seq<char>, FsEntry>,
    dir: Seq<char>,
    i: int,
)
    requires
        0 <= i < kvs.len(),
        path_exists(m, spec_join(dir, kvs[i].0)),
    ensures
        spec_plan_creates(kvs, m, dir).1 is Some,
        spec_plan_creates(kvs, m, dir).0.len() <= i,
    decreases kvs.len(),
{
    if link_checks_ok(kvs[0], m, dir) {
        if i == 0 {
        } else {
            let m2 = fs_after_create(m, kvs[0], dir);
            assert(path_exists(m2, spec_join(dir, kvs[i].0)));
            lemma_no_clobber(kvs.skip(1), m2, dir, i - 1);
            assert(kvs.skip(1)[i - 1] == kvs[i]);
        }
    }
}

/// Every planned removal is a path the snapshot shows as a symlink.
pub proof fn lemma_removals_only_symlinks(
    kvs: Seq<(Seq<char>, Seq<char>)>,
    m: Map<Seq<char>, FsEntry>,
    dir: Seq<char>,
)
    ensures
        forall|j: int|
            0 <= j < spec_plan_removals(kvs, m, dir).0.len() ==> path_is_symlink(
                m,
                spec_plan_removals(kvs, m, dir).0[j],
            ),
    decreases kvs.len(),
{
    if kvs.len() > 0 {
        let t = spec_join(dir, kvs[0].0);
        lemma_removals_only_symlinks(kvs.skip(1), m, dir);
        let rest = spec_plan_removals(kvs.skip(1), m, dir);
        assert forall|j: int| 0 <= j < spec_plan_removals(kvs, m, dir).0.len() implies path_is_symlink(
            m,
            spec_plan_removals(kvs, m, dir).0[j],
        ) by {
            if path_exists(m, t) && path_is_symlink(m, t) {
                if j > 0 {
                    assert(spec_plan_removals(kvs, m, dir).0[j] == rest.0[j - 1]);
                    assert(path_is_symlink(m, rest.0[j - 1]));
                }
            } else if !path_exists(m, t) {
                assert(path_is_symlink(m, rest.0[j]));
            }
        }
    }
}

/// A recorded link target that has been replaced by something that is
/// not a symlink makes removal fail, and is itself never removed.
pub proof fn lemma_not_a_symlink_protected(
    kvs: Seq<(Seq<char>, Seq<char>)>,
    m: Map<Seq<char>, FsEntry>,
    dir: Seq<char>,
    i: int,
)
    requires
        0 <= i < kvs.len(),
        path_exists(m, spec_join(dir, kvs[i].0)),
        !path_is_symlink(m, spec_join(dir, kvs[i].0)),
    ensures
        spec_plan_removals(kvs, m, dir).1 is Some,
        !spec_plan_removals(kvs, m, dir).0.contains(spec_join(dir, kvs[i].0)),
    decreases kvs.len(),
{
    let p = spec_join(dir, kvs[i].0);
    lemma_removals_only_symlinks(kvs, m, dir);
    if spec_plan_removals(kvs, m, dir).0.contains(p) {
        let j = choose|j: int|
            0 <= j < spec_plan_removals(kvs, m, dir).0.len() && spec_plan_removals(
                kvs,
                m,
                dir,
            ).0[j] == p;
        assert(path_is_symlink(m, p));
    }
    let t = spec_join(dir, kvs[0].0);
    if i == 0 {
    } else if !path_exists(m, t) || path_is_symlink(m, t) {
        lemma_not_a_symlink_protected(kvs.skip(1), m, dir, i - 1);
        assert(kvs.skip(1)[i - 1] == kvs[i]);
    }
}

} // verus!
