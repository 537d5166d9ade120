//! Synchronization plans and the decision on their conflicts.
//!
//! A diff produces a `SyncPlan`: what to copy, what to delete, which paths
//! conflict, and the manifest to persist afterwards. Nothing is executed from
//! a `SyncPlan`. It has to pass `SyncPlan::resolve`, which answers all
//! conflicts at once: either the copying side wins every one of them, or the
//! whole run is called off. Only the resulting `ApprovedPlan` can be executed.

use vstd::prelude::*;
use crate::clock::Timestamp;
use crate::error::SyncError;
use crate::manifest::{FileEntry, FileEntryView, Manifest};
use crate::table::TableView;
use crate::text::{lemma_strs_push, strs};

verus! {

/// Which side is carried over to the other.
#[derive(Clone, Copy, Debug, PartialEq, Eq, Structural)]
pub enum Direction {
    /// Local files overwrite the remote mirror.
    Push,
    /// Remote files overwrite the local working copy.
    Pull,
}

/// The manifest that records, for each of `paths` in turn, the fingerprint that
/// `source` has for it, stamped `now`.
pub open spec fn stage(paths: Seq<Seq<char>>, source: Map<Seq<char>, Seq<char>>, now: Timestamp)
    -> TableView<FileEntryView>
    decreases paths.len(),
{
    if paths.len() == 0 {
        TableView::empty()
    } else {
        stage(paths.drop_last(), source, now).insert(
            paths.last(),
            FileEntryView { hash: source[paths.last()], synced_at: now },
        )
    }
}

/// `base` after the first `n` entries of `extra` were inserted, in order.
pub open spec fn merge_prefix<T>(base: TableView<T>, extra: TableView<T>, n: nat) -> TableView<T>
    decreases n,
{
    if n == 0 {
        base
    } else {
        let path = extra.order[n - 1];
        merge_prefix(base, extra, (n - 1) as nat).insert(path, extra.map[path])
    }
}

/// `base` with every entry of `extra` inserted; where both have a path, the
/// entry of `extra` stands.
pub open spec fn merge<T>(base: TableView<T>, extra: TableView<T>) -> TableView<T> {
    merge_prefix(base, extra, extra.order.len())
}

/// What a plan holds.
pub struct PlanView {
    pub direction: Direction,
    pub to_copy: Seq<Seq<char>>,
    pub to_delete: Seq<Seq<char>>,
    pub conflicts: Seq<Seq<char>>,
    pub manifest: TableView<FileEntryView>,
    pub pending: TableView<FileEntryView>,
}

/// What an approved plan holds.
pub struct ApprovedView {
    pub direction: Direction,
    pub to_copy: Seq<Seq<char>>,
    pub to_delete: Seq<Seq<char>>,
    pub manifest: TableView<FileEntryView>,
}

impl PlanView {
    /// The plan that is executed once the copying side has been given every
    /// conflict: the conflicting paths are copied after the others, and their
    /// entries join the manifest.
    pub open spec fn approved(self) -> ApprovedView {
        ApprovedView {
            direction: self.direction,
            to_copy: self.to_copy + self.conflicts,
            to_delete: self.to_delete,
            manifest: merge(self.manifest, self.pending),
        }
    }
}

/// The outcome of a diff, before conflicts are answered.
pub struct SyncPlan {
    /// The side that is carried over.
    pub direction: Direction,
    /// Paths to copy from the source side to the other, in order.
    pub to_copy: Vec<String>,
    /// Paths to delete on the receiving side, in order.
    pub to_delete: Vec<String>,
    /// Paths on which both sides moved away from the recorded state.
    pub conflicts: Vec<String>,
    /// The entries to persist for the paths that do not conflict.
    pub manifest: Manifest,
    /// The entries that the conflicting paths get if the run goes ahead.
    pub pending: Manifest,
}

impl View for SyncPlan {
    type V = PlanView;

    open spec fn view(&self) -> PlanView {
        PlanView {
            direction: self.direction,
            to_copy: strs(self.to_copy@),
            to_delete: strs(self.to_delete@),
            conflicts: strs(self.conflicts@),
            manifest: self.manifest@,
            pending: self.pending@,
        }
    }
}

/// A plan whose conflicts, if it had any, were decided for the copying side.
pub struct ApprovedPlan {
    direction: Direction,
    to_copy: Vec<String>,
    to_delete: Vec<String>,
    manifest: Manifest,
}

impl View for ApprovedPlan {
    type V = ApprovedView;

    closed spec fn view(&self) -> ApprovedView {
        ApprovedView {
            direction: self.direction,
            to_copy: strs(self.to_copy@),
            to_delete: strs(self.to_delete@),
            manifest: self.manifest@,
        }
    }
}

/// Inserting one more entry extends a merge by one step.
proof fn lemma_merge_step<T>(base: TableView<T>, extra: TableView<T>, n: nat)
    requires
        n < extra.order.len(),
    ensures
        merge_prefix(base, extra, n + 1) == merge_prefix(base, extra, n).insert(
            extra.order[n as int],
            extra.map[extra.order[n as int]],
        ),
{
    assert((n + 1 - 1) as nat == n);
}

/// Staging one more path extends the staged manifest by one entry.
pub proof fn lemma_stage_push(
    paths: Seq<Seq<char>>,
    path: Seq<char>,
    source: Map<Seq<char>, Seq<char>>,
    now: Timestamp,
)
    ensures
        stage(paths.push(path), source, now) == stage(paths, source, now).insert(
            path,
            FileEntryView { hash: source[path], synced_at: now },
        ),
{
    assert(paths.push(path).drop_last() =~= paths);
}

/// What a staged manifest holds: an entry for each of the paths and for nothing
/// else, with the fingerprint that the source has for it.
pub proof fn lemma_stage_holds(
    paths: Seq<Seq<char>>,
    source: Map<Seq<char>, Seq<char>>,
    now: Timestamp,
)
    ensures
        stage(paths, source, now).wf(),
        forall|p: Seq<char>| #[trigger]
            stage(paths, source, now).map.contains_key(p) <==> paths.contains(p),
        forall|p: Seq<char>|
            paths.contains(p) ==> #[trigger] stage(paths, source, now).map[p] == (FileEntryView {
                hash: source[p],
                synced_at: now,
            }),
    decreases paths.len(),
{
    if paths.len() == 0 {
        assert forall|p: Seq<char>| !paths.contains(p) by {}
    } else {
        let front = paths.drop_last();
        let last = paths.last();
        let entry = FileEntryView { hash: source[last], synced_at: now };
        lemma_stage_holds(front, source, now);
        stage(front, source, now).lemma_insert_wf(last, entry);
        assert forall|p: Seq<char>| paths.contains(p) <==> (front.contains(p) || p == last) by {
            if paths.contains(p) {
                let i = paths.index_of(p);
                if i < front.len() {
                    assert(front[i] == p);
                }
            }
            if front.contains(p) {
                let i = front.index_of(p);
                assert(paths[i] == p);
            }
            if p == last {
                assert(paths[paths.len() - 1] == p);
            }
        }
    }
}

/// What a merged table holds: the entries of `extra`, and those of `base`
/// whose path `extra` does not have.
pub proof fn lemma_merge_holds<T>(base: TableView<T>, extra: TableView<T>)
    requires
        base.wf(),
        extra.wf(),
    ensures
        merge(base, extra).wf(),
        forall|p: Seq<char>| #[trigger]
            merge(base, extra).map.contains_key(p) <==> (base.map.contains_key(p)
                || extra.map.contains_key(p)),
        forall|p: Seq<char>|
            extra.map.contains_key(p) ==> #[trigger] merge(base, extra).map[p] == extra.map[p],
        forall|p: Seq<char>|
            base.map.contains_key(p) && !extra.map.contains_key(p) ==> #[trigger] merge(
                base,
                extra,
            ).map[p] == base.map[p],
{
    lemma_merge_prefix_holds(base, extra, extra.order.len());
    assert(extra.order.take(extra.order.len() as int) =~= extra.order);
}

proof fn lemma_merge_prefix_holds<T>(base: TableView<T>, extra: TableView<T>, n: nat)
    requires
        base.wf(),
        extra.wf(),
        n <= extra.order.len(),
    ensures
        merge_prefix(base, extra, n).wf(),
        forall|p: Seq<char>| #[trigger]
            merge_prefix(base, extra, n).map.contains_key(p) <==> (base.map.contains_key(p)
                || extra.order.take(n as int).contains(p)),
        forall|p: Seq<char>|
            extra.order.take(n as int).contains(p) ==> #[trigger] merge_prefix(base, extra, n).map[p]
                == extra.map[p],
        forall|p: Seq<char>|
            base.map.contains_key(p) && !extra.order.take(n as int).contains(p)
                ==> #[trigger] merge_prefix(base, extra, n).map[p] == base.map[p],
    decreases n,
{
    let taken = extra.order.take(n as int);
    if n == 0 {
        assert forall|p: Seq<char>| !taken.contains(p) by {}
    } else {
        let path = extra.order[n - 1];
        let before = extra.order.take(n - 1);
        let prev = merge_prefix(base, extra, (n - 1) as nat);
        lemma_merge_prefix_holds(base, extra, (n - 1) as nat);
        prev.lemma_insert_wf(path, extra.map[path]);
        assert forall|p: Seq<char>| taken.contains(p) <==> (before.contains(p) || p == path) by {
            if taken.contains(p) {
                let i = taken.index_of(p);
                if i < n - 1 {
                    assert(before[i] == p);
                }
            }
            if before.contains(p) {
                let i = before.index_of(p);
                assert(taken[i] == p);
            }
            if p == path {
                assert(taken[n - 1] == p);
            }
        }
    }
}

impl SyncPlan {
    /// Whether the user has to be asked before anything is executed.
    pub fn needs_confirmation(&self) -> (ask: bool)
        ensures
            ask == (self@.conflicts.len() > 0),
    {
        self.conflicts.len() > 0
    }

    /// Decides on the conflicts of the plan. A plan without conflicts is
    /// approved as it stands, whatever `proceed` says. A plan with conflicts is
    /// approved only if `proceed` is true, and then every conflict goes to the
    /// copying side; otherwise the run is called off as a whole.
    pub fn resolve(self, proceed: bool) -> (outcome: Result<ApprovedPlan, SyncError>)
        ensures
            match outcome {
                Ok(approved) => (self@.conflicts.len() == 0 || proceed) && approved@
                    == self@.approved(),
                Err(e) => e == SyncError::ConflictAbort && self@.conflicts.len() > 0 && !proceed,
            },
    {
        if self.conflicts.len() > 0 && !proceed {
            return Err(SyncError::ConflictAbort);
        }
        let ghost before = self@;
        let SyncPlan { direction, to_copy, to_delete, conflicts, manifest, pending } = self;
        let mut to_copy = to_copy;
        let mut manifest = manifest;
        let mut i: usize = 0;
        while i < conflicts.len()
            invariant
                i <= conflicts.len(),
                strs(conflicts@) == before.conflicts,
                strs(to_copy@) == before.to_copy + before.conflicts.take(i as int),
            decreases conflicts.len() - i,
        {
            let path = conflicts[i].clone();
            proof {
                lemma_strs_push(to_copy@, path);
                assert(path@ == strs(conflicts@)[i as int]);
                assert(before.conflicts.take(i + 1) =~= before.conflicts.take(i as int).push(
                    before.conflicts[i as int],
                ));
                assert((before.to_copy + before.conflicts.take(i as int)).push(path@)
                    =~= before.to_copy + before.conflicts.take(i + 1));
            }
            to_copy.push(path);
            i += 1;
        }
        proof {
            assert(before.conflicts.take(i as int) =~= before.conflicts);
        }
        let mut j: usize = 0;
        let n = pending.len();
        while j < n
            invariant
                j <= n,
                n == pending@.order.len(),
                pending@ == before.pending,
                manifest@ == merge_prefix(before.manifest, before.pending, j as nat),
            decreases n - j,
        {
            let path = pending.path_at(j);
            let entry = pending.value_at(j);
            proof {
                lemma_merge_step(before.manifest, before.pending, j as nat);
            }
            manifest.insert(
                path.clone(),
                FileEntry { hash: entry.hash.clone(), synced_at: entry.synced_at },
            );
            j += 1;
        }
        Ok(ApprovedPlan { direction, to_copy, to_delete, manifest })
    }
}

impl ApprovedPlan {
    /// The side that is carried over.
    pub fn direction(&self) -> (d: Direction)
        ensures
            d == self@.direction,
    {
        self.direction
    }

    /// The paths to copy, in the order in which they are copied.
    pub fn to_copy(&self) -> (paths: &Vec<String>)
        ensures
            strs(paths@) == self@.to_copy,
    {
        &self.to_copy
    }

    /// The paths to delete, in the order in which they are deleted.
    pub fn to_delete(&self) -> (paths: &Vec<String>)
        ensures
            strs(paths@) == self@.to_delete,
    {
        &self.to_delete
    }

    /// The manifest to persist once every copy and deletion has succeeded.
    pub fn manifest(&self) -> (manifest: &Manifest)
        ensures
            manifest@ == self@.manifest,
    {
        &self.manifest
    }
}

} // verus!
