//! The pull diff: remote files are carried to the local working copy.
//!
//! The manifest is the universe of known paths. Each of its paths is
//! classified: one that vanished remotely is deleted locally if it is there, a
//! conflict is set aside, and otherwise the path is copied if the local copy
//! is missing or differs. After that the remote side is scanned for files that
//! the manifest does not know; such a file is adopted only where no local file
//! stands at its path.

use vstd::prelude::*;
use crate::clock::{current_time, Timestamp};
use crate::diff::{change_at, classify, sides, Change, Sides};
use crate::manifest::{FileEntry, FileTable, Manifest};
use crate::plan::{lemma_stage_push, stage, Direction, PlanView, SyncPlan};
use crate::seqs::{lemma_filter_ends, lemma_filter_step};
use crate::text::{lemma_strs_push, strs};

verus! {

/// The name of the manifest file below the remote root.
pub const MANIFEST_FILE: &'static str = ".sync-manifest";

/// The manifest paths that a pull copies: present remotely and missing
/// locally, or different on the two sides without a conflict.
pub open spec fn pull_copies(s: Sides) -> spec_fn(Seq<char>) -> bool {
    |p: Seq<char>| change_at(s, p) is RemoteOnly || change_at(s, p) is Modified
}

/// The manifest paths on which a pull finds a conflict.
pub open spec fn pull_conflicts(s: Sides) -> spec_fn(Seq<char>) -> bool {
    |p: Seq<char>| change_at(s, p) is Conflict
}

/// The manifest paths whose remote fingerprint a pull stages at once.
pub open spec fn pull_stages(s: Sides) -> spec_fn(Seq<char>) -> bool {
    |p: Seq<char>|
        change_at(s, p) is RemoteOnly || change_at(s, p) is Modified || change_at(s, p) is InSync
}

/// The manifest paths that a pull deletes locally: gone from the remote side,
/// still present locally.
pub open spec fn pull_deletes(s: Sides) -> spec_fn(Seq<char>) -> bool {
    |p: Seq<char>| change_at(s, p) is LocalOnly
}

/// The remote files that a pull adopts: unknown to the manifest, not the
/// manifest file itself, and without a local file at the same path.
pub open spec fn pull_adopts(s: Sides) -> spec_fn(Seq<char>) -> bool {
    |p: Seq<char>|
        p != MANIFEST_FILE@ && !s.base.contains_key(p) && !s.local.contains_key(p)
            && s.remote.contains_key(p)
}

/// The plan of a pull, with the manifest's paths in the order `known` and the
/// remote files in the order `found`, on the sides `s`, stamped `now`.
pub open spec fn pull_plan(known: Seq<Seq<char>>, found: Seq<Seq<char>>, s: Sides, now: Timestamp)
    -> PlanView {
    PlanView {
        direction: Direction::Pull,
        to_copy: known.filter(pull_copies(s)) + found.filter(pull_adopts(s)),
        to_delete: known.filter(pull_deletes(s)),
        conflicts: known.filter(pull_conflicts(s)),
        manifest: stage(
            known.filter(pull_stages(s)) + found.filter(pull_adopts(s)),
            s.remote,
            now,
        ),
        pending: stage(known.filter(pull_conflicts(s)), s.remote, now),
    }
}

/// Whether a pull has nothing to look at: the manifest is empty and the remote
/// root does not exist. Such a pull ends at once and writes nothing.
pub fn nothing_to_pull(manifest: &Manifest, remote_root_exists: bool) -> (nothing: bool)
    ensures
        nothing == (manifest@.order.len() == 0 && !remote_root_exists),
{
    manifest.len() == 0 && !remote_root_exists
}

/// Plans a pull as of the time `now`.
///
/// `local` and `remote` hold the files that exist on each side with their
/// fingerprints; `remote` lists every file below the remote root, in the order
/// in which the scan is to visit them.
pub fn plan_pull_at(manifest: &Manifest, local: &FileTable, remote: &FileTable, now: Timestamp) -> (plan:
    SyncPlan)
    ensures
        plan@ == pull_plan(
            manifest@.order,
            remote@.order,
            sides(manifest@, local@, remote@),
            now,
        ),
{
    let ghost known = manifest@.order;
    let ghost found = remote@.order;
    let ghost s = sides(manifest@, local@, remote@);
    let mut to_copy: Vec<String> = Vec::new();
    let mut to_delete: Vec<String> = Vec::new();
    let mut conflicts: Vec<String> = Vec::new();
    let mut staged = Manifest::new();
    let mut pending = Manifest::new();
    proof {
        lemma_filter_ends(known, pull_copies(s));
        lemma_filter_ends(known, pull_deletes(s));
        lemma_filter_ends(known, pull_conflicts(s));
        lemma_filter_ends(known, pull_stages(s));
        assert(strs(to_copy@) =~= Seq::<Seq<char>>::empty());
        assert(strs(to_delete@) =~= Seq::<Seq<char>>::empty());
        assert(strs(conflicts@) =~= Seq::<Seq<char>>::empty());
    }
    let n = manifest.len();
    let mut i: usize = 0;
    while i < n
        invariant
            i <= n,
            n == known.len(),
            known == manifest@.order,
            s == sides(manifest@, local@, remote@),
            strs(to_copy@) == known.take(i as int).filter(pull_copies(s)),
            strs(to_delete@) == known.take(i as int).filter(pull_deletes(s)),
            strs(conflicts@) == known.take(i as int).filter(pull_conflicts(s)),
            staged@ == stage(known.take(i as int).filter(pull_stages(s)), s.remote, now),
            pending@ == stage(known.take(i as int).filter(pull_conflicts(s)), s.remote, now),
        decreases n - i,
    {
        let path = manifest.path_at(i);
        let recorded = manifest.value_at(i);
        proof {
            lemma_filter_step(known, pull_copies(s), i as int);
            lemma_filter_step(known, pull_deletes(s), i as int);
            lemma_filter_step(known, pull_conflicts(s), i as int);
            lemma_filter_step(known, pull_stages(s), i as int);
            lemma_stage_push(
                known.take(i as int).filter(pull_stages(s)),
                path@,
                s.remote,
                now,
            );
            lemma_stage_push(
                known.take(i as int).filter(pull_conflicts(s)),
                path@,
                s.remote,
                now,
            );
            lemma_strs_push(to_copy@, *path);
            lemma_strs_push(to_delete@, *path);
            lemma_strs_push(conflicts@, *path);
        }
        match remote.get(path) {
            None => {
                if local.contains_key(path) {
                    to_delete.push(path.clone());
                }
            },
            Some(remote_hash) => {
                let change = classify(local.get(path), Some(remote_hash), Some(&recorded.hash));
                assert(change == change_at(s, path@));
                let entry = FileEntry { hash: remote_hash.clone(), synced_at: now };
                match change {
                    Change::Conflict => {
                        conflicts.push(path.clone());
                        pending.insert(path.clone(), entry);
                    },
                    Change::InSync => {
                        staged.insert(path.clone(), entry);
                    },
                    _ => {
                        to_copy.push(path.clone());
                        staged.insert(path.clone(), entry);
                    },
                }
            },
        }
        i += 1;
    }
    let ghost listed = known.filter(pull_copies(s));
    let ghost kept = known.filter(pull_stages(s));
    proof {
        lemma_filter_ends(found, pull_adopts(s));
        assert(listed + Seq::<Seq<char>>::empty() =~= listed);
        assert(kept + Seq::<Seq<char>>::empty() =~= kept);
    }
    let manifest_file = MANIFEST_FILE.to_owned();
    let m = remote.len();
    let mut j: usize = 0;
    while j < m
        invariant
            j <= m,
            m == found.len(),
            found == remote@.order,
            remote@.wf(),
            manifest_file@ == MANIFEST_FILE@,
            s == sides(manifest@, local@, remote@),
            strs(to_copy@) == listed + found.take(j as int).filter(pull_adopts(s)),
            staged@ == stage(kept + found.take(j as int).filter(pull_adopts(s)), s.remote, now),
        decreases m - j,
    {
        let path = remote.path_at(j);
        let remote_hash = remote.value_at(j);
        proof {
            let adopted = found.take(j as int).filter(pull_adopts(s));
            lemma_filter_step(found, pull_adopts(s), j as int);
            lemma_stage_push(kept + adopted, path@, s.remote, now);
            lemma_strs_push(to_copy@, *path);
            assert((listed + adopted).push(path@) =~= listed + adopted.push(path@));
            assert((kept + adopted).push(path@) =~= kept + adopted.push(path@));
        }
        if *path != manifest_file && !manifest.contains_key(path) && !local.contains_key(path) {
            to_copy.push(path.clone());
            staged.insert(path.clone(), FileEntry { hash: remote_hash.clone(), synced_at: now });
        }
        j += 1;
    }
    SyncPlan { direction: Direction::Pull, to_copy, to_delete, conflicts, manifest: staged, pending }
}

/// Plans a pull as of now, by the system clock.
pub fn plan_pull(manifest: &Manifest, local: &FileTable, remote: &FileTable) -> (plan: SyncPlan)
    ensures
        exists|now: Timestamp|
            plan@ == #[trigger] pull_plan(
                manifest@.order,
                remote@.order,
                sides(manifest@, local@, remote@),
                now,
            ),
{
    let now = current_time();
    plan_pull_at(manifest, local, remote, now)
}

} // verus!
