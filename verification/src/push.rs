//! The push diff: local files are carried to the remote mirror.
//!
//! Every path of the sync set that exists locally is classified. A conflict is
//! set aside. Otherwise the path is copied if the remote copy is missing or
//! differs, and in either case its local fingerprint is staged for the new
//! manifest. A path that the old manifest knows, that left the sync set and
//! still exists remotely, is deleted there.

use vstd::prelude::*;
use crate::clock::{current_time, Timestamp};
use crate::diff::{change_at, classify, sides, Change, Sides};
use crate::manifest::{FileEntry, FileTable, Manifest};
use crate::plan::{lemma_stage_push, stage, Direction, PlanView, SyncPlan};
use crate::seqs::{contains_str, lemma_filter_ends, lemma_filter_step};
use crate::text::{lemma_strs_push, strs};

verus! {

/// The paths that a push copies: present locally and missing remotely, or
/// different on the two sides without a conflict.
pub open spec fn push_copies(s: Sides) -> spec_fn(Seq<char>) -> bool {
    |p: Seq<char>| change_at(s, p) is LocalOnly || change_at(s, p) is Modified
}

/// The paths on which a push finds a conflict.
pub open spec fn push_conflicts(s: Sides) -> spec_fn(Seq<char>) -> bool {
    |p: Seq<char>| change_at(s, p) is Conflict
}

/// The paths whose local fingerprint a push stages at once: present locally
/// and free of conflict, whether or not they are copied.
pub open spec fn push_stages(s: Sides) -> spec_fn(Seq<char>) -> bool {
    |p: Seq<char>|
        change_at(s, p) is LocalOnly || change_at(s, p) is Modified || change_at(s, p) is InSync
}

/// The manifest paths that a push deletes remotely: no longer in the sync set,
/// still present on the remote side.
pub open spec fn push_deletes(sync: Seq<Seq<char>>, remote: Map<Seq<char>, Seq<char>>) -> spec_fn(
    Seq<char>,
) -> bool {
    |p: Seq<char>| !sync.contains(p) && remote.contains_key(p)
}

/// The plan of a push of the sync set `sync`, with the old manifest's paths in
/// the order `known`, on the sides `s`, stamped `now`.
pub open spec fn push_plan(sync: Seq<Seq<char>>, known: Seq<Seq<char>>, s: Sides, now: Timestamp)
    -> PlanView {
    PlanView {
        direction: Direction::Push,
        to_copy: sync.filter(push_copies(s)),
        to_delete: known.filter(push_deletes(sync, s.remote)),
        conflicts: sync.filter(push_conflicts(s)),
        manifest: stage(sync.filter(push_stages(s)), s.local, now),
        pending: stage(sync.filter(push_conflicts(s)), s.local, now),
    }
}

/// Plans a push as of the time `now`.
///
/// `local` and `remote` hold the files that exist on each side with their
/// fingerprints; a path without an entry does not exist there.
pub fn plan_push_at(
    sync_files: &Vec<String>,
    manifest: &Manifest,
    local: &FileTable,
    remote: &FileTable,
    now: Timestamp,
) -> (plan: SyncPlan)
    ensures
        plan@ == push_plan(
            strs(sync_files@),
            manifest@.order,
            sides(manifest@, local@, remote@),
            now,
        ),
{
    let ghost sync = strs(sync_files@);
    let ghost s = sides(manifest@, local@, remote@);
    let mut to_copy: Vec<String> = Vec::new();
    let mut conflicts: Vec<String> = Vec::new();
    let mut staged = Manifest::new();
    let mut pending = Manifest::new();
    proof {
        lemma_filter_ends(sync, push_copies(s));
        lemma_filter_ends(sync, push_conflicts(s));
        lemma_filter_ends(sync, push_stages(s));
        assert(strs(to_copy@) =~= Seq::<Seq<char>>::empty());
        assert(strs(conflicts@) =~= Seq::<Seq<char>>::empty());
    }
    let mut i: usize = 0;
    while i < sync_files.len()
        invariant
            i <= sync_files.len(),
            sync == strs(sync_files@),
            s == sides(manifest@, local@, remote@),
            strs(to_copy@) == sync.take(i as int).filter(push_copies(s)),
            strs(conflicts@) == sync.take(i as int).filter(push_conflicts(s)),
            staged@ == stage(sync.take(i as int).filter(push_stages(s)), s.local, now),
            pending@ == stage(sync.take(i as int).filter(push_conflicts(s)), s.local, now),
        decreases sync_files.len() - i,
    {
        let path = &sync_files[i];
        proof {
            lemma_filter_step(sync, push_copies(s), i as int);
            lemma_filter_step(sync, push_conflicts(s), i as int);
            lemma_filter_step(sync, push_stages(s), i as int);
            lemma_stage_push(
                sync.take(i as int).filter(push_stages(s)),
                path@,
                s.local,
                now,
            );
            lemma_stage_push(
                sync.take(i as int).filter(push_conflicts(s)),
                path@,
                s.local,
                now,
            );
            lemma_strs_push(to_copy@, *path);
            lemma_strs_push(conflicts@, *path);
        }
        match local.get(path) {
            None => {},
            Some(local_hash) => {
                let base: Option<&String> = match manifest.get(path) {
                    Some(entry) => Some(&entry.hash),
                    None => None,
                };
                let change = classify(Some(local_hash), remote.get(path), base);
                assert(change == change_at(s, path@));
                let entry = FileEntry { hash: local_hash.clone(), synced_at: now };
                match change {
                    Change::Conflict => {
                        conflicts.push(path.clone());
                        pending.insert(path.clone(), entry);
                    },
                    Change::InSync => {
                        staged.insert(path.clone(), entry);
                    },
                    _ => {
                        to_copy.push(path.clone());
                        staged.insert(path.clone(), entry);
                    },
                }
            },
        }
        i += 1;
    }
    let mut to_delete: Vec<String> = Vec::new();
    let ghost known = manifest@.order;
    proof {
        lemma_filter_ends(known, push_deletes(sync, s.remote));
        assert(strs(to_delete@) =~= Seq::<Seq<char>>::empty());
    }
    let n = manifest.len();
    let mut j: usize = 0;
    while j < n
        invariant
            j <= n,
            n == known.len(),
            known == manifest@.order,
            sync == strs(sync_files@),
            s == sides(manifest@, local@, remote@),
            strs(to_delete@) == known.take(j as int).filter(push_deletes(sync, s.remote)),
        decreases n - j,
    {
        let path = manifest.path_at(j);
        proof {
            lemma_filter_step(known, push_deletes(sync, s.remote), j as int);
            lemma_strs_push(to_delete@, *path);
        }
        if !contains_str(sync_files, path) && remote.contains_key(path) {
            to_delete.push(path.clone());
        }
        j += 1;
    }
    SyncPlan { direction: Direction::Push, to_copy, to_delete, conflicts, manifest: staged, pending }
}

/// Plans a push as of now, by the system clock.
pub fn plan_push(
    sync_files: &Vec<String>,
    manifest: &Manifest,
    local: &FileTable,
    remote: &FileTable,
) -> (plan: SyncPlan)
    ensures
        exists|now: Timestamp|
            plan@ == #[trigger] push_plan(
                strs(sync_files@),
                manifest@.order,
                sides(manifest@, local@, remote@),
                now,
            ),
{
    let now = current_time();
    plan_push_at(sync_files, manifest, local, remote, now)
}

} // verus!
