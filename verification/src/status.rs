//! The status report: a read-only reconciliation of the two sides.

use vstd::prelude::*;
use crate::diff::{change_at, change_of, sides, Change, Sides};
use crate::manifest::{FileTable, Manifest};
use crate::seqs::{contains_str, lemma_filter_ends, lemma_filter_step};
use crate::text::strs;

verus! {

/// How many paths stand in which state.
#[derive(Clone, Copy, Debug, PartialEq, Eq, Structural)]
pub struct StatusReport {
    /// Paths of the sync set that hold the same content on both sides.
    pub in_sync: usize,
    /// Paths of the sync set whose two copies differ.
    pub modified: usize,
    /// Paths of the sync set that exist locally and not remotely.
    pub local_only: usize,
    /// Paths that the manifest knows and the sync set does not hold.
    pub remote_only: usize,
}

/// The paths that count as in sync.
pub open spec fn status_in_sync(s: Sides) -> spec_fn(Seq<char>) -> bool {
    |p: Seq<char>| change_at(s, p) is InSync
}

/// The paths that count as modified: both copies exist and differ.
pub open spec fn status_modified(s: Sides) -> spec_fn(Seq<char>) -> bool {
    |p: Seq<char>| change_at(s, p) is Modified || change_at(s, p) is Conflict
}

/// The paths that count as local only.
pub open spec fn status_local_only(s: Sides) -> spec_fn(Seq<char>) -> bool {
    |p: Seq<char>| change_at(s, p) is LocalOnly
}

/// The manifest paths that count as remote only: those outside the sync set.
pub open spec fn status_remote_only(sync: Seq<Seq<char>>) -> spec_fn(Seq<char>) -> bool {
    |p: Seq<char>| !sync.contains(p)
}

/// Counts the paths of the sync set by state, and the manifest paths that the
/// sync set no longer holds. Nothing is changed and no conflict is raised.
pub fn status(sync_files: &Vec<String>, manifest: &Manifest, local: &FileTable, remote: &FileTable) -> (report:
    StatusReport)
    ensures
        report.in_sync == strs(sync_files@).filter(
            status_in_sync(sides(manifest@, local@, remote@)),
        ).len(),
        report.modified == strs(sync_files@).filter(
            status_modified(sides(manifest@, local@, remote@)),
        ).len(),
        report.local_only == strs(sync_files@).filter(
            status_local_only(sides(manifest@, local@, remote@)),
        ).len(),
        report.remote_only == manifest@.order.filter(status_remote_only(strs(sync_files@))).len(),
{
    let ghost sync = strs(sync_files@);
    let ghost known = manifest@.order;
    let ghost s = sides(manifest@, local@, remote@);
    let mut in_sync: usize = 0;
    let mut modified: usize = 0;
    let mut local_only: usize = 0;
    proof {
        lemma_filter_ends(sync, status_in_sync(s));
        lemma_filter_ends(sync, status_modified(s));
        lemma_filter_ends(sync, status_local_only(s));
    }
    let mut i: usize = 0;
    while i < sync_files.len()
        invariant
            i <= sync_files.len(),
            sync == strs(sync_files@),
            s == sides(manifest@, local@, remote@),
            in_sync == sync.take(i as int).filter(status_in_sync(s)).len(),
            modified == sync.take(i as int).filter(status_modified(s)).len(),
            local_only == sync.take(i as int).filter(status_local_only(s)).len(),
        decreases sync_files.len() - i,
    {
        proof {
            lemma_filter_step(sync, status_in_sync(s), i as int);
            lemma_filter_step(sync, status_modified(s), i as int);
            lemma_filter_step(sync, status_local_only(s), i as int);
            sync.take(i as int).lemma_filter_len(status_in_sync(s));
            sync.take(i as int).lemma_filter_len(status_modified(s));
            sync.take(i as int).lemma_filter_len(status_local_only(s));
        }
        match change_of(&sync_files[i], manifest, local, remote) {
            Change::InSync => {
                in_sync += 1;
            },
            Change::Modified => {
                modified += 1;
            },
            Change::Conflict => {
                modified += 1;
            },
            Change::LocalOnly => {
                local_only += 1;
            },
            _ => {},
        }
        i += 1;
    }
    let mut remote_only: usize = 0;
    proof {
        lemma_filter_ends(known, status_remote_only(sync));
    }
    let n = manifest.len();
    let mut j: usize = 0;
    while j < n
        invariant
            j <= n,
            n == known.len(),
            known == manifest@.order,
            sync == strs(sync_files@),
            remote_only == known.take(j as int).filter(status_remote_only(sync)).len(),
        decreases n - j,
    {
        proof {
            lemma_filter_step(known, status_remote_only(sync), j as int);
            known.take(j as int).lemma_filter_len(status_remote_only(sync));
        }
        if !contains_str(sync_files, manifest.path_at(j)) {
            remote_only += 1;
        }
        j += 1;
    }
    StatusReport { in_sync, modified, local_only, remote_only }
}

} // verus!
