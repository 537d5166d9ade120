//! Three-way change detection.
//!
//! A path is classified from three fingerprints: that of the local copy, that
//! of the remote copy, and the one that the manifest recorded when both sides
//! last agreed. Only fingerprints take part: no time, size or path order.

use vstd::prelude::*;
use crate::manifest::{hashes, FileEntryView, FileTable, Manifest};
use crate::table::TableView;

verus! {

/// How the two copies of a path stand to each other and to the manifest.
#[derive(Clone, Copy, Debug, PartialEq, Eq, Structural)]
pub enum Change {
    /// Neither side has the path.
    Absent,
    /// Both sides hold the same content, whatever the manifest recorded.
    InSync,
    /// Only the local side has the path.
    LocalOnly,
    /// Only the remote side has the path.
    RemoteOnly,
    /// The sides differ, and at most one of them left the recorded state.
    Modified,
    /// The sides differ from each other and both differ from the recorded state.
    Conflict,
}

/// The classification of a path from the fingerprints of its local copy, its
/// remote copy and its manifest entry, each absent or present.
pub open spec fn classify_hashes(
    local: Option<Seq<char>>,
    remote: Option<Seq<char>>,
    base: Option<Seq<char>>,
) -> Change {
    match (local, remote) {
        (None, None) => Change::Absent,
        (Some(_), None) => Change::LocalOnly,
        (None, Some(_)) => Change::RemoteOnly,
        (Some(l), Some(r)) => if l == r {
            Change::InSync
        } else {
            match base {
                Some(b) => if l != b && r != b {
                    Change::Conflict
                } else {
                    Change::Modified
                },
                None => Change::Modified,
            }
        },
    }
}

/// The fingerprints that a diff compares: recorded, local and remote, by path.
pub struct Sides {
    pub base: Map<Seq<char>, Seq<char>>,
    pub local: Map<Seq<char>, Seq<char>>,
    pub remote: Map<Seq<char>, Seq<char>>,
}

/// The three sides that a manifest and two file tables stand for.
pub open spec fn sides(
    manifest: TableView<FileEntryView>,
    local: TableView<Seq<char>>,
    remote: TableView<Seq<char>>,
) -> Sides {
    Sides { base: hashes(manifest.map), local: local.map, remote: remote.map }
}

/// The fingerprint that `side` has for `path`, if any.
pub open spec fn lookup(side: Map<Seq<char>, Seq<char>>, path: Seq<char>) -> Option<Seq<char>> {
    if side.contains_key(path) {
        Some(side[path])
    } else {
        None
    }
}

/// The classification of `path` on the given sides.
pub open spec fn change_at(s: Sides, path: Seq<char>) -> Change {
    classify_hashes(lookup(s.local, path), lookup(s.remote, path), lookup(s.base, path))
}

/// The view of an optional fingerprint.
pub open spec fn hash_view(hash: Option<&String>) -> Option<Seq<char>> {
    match hash {
        Some(h) => Some(h@),
        None => None,
    }
}

/// Classifies a path from its three fingerprints.
pub fn classify(local: Option<&String>, remote: Option<&String>, base: Option<&String>) -> (change:
    Change)
    ensures
        change == classify_hashes(hash_view(local), hash_view(remote), hash_view(base)),
{
    match (local, remote) {
        (None, None) => Change::Absent,
        (Some(_), None) => Change::LocalOnly,
        (None, Some(_)) => Change::RemoteOnly,
        (Some(l), Some(r)) => {
            if *l == *r {
                Change::InSync
            } else {
                match base {
                    Some(b) => {
                        if *l != *b && *r != *b {
                            Change::Conflict
                        } else {
                            Change::Modified
                        }
                    },
                    None => Change::Modified,
                }
            }
        },
    }
}

/// Classifies `path` against a manifest and the files found on each side.
pub fn change_of(path: &String, manifest: &Manifest, local: &FileTable, remote: &FileTable) -> (change:
    Change)
    ensures
        change == change_at(sides(manifest@, local@, remote@), path@),
{
    let base: Option<&String> = match manifest.get(path) {
        Some(entry) => Some(&entry.hash),
        None => None,
    };
    classify(local.get(path), remote.get(path), base)
}

} // verus!
