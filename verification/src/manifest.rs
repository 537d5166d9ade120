//! The manifest: what each path held when it was last synchronized.
//!
//! The manifest is the only durable state. It maps a relative path to the
//! fingerprint of the content that both sides agreed on, and to the time at
//! which that was recorded. A table of the files found on one side has the
//! same shape without the time.

use vstd::prelude::*;
use crate::clock::Timestamp;
use crate::table::PathMap;

verus! {

/// The state of one path as of the last synchronization that touched it.
pub struct FileEntry {
    pub hash: String,
    pub synced_at: Timestamp,
}

/// What a manifest entry holds.
pub struct FileEntryView {
    pub hash: Seq<char>,
    pub synced_at: Timestamp,
}

impl View for FileEntry {
    type V = FileEntryView;

    open spec fn view(&self) -> FileEntryView {
        FileEntryView { hash: self.hash@, synced_at: self.synced_at }
    }
}

/// The last-known synchronized state, by relative path.
pub type Manifest = PathMap<FileEntry>;

/// The files present on one side, each with the fingerprint of its content.
pub type FileTable = PathMap<String>;

/// The fingerprints that a manifest records, without the times.
pub open spec fn hashes(entries: Map<Seq<char>, FileEntryView>) -> Map<Seq<char>, Seq<char>> {
    entries.map_values(|e: FileEntryView| e.hash)
}

} // verus!
