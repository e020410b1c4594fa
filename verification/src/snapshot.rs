//! What was found on disk for a handful of paths at one moment.
//!
//! The watcher never looks at the disk itself. Whoever drives it looks the
//! paths up and hands the answers over as a snapshot; a path that the snapshot
//! does not mention counts as missing.

use crate::path::{FsPath, PathModel};
use crate::table::PathMap;
use vstd::prelude::*;

verus! {

/// What a path denotes on disk.
#[derive(Debug, Clone, Copy, PartialEq, Eq, Structural)]
pub enum EntryKind {
    /// A regular file.
    File,
    /// A directory.
    Directory,
    /// Neither: the entry is gone, or it is something else.
    Missing,
}

/// What `seen` reports for `path`.
pub open spec fn kind_in(seen: Map<PathModel, EntryKind>, path: PathModel) -> EntryKind {
    if seen.contains_key(path) {
        seen[path]
    } else {
        EntryKind::Missing
    }
}

/// The answers of one round of lookups.
#[derive(Debug)]
pub struct Snapshot {
    seen: PathMap<EntryKind>,
}

impl View for Snapshot {
    type V = Map<PathModel, EntryKind>;

    closed spec fn view(&self) -> Map<PathModel, EntryKind> {
        self.seen@
    }
}

impl Clone for Snapshot {
    fn clone(&self) -> (r: Snapshot)
        ensures
            r@ == self@,
    {
        Snapshot { seen: self.seen.clone() }
    }
}

impl Snapshot {
    /// A snapshot that mentions no path.
    pub fn new() -> (r: Snapshot)
        ensures
            r@ == Map::<PathModel, EntryKind>::empty(),
    {
        Snapshot { seen: PathMap::new() }
    }

    /// Notes what `path` was found to be, in place of an earlier answer.
    pub fn record(&mut self, path: FsPath, kind: EntryKind)
        ensures
            final(self)@ == old(self)@.insert(path@, kind),
    {
        self.seen.insert(path, kind);
    }

    /// What `path` was found to be.
    pub fn kind_of(&self, path: &FsPath) -> (r: EntryKind)
        ensures
            r == kind_in(self@, path@),
    {
        match self.seen.get(path) {
            Some(kind) => *kind,
            None => EntryKind::Missing,
        }
    }
}

} // verus!
