//! Normalized filesystem change events.
//!
//! The host translates OS-level notifications into this small vocabulary
//! before they enter the pipeline. An event is immutable once built.

use vstd::prelude::*;

verus! {

/// The kind of change a filesystem notification reported.
#[derive(Clone, Copy, Debug, PartialEq, Eq, Structural)]
pub enum EventKind {
    /// A file appeared under the watched root.
    Created,
    /// An existing file's content changed.
    Modified,
    /// A file disappeared from under the watched root.
    Removed,
    /// Anything else the OS reports (access, metadata, ...): ignored.
    Other,
}

impl EventKind {
    /// Whether this kind asks for the affected paths to be (re-)embedded.
    pub fn triggers_indexing(&self) -> (r: bool)
        ensures
            r == (*self == EventKind::Created || *self == EventKind::Modified),
    {
        match self {
            EventKind::Created => true,
            EventKind::Modified => true,
            _ => false,
        }
    }

    /// Whether this kind asks for the affected paths' points to be deleted.
    pub fn triggers_deletion(&self) -> (r: bool)
        ensures
            r == (*self == EventKind::Removed),
    {
        match self {
            EventKind::Removed => true,
            _ => false,
        }
    }
}

/// One normalized filesystem change: the affected paths, what happened to
/// them, and when the watcher observed it (milliseconds since some epoch the
/// host chooses; the pipeline only carries it).
#[derive(Clone, Debug)]
pub struct FileChangeEvent {
    pub paths: Vec<String>,
    pub kind: EventKind,
    pub observed_at: u64,
}

impl FileChangeEvent {
    /// Build an event from its parts.
    pub fn new(paths: Vec<String>, kind: EventKind, observed_at: u64) -> (e: FileChangeEvent)
        ensures
            e.paths == paths,
            e.kind == kind,
            e.observed_at == observed_at,
    {
        FileChangeEvent { paths, kind, observed_at }
    }
}

} // verus!
