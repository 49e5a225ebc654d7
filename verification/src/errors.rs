//! The pipeline's error taxonomy.
//!
//! Every failure the pipeline can observe is one of these variants. Per-file
//! failures are contained within the task that hit them; only `WatchFailed`
//! is fatal to a pipeline instance.

use vstd::prelude::*;

verus! {

/// Everything that can go wrong in the indexing pipeline.
#[derive(Clone, Copy, Debug, PartialEq, Eq, Structural)]
pub enum IndexError {
    /// The OS-level watch subscription could not be established or died.
    /// Fatal to the pipeline instance, not to the host process.
    WatchFailed,
    /// The bounded event queue was full and an event was dropped.
    QueueOverflow,
    /// A note file could not be read; the task for that path is abandoned.
    ReadFailed,
    /// The embedding service could not be reached.
    EmbeddingUnavailable,
    /// The embedding service answered without usable vector data.
    EmbeddingMalformedResponse,
    /// The vector store could not be reached.
    StoreUnavailable,
    /// The vector store rejected the request (schema or dimension mismatch).
    StoreRejected,
}

impl IndexError {
    /// Whether a retry could plausibly succeed: connection-level failures
    /// are transient, while malformed content or a schema mismatch will
    /// fail again identically.
    pub fn is_transient(&self) -> (r: bool)
        ensures
            r == (*self == IndexError::EmbeddingUnavailable
                || *self == IndexError::StoreUnavailable),
    {
        match self {
            IndexError::EmbeddingUnavailable => true,
            IndexError::StoreUnavailable => true,
            _ => false,
        }
    }

    /// Whether the error ends the pipeline instance rather than one task.
    pub fn is_fatal(&self) -> (r: bool)
        ensures
            r == (*self == IndexError::WatchFailed),
    {
        match self {
            IndexError::WatchFailed => true,
            _ => false,
        }
    }
}

} // verus!
