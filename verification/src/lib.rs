//! Verified core of a note-indexing pipeline.
//!
//! A host application watches a notes directory for file changes, embeds
//! changed note content through an embedding service, and keeps a vector-store
//! collection in sync with the current set of notes. Everything that decides
//! or computes lives here, verified: the bounded drop-on-full event queue, the
//! validation of embedding responses, the derivation of point identifiers, the
//! coordinator state machine (collection lifecycle, per-path point tracking,
//! worker-pool accounting), and a mathematical model of the vector store used
//! to state the pipeline's laws. The host performs the surrounding I/O
//! (filesystem notifications, network calls) and feeds plain values in.

pub mod coordinator;
pub mod embedding;
pub mod errors;
pub mod event;
pub mod model;
pub mod point;
pub mod queue;
pub mod store;
pub mod task;

use vstd::prelude::*;

verus! {

/// The fixed dimension of every embedding vector this pipeline handles.
pub const EMBEDDING_DIM: usize = 384;

} // verus!
