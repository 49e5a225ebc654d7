//! Data types shared with the host note application.
//!
//! The host reads and writes notes, walks the notes directory, and handles
//! media files; these are the plain shapes it moves around. The pipeline
//! itself only consumes note paths and content, but the types live here so
//! that every layer of the application agrees on them.

use vstd::prelude::*;

verus! {

/// What sort of note a file holds.
#[derive(Clone, Copy, Debug, PartialEq, Eq, Structural)]
pub enum NoteType {
    /// A free-form note: text and drawing layers.
    FreeNote,
    /// A paged notebook.
    Notebook,
}

/// The host application's user-facing settings.
#[derive(Clone, Debug)]
pub struct UserConfig {
    pub theme: String,
    pub default_save_location: String,
    pub autosave_interval: u32,
}

/// One node of the notes directory tree: a directory with children, or a
/// single note file.
#[derive(Debug)]
pub struct FileTreeNode {
    pub name: String,
    pub path: String,
    pub is_dir: bool,
    pub children: Option<Vec<FileTreeNode>>,
}

/// Plain metadata of one file under the notes directory.
#[derive(Clone, Debug)]
pub struct FileMetadata {
    pub name: String,
    pub path: String,
    pub is_dir: bool,
    pub size: u64,
}

/// Dimensions and encoding of an image attached to a note.
#[derive(Clone, Debug)]
pub struct ImageMetadata {
    pub width: u32,
    pub height: u32,
    pub format: String,
}

} // verus!
