//! What was found on disk, as plain values.
//!
//! The functions of this crate do not read the file system. Their caller reads
//! a directory into these types, and they compute on what was read.

use vstd::prelude::*;

verus! {

/// What the file system tells about a file without opening it.
#[derive(Debug)]
pub struct FileMeta {
    /// The size in bytes.
    pub size: u64,
    /// The time of the last change, in seconds since the epoch.
    pub modified: u64,
}

/// A file as it was found in a directory.
#[derive(Debug)]
pub struct FileEntry {
    /// The file's name, with its extension.
    pub name: String,
    /// The file's path.
    pub path: String,
    /// The file's metadata, where it could be read.
    pub meta: Option<FileMeta>,
    /// The file's text, where it could be read and is text.
    pub content: Option<String>,
}

/// A directory as it was found in its parent, with what it holds.
#[derive(Debug)]
pub struct DirEntry {
    /// The directory's name.
    pub name: String,
    /// The directory's path.
    pub path: String,
    /// The directory's entries in the order in which they were read, where
    /// the directory could be read.
    pub entries: Option<Vec<Entry>>,
}

/// An entry of a directory.
#[derive(Debug)]
pub enum Entry {
    File(FileEntry),
    Dir(DirEntry),
}

} // verus!
