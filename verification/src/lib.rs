//! Indexing and search over a folder of Markdown documents.
//!
//! The workspace is a directory with documents and folders in it. This crate
//! lists its documents, builds the tree of its folders and documents, searches
//! it without regard to accents and case, decides where an entry goes when it
//! is moved, and decides which directory is the root.
//!
//! The crate does not touch the disk, the clock or the database. Its callers
//! read what is there into plain values (see `snapshot`), and carry out what
//! the functions here answer. Every function states in its contract what it
//! answers, over the views of its arguments.

pub mod completeness;
pub mod database;
pub mod error;
pub mod listing;
pub mod logging;
pub mod moves;
pub mod normalize;
pub mod paths;
pub mod root;
pub mod search;
pub mod snapshot;
pub mod sorting;
pub mod text;
pub mod tree;

pub use error::Error;
pub use listing::{FileContent, FileInfo, FileInfoWithPreview};
pub use search::FileSearchResult;
pub use tree::{FolderNode, TreeItem};
