//! An in-memory model of a filesystem tree.
//!
//! A [`File`] is one vertex of the tree: a single path segment, a
//! [`FileType`] (regular file, directory with children, symlink, or other),
//! and optional caller-attached metadata. [`FilesIter`] walks a subtree
//! lazily in depth-first pre-order using an explicit work stack, and
//! [`PathsIter`] projects that walk to the nodes' path segments.

pub mod file;
pub mod file_type;
pub mod iter;
pub mod laws;

pub use file::File;
pub use file_type::FileType;
pub use iter::FilesIter;
pub use iter::PathsIter;
