//! Packs a directory tree into a zip archive held in memory, one record per file
//! or directory, each named by its path relative to the parent of the tree's root.

pub mod archive;
pub mod compression;
pub mod error;
pub mod package;
pub mod paths;
pub mod ratio;
