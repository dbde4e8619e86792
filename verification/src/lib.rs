//! Turn a directory tree into one self-contained, browsable HTML page.
//!
//! The library classifies every file of a tree (rendered, binary, too
//! large, or ignored under `.git`), orders the records canonically by
//! relative path, and assembles two views of the rendered content from one
//! classification pass: a human HTML page with a table of contents, a
//! tree-style listing, per-file sections and skip lists, and a flat tagged
//! machine view with one-based document indexes. Walking the filesystem,
//! fetching a repository and writing the page out are left to the caller,
//! which hands in plain values: paths, sizes, probe bytes and file
//! contents.

pub mod classify;
pub mod cxml;
pub mod html;
pub mod render;
pub mod source;
pub mod tree;
pub mod utils;
