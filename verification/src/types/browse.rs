//! Read-only browsing of the tree at the tip of a branch or tag.

use vstd::prelude::*;

use crate::types::DiffEncodingInfo;

verus! {

/// The reference being browsed: what to call it and the commit it points to.
#[derive(Clone, Debug, PartialEq, Eq)]
pub struct BrowseTarget {
    pub display_name: String,
    pub commit_oid: String,
}

#[derive(Clone, Copy, Debug, PartialEq, Eq, Structural)]
pub enum BrowseEntryKind {
    Directory,
    File,
    Submodule,
}

/// One row of the browsed tree. Directories come before files, each by name.
#[derive(Clone, Debug, PartialEq, Eq)]
pub struct BrowseEntry {
    /// Path from the root of the repository, with `/` between its parts.
    pub path: String,
    /// The last part of the path.
    pub name: String,
    pub kind: BrowseEntryKind,
    /// Size of a file in bytes; 0 for a directory.
    pub size: u64,
}

/// The contents of one file. A binary file has no lines.
#[derive(Debug, PartialEq, Eq)]
pub struct BrowseFileContent {
    pub path: String,
    pub is_binary: bool,
    pub encoding: DiffEncodingInfo,
    pub lines: Vec<String>,
}

} // verus!
