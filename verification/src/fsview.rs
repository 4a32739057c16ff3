//! A snapshot of the filesystem as plain values: the paths that exist, and
//! among them the paths that are regular files. The caller takes the
//! snapshot; everything decided from it in this library is verified against
//! these two sets.

use vstd::prelude::*;

use crate::strutil::{contains_str, str_views};

verus! {

/// What the library knows of the filesystem.
pub struct FsView {
    /// Absolute paths that exist, as files or as directories.
    pub present: Vec<String>,
    /// Absolute paths that exist and are regular files.
    pub files: Vec<String>,
}

impl FsView {
    /// The set of existing paths.
    pub open spec fn present_set(&self) -> Set<Seq<char>> {
        str_views(self.present@).to_set()
    }

    /// The set of existing regular files.
    pub open spec fn file_set(&self) -> Set<Seq<char>> {
        str_views(self.files@).to_set()
    }

    /// Whether `p` exists.
    pub fn has(&self, p: &str) -> (r: bool)
        ensures
            r == self.present_set().contains(p@),
    {
        contains_str(&self.present, p)
    }

    /// Whether `p` exists and is a regular file.
    pub fn is_file(&self, p: &str) -> (r: bool)
        ensures
            r == self.file_set().contains(p@),
    {
        contains_str(&self.files, p)
    }
}

} // verus!
