//! The description of a file as one scan of the watched tree saw it.

use vstd::prelude::*;

verus! {

/// A simple struct that represents a file.
///
/// Both timestamps count nanoseconds since the Unix epoch.
#[derive(Debug, PartialEq, PartialOrd)]
pub struct File {
    pub created_at: u128,
    pub directory: String,
    pub extension: String,
    pub modified_at: u128,
    pub name: String,
    pub path: String,
}

/// The mathematical content of a [`File`].
pub struct FileView {
    pub created_at: nat,
    pub directory: Seq<char>,
    pub extension: Seq<char>,
    pub modified_at: nat,
    pub name: Seq<char>,
    pub path: Seq<char>,
}

impl FileView {
    /// Whether `other` is later than `self` on at least one of the two
    /// timestamps.
    pub open spec fn is_older(self, other: FileView) -> bool {
        self.created_at < other.created_at || self.modified_at < other.modified_at
    }
}

impl View for File {
    type V = FileView;

    open spec fn view(&self) -> FileView {
        FileView {
            created_at: self.created_at as nat,
            directory: self.directory@,
            extension: self.extension@,
            modified_at: self.modified_at as nat,
            name: self.name@,
            path: self.path@,
        }
    }
}

impl DeepView for File {
    type V = FileView;

    open spec fn deep_view(&self) -> FileView {
        self@
    }
}

impl Clone for File {
    fn clone(&self) -> (r: Self)
        ensures
            r@ == self@,
    {
        File {
            created_at: self.created_at,
            directory: self.directory.clone(),
            extension: self.extension.clone(),
            modified_at: self.modified_at,
            name: self.name.clone(),
            path: self.path.clone(),
        }
    }
}

impl File {
    /// Returns whether the file is older than the other file.
    pub fn is_older(&self, other: &Self) -> (b: bool)
        ensures
            b == self@.is_older(other@),
    {
        self.created_at < other.created_at || self.modified_at < other.modified_at
    }
}

} // verus!
