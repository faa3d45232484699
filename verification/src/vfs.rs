//! The output tree as it is staged in memory before anything is written.

use vstd::prelude::*;

verus! {

/// A directory or a file that is to be created.
#[derive(Debug, Clone, PartialEq, Eq)]
pub struct VirtualEntry {
    /// Where the entry goes, relative to the destination root. An entry
    /// without a destination is dead and is never created.
    pub destination: Option<String>,
    /// What a file holds.
    pub content: Option<String>,
    /// Whether the entry is a file; it is a directory otherwise.
    pub is_file: bool,
}

/// The staged entries, in the order they were found.
#[derive(Debug, Clone)]
pub struct VirtualFS {
    pub entries: Vec<VirtualEntry>,
}

pub struct EntryView {
    pub destination: Option<Seq<char>>,
    pub content: Option<Seq<char>>,
    pub is_file: bool,
}

impl View for VirtualEntry {
    type V = EntryView;

    open spec fn view(&self) -> EntryView {
        EntryView {
            destination: match self.destination {
                Some(path) => Some(path@),
                None => None,
            },
            content: match self.content {
                Some(text) => Some(text@),
                None => None,
            },
            is_file: self.is_file,
        }
    }
}

impl View for VirtualFS {
    type V = Seq<EntryView>;

    open spec fn view(&self) -> Seq<EntryView> {
        Seq::new(self.entries@.len(), |i: int| self.entries@[i]@)
    }
}

impl VirtualFS {
    pub fn new() -> (vfs: Self)
        ensures
            vfs@ == Seq::<EntryView>::empty(),
    {
        let vfs = Self { entries: Vec::new() };
        proof {
            assert(vfs@ =~= Seq::<EntryView>::empty());
        }
        vfs
    }
}

} // verus!
