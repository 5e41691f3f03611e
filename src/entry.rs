//! The directory tree that is listed: each entry with its metadata and, for
//! a directory, the entries it holds.

use crate::utils::Timestamp;
use vstd::prelude::*;

verus! {

/// One file-system object.
///
/// `children` holds what a directory lists, in the order the file system
/// gave it; it is empty for anything else, and for a directory whose
/// listing could not be read.
#[derive(Debug)]
pub struct Entry {
    pub name: String,
    pub is_dir: bool,
    pub size: u64,
    pub mode: u32,
    /// The modification time, `None` where it could not be read.
    pub modified: Option<Timestamp>,
    pub children: Vec<Entry>,
}

impl Entry {
    /// A file (or anything that is not a directory).
    pub fn file(name: &str, size: u64, mode: u32, modified: Option<Timestamp>) -> (r: Entry)
        ensures
            r.name@ == name@,
            !r.is_dir,
            r.size == size,
            r.mode == mode,
            r.modified == modified,
            r.children@.len() == 0,
    {
        Entry { name: String::from_str(name), is_dir: false, size, mode, modified, children: Vec::new() }
    }

    /// A directory holding `children`.
    pub fn dir(name: &str, mode: u32, modified: Option<Timestamp>, children: Vec<Entry>) -> (r: Entry)
        ensures
            r.name@ == name@,
            r.is_dir,
            r.size == 0,
            r.mode == mode,
            r.modified == modified,
            r.children == children,
    {
        Entry { name: String::from_str(name), is_dir: true, size: 0, mode, modified, children }
    }
}

/// The number of entries in a forest of entries, counting every level.
pub open spec fn tree_size(entries: Seq<Entry>) -> nat
    decreases entries,
{
    if entries.len() == 0 {
        0
    } else {
        tree_size(entries.drop_last()) + 1 + tree_size(entries.last().children@)
    }
}

/// An entry's own children are fewer than the forest it stands in.
pub proof fn lemma_child_size(entries: Seq<Entry>, i: int)
    requires
        0 <= i < entries.len(),
    ensures
        tree_size(entries[i].children@) < tree_size(entries),
    decreases entries.len(),
{
    if i < entries.len() - 1 {
        lemma_child_size(entries.drop_last(), i);
        assert(entries.drop_last()[i] == entries[i]);
    }
}

} // verus!
