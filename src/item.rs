use vstd::prelude::*;

verus! {

/// The kind of entry that a search asks for.
#[derive(Clone, Copy, PartialEq, Eq, Debug, Structural)]
pub enum ItemType {
    /// The entry must be a file.
    File,
    /// The entry must be a directory.
    Directory,
    /// The entry may be a file or a directory.
    Either,
}

/// The kind of an entry found in a directory listing.
#[derive(Clone, Copy, PartialEq, Eq, Debug, Structural)]
pub enum EntryKind {
    /// A regular file.
    File,
    /// A directory: the search descends into it.
    Directory,
    /// Anything else (a broken link, a device node).
    Other,
}

/// Whether an entry of kind `kind` is of the type that `item_type` asks for.
pub open spec fn type_accepts(item_type: ItemType, kind: EntryKind) -> bool {
    match item_type {
        ItemType::File => kind == EntryKind::File,
        ItemType::Directory => kind == EntryKind::Directory,
        ItemType::Either => true,
    }
}

impl ItemType {
    /// Whether an entry of kind `kind` satisfies this type filter.
    pub fn accepts(&self, kind: EntryKind) -> (r: bool)
        ensures
            r == type_accepts(*self, kind),
    {
        match self {
            ItemType::File => kind == EntryKind::File,
            ItemType::Directory => kind == EntryKind::Directory,
            ItemType::Either => true,
        }
    }
}

} // verus!
