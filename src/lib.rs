//! Recursive search of a directory tree for an entry with a given name and
//! kind. The library holds the decisions of the search: which entries match,
//! which subdirectories are searched next, and how the searches of sibling
//! subdirectories are raced to a single result. Reading the filesystem is left
//! to the caller, which hands each directory listing in as plain values; a
//! tree held in memory can be searched directly.

mod item;
mod race;
mod scan;
mod tree;

pub use item::{EntryKind, ItemType};
pub use race::{Race, RaceStep};
pub use scan::{Entry, Scan, Step, next_step, scan};
pub use tree::{DirTree, NotFound};
