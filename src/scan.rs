use vstd::prelude::*;
use crate::item::{EntryKind, ItemType, type_accepts};

verus! {

/// One entry of a directory listing: its base name, its full path and its kind.
#[derive(Debug)]
pub struct Entry {
    pub name: String,
    pub path: String,
    pub kind: EntryKind,
}

/// Whether `e` is named exactly `name` and is of the kind that `item_type` asks for.
pub open spec fn entry_matches(e: Entry, name: Seq<char>, item_type: ItemType) -> bool {
    e.name@ == name && type_accepts(item_type, e.kind)
}

/// Whether some entry among the first `n` of `s` matches.
pub open spec fn match_before(s: Seq<Entry>, n: int, name: Seq<char>, item_type: ItemType) -> bool {
    exists|k: int| 0 <= k < n && #[trigger] entry_matches(s[k], name, item_type)
}

/// Whether some entry of `s` matches.
pub open spec fn has_match(s: Seq<Entry>, name: Seq<char>, item_type: ItemType) -> bool {
    match_before(s, s.len() as int, name, item_type)
}

/// The positions of the directories among the first `n` entries of `s`, in order.
pub open spec fn dir_positions(s: Seq<Entry>, n: int) -> Seq<usize>
    decreases n,
{
    if n <= 0 {
        Seq::empty()
    } else if s[n - 1].kind == EntryKind::Directory {
        dir_positions(s, n - 1).push((n - 1) as usize)
    } else {
        dir_positions(s, n - 1)
    }
}

/// The positions of all the directories of `s`, in listing order.
pub open spec fn subdirs(s: Seq<Entry>) -> Seq<usize> {
    dir_positions(s, s.len() as int)
}

/// Every position that `dir_positions` gives is a directory entry before `n`,
/// and the positions strictly increase.
pub proof fn lemma_dir_positions(s: Seq<Entry>, n: int)
    requires
        0 <= n <= s.len(),
        s.len() <= usize::MAX,
    ensures
        forall|i: int|
            0 <= i < dir_positions(s, n).len() ==> {
                &&& (#[trigger] dir_positions(s, n)[i]) < n
                &&& s[dir_positions(s, n)[i] as int].kind == EntryKind::Directory
            },
        forall|i: int, k: int|
            0 <= i < k < dir_positions(s, n).len() ==> dir_positions(s, n)[i]
                < dir_positions(s, n)[k],
        forall|j: int|
            0 <= j < n && s[j].kind == EntryKind::Directory ==> exists|i: int|
                0 <= i < dir_positions(s, n).len() && dir_positions(s, n)[i] == j,
    decreases n,
{
    if n > 0 {
        lemma_dir_positions(s, n - 1);
        let p = dir_positions(s, n - 1);
        if s[n - 1].kind == EntryKind::Directory {
            assert(dir_positions(s, n) == p.push((n - 1) as usize));
            assert forall|j: int| 0 <= j < n && s[j].kind == EntryKind::Directory implies exists|i: int|
                0 <= i < dir_positions(s, n).len() && dir_positions(s, n)[i] == j by {
                if j == n - 1 {
                    assert(dir_positions(s, n)[p.len() as int] == j);
                } else {
                    let i = choose|i: int| 0 <= i < p.len() && p[i] == j;
                    assert(dir_positions(s, n)[i] == j);
                }
            }
        }
    }
}

/// What a scan of one listing decides, by position in the listing.
pub enum Scan {
    /// The entry at this position matches: the search of the directory ends here.
    Hit(usize),
    /// No entry matches; the subdirectories at these positions are searched next.
    Descend(Vec<usize>),
    /// No entry matches and there is no subdirectory.
    Miss,
}

/// Scans one directory listing: the first entry that matches, else the
/// subdirectories to search, in listing order.
pub fn scan(entries: &Vec<Entry>, name: &String, item_type: ItemType) -> (r: Scan)
    ensures
        match r {
            Scan::Hit(j) => {
                &&& j < entries.len()
                &&& entry_matches(entries@[j as int], name@, item_type)
                &&& !match_before(entries@, j as int, name@, item_type)
            },
            Scan::Descend(ds) => {
                &&& !has_match(entries@, name@, item_type)
                &&& ds@ == subdirs(entries@)
                &&& ds.len() > 0
            },
            Scan::Miss => !has_match(entries@, name@, item_type) && subdirs(entries@).len() == 0,
        },
{
    let mut dirs: Vec<usize> = Vec::new();
    let mut i: usize = 0;
    while i < entries.len()
        invariant
            i <= entries.len(),
            !match_before(entries@, i as int, name@, item_type),
            dirs@ == dir_positions(entries@, i as int),
        decreases entries.len() - i,
    {
        let e = &entries[i];
        if e.name == *name && item_type.accepts(e.kind) {
            return Scan::Hit(i);
        }
        if e.kind == EntryKind::Directory {
            dirs.push(i);
        }
        assert(!match_before(entries@, i + 1, name@, item_type)) by {
            assert(!entry_matches(entries@[i as int], name@, item_type));
        }
        i = i + 1;
    }
    if dirs.len() == 0 {
        Scan::Miss
    } else {
        Scan::Descend(dirs)
    }
}

/// What the search of one directory does next, once its listing has been read.
pub enum Step<E> {
    /// An entry of the directory matches: this is its path.
    Found(String),
    /// Reading the listing failed before any entry matched.
    Failed(E),
    /// Nothing matched: these subdirectories are raced, in listing order.
    Descend(Vec<String>),
    /// Nothing matched and there is no subdirectory to search.
    NotFound,
}

/// Decides the next step of the search of one directory from the entries
/// read from its listing and, where reading stopped on an error, that error.
/// A match among the entries read wins over the error.
pub fn next_step<E>(entries: &Vec<Entry>, read_error: Option<E>, name: &String, item_type: ItemType) -> (r: Step<E>)
    ensures
        has_match(entries@, name@, item_type) <==> r is Found,
        r is Found ==> exists|j: int|
            0 <= j < entries.len() && entry_matches(entries@[j], name@, item_type)
                && !match_before(entries@, j, name@, item_type) && r->Found_0@ == entries@[j].path@,
        r is Failed <==> !has_match(entries@, name@, item_type) && read_error is Some,
        r is Failed ==> read_error == Some(r->Failed_0),
        r is Descend <==> {
            &&& !has_match(entries@, name@, item_type)
            &&& read_error is None
            &&& subdirs(entries@).len() > 0
        },
        r is Descend ==> {
            &&& r->Descend_0.len() == subdirs(entries@).len()
            &&& forall|i: int|
                0 <= i < r->Descend_0.len() ==> (#[trigger] r->Descend_0@[i])@
                    == entries@[subdirs(entries@)[i] as int].path@
        },
{
    proof {
        lemma_dir_positions(entries@, entries.len() as int);
    }
    match scan(entries, name, item_type) {
        Scan::Hit(j) => Step::Found(entries[j].path.clone()),
        Scan::Descend(ds) => {
            match read_error {
                Some(e) => Step::Failed(e),
                None => {
                    let mut paths: Vec<String> = Vec::new();
                    let mut i: usize = 0;
                    while i < ds.len()
                        invariant
                            i <= ds.len(),
                            ds@ == subdirs(entries@),
                            forall|k: int| 0 <= k < ds.len() ==> (#[trigger] ds@[k]) < entries.len(),
                            paths.len() == i,
                            forall|k: int|
                                0 <= k < i ==> (#[trigger] paths@[k])@ == entries@[ds@[k] as int].path@,
                        decreases ds.len() - i,
                    {
                        paths.push(entries[ds[i]].path.clone());
                        i = i + 1;
                    }
                    Step::Descend(paths)
                },
            }
        },
        Scan::Miss => {
            match read_error {
                Some(e) => Step::Failed(e),
                None => Step::NotFound,
            }
        },
    }
}

} // verus!
