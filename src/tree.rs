use vstd::prelude::*;
use crate::item::{EntryKind, ItemType, type_accepts};
use crate::race::{Race, RaceStep};
use crate::scan::{Entry, Scan, entry_matches, has_match, lemma_dir_positions, scan, subdirs};

verus! {

broadcast use vstd::std_specs::vec::group_vec_axioms;

/// The failure of a search: no entry of the subtree matched.
#[derive(Debug)]
pub struct NotFound {
    /// The name that was searched for.
    pub name: String,
}

/// A directory tree held in memory. Directory `d` lists the entries
/// `listings[d]`; where entry `j` of it is a directory, `links[d][j]` is the
/// directory it stands for, always one after `d`. Directory 0 is the root.
pub struct DirTree {
    pub listings: Vec<Vec<Entry>>,
    pub links: Vec<Vec<usize>>,
}

/// The directory that entry `j` of directory `d` stands for.
pub open spec fn link(t: DirTree, d: int, j: int) -> int {
    t.links@[d]@[j] as int
}

/// Entry `j` of directory `d`.
pub open spec fn entry_at(t: DirTree, d: int, j: int) -> Entry {
    t.listings@[d]@[j]
}

/// Whether entry `j` of directory `d` leads to a directory further on.
pub open spec fn descends(t: DirTree, d: int, j: int) -> bool {
    entry_at(t, d, j).kind == EntryKind::Directory && d < link(t, d, j) < t.listings@.len()
}

/// Whether an entry at path `p` in the subtree of directory `d` matches.
pub open spec fn found_in(t: DirTree, d: int, name: Seq<char>, item_type: ItemType, p: Seq<char>) -> bool
    decreases t.listings@.len() - d,
{
    exists|j: int|
        0 <= j < t.listings@[d]@.len() && {
            ||| entry_matches(#[trigger] entry_at(t, d, j), name, item_type) && entry_at(t, d, j).path@ == p
            ||| descends(t, d, j) && found_in(t, link(t, d, j), name, item_type, p)
        }
}

/// Whether some entry in the subtree of directory `d` matches.
pub open spec fn present_in(t: DirTree, d: int, name: Seq<char>, item_type: ItemType) -> bool
    decreases t.listings@.len() - d,
{
    exists|j: int|
        0 <= j < t.listings@[d]@.len() && {
            ||| entry_matches(#[trigger] entry_at(t, d, j), name, item_type)
            ||| descends(t, d, j) && present_in(t, link(t, d, j), name, item_type)
        }
}

/// Whether some directory entry of an earlier directory links to directory `d`.
pub open spec fn has_parent(t: DirTree, d: int) -> bool {
    exists|p: int, j: int|
        0 <= p < d && 0 <= j < t.listings@[p]@.len() && descends(t, p, j) && #[trigger] link(t, p, j) == d
}

impl DirTree {
    /// Every directory has its row of links, and every directory entry links
    /// to a later directory.
    pub open spec fn wf(&self) -> bool {
        &&& self.listings@.len() > 0
        &&& self.listings@.len() == self.links@.len()
        &&& forall|d: int|
            0 <= d < self.listings@.len() ==> (#[trigger] self.links@[d])@.len()
                == self.listings@[d]@.len()
        &&& forall|d: int, j: int|
            0 <= d < self.listings@.len() && 0 <= j < self.listings@[d]@.len()
                && (#[trigger] entry_at(*self, d, j)).kind == EntryKind::Directory ==> descends(*self, d, j)
        &&& forall|d: int| 0 < d < self.listings@.len() ==> #[trigger] has_parent(*self, d)
    }

    /// A tree of one empty root directory.
    pub fn new() -> (r: DirTree)
        ensures
            r.wf(),
            r.listings@.len() == 1,
            r.listings@[0]@.len() == 0,
    {
        let mut listings: Vec<Vec<Entry>> = Vec::new();
        listings.push(Vec::new());
        let mut links: Vec<Vec<usize>> = Vec::new();
        links.push(Vec::new());
        DirTree { listings, links }
    }

    /// Adds an entry to directory `dir`. A directory entry gets a new empty
    /// directory of its own, whose number is returned; for another entry the
    /// result is `dir`.
    pub fn add_entry(&mut self, dir: usize, name: String, path: String, kind: EntryKind) -> (r: usize)
        requires
            old(self).wf(),
            dir < old(self).listings@.len(),
            old(self).listings@.len() < usize::MAX,
        ensures
            final(self).wf(),
            kind == EntryKind::Directory ==> {
                &&& r == old(self).listings@.len()
                &&& final(self).listings@.len() == old(self).listings@.len() + 1
                &&& final(self).listings@[r as int]@.len() == 0
            },
            kind != EntryKind::Directory ==> r == dir && final(self).listings@.len() == old(self).listings@.len(),
            final(self).listings@[dir as int]@ == old(self).listings@[dir as int]@.push(
                Entry { name, path, kind },
            ),
            forall|d: int|
                0 <= d < old(self).listings@.len() && d != dir ==> final(self).listings@[d]
                    == old(self).listings@[d],
    {
        let n = self.listings.len();
        let target: usize = if kind == EntryKind::Directory { n } else { dir };
        let ghost old_t = *self;
        self.listings[dir].push(Entry { name, path, kind });
        self.links[dir].push(target);
        if kind == EntryKind::Directory {
            self.listings.push(Vec::new());
            self.links.push(Vec::new());
        }
        assert forall|d: int, j: int|
            0 <= d < self.listings@.len() && 0 <= j < self.listings@[d]@.len()
                && (#[trigger] entry_at(*self, d, j)).kind == EntryKind::Directory implies descends(*self, d, j) by {
            if d != dir || j < old_t.listings@[d]@.len() {
                assert(entry_at(old_t, d, j) == entry_at(*self, d, j));
            }
        }
        assert forall|d: int| 0 < d < self.listings@.len() implies #[trigger] has_parent(*self, d) by {
            if d < old_t.listings@.len() {
                assert(has_parent(old_t, d));
                let (p, j) = choose|p: int, j: int|
                    0 <= p < d && 0 <= j < old_t.listings@[p]@.len() && descends(old_t, p, j) && #[trigger] link(old_t, p, j) == d;
                assert(entry_at(old_t, p, j) == entry_at(*self, p, j));
                assert(link(old_t, p, j) == link(*self, p, j));
                assert(descends(*self, p, j));
            } else {
                let j = old_t.listings@[dir as int]@.len() as int;
                assert(link(*self, dir as int, j) == d);
                assert(descends(*self, dir as int, j));
            }
        }
        target
    }

    /// Searches the subtree of directory `d`: an entry of `d` that matches
    /// wins; else the subdirectories of `d` are raced in listing order, each
    /// run to its end before the next starts.
    pub fn search_from(&self, d: usize, name: &String, item_type: ItemType) -> (r: Result<String, NotFound>)
        requires
            self.wf(),
            d < self.listings@.len(),
        ensures
            r is Ok <==> present_in(*self, d as int, name@, item_type),
            r is Ok ==> found_in(*self, d as int, name@, item_type, r->Ok_0@),
            r is Err ==> r->Err_0.name@ == name@,
        decreases self.listings@.len() - d,
    {
        let entries = &self.listings[d];
        let n = entries.len();
        proof {
            lemma_dir_positions(entries@, entries@.len() as int);
        }
        match scan(entries, name, item_type) {
            Scan::Hit(j) => {
                let p = entries[j].path.clone();
                assert(entry_at(*self, d as int, j as int) == entries@[j as int]);
                Ok(p)
            },
            Scan::Miss => {
                assert forall|j: int| 0 <= j < entries@.len() implies !(#[trigger] entry_matches(
                    entry_at(*self, d as int, j),
                    name@,
                    item_type,
                )) && entry_at(*self, d as int, j).kind != EntryKind::Directory by {
                    assert(entry_at(*self, d as int, j) == entries@[j]);
                    assert(!entry_matches(entries@[j], name@, item_type));
                }
                Err(NotFound { name: name.clone() })
            },
            Scan::Descend(ds) => {
                let mut race: Race<NotFound> = Race::new(ds.len());
                let mut i: usize = 0;
                while i < ds.len()
                    invariant
                        self.wf(),
                        d < self.listings@.len(),
                        entries@ == self.listings@[d as int]@,
                        ds@ == subdirs(entries@),
                        !has_match(entries@, name@, item_type),
                        forall|k: int|
                            0 <= k < ds.len() ==> (#[trigger] ds@[k]) < entries@.len() && descends(
                                *self,
                                d as int,
                                ds@[k] as int,
                            ),
                        forall|j: int|
                            0 <= j < entries@.len() && (#[trigger] entries@[j]).kind == EntryKind::Directory
                                ==> exists|k: int| 0 <= k < ds@.len() && ds@[k] == j,
                        i <= ds.len(),
                        race.wf(),
                        !race.settled(),
                        race.pending_spec() == ds.len() - i,
                        forall|k: int|
                            0 <= k < i ==> !present_in(
                                *self,
                                link(*self, d as int, (#[trigger] ds@[k]) as int),
                                name@,
                                item_type,
                            ),
                    decreases ds.len() - i,
                {
                    assert(descends(*self, d as int, ds@[i as int] as int));
                    let sub = self.links[d][ds[i]];
                    let outcome = self.search_from(sub, name, item_type);
                    let ghost o = outcome;
                    match race.on_branch_done(outcome) {
                        RaceStep::Won(p) => {
                            assert(found_in(*self, sub as int, name@, item_type, p@));
                            assert(0 <= ds@[i as int] < self.listings@[d as int]@.len());
                            return Ok(p);
                        },
                        RaceStep::Lost(e) => {
                            assert(o is Err);
                            assert forall|j: int| 0 <= j < entries@.len() implies !(#[trigger] entry_matches(
                                entry_at(*self, d as int, j),
                                name@,
                                item_type,
                            )) && !(descends(*self, d as int, j) && present_in(
                                *self,
                                link(*self, d as int, j),
                                name@,
                                item_type,
                            )) by {
                                assert(entry_at(*self, d as int, j) == entries@[j]);
                                if entries@[j].kind == EntryKind::Directory {
                                    let k = choose|k: int| 0 <= k < ds@.len() && ds@[k] == j;
                                    assert(!present_in(*self, link(*self, d as int, ds@[k] as int), name@, item_type));
                                }
                            }
                            return Err(e);
                        },
                        _ => {},
                    }
                    i = i + 1;
                }
                Err(NotFound { name: name.clone() })
            },
        }
    }

    /// Searches the whole tree, from the root.
    pub fn search(&self, name: &String, item_type: ItemType) -> (r: Result<String, NotFound>)
        requires
            self.wf(),
        ensures
            r is Ok <==> present_in(*self, 0, name@, item_type),
            r is Ok ==> found_in(*self, 0, name@, item_type, r->Ok_0@),
            r is Err ==> r->Err_0.name@ == name@,
    {
        self.search_from(0, name, item_type)
    }
}

/// A match in the subtree of a directory is a match in the subtree of the root.
proof fn lemma_present_from_root(t: DirTree, d: int, name: Seq<char>, item_type: ItemType)
    requires
        t.wf(),
        0 <= d < t.listings@.len(),
        present_in(t, d, name, item_type),
    ensures
        present_in(t, 0, name, item_type),
    decreases d,
{
    if d > 0 {
        assert(has_parent(t, d));
        let (p, j) = choose|p: int, j: int|
            0 <= p < d && 0 <= j < t.listings@[p]@.len() && descends(t, p, j) && #[trigger] link(t, p, j) == d;
        assert(present_in(t, p, name, item_type)) by {
            assert(entry_matches(entry_at(t, p, j), name, item_type) || (descends(t, p, j) && present_in(
                t,
                link(t, p, j),
                name,
                item_type,
            )));
        }
        lemma_present_from_root(t, p, name, item_type);
    }
}

/// A match in the subtree of a directory is an entry of the tree that matches.
proof fn lemma_present_is_entry(t: DirTree, d: int, name: Seq<char>, item_type: ItemType)
    requires
        t.wf(),
        0 <= d < t.listings@.len(),
        present_in(t, d, name, item_type),
    ensures
        exists|d2: int, j: int|
            0 <= d2 < t.listings@.len() && 0 <= j < t.listings@[d2]@.len() && entry_matches(
                #[trigger] entry_at(t, d2, j),
                name,
                item_type,
            ),
    decreases t.listings@.len() - d,
{
    let j = choose|j: int|
        0 <= j < t.listings@[d]@.len() && {
            ||| entry_matches(#[trigger] entry_at(t, d, j), name, item_type)
            ||| descends(t, d, j) && present_in(t, link(t, d, j), name, item_type)
        };
    if !entry_matches(entry_at(t, d, j), name, item_type) {
        lemma_present_is_entry(t, link(t, d, j), name, item_type);
    }
}

/// Soundness: a path found in the subtree of a directory is the path of an
/// entry of the tree whose name is exactly the one searched for and whose
/// kind the type filter accepts.
pub proof fn lemma_found_is_match(t: DirTree, d: int, name: Seq<char>, item_type: ItemType, p: Seq<char>)
    requires
        t.wf(),
        0 <= d < t.listings@.len(),
        found_in(t, d, name, item_type, p),
    ensures
        exists|d2: int, j: int|
            0 <= d2 < t.listings@.len() && 0 <= j < t.listings@[d2]@.len() && {
                &&& (#[trigger] entry_at(t, d2, j)).name@ == name
                &&& type_accepts(item_type, entry_at(t, d2, j).kind)
                &&& entry_at(t, d2, j).path@ == p
            },
    decreases t.listings@.len() - d,
{
    let j = choose|j: int|
        0 <= j < t.listings@[d]@.len() && {
            ||| entry_matches(#[trigger] entry_at(t, d, j), name, item_type) && entry_at(t, d, j).path@ == p
            ||| descends(t, d, j) && found_in(t, link(t, d, j), name, item_type, p)
        };
    if !(entry_matches(entry_at(t, d, j), name, item_type) && entry_at(t, d, j).path@ == p) {
        lemma_found_is_match(t, link(t, d, j), name, item_type, p);
    }
}

/// Completeness, at any depth: when any entry of the tree, in any directory
/// however deep, has the name searched for and a kind the filter accepts, the
/// search from the root finds a match.
pub proof fn lemma_match_is_found(t: DirTree, d: int, j: int, name: Seq<char>, item_type: ItemType)
    requires
        t.wf(),
        0 <= d < t.listings@.len(),
        0 <= j < t.listings@[d]@.len(),
        entry_at(t, d, j).name@ == name,
        type_accepts(item_type, entry_at(t, d, j).kind),
    ensures
        present_in(t, 0, name, item_type),
{
    assert(entry_matches(entry_at(t, d, j), name, item_type));
    assert(present_in(t, d, name, item_type));
    lemma_present_from_root(t, d, name, item_type);
}

/// No false positives: in a tree where no entry is named `name`, the search
/// for `name` finds nothing, whatever the type filter.
pub proof fn lemma_absent_name_not_found(t: DirTree, name: Seq<char>, item_type: ItemType)
    requires
        t.wf(),
        forall|d: int, j: int|
            0 <= d < t.listings@.len() && 0 <= j < t.listings@[d]@.len() ==> (#[trigger] entry_at(
                t,
                d,
                j,
            )).name@ != name,
    ensures
        !present_in(t, 0, name, item_type),
{
    if present_in(t, 0, name, item_type) {
        lemma_present_is_entry(t, 0, name, item_type);
    }
}

/// The type filter: where every entry named `name` is a file and there is at
/// least one, the search for a file and the search for either kind find a
/// match, and the search for a directory finds none.
pub proof fn lemma_type_filter_on_files(t: DirTree, d: int, j: int, name: Seq<char>)
    requires
        t.wf(),
        0 <= d < t.listings@.len(),
        0 <= j < t.listings@[d]@.len(),
        entry_at(t, d, j).name@ == name,
        forall|d2: int, j2: int|
            0 <= d2 < t.listings@.len() && 0 <= j2 < t.listings@[d2]@.len() && (#[trigger] entry_at(
                t,
                d2,
                j2,
            )).name@ == name ==> entry_at(t, d2, j2).kind == EntryKind::File,
    ensures
        present_in(t, 0, name, ItemType::File),
        present_in(t, 0, name, ItemType::Either),
        !present_in(t, 0, name, ItemType::Directory),
{
    lemma_match_is_found(t, d, j, name, ItemType::File);
    lemma_match_is_found(t, d, j, name, ItemType::Either);
    if present_in(t, 0, name, ItemType::Directory) {
        lemma_present_is_entry(t, 0, name, ItemType::Directory);
    }
}

} // verus!
