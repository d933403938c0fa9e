//! What one directory listing reports, and how its entries are sorted into
//! files and subdirectories.

use crate::tree::texts;
use vstd::prelude::*;

verus! {

/// How an entry of a listing was classified.
///
/// Only regular files and directories become part of a tree. An entry that
/// is neither (a socket, a device, a link whose target is gone, an entry
/// whose type could not be read) is `Other`, and is left out of the tree.
#[derive(Clone, Copy, Debug, PartialEq, Eq, Structural)]
pub enum EntryKind {
    File,
    Directory,
    Other,
}

impl EntryKind {
    /// The kind of an entry, from what the file system says of it: whether
    /// it is a directory, and whether it is a regular file. Where it claims
    /// to be both, it is taken as a directory; where it is neither, it is
    /// `Other`.
    pub fn of(is_dir: bool, is_file: bool) -> (kind: EntryKind)
        ensures
            kind == if is_dir {
                EntryKind::Directory
            } else if is_file {
                EntryKind::File
            } else {
                EntryKind::Other
            },
    {
        if is_dir {
            EntryKind::Directory
        } else if is_file {
            EntryKind::File
        } else {
            EntryKind::Other
        }
    }
}

/// One entry of a directory listing.
#[derive(Debug, PartialEq, Eq)]
pub struct Entry {
    pub path: String,
    pub kind: EntryKind,
    /// Whether `path` is exactly the name that the system gave, and not a
    /// text that stands in for a name that is no Unicode.
    pub exact: bool,
}

/// The outcome of listing one directory: its entries in listing order, or
/// the reason why it could not be listed. An entry that could not be read at
/// all has no path to go by and is left out of the listing.
#[derive(Debug, PartialEq, Eq)]
pub enum Listing {
    Entries(Vec<Entry>),
    Failed(String),
}

/// The model of an [`Entry`].
pub struct EntryView {
    pub path: Seq<char>,
    pub kind: EntryKind,
    pub exact: bool,
}

/// The model of a [`Listing`].
pub enum ListingView {
    Entries(Seq<EntryView>),
    Failed(Seq<char>),
}

impl View for Entry {
    type V = EntryView;

    open spec fn view(&self) -> EntryView {
        EntryView { path: self.path@, kind: self.kind, exact: self.exact }
    }
}

/// The models of a list of entries.
pub open spec fn entry_views(entries: Seq<Entry>) -> Seq<EntryView> {
    entries.map_values(|e: Entry| e@)
}

impl View for Listing {
    type V = ListingView;

    open spec fn view(&self) -> ListingView {
        match self {
            Listing::Entries(entries) => ListingView::Entries(entry_views(entries@)),
            Listing::Failed(detail) => ListingView::Failed(detail@),
        }
    }
}

/// The paths of the entries of the given kind, in listing order.
pub open spec fn paths_of_kind(entries: Seq<EntryView>, kind: EntryKind) -> Seq<Seq<char>> {
    entries.filter_map(
        |e: EntryView|
            if e.kind == kind {
                Some(e.path)
            } else {
                None
            },
    )
}

/// The files that a listing contributes to its directory.
pub open spec fn files_of(entries: Seq<EntryView>) -> Seq<Seq<char>> {
    paths_of_kind(entries, EntryKind::File)
}

/// The subdirectories that a listing asks to be walked, in listing order.
pub open spec fn subdirs_of(entries: Seq<EntryView>) -> Seq<Seq<char>> {
    paths_of_kind(entries, EntryKind::Directory)
}

/// Every file and every subdirectory of the listing is under its exact path.
/// Entries of kind `Other` do not count: they are no part of the tree.
pub open spec fn exact_of(entries: Seq<EntryView>) -> bool {
    forall|i: int|
        0 <= i < entries.len() ==> (#[trigger] entries[i]).kind == EntryKind::Other
            || entries[i].exact
}

/// No entry of the listing is of kind `Other`.
pub open spec fn all_classified(entries: Seq<EntryView>) -> bool {
    forall|i: int| 0 <= i < entries.len() ==> (#[trigger] entries[i]).kind != EntryKind::Other
}

/// Adding an entry at the end of a listing adds its path to the paths of its
/// own kind and to no others.
pub proof fn lemma_paths_of_kind_push(entries: Seq<EntryView>, entry: EntryView, kind: EntryKind)
    ensures
        paths_of_kind(entries.push(entry), kind) == if entry.kind == kind {
            paths_of_kind(entries, kind).push(entry.path)
        } else {
            paths_of_kind(entries, kind)
        },
{
    let longer = entries.push(entry);
    assert(longer.drop_last() =~= entries);
    assert(longer.last() == entry);
    assert(paths_of_kind(entries, kind) + seq![entry.path] =~= paths_of_kind(entries, kind).push(
        entry.path,
    ));
}

/// The listing has an entry of the given kind with the given path.
pub open spec fn lists(entries: Seq<EntryView>, kind: EntryKind, path: Seq<char>) -> bool {
    exists|i: int|
        0 <= i < entries.len() && (#[trigger] entries[i]).kind == kind && entries[i].path == path
}

/// A path is among the paths of a kind when, and only when, the listing has
/// an entry of that kind with that path.
pub proof fn lemma_paths_of_kind_contains(
    entries: Seq<EntryView>,
    kind: EntryKind,
    path: Seq<char>,
)
    ensures
        paths_of_kind(entries, kind).contains(path) <==> lists(entries, kind, path),
    decreases entries.len(),
{
    if entries.len() > 0 {
        let front = entries.drop_last();
        let last = entries.last();
        assert(front.push(last) =~= entries);
        lemma_paths_of_kind_contains(front, kind, path);
        lemma_paths_of_kind_push(front, last, kind);
        let paths = paths_of_kind(entries, kind);
        if paths.contains(path) {
            let i = choose|i: int| 0 <= i < paths.len() && paths[i] == path;
            if last.kind == kind && i == paths.len() - 1 {
                assert(entries[entries.len() - 1].kind == kind);
            } else {
                assert(paths_of_kind(front, kind)[i] == path);
                let j = choose|j: int|
                    0 <= j < front.len() && (#[trigger] front[j]).kind == kind && front[j].path
                        == path;
                assert(entries[j] == front[j]);
            }
        }
        if lists(entries, kind, path) {
            let j = choose|j: int|
                0 <= j < entries.len() && (#[trigger] entries[j]).kind == kind && entries[j].path
                    == path;
            if j == entries.len() - 1 {
                assert(paths[paths.len() - 1] == path);
            } else {
                assert(front[j] == entries[j]);
                let i = choose|i: int|
                    0 <= i < paths_of_kind(front, kind).len() && paths_of_kind(front, kind)[i]
                        == path;
                assert(paths[i] == path);
            }
        }
    }
}

/// Every entry of a listing that holds only files and directories is kept:
/// the files and the subdirectories together are as many as the entries.
pub proof fn lemma_classified_entries_are_kept(entries: Seq<EntryView>)
    requires
        all_classified(entries),
    ensures
        files_of(entries).len() + subdirs_of(entries).len() == entries.len(),
    decreases entries.len(),
{
    if entries.len() > 0 {
        let front = entries.drop_last();
        let last = entries.last();
        assert(front.push(last) =~= entries);
        assert forall|i: int| 0 <= i < front.len() implies (#[trigger] front[i]).kind
            != EntryKind::Other by {
            assert(front[i] == entries[i]);
        }
        lemma_classified_entries_are_kept(front);
        lemma_paths_of_kind_push(front, last, EntryKind::File);
        lemma_paths_of_kind_push(front, last, EntryKind::Directory);
    }
}

/// Sorts the entries of a listing into the paths of its files and the paths
/// of its subdirectories, each in listing order, and says whether all of
/// these paths are exact. Entries of kind `Other` go to neither.
pub fn partition(entries: Vec<Entry>) -> (parts: (Vec<String>, Vec<String>, bool))
    ensures
        texts(parts.0@) == files_of(entry_views(entries@)),
        texts(parts.1@) == subdirs_of(entry_views(entries@)),
        parts.2 == exact_of(entry_views(entries@)),
{
    let ghost all = entry_views(entries@);
    let mut files: Vec<String> = Vec::new();
    let mut subdirs: Vec<String> = Vec::new();
    let mut exact = true;
    assert(all.take(0) =~= Seq::<EntryView>::empty());
    assert(texts(files@) =~= files_of(all.take(0)));
    assert(texts(subdirs@) =~= subdirs_of(all.take(0)));
    for entry in it: entries
        invariant
            all.len() == it.seq().len(),
            entry_views(it.seq()) == all,
            texts(files@) == files_of(all.take(it.index() as int)),
            texts(subdirs@) == subdirs_of(all.take(it.index() as int)),
            exact == exact_of(all.take(it.index() as int)),
    {
        let ghost seen = it.index();
        let ghost before = all.take(seen as int);
        let ghost after = all.take(seen as int + 1);
        proof {
            assert(before.push(all[seen as int]) =~= after);
            assert(all[seen as int] == entry@);
            lemma_paths_of_kind_push(before, entry@, EntryKind::File);
            lemma_paths_of_kind_push(before, entry@, EntryKind::Directory);
            assert(after[seen as int] == entry@);
            assert forall|i: int| 0 <= i < before.len() implies before[i] == after[i] by {}
            if exact_of(after) {
                assert forall|i: int| 0 <= i < before.len() implies (#[trigger] before[i]).kind
                    == EntryKind::Other || before[i].exact by {
                    assert(before[i] == after[i]);
                }
            }
        }
        let ghost files_before = files@;
        let ghost subdirs_before = subdirs@;
        match entry.kind {
            EntryKind::File => {
                exact = exact && entry.exact;
                files.push(entry.path);
                assert(texts(files@) =~= texts(files_before).push(entry.path@));
            },
            EntryKind::Directory => {
                exact = exact && entry.exact;
                subdirs.push(entry.path);
                assert(texts(subdirs@) =~= texts(subdirs_before).push(entry.path@));
            },
            EntryKind::Other => {},
        }
    }
    assert(all.take(all.len() as int) =~= all);
    (files, subdirs, exact)
}

} // verus!
