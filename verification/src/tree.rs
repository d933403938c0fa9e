//! The directory tree and its mathematical model.

use vstd::prelude::*;

verus! {

/// One directory: the files directly inside it and its subdirectories, both
/// in the order in which the directory listing gave them.
#[derive(Debug, PartialEq, Eq)]
pub struct Directory {
    pub files: Vec<String>,
    pub dirs: Vec<DirectoryEntry>,
    /// Whether each path directly in this directory, of a file or of a
    /// subdirectory, is exactly the name that the system gave. A name that
    /// is no Unicode has no exact text; the text that stands in for it is
    /// good for showing, not for writing the tree as a document.
    pub exact: bool,
}

/// A subdirectory: its path together with the directory found there.
#[derive(Debug, PartialEq, Eq)]
pub struct DirectoryEntry {
    pub dir_path: String,
    pub dir: Directory,
}

/// The model of a [`Directory`]: paths are character sequences and the two
/// lists are mathematical sequences.
pub struct DirectoryView {
    pub files: Seq<Seq<char>>,
    pub dirs: Seq<DirectoryEntryView>,
    pub exact: bool,
}

/// The model of a [`DirectoryEntry`].
pub struct DirectoryEntryView {
    pub dir_path: Seq<char>,
    pub dir: DirectoryView,
}

/// The character sequences that a list of strings holds.
pub open spec fn texts(strings: Seq<String>) -> Seq<Seq<char>> {
    strings.map_values(|s: String| s@)
}

/// The models of a list of subdirectories.
pub open spec fn branches(entries: Seq<DirectoryEntry>) -> Seq<DirectoryEntryView> {
    entries.map_values(|e: DirectoryEntry| e@)
}

impl DirectoryView {
    /// The directory that holds nothing.
    pub open spec fn empty() -> DirectoryView {
        DirectoryView { files: Seq::empty(), dirs: Seq::empty(), exact: true }
    }

    /// Every path in the tree is exact: those of this directory and those of
    /// every directory below it.
    pub open spec fn exact_throughout(self) -> bool
        decreases self,
    {
        &&& self.exact
        &&& forall|i: int|
            0 <= i < self.dirs.len() ==> (#[trigger] self.dirs[i]).dir.exact_throughout()
    }
}

impl View for Directory {
    type V = DirectoryView;

    open spec fn view(&self) -> DirectoryView
        decreases self,
    {
        DirectoryView {
            files: texts(self.files@),
            dirs: Seq::new(
                self.dirs@.len(),
                |i: int|
                    if 0 <= i < self.dirs@.len() {
                        self.dirs@[i]@
                    } else {
                        arbitrary()
                    },
            ),
            exact: self.exact,
        }
    }
}

impl View for DirectoryEntry {
    type V = DirectoryEntryView;

    open spec fn view(&self) -> DirectoryEntryView
        decreases self,
    {
        DirectoryEntryView { dir_path: self.dir_path@, dir: self.dir@ }
    }
}

impl Directory {
    /// A directory with the given files and subdirectories, all of them
    /// under their exact paths.
    pub fn new(files: Vec<String>, dirs: Vec<DirectoryEntry>) -> (dir: Directory)
        ensures
            dir.files == files,
            dir.dirs == dirs,
            dir.exact,
            dir@ == (DirectoryView { files: texts(files@), dirs: branches(dirs@), exact: true }),
    {
        Directory::listed(files, dirs, true)
    }

    /// A directory with the given files and subdirectories; `exact` says
    /// whether all their paths are exact.
    pub fn listed(files: Vec<String>, dirs: Vec<DirectoryEntry>, exact: bool) -> (dir: Directory)
        ensures
            dir.files == files,
            dir.dirs == dirs,
            dir.exact == exact,
            dir@ == (DirectoryView { files: texts(files@), dirs: branches(dirs@), exact }),
    {
        let dir = Directory { files, dirs, exact };
        proof {
            dir.lemma_view();
        }
        dir
    }

    /// The model of a directory holds the models of its subdirectories, one
    /// for one and in the same order.
    pub proof fn lemma_view(&self)
        ensures
            self@.files == texts(self.files@),
            self@.dirs == branches(self.dirs@),
            self@.exact == self.exact,
    {
        assert(self@.dirs =~= branches(self.dirs@));
    }
}

impl DirectoryEntry {
    /// The subdirectory at `dir_path` whose contents are `dir`.
    pub fn new(dir_path: String, dir: Directory) -> (entry: DirectoryEntry)
        ensures
            entry.dir_path == dir_path,
            entry.dir == dir,
            entry@ == (DirectoryEntryView { dir_path: dir_path@, dir: dir@ }),
    {
        DirectoryEntry { dir_path, dir }
    }
}

} // verus!
