//! The plain-text form of a tree.
//!
//! A directory is written as one line for each of its files, followed by its
//! subdirectories in order. A subdirectory is written as its path with a
//! trailing `/` on a line of its own, followed by the directory found there.
//! The root is written as a directory, so its own path does not appear.

use crate::tree::{Directory, DirectoryEntry, DirectoryEntryView, DirectoryView};
use vstd::prelude::*;
use vstd::string::*;

verus! {

/// The first `count` of `files`, each followed by a line feed.
pub open spec fn file_lines(files: Seq<Seq<char>>, count: nat) -> Seq<char>
    decreases count,
{
    if count == 0 || count > files.len() {
        Seq::empty()
    } else {
        file_lines(files, (count - 1) as nat) + files[count - 1] + seq!['\n']
    }
}

/// The text of the first `count` of `dirs`, one after the other.
pub open spec fn entries_text(dirs: Seq<DirectoryEntryView>, count: nat) -> Seq<char>
    decreases dirs, count,
{
    if count == 0 || count > dirs.len() {
        Seq::empty()
    } else {
        entries_text(dirs, (count - 1) as nat) + dirs[count - 1].text()
    }
}

impl DirectoryView {
    /// The text of a directory: its files, one on each line, then its
    /// subdirectories.
    pub open spec fn text(self) -> Seq<char>
        decreases self, 0nat,
    {
        file_lines(self.files, self.files.len()) + entries_text(self.dirs, self.dirs.len())
    }
}

impl DirectoryEntryView {
    /// The text of a subdirectory: the line that names it, then the
    /// directory.
    pub open spec fn text(self) -> Seq<char>
        decreases self, 0nat,
    {
        self.dir_path + seq!['/', '\n'] + self.dir.text()
    }
}

/// A directory without files and without subdirectories is written as
/// nothing at all.
pub proof fn lemma_empty_directory_has_no_text(dir: DirectoryView)
    requires
        dir.files.len() == 0,
        dir.dirs.len() == 0,
    ensures
        dir.text() == Seq::<char>::empty(),
{
    assert(dir.text() =~= Seq::<char>::empty());
}

impl Directory {
    /// The plain text of this directory as the root of a tree.
    pub fn to_string(&self) -> (text: String)
        ensures
            text@ == self@.text(),
    {
        let mut text = String::new();
        self.write_to(&mut text);
        assert(text@ =~= self@.text());
        text
    }

    /// Appends the plain text of this directory to `out`.
    pub fn write_to(&self, out: &mut String)
        ensures
            final(out)@ == old(out)@ + self@.text(),
        decreases self,
    {
        let ghost start = out@;
        proof {
            self.lemma_view();
        }
        let mut i: usize = 0;
        while i < self.files.len()
            invariant
                i <= self.files.len(),
                self@.files.len() == self.files.len(),
                out@ == start + file_lines(self@.files, i as nat),
            decreases self.files.len() - i,
        {
            out.append(self.files[i].as_str());
            out.append("\n");
            proof {
                reveal_strlit("\n");
                assert("\n"@ =~= seq!['\n']);
                assert(self@.files[i as int] == self.files[i as int]@);
                assert(out@ =~= start + file_lines(self@.files, (i + 1) as nat));
            }
            i = i + 1;
        }
        let ghost middle = out@;
        let mut j: usize = 0;
        while j < self.dirs.len()
            invariant
                j <= self.dirs.len(),
                self@.dirs.len() == self.dirs.len(),
                out@ == middle + entries_text(self@.dirs, j as nat),
            decreases self.dirs.len() - j,
        {
            proof {
                assert(self@.dirs[j as int] == self.dirs[j as int]@);
            }
            self.dirs[j].write_to(out);
            proof {
                assert(out@ =~= middle + entries_text(self@.dirs, (j + 1) as nat));
            }
            j = j + 1;
        }
        assert(out@ =~= start + self@.text());
    }
}

impl DirectoryEntry {
    /// The plain text of this subdirectory: its path with a trailing `/`,
    /// then everything below it.
    pub fn to_string(&self) -> (text: String)
        ensures
            text@ == self@.text(),
    {
        let mut text = String::new();
        self.write_to(&mut text);
        assert(text@ =~= self@.text());
        text
    }

    /// Appends the plain text of this subdirectory to `out`.
    pub fn write_to(&self, out: &mut String)
        ensures
            final(out)@ == old(out)@ + self@.text(),
        decreases self,
    {
        let ghost start = out@;
        proof {
            reveal_strlit("/\n");
        }
        out.append(self.dir_path.as_str());
        out.append("/\n");
        self.dir.write_to(out);
        proof {
            assert("/\n"@ =~= seq!['/', '\n']);
            assert(out@ =~= start + self@.text());
        }
    }
}

} // verus!
