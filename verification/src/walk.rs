//! The traversal as a state machine.
//!
//! A [`Walker`] never touches the file system. It names the directory that
//! has to be listed next; its caller lists that directory and hands the
//! outcome back. From the listings the walker builds the tree depth first,
//! visiting the subdirectories of each directory in listing order. A
//! directory that cannot be listed becomes an empty directory, is reported,
//! and does not stop the walk.

use crate::listing::{exact_of, files_of, partition, subdirs_of, Listing, ListingView};
use crate::tree::{branches, texts, Directory, DirectoryEntry, DirectoryEntryView, DirectoryView};
use vstd::prelude::*;
use vstd::string::*;

verus! {

/// A directory whose listing is known and whose subdirectories are being
/// walked: `done` holds those that are finished, and stands for the first
/// `done.len()` of `pending`.
struct Frame {
    path: String,
    files: Vec<String>,
    pending: Vec<String>,
    done: Vec<DirectoryEntry>,
    exact: bool,
}

/// The model of a directory under construction.
pub struct FrameView {
    pub path: Seq<char>,
    pub files: Seq<Seq<char>>,
    pub pending: Seq<Seq<char>>,
    pub done: Seq<DirectoryEntryView>,
    pub exact: bool,
}

/// The model of a [`Walker`]: the root, the directories under construction
/// from the root down to the one whose subdirectory is walked now, and the
/// finished tree once there is one.
pub struct WalkerView {
    pub root: Seq<char>,
    pub stack: Seq<FrameView>,
    pub result: Option<DirectoryView>,
}

impl View for Frame {
    type V = FrameView;

    closed spec fn view(&self) -> FrameView {
        FrameView {
            path: self.path@,
            files: texts(self.files@),
            pending: texts(self.pending@),
            done: branches(self.done@),
            exact: self.exact,
        }
    }
}

/// The models of the directories under construction.
spec fn frames(stack: Seq<Frame>) -> Seq<FrameView> {
    stack.map_values(|f: Frame| f@)
}

/// The line that reports a directory that could not be listed.
pub open spec fn diagnostic_text(path: Seq<char>, detail: Seq<char>) -> Seq<char> {
    "error happened at: "@ + path + seq![' '] + detail
}

impl WalkerView {
    /// The state before anything was listed.
    pub open spec fn start(root: Seq<char>) -> WalkerView {
        WalkerView { root, stack: Seq::empty(), result: None }
    }

    /// Every directory under construction still waits for a subdirectory,
    /// and a finished walk has none under construction.
    pub open spec fn wf(self) -> bool {
        &&& forall|i: int|
            0 <= i < self.stack.len() ==> (#[trigger] self.stack[i]).done.len()
                < self.stack[i].pending.len()
        &&& self.result is Some ==> self.stack.len() == 0
    }

    /// The directory to list next, or `None` when the walk is finished.
    pub open spec fn request(self) -> Option<Seq<char>> {
        if self.result is Some {
            None
        } else if self.stack.len() == 0 {
            Some(self.root)
        } else {
            let top = self.stack.last();
            Some(top.pending[top.done.len() as int])
        }
    }

    /// The state after the directory at `path`, the one that was asked for,
    /// turned out to be `dir`. It becomes the next subdirectory of the
    /// directory above it; a directory that thereby has all its
    /// subdirectories is finished in turn. When the root is finished, it is
    /// the result.
    pub open spec fn complete(self, path: Seq<char>, dir: DirectoryView) -> WalkerView
        decreases self.stack.len(),
    {
        if self.stack.len() == 0 {
            WalkerView { result: Some(dir), ..self }
        } else {
            let top = self.stack.last();
            let done = top.done.push(DirectoryEntryView { dir_path: path, dir });
            if done.len() >= top.pending.len() {
                (WalkerView { stack: self.stack.drop_last(), ..self }).complete(
                    top.path,
                    DirectoryView { files: top.files, dirs: done, exact: top.exact },
                )
            } else {
                WalkerView {
                    stack: self.stack.drop_last().push(FrameView { done, ..top }),
                    ..self
                }
            }
        }
    }

    /// The state after the directory that was asked for has been listed.
    ///
    /// A failed listing and a listing without subdirectories finish that
    /// directory at once, the first as an empty directory. Any other listing
    /// puts the directory under construction, so that its first subdirectory
    /// is asked for next. A finished walk takes no more listings.
    pub open spec fn step(self, listing: ListingView) -> WalkerView {
        match self.request() {
            None => self,
            Some(path) => match listing {
                ListingView::Failed(_) => self.complete(path, DirectoryView::empty()),
                ListingView::Entries(entries) => if subdirs_of(entries).len() == 0 {
                    self.complete(
                        path,
                        DirectoryView {
                            files: files_of(entries),
                            dirs: Seq::empty(),
                            exact: exact_of(entries),
                        },
                    )
                } else {
                    WalkerView {
                        stack: self.stack.push(
                            FrameView {
                                path,
                                files: files_of(entries),
                                pending: subdirs_of(entries),
                                done: Seq::empty(),
                                exact: exact_of(entries),
                            },
                        ),
                        ..self
                    }
                },
            },
        }
    }

    /// The report that a listing calls for: one line for a failed listing
    /// that the walk was waiting for, nothing otherwise.
    pub open spec fn report(self, listing: ListingView) -> Option<Seq<char>> {
        match (self.request(), listing) {
            (Some(path), ListingView::Failed(detail)) => Some(diagnostic_text(path, detail)),
            _ => None,
        }
    }
}

/// The line that reports that the directory at `path` could not be listed,
/// `detail` being the reason.
pub fn diagnostic(path: &str, detail: &str) -> (text: String)
    ensures
        text@ == diagnostic_text(path@, detail@),
{
    proof {
        reveal_strlit(" ");
    }
    let mut text = String::from_str("error happened at: ");
    text.append(path);
    text.append(" ");
    text.append(detail);
    assert(" "@ =~= seq![' ']);
    text
}

/// A walk in progress.
pub struct Walker {
    root: String,
    stack: Vec<Frame>,
    result: Option<Directory>,
}

impl View for Walker {
    type V = WalkerView;

    closed spec fn view(&self) -> WalkerView {
        WalkerView {
            root: self.root@,
            stack: frames(self.stack@),
            result: match self.result {
                Some(dir) => Some(dir@),
                None => None,
            },
        }
    }
}

/// Finishes the directory at `path` as `dir` in the walk whose directories
/// under construction are `stack`.
#[verifier::loop_isolation(false)]
fn complete(root: String, stack: Vec<Frame>, path: String, dir: Directory) -> (walker: Walker)
    requires
        (WalkerView { root: root@, stack: frames(stack@), result: None }).wf(),
    ensures
        walker@ == (WalkerView { root: root@, stack: frames(stack@), result: None }).complete(
            path@,
            dir@,
        ),
        walker@.wf(),
{
    let ghost target = (WalkerView { root: root@, stack: frames(stack@), result: None }).complete(
        path@,
        dir@,
    );
    let mut above = stack;
    let mut child_path = path;
    let mut child = dir;
    loop
        invariant
            (WalkerView { root: root@, stack: frames(above@), result: None }).wf(),
            target == (WalkerView { root: root@, stack: frames(above@), result: None }).complete(
                child_path@,
                child@,
            ),
        decreases above.len(),
    {
        let ghost before = frames(above@);
        match above.pop() {
            None => {
                return Walker { root, stack: above, result: Some(child) };
            },
            Some(top) => {
                assert(frames(above@) =~= before.drop_last());
                assert(top@ == before.last());
                assert(top@.done.len() < top@.pending.len());
                let Frame { path: top_path, files, pending, mut done, exact } = top;
                let ghost done_before = done@;
                done.push(DirectoryEntry::new(child_path, child));
                assert(branches(done@) =~= branches(done_before).push(
                    DirectoryEntryView { dir_path: child_path@, dir: child@ },
                ));
                if done.len() >= pending.len() {
                    child_path = top_path;
                    child = Directory::listed(files, done, exact);
                    let ghost rest = frames(above@);
                    assert forall|i: int| 0 <= i < rest.len() implies (#[trigger] rest[i]).done.len()
                        < rest[i].pending.len() by {
                        assert(rest[i] == before[i]);
                    }
                } else {
                    let frame = Frame { path: top_path, files, pending, done, exact };
                    above.push(frame);
                    assert(frames(above@) =~= before.drop_last().push(frame@));
                    let walker = Walker { root, stack: above, result: None };
                    assert forall|i: int| 0 <= i < walker@.stack.len() implies (
                    #[trigger] walker@.stack[i]).done.len() < walker@.stack[i].pending.len() by {
                        if i < before.len() - 1 {
                            assert(walker@.stack[i] == before[i]);
                        }
                    }
                    return walker;
                }
            },
        }
    }
}

impl Walker {
    #[verifier::type_invariant]
    spec fn well_formed(&self) -> bool {
        self@.wf()
    }

    /// A walk of the tree under `root`, with nothing listed yet.
    pub fn new(root: String) -> (walker: Walker)
        ensures
            walker@ == WalkerView::start(root@),
    {
        let walker = Walker { root, stack: Vec::new(), result: None };
        assert(walker@.stack =~= Seq::empty());
        walker
    }

    /// The directory to list next, or `None` when the walk is finished.
    pub fn request(&self) -> (path: Option<String>)
        ensures
            match path {
                Some(p) => self@.request() == Some(p@),
                None => self@.request() is None,
            },
    {
        proof {
            use_type_invariant(self);
        }
        if self.result.is_some() {
            None
        } else if self.stack.len() == 0 {
            Some(self.root.clone())
        } else {
            let top = &self.stack[self.stack.len() - 1];
            assert(top@ == self@.stack.last());
            Some(top.pending[top.done.len()].clone())
        }
    }

    /// Whether the walk is finished.
    pub fn is_finished(&self) -> (finished: bool)
        ensures
            finished == self@.result is Some,
    {
        self.result.is_some()
    }

    /// Takes the outcome of listing the directory that [`Walker::request`]
    /// names. Returns the walk after it, and the line to report if the
    /// listing failed.
    pub fn supply(self, listing: Listing) -> (next: (Walker, Option<String>))
        ensures
            next.0@ == self@.step(listing@),
            next.0@.wf(),
            match next.1 {
                Some(text) => self@.report(listing@) == Some(text@),
                None => self@.report(listing@) is None,
            },
    {
        proof {
            use_type_invariant(&self);
        }
        let path = match self.request() {
            None => {
                return (self, None);
            },
            Some(path) => path,
        };
        let Walker { root, mut stack, result: _ } = self;
        match listing {
            Listing::Failed(detail) => {
                let text = diagnostic(path.as_str(), detail.as_str());
                let empty = Directory::new(Vec::new(), Vec::new());
                assert(empty@ =~= DirectoryView::empty()) by {
                    assert(empty@.files =~= Seq::empty());
                    assert(empty@.dirs =~= Seq::empty());
                }
                (complete(root, stack, path, empty), Some(text))
            },
            Listing::Entries(entries) => {
                let (files, subdirs, exact) = partition(entries);
                if subdirs.len() == 0 {
                    let leaf = Directory::listed(files, Vec::new(), exact);
                    assert(leaf@.dirs =~= Seq::empty());
                    (complete(root, stack, path, leaf), None)
                } else {
                    let ghost before = frames(stack@);
                    let frame = Frame { path, files, pending: subdirs, done: Vec::new(), exact };
                    assert(frame@.done =~= Seq::empty());
                    stack.push(frame);
                    assert(frames(stack@) =~= before.push(frame@));
                    let walker = Walker { root, stack, result: None };
                    assert forall|i: int| 0 <= i < walker@.stack.len() implies (
                    #[trigger] walker@.stack[i]).done.len() < walker@.stack[i].pending.len() by {
                        if i < before.len() {
                            assert(walker@.stack[i] == before[i]);
                        }
                    }
                    (walker, None)
                }
            },
        }
    }

    /// The tree, once the walk is finished.
    pub fn into_tree(self) -> (tree: Option<Directory>)
        ensures
            match tree {
                Some(dir) => self@.result == Some(dir@),
                None => self@.result is None,
            },
    {
        self.result
    }
}

} // verus!
