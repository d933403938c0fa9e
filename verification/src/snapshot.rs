//! What a walk guarantees about the tree it builds.
//!
//! The file system is modelled by what it answers: a function from a path to
//! the listing of the directory at that path. A tree is a snapshot of a path
//! when it holds, level by level, exactly what those listings report. The
//! laws below say that a walk whose requests are answered by such a function
//! ends, if it ends, with the snapshot of its root, and that it ends with it
//! whenever there is one.

use crate::listing::{
    all_classified, exact_of, files_of, lemma_classified_entries_are_kept,
    lemma_paths_of_kind_contains, lists, paths_of_kind, subdirs_of, EntryKind, EntryView,
    ListingView,
};
use crate::tree::{DirectoryEntryView, DirectoryView};
use crate::walk::{FrameView, WalkerView};
use vstd::prelude::*;

verus! {

/// `dir` is what the listings `fs` report at `path` and below: a directory
/// that cannot be listed is empty; one that can holds the files of its
/// listing and, for each subdirectory of the listing and in the same order,
/// an entry with that path and the snapshot of that path, and is exact when
/// the files and subdirectories of its listing are.
pub open spec fn snapshot(
    fs: spec_fn(Seq<char>) -> ListingView,
    path: Seq<char>,
    dir: DirectoryView,
) -> bool
    decreases dir,
{
    match fs(path) {
        ListingView::Failed(_) => dir == DirectoryView::empty(),
        ListingView::Entries(entries) => {
            &&& dir.files == files_of(entries)
            &&& dir.exact == exact_of(entries)
            &&& dir.dirs.len() == subdirs_of(entries).len()
            &&& forall|i: int|
                0 <= i < dir.dirs.len() ==> {
                    &&& (#[trigger] dir.dirs[i]).dir_path == subdirs_of(entries)[i]
                    &&& snapshot(fs, subdirs_of(entries)[i], dir.dirs[i].dir)
                }
        },
    }
}

/// At `path` and at every level below it, the files and the subdirectory
/// entries of `dir` are together as many as the entries that the listing of
/// that level reports.
pub open spec fn counts_match(
    fs: spec_fn(Seq<char>) -> ListingView,
    path: Seq<char>,
    dir: DirectoryView,
) -> bool
    decreases dir,
{
    &&& fs(path) matches ListingView::Entries(entries) ==> dir.files.len() + dir.dirs.len()
        == entries.len()
    &&& forall|i: int|
        0 <= i < dir.dirs.len() ==> counts_match(
            fs,
            (#[trigger] dir.dirs[i]).dir_path,
            dir.dirs[i].dir,
        )
}

/// Every listing that `fs` reports holds only regular files and directories.
pub open spec fn only_files_and_directories(fs: spec_fn(Seq<char>) -> ListingView) -> bool {
    forall|path: Seq<char>| #[trigger]
        fs(path) matches ListingView::Entries(entries) ==> all_classified(entries)
}

/// The directory under construction `frame` agrees with `fs`: its files and
/// pending subdirectories are those of the listing of its path, and each
/// finished subdirectory is the snapshot of the pending path it stands for.
pub open spec fn frame_follows(fs: spec_fn(Seq<char>) -> ListingView, frame: FrameView) -> bool {
    &&& fs(frame.path) matches ListingView::Entries(entries)
    &&& frame.files == files_of(entries)
    &&& frame.pending == subdirs_of(entries)
    &&& frame.exact == exact_of(entries)
    &&& forall|j: int|
        0 <= j < frame.done.len() ==> {
            &&& (#[trigger] frame.done[j]).dir_path == frame.pending[j]
            &&& snapshot(fs, frame.pending[j], frame.done[j].dir)
        }
}

/// The path that the directory under construction at `depth` was asked for
/// under: the root at the bottom, and above it the subdirectory that the
/// directory below is waiting for.
pub open spec fn asked_path(walker: WalkerView, depth: int) -> Seq<char> {
    if depth == 0 {
        walker.root
    } else {
        let below = walker.stack[depth - 1];
        below.pending[below.done.len() as int]
    }
}

/// Everything that the walk has built so far agrees with `fs`.
pub open spec fn follows(walker: WalkerView, fs: spec_fn(Seq<char>) -> ListingView) -> bool {
    &&& forall|k: int|
        0 <= k < walker.stack.len() ==> {
            &&& frame_follows(fs, #[trigger] walker.stack[k])
            &&& walker.stack[k].path == asked_path(walker, k)
        }
    &&& walker.result matches Some(dir) ==> snapshot(fs, walker.root, dir)
}

/// The state of a walk after at most `steps` of its requests were answered
/// by `fs`. A finished walk stays as it is.
pub open spec fn run(walker: WalkerView, fs: spec_fn(Seq<char>) -> ListingView, steps: nat)
    -> WalkerView
    decreases steps,
{
    if steps == 0 {
        walker
    } else {
        match walker.request() {
            None => walker,
            Some(path) => run(walker.step(fs(path)), fs, (steps - 1) as nat),
        }
    }
}

/// The number of directories in a tree, its root included: the number of
/// listings that a walk of it takes.
pub open spec fn size(dir: DirectoryView) -> nat
    decreases dir,
{
    1 + size_of_first(dir.dirs, dir.dirs.len())
}

/// The number of directories in the first `count` subdirectories.
pub open spec fn size_of_first(dirs: Seq<DirectoryEntryView>, count: nat) -> nat
    decreases dirs, count,
{
    if count == 0 || count > dirs.len() {
        0
    } else {
        size_of_first(dirs, (count - 1) as nat) + size(dirs[count - 1].dir)
    }
}

/// A listed directory is finished only by a tree that agrees with `fs`, and
/// finishing it keeps the walk in agreement with `fs`.
pub proof fn lemma_complete_follows(
    walker: WalkerView,
    fs: spec_fn(Seq<char>) -> ListingView,
    path: Seq<char>,
    dir: DirectoryView,
)
    requires
        walker.wf(),
        follows(walker, fs),
        walker.request() == Some(path),
        snapshot(fs, path, dir),
    ensures
        walker.complete(path, dir).wf(),
        walker.complete(path, dir).root == walker.root,
        follows(walker.complete(path, dir), fs),
    decreases walker.stack.len(),
{
    if walker.stack.len() > 0 {
        let top = walker.stack.last();
        let done = top.done.push(DirectoryEntryView { dir_path: path, dir });
        assert(frame_follows(fs, top));
        assert(top.path == asked_path(walker, walker.stack.len() - 1));
        if done.len() >= top.pending.len() {
            let below = WalkerView { stack: walker.stack.drop_last(), ..walker };
            let built = DirectoryView { files: top.files, dirs: done, exact: top.exact };
            assert forall|i: int| 0 <= i < built.dirs.len() implies {
                &&& (#[trigger] built.dirs[i]).dir_path == top.pending[i]
                &&& snapshot(fs, top.pending[i], built.dirs[i].dir)
            } by {
                if i < top.done.len() {
                    assert(built.dirs[i] == top.done[i]);
                }
            }
            assert(snapshot(fs, top.path, built));
            assert forall|k: int| 0 <= k < below.stack.len() implies {
                &&& (#[trigger] below.stack[k]).done.len() < below.stack[k].pending.len()
                &&& frame_follows(fs, below.stack[k])
                &&& below.stack[k].path == asked_path(below, k)
            } by {
                assert(below.stack[k] == walker.stack[k]);
                assert(asked_path(below, k) == asked_path(walker, k));
            }
            lemma_complete_follows(below, fs, top.path, built);
        } else {
            let frame = FrameView { done, ..top };
            let next = WalkerView { stack: walker.stack.drop_last().push(frame), ..walker };
            assert(next == walker.complete(path, dir));
            assert forall|j: int| 0 <= j < frame.done.len() implies {
                &&& (#[trigger] frame.done[j]).dir_path == frame.pending[j]
                &&& snapshot(fs, frame.pending[j], frame.done[j].dir)
            } by {
                if j < top.done.len() {
                    assert(frame.done[j] == top.done[j]);
                }
            }
            assert(frame_follows(fs, frame));
            assert forall|k: int| 0 <= k < next.stack.len() implies {
                &&& (#[trigger] next.stack[k]).done.len() < next.stack[k].pending.len()
                &&& frame_follows(fs, next.stack[k])
                &&& next.stack[k].path == asked_path(next, k)
            } by {
                if k < walker.stack.len() - 1 {
                    assert(next.stack[k] == walker.stack[k]);
                    assert(asked_path(next, k) == asked_path(walker, k));
                } else {
                    assert(asked_path(next, k) == asked_path(walker, k));
                }
            }
        }
    }
}

/// A walk that agrees with `fs` still does after `fs` answered its request.
pub proof fn lemma_step_follows(walker: WalkerView, fs: spec_fn(Seq<char>) -> ListingView)
    requires
        walker.wf(),
        follows(walker, fs),
        walker.request() is Some,
    ensures
        walker.step(fs(walker.request().unwrap())).wf(),
        walker.step(fs(walker.request().unwrap())).root == walker.root,
        follows(walker.step(fs(walker.request().unwrap())), fs),
{
    let path = walker.request().unwrap();
    match fs(path) {
        ListingView::Failed(_) => {
            lemma_complete_follows(walker, fs, path, DirectoryView::empty());
        },
        ListingView::Entries(entries) => {
            if subdirs_of(entries).len() == 0 {
                lemma_complete_follows(
                    walker,
                    fs,
                    path,
                    DirectoryView {
                        files: files_of(entries),
                        dirs: Seq::empty(),
                        exact: exact_of(entries),
                    },
                );
            } else {
                let frame = FrameView {
                    path,
                    files: files_of(entries),
                    pending: subdirs_of(entries),
                    done: Seq::empty(),
                    exact: exact_of(entries),
                };
                let next = WalkerView { stack: walker.stack.push(frame), ..walker };
                assert(frame_follows(fs, frame));
                assert forall|k: int| 0 <= k < next.stack.len() implies {
                    &&& (#[trigger] next.stack[k]).done.len() < next.stack[k].pending.len()
                    &&& frame_follows(fs, next.stack[k])
                    &&& next.stack[k].path == asked_path(next, k)
                } by {
                    if k < walker.stack.len() {
                        assert(next.stack[k] == walker.stack[k]);
                        assert(asked_path(next, k) == asked_path(walker, k));
                    } else if k > 0 {
                        assert(next.stack[k - 1] == walker.stack.last());
                    }
                }
            }
        },
    }
}

/// However many requests `fs` answers, the walk stays well formed and in
/// agreement with `fs`.
pub proof fn lemma_run_follows(
    walker: WalkerView,
    fs: spec_fn(Seq<char>) -> ListingView,
    steps: nat,
)
    requires
        walker.wf(),
        follows(walker, fs),
    ensures
        run(walker, fs, steps).wf(),
        run(walker, fs, steps).root == walker.root,
        follows(run(walker, fs, steps), fs),
    decreases steps,
{
    if steps > 0 && walker.request() is Some {
        lemma_step_follows(walker, fs);
        lemma_run_follows(walker.step(fs(walker.request().unwrap())), fs, (steps - 1) as nat);
    }
}

/// A walk of `root` whose requests are answered by `fs` can only end with
/// the snapshot of `root`.
pub proof fn lemma_walk_yields_snapshot(
    fs: spec_fn(Seq<char>) -> ListingView,
    root: Seq<char>,
    steps: nat,
)
    ensures
        run(WalkerView::start(root), fs, steps).result matches Some(dir) ==> snapshot(
            fs,
            root,
            dir,
        ),
{
    lemma_run_follows(WalkerView::start(root), fs, steps);
}

/// A path has at most one snapshot: two walks over the same listings build
/// the same tree, files and subdirectories in the same order.
pub proof fn lemma_snapshot_unique(
    fs: spec_fn(Seq<char>) -> ListingView,
    path: Seq<char>,
    a: DirectoryView,
    b: DirectoryView,
)
    requires
        snapshot(fs, path, a),
        snapshot(fs, path, b),
    ensures
        a == b,
    decreases a,
{
    match fs(path) {
        ListingView::Failed(_) => {},
        ListingView::Entries(entries) => {
            assert forall|i: int| 0 <= i < a.dirs.len() implies a.dirs[i] == b.dirs[i] by {
                lemma_snapshot_unique(fs, subdirs_of(entries)[i], a.dirs[i].dir, b.dirs[i].dir);
            }
            assert(a.dirs =~= b.dirs);
        },
    }
}

/// Where every listing holds only regular files and directories, a snapshot
/// has at each level as many files and subdirectory entries as the listing
/// of that level has entries.
pub proof fn lemma_snapshot_counts(
    fs: spec_fn(Seq<char>) -> ListingView,
    path: Seq<char>,
    dir: DirectoryView,
)
    requires
        only_files_and_directories(fs),
        snapshot(fs, path, dir),
    ensures
        counts_match(fs, path, dir),
    decreases dir,
{
    match fs(path) {
        ListingView::Failed(_) => {},
        ListingView::Entries(entries) => {
            lemma_classified_entries_are_kept(entries);
            assert forall|i: int| 0 <= i < dir.dirs.len() implies counts_match(
                fs,
                (#[trigger] dir.dirs[i]).dir_path,
                dir.dirs[i].dir,
            ) by {
                lemma_snapshot_counts(fs, dir.dirs[i].dir_path, dir.dirs[i].dir);
            }
        },
    }
}

/// Two walks of the same root whose requests are answered by the same `fs`
/// end, if both end, with the same tree: the same files and the same
/// subdirectories at every level, in the same order.
pub proof fn lemma_walks_agree(
    fs: spec_fn(Seq<char>) -> ListingView,
    root: Seq<char>,
    steps: nat,
    other_steps: nat,
)
    requires
        run(WalkerView::start(root), fs, steps).result is Some,
        run(WalkerView::start(root), fs, other_steps).result is Some,
    ensures
        run(WalkerView::start(root), fs, steps).result == run(
            WalkerView::start(root),
            fs,
            other_steps,
        ).result,
{
    lemma_walk_yields_snapshot(fs, root, steps);
    lemma_walk_yields_snapshot(fs, root, other_steps);
    lemma_snapshot_unique(
        fs,
        root,
        run(WalkerView::start(root), fs, steps).result.unwrap(),
        run(WalkerView::start(root), fs, other_steps).result.unwrap(),
    );
}

/// The two listing functions report, for every path, the same entries,
/// whatever their order: both fail, or both list the same set of entries.
pub open spec fn same_entries(
    fs: spec_fn(Seq<char>) -> ListingView,
    other: spec_fn(Seq<char>) -> ListingView,
) -> bool {
    forall|path: Seq<char>|
        match (#[trigger] fs(path), #[trigger] other(path)) {
            (ListingView::Entries(a), ListingView::Entries(b)) => a.to_set() == b.to_set(),
            (ListingView::Failed(_), ListingView::Failed(_)) => true,
            _ => false,
        }
}

/// The paths of the subdirectories of a directory, in order.
pub open spec fn dir_paths(dir: DirectoryView) -> Seq<Seq<char>> {
    dir.dirs.map_values(|e: DirectoryEntryView| e.dir_path)
}

/// The two trees hold the same set of files and the same set of
/// subdirectory paths at every level: at the root, and in every two
/// subdirectories of theirs that have the same path.
pub open spec fn same_sets(a: DirectoryView, b: DirectoryView) -> bool
    decreases a,
{
    &&& a.files.to_set() == b.files.to_set()
    &&& dir_paths(a).to_set() == dir_paths(b).to_set()
    &&& forall|i: int, j: int|
        0 <= i < a.dirs.len() && 0 <= j < b.dirs.len() && (#[trigger] a.dirs[i]).dir_path == (
        #[trigger] b.dirs[j]).dir_path ==> same_sets(a.dirs[i].dir, b.dirs[j].dir)
}

/// Listings with the same entries give paths of a kind that are the same as
/// sets.
proof fn lemma_same_paths(a: Seq<EntryView>, b: Seq<EntryView>, kind: EntryKind)
    requires
        a.to_set() == b.to_set(),
    ensures
        paths_of_kind(a, kind).to_set() == paths_of_kind(b, kind).to_set(),
{
    let left = paths_of_kind(a, kind);
    let right = paths_of_kind(b, kind);
    assert forall|path: Seq<char>| left.to_set().contains(path) == right.to_set().contains(
        path,
    ) by {
        lemma_paths_of_kind_contains(a, kind, path);
        lemma_paths_of_kind_contains(b, kind, path);
        if lists(a, kind, path) {
            let i = choose|i: int|
                0 <= i < a.len() && (#[trigger] a[i]).kind == kind && a[i].path == path;
            assert(a.to_set().contains(a[i]));
            assert(b.contains(a[i]));
            let j = choose|j: int| 0 <= j < b.len() && b[j] == a[i];
            assert(b[j].kind == kind);
        }
        if lists(b, kind, path) {
            let i = choose|i: int|
                0 <= i < b.len() && (#[trigger] b[i]).kind == kind && b[i].path == path;
            assert(b.to_set().contains(b[i]));
            assert(a.contains(b[i]));
            let j = choose|j: int| 0 <= j < a.len() && a[j] == b[i];
            assert(a[j].kind == kind);
        }
    }
    assert(left.to_set() =~= right.to_set());
}

/// Snapshots of the same path under listings that report the same entries,
/// in whatever order, hold the same set of files and the same set of
/// subdirectory paths at every level.
pub proof fn lemma_snapshots_hold_same_sets(
    fs: spec_fn(Seq<char>) -> ListingView,
    other: spec_fn(Seq<char>) -> ListingView,
    path: Seq<char>,
    a: DirectoryView,
    b: DirectoryView,
)
    requires
        same_entries(fs, other),
        snapshot(fs, path, a),
        snapshot(other, path, b),
    ensures
        same_sets(a, b),
    decreases a,
{
    match (fs(path), other(path)) {
        (ListingView::Entries(left), ListingView::Entries(right)) => {
            lemma_same_paths(left, right, EntryKind::File);
            lemma_same_paths(left, right, EntryKind::Directory);
            assert(dir_paths(a) =~= subdirs_of(left));
            assert(dir_paths(b) =~= subdirs_of(right));
            assert forall|i: int, j: int|
                0 <= i < a.dirs.len() && 0 <= j < b.dirs.len() && (#[trigger] a.dirs[i]).dir_path
                    == (#[trigger] b.dirs[j]).dir_path implies same_sets(
                a.dirs[i].dir,
                b.dirs[j].dir,
            ) by {
                lemma_snapshots_hold_same_sets(
                    fs,
                    other,
                    a.dirs[i].dir_path,
                    a.dirs[i].dir,
                    b.dirs[j].dir,
                );
            }
        },
        (ListingView::Failed(_), ListingView::Failed(_)) => {
            assert(dir_paths(a) =~= dir_paths(b));
        },
        _ => {},
    }
}

/// Two walks of the same root, over listings that report the same entries
/// in whatever order, end with trees that hold the same set of files and
/// the same set of subdirectory paths at every level.
pub proof fn lemma_walks_hold_same_sets(
    fs: spec_fn(Seq<char>) -> ListingView,
    other: spec_fn(Seq<char>) -> ListingView,
    root: Seq<char>,
    steps: nat,
    other_steps: nat,
)
    requires
        same_entries(fs, other),
    ensures
        match (
            run(WalkerView::start(root), fs, steps).result,
            run(WalkerView::start(root), other, other_steps).result,
        ) {
            (Some(a), Some(b)) => same_sets(a, b),
            _ => true,
        },
{
    lemma_walk_yields_snapshot(fs, root, steps);
    lemma_walk_yields_snapshot(other, root, other_steps);
    match (
        run(WalkerView::start(root), fs, steps).result,
        run(WalkerView::start(root), other, other_steps).result,
    ) {
        (Some(a), Some(b)) => {
            lemma_snapshots_hold_same_sets(fs, other, root, a, b);
        },
        _ => {},
    }
}

/// Where every listing holds only regular files and directories, the tree
/// that a walk ends with has at each level as many files and subdirectory
/// entries as the listing of that level has entries.
pub proof fn lemma_walk_counts(
    fs: spec_fn(Seq<char>) -> ListingView,
    root: Seq<char>,
    steps: nat,
)
    requires
        only_files_and_directories(fs),
    ensures
        run(WalkerView::start(root), fs, steps).result matches Some(dir) ==> counts_match(
            fs,
            root,
            dir,
        ),
{
    lemma_walk_yields_snapshot(fs, root, steps);
    match run(WalkerView::start(root), fs, steps).result {
        Some(dir) => {
            lemma_snapshot_counts(fs, root, dir);
        },
        None => {},
    }
}

/// Answering `first + more` requests is answering `first` and then `more`.
pub proof fn lemma_run_add(
    walker: WalkerView,
    fs: spec_fn(Seq<char>) -> ListingView,
    first: nat,
    more: nat,
)
    ensures
        run(walker, fs, first + more) == run(run(walker, fs, first), fs, more),
    decreases first,
{
    if first > 0 {
        match walker.request() {
            None => {
                assert(run(walker, fs, more) == walker) by {
                    if more > 0 {
                    }
                }
            },
            Some(path) => {
                lemma_run_add(walker.step(fs(path)), fs, (first - 1) as nat, more);
                assert((first + more - 1) as nat == (first - 1) as nat + more);
            },
        }
    }
}

/// The walk that has the directory `dir` under construction at the top, with
/// the first `count` of its subdirectories finished.
pub open spec fn building(walker: WalkerView, path: Seq<char>, dir: DirectoryView, count: int)
    -> WalkerView {
    WalkerView {
        stack: walker.stack.push(
            FrameView {
                path,
                files: dir.files,
                pending: dir.dirs.map_values(|e: DirectoryEntryView| e.dir_path),
                done: dir.dirs.take(count),
                exact: dir.exact,
            },
        ),
        ..walker
    }
}

/// A walk that waits for a directory of which `fs` has a snapshot finishes
/// that directory as the snapshot, after as many listings as the snapshot
/// has directories.
pub proof fn lemma_run_builds(
    walker: WalkerView,
    fs: spec_fn(Seq<char>) -> ListingView,
    path: Seq<char>,
    dir: DirectoryView,
)
    requires
        walker.request() == Some(path),
        snapshot(fs, path, dir),
    ensures
        run(walker, fs, size(dir)) == walker.complete(path, dir),
    decreases dir, 1nat, 0nat,
{
    let count = dir.dirs.len();
    assert(run(walker.step(fs(path)), fs, 0) == walker.step(fs(path)));
    match fs(path) {
        ListingView::Failed(_) => {
            assert(size(dir) == 1);
        },
        ListingView::Entries(entries) => {
            if count == 0 {
                assert(dir.dirs =~= Seq::empty());
                assert(size(dir) == 1);
            } else {
                let subdirs = subdirs_of(entries);
                assert(dir.dirs.map_values(|e: DirectoryEntryView| e.dir_path) =~= subdirs);
                assert(dir.dirs.take(0) =~= Seq::empty());
                assert(walker.step(fs(path)) == building(walker, path, dir, 0));
                assert(size_of_first(dir.dirs, 0) == 0);
                lemma_run_builds_rest(walker, fs, path, dir, 0);
            }
        },
    }
}

/// A walk that has `dir` under construction with `count` of its
/// subdirectories finished finishes `dir` after as many listings as the
/// remaining subdirectories have directories.
pub proof fn lemma_run_builds_rest(
    walker: WalkerView,
    fs: spec_fn(Seq<char>) -> ListingView,
    path: Seq<char>,
    dir: DirectoryView,
    count: nat,
)
    requires
        walker.result is None,
        snapshot(fs, path, dir),
        fs(path) is Entries,
        count < dir.dirs.len(),
    ensures
        run(
            building(walker, path, dir, count as int),
            fs,
            (size_of_first(dir.dirs, dir.dirs.len()) - size_of_first(dir.dirs, count)) as nat,
        ) == walker.complete(path, dir),
        size_of_first(dir.dirs, count) <= size_of_first(dir.dirs, dir.dirs.len()),
    decreases dir, 0nat, dir.dirs.len() - count,
{
    let total = dir.dirs.len();
    let now = building(walker, path, dir, count as int);
    let child = dir.dirs[count as int];
    let top = now.stack.last();
    assert(now.stack.drop_last() =~= walker.stack);
    assert(top.pending[count as int] == child.dir_path);
    assert(now.request() == Some(child.dir_path));
    lemma_run_builds(now, fs, child.dir_path, child.dir);
    let done = top.done.push(DirectoryEntryView { dir_path: child.dir_path, dir: child.dir });
    assert(done =~= dir.dirs.take(count as int + 1));
    assert(size_of_first(dir.dirs, count + 1) == size_of_first(dir.dirs, count) + size(child.dir));
    if count + 1 == total {
        assert(done =~= dir.dirs);
        assert(now.complete(child.dir_path, child.dir) == walker.complete(path, dir));
    } else {
        assert(now.complete(child.dir_path, child.dir) == building(
            walker,
            path,
            dir,
            count as int + 1,
        ));
        lemma_run_builds_rest(walker, fs, path, dir, count + 1);
        lemma_run_add(
            now,
            fs,
            size(child.dir),
            (size_of_first(dir.dirs, total) - size_of_first(dir.dirs, count + 1)) as nat,
        );
    }
}

/// Where `fs` has a snapshot of `root`, the walk of `root` whose requests it
/// answers ends with that snapshot, after one listing for each directory of
/// the tree.
pub proof fn lemma_walk_finishes(
    fs: spec_fn(Seq<char>) -> ListingView,
    root: Seq<char>,
    dir: DirectoryView,
)
    requires
        snapshot(fs, root, dir),
    ensures
        run(WalkerView::start(root), fs, size(dir)).result == Some(dir),
{
    lemma_run_builds(WalkerView::start(root), fs, root, dir);
}

} // verus!
