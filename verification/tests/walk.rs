use dircrawler::listing::{partition, Entry, EntryKind, Listing};
use dircrawler::tree::{Directory, DirectoryEntry};
use dircrawler::walk::{diagnostic, Walker};

fn file(path: &str) -> Entry {
    Entry { path: path.to_string(), kind: EntryKind::File, exact: true }
}

fn dir(path: &str) -> Entry {
    Entry { path: path.to_string(), kind: EntryKind::Directory, exact: true }
}

fn other(path: &str) -> Entry {
    Entry { path: path.to_string(), kind: EntryKind::Other, exact: true }
}

fn paths(names: &[&str]) -> Vec<String> {
    names.iter().map(|name| name.to_string()).collect()
}

/// A small tree: `/a` holds a file, the readable `/a/b` and the unreadable
/// `/a/c`; `/a/b` holds two files and the empty `/a/b/d`.
fn sample(path: &str) -> Listing {
    match path {
        "/a" => Listing::Entries(vec![file("/a/f"), dir("/a/b"), dir("/a/c")]),
        "/a/b" => Listing::Entries(vec![file("/a/b/g"), dir("/a/b/d"), file("/a/b/h")]),
        "/a/b/d" => Listing::Entries(Vec::new()),
        _ => Listing::Failed("permission denied".to_string()),
    }
}

/// Runs a walk of `root` against `fs`. Returns the tree, the paths in the
/// order in which they were asked for, and the reports.
fn walk(root: &str, fs: fn(&str) -> Listing) -> (Directory, Vec<String>, Vec<String>) {
    let mut walker = Walker::new(root.to_string());
    let mut asked = Vec::new();
    let mut reports = Vec::new();
    while let Some(path) = walker.request() {
        let listing = fs(&path);
        asked.push(path);
        let (next, report) = walker.supply(listing);
        if let Some(line) = report {
            reports.push(line);
        }
        walker = next;
    }
    assert!(walker.is_finished());
    (walker.into_tree().unwrap(), asked, reports)
}

fn empty() -> Directory {
    Directory::new(Vec::new(), Vec::new())
}

#[test]
fn unreadable_subdirectory_does_not_abort_the_walk() {
    let (tree, _, _) = walk("/a", sample);
    assert_eq!(tree.dirs.len(), 2);
    assert_eq!(tree.dirs[1], DirectoryEntry::new("/a/c".to_string(), empty()));
    assert_eq!(
        tree.dirs[0],
        DirectoryEntry::new(
            "/a/b".to_string(),
            Directory::new(
                paths(&["/a/b/g", "/a/b/h"]),
                vec![DirectoryEntry::new("/a/b/d".to_string(), empty())],
            ),
        )
    );
    assert_eq!(tree.files, paths(&["/a/f"]));
}

#[test]
fn directories_are_asked_for_depth_first() {
    let (_, asked, _) = walk("/a", sample);
    assert_eq!(asked, paths(&["/a", "/a/b", "/a/b/d", "/a/c"]));
}

#[test]
fn failed_listing_is_reported_once() {
    let (_, _, reports) = walk("/a", sample);
    assert_eq!(reports, paths(&["error happened at: /a/c permission denied"]));
}

#[test]
fn unreadable_root_gives_an_empty_tree() {
    let (tree, asked, reports) = walk("/missing", sample);
    assert_eq!(tree, empty());
    assert_eq!(asked, paths(&["/missing"]));
    assert_eq!(reports, paths(&["error happened at: /missing permission denied"]));
}

#[test]
fn walking_twice_gives_equal_trees() {
    let (first, asked_first, _) = walk("/a", sample);
    let (second, asked_second, _) = walk("/a", sample);
    assert_eq!(first, second);
    assert_eq!(asked_first, asked_second);
}

#[test]
fn each_level_holds_as_many_entries_as_its_listing() {
    fn only_files_and_directories(path: &str) -> Listing {
        match path {
            "r" => Listing::Entries(vec![dir("r/a"), file("r/f"), dir("r/b"), file("r/g")]),
            "r/a" => Listing::Entries(vec![file("r/a/x")]),
            _ => Listing::Entries(Vec::new()),
        }
    }
    let (tree, _, reports) = walk("r", only_files_and_directories);
    assert!(reports.is_empty());
    assert_eq!(tree.files.len() + tree.dirs.len(), 4);
    assert_eq!(tree.dirs[0].dir.files.len() + tree.dirs[0].dir.dirs.len(), 1);
    assert_eq!(tree.dirs[1].dir.files.len() + tree.dirs[1].dir.dirs.len(), 0);
    assert_eq!(tree.files, paths(&["r/f", "r/g"]));
    assert_eq!(tree.dirs[0].dir_path, "r/a");
    assert_eq!(tree.dirs[1].dir_path, "r/b");
}

#[test]
fn entries_that_are_neither_file_nor_directory_are_left_out() {
    fn with_a_socket(path: &str) -> Listing {
        match path {
            "r" => Listing::Entries(vec![file("r/f"), other("r/socket"), dir("r/d")]),
            _ => Listing::Entries(vec![other("r/d/pipe")]),
        }
    }
    let (tree, asked, _) = walk("r", with_a_socket);
    assert_eq!(
        tree,
        Directory::new(paths(&["r/f"]), vec![DirectoryEntry::new("r/d".to_string(), empty())])
    );
    assert_eq!(asked, paths(&["r", "r/d"]));
}

#[test]
fn new_walker_asks_for_the_root() {
    let walker = Walker::new("top".to_string());
    assert_eq!(walker.request(), Some("top".to_string()));
    assert!(!walker.is_finished());
    assert_eq!(walker.into_tree(), None);
}

#[test]
fn finished_walk_takes_no_more_listings() {
    let walker = Walker::new("top".to_string());
    let (walker, report) = walker.supply(Listing::Entries(vec![file("top/f")]));
    assert_eq!(report, None);
    assert!(walker.is_finished());
    assert_eq!(walker.request(), None);
    let (walker, report) = walker.supply(Listing::Failed("late".to_string()));
    assert_eq!(report, None);
    assert_eq!(walker.into_tree(), Some(Directory::new(paths(&["top/f"]), Vec::new())));
}

#[test]
fn last_subdirectory_finishes_every_directory_above_it() {
    fn chain(path: &str) -> Listing {
        match path {
            "1" => Listing::Entries(vec![dir("1/2")]),
            "1/2" => Listing::Entries(vec![dir("1/2/3")]),
            _ => Listing::Entries(vec![file("1/2/3/f")]),
        }
    }
    let (tree, asked, _) = walk("1", chain);
    assert_eq!(asked, paths(&["1", "1/2", "1/2/3"]));
    let innermost = Directory::new(paths(&["1/2/3/f"]), Vec::new());
    let middle = Directory::new(
        Vec::new(),
        vec![DirectoryEntry::new("1/2/3".to_string(), innermost)],
    );
    assert_eq!(
        tree,
        Directory::new(Vec::new(), vec![DirectoryEntry::new("1/2".to_string(), middle)])
    );
}

#[test]
fn partition_keeps_listing_order_within_each_kind() {
    let (files, subdirs, exact) =
        partition(vec![dir("d2"), file("f2"), other("o"), file("f1"), dir("d1")]);
    assert_eq!(files, paths(&["f2", "f1"]));
    assert_eq!(subdirs, paths(&["d2", "d1"]));
    assert!(exact);
}

#[test]
fn partition_of_nothing_is_nothing() {
    let (files, subdirs, exact) = partition(Vec::new());
    assert!(files.is_empty());
    assert!(subdirs.is_empty());
    assert!(exact);
}

#[test]
fn diagnostic_names_the_path_and_the_reason() {
    assert_eq!(
        diagnostic("/a/c", "No such file or directory (os error 2)"),
        "error happened at: /a/c No such file or directory (os error 2)"
    );
}

#[test]
fn kind_of_an_entry() {
    assert_eq!(EntryKind::of(true, false), EntryKind::Directory);
    assert_eq!(EntryKind::of(false, true), EntryKind::File);
    assert_eq!(EntryKind::of(false, false), EntryKind::Other);
    assert_eq!(EntryKind::of(true, true), EntryKind::Directory);
}

fn inexact(entry: Entry) -> Entry {
    Entry { exact: false, ..entry }
}

#[test]
fn partition_tells_whether_the_kept_paths_are_exact() {
    let (_, _, exact) = partition(vec![file("f"), inexact(file("g\u{fffd}"))]);
    assert!(!exact);
    let (_, _, exact) = partition(vec![inexact(dir("d\u{fffd}")), file("f")]);
    assert!(!exact);
    let (files, subdirs, exact) = partition(vec![file("f"), inexact(other("s\u{fffd}"))]);
    assert!(exact);
    assert_eq!(files, paths(&["f"]));
    assert!(subdirs.is_empty());
}

#[test]
fn tree_remembers_where_a_path_is_not_exact() {
    fn with_a_strange_name(path: &str) -> Listing {
        match path {
            "r" => Listing::Entries(vec![file("r/f"), dir("r/d")]),
            _ => Listing::Entries(vec![inexact(file("r/d/\u{fffd}"))]),
        }
    }
    let (tree, _, _) = walk("r", with_a_strange_name);
    assert!(tree.exact);
    assert!(!tree.dirs[0].dir.exact);
    assert!(!tree.is_exact());
    assert_eq!(
        tree,
        Directory::new(
            paths(&["r/f"]),
            vec![DirectoryEntry::new(
                "r/d".to_string(),
                Directory::listed(paths(&["r/d/\u{fffd}"]), Vec::new(), false),
            )],
        )
    );
    assert_eq!(tree.to_string(), "r/f\nr/d/\nr/d/\u{fffd}\n");
}

#[test]
fn unreadable_directory_is_exact() {
    let (tree, _, _) = walk("/missing", sample);
    assert!(tree.exact);
    assert!(tree.is_exact());
}

#[test]
fn same_entries_in_another_order_give_the_same_sets() {
    fn forward(path: &str) -> Listing {
        match path {
            "r" => Listing::Entries(vec![file("r/f"), dir("r/a"), file("r/g"), dir("r/b")]),
            "r/a" => Listing::Entries(vec![file("r/a/x"), file("r/a/y")]),
            _ => Listing::Entries(Vec::new()),
        }
    }
    fn backward(path: &str) -> Listing {
        match path {
            "r" => Listing::Entries(vec![dir("r/b"), file("r/g"), dir("r/a"), file("r/f")]),
            "r/a" => Listing::Entries(vec![file("r/a/y"), file("r/a/x")]),
            _ => Listing::Entries(Vec::new()),
        }
    }
    fn sorted(mut names: Vec<String>) -> Vec<String> {
        names.sort();
        names
    }
    let (one, _, _) = walk("r", forward);
    let (two, _, _) = walk("r", backward);
    assert_ne!(one, two);
    assert_eq!(sorted(one.files), sorted(two.files));
    assert_eq!(one.dirs[0].dir_path, "r/a");
    assert_eq!(two.dirs[1].dir_path, "r/a");
    assert_eq!(one.dirs[1].dir_path, two.dirs[0].dir_path);
    assert_eq!(paths(&["r/a/x", "r/a/y"]), one.dirs[0].dir.files);
    assert_eq!(paths(&["r/a/y", "r/a/x"]), two.dirs[1].dir.files);
}
