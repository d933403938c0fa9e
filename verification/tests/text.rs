use dircrawler::tree::{Directory, DirectoryEntry};

fn paths(names: &[&str]) -> Vec<String> {
    names.iter().map(|name| name.to_string()).collect()
}

#[test]
fn empty_root_renders_nothing() {
    let root = Directory::new(Vec::new(), Vec::new());
    assert_eq!(root.to_string(), "");
}

#[test]
fn root_files_come_without_a_header() {
    let nested = Directory::new(paths(&["f3"]), Vec::new());
    let root = Directory::new(
        paths(&["f1", "f2"]),
        vec![DirectoryEntry::new("/x/y".to_string(), nested)],
    );
    assert_eq!(root.to_string(), "f1\nf2\n/x/y/\nf3\n");
}

#[test]
fn entry_starts_with_its_path_and_a_slash() {
    let entry = DirectoryEntry::new(
        "/x/y".to_string(),
        Directory::new(paths(&["/x/y/f3"]), Vec::new()),
    );
    assert_eq!(entry.to_string(), "/x/y/\n/x/y/f3\n");
}

#[test]
fn empty_subdirectory_is_only_its_header() {
    let root = Directory::new(
        Vec::new(),
        vec![DirectoryEntry::new("a/b".to_string(), Directory::new(Vec::new(), Vec::new()))],
    );
    assert_eq!(root.to_string(), "a/b/\n");
}

#[test]
fn subdirectories_are_written_depth_first_in_order() {
    let deep = Directory::new(paths(&["r/a/c/z"]), Vec::new());
    let a = Directory::new(
        paths(&["r/a/x", "r/a/y"]),
        vec![DirectoryEntry::new("r/a/c".to_string(), deep)],
    );
    let b = Directory::new(paths(&["r/b/w"]), Vec::new());
    let root = Directory::new(
        paths(&["r/top"]),
        vec![
            DirectoryEntry::new("r/a".to_string(), a),
            DirectoryEntry::new("r/b".to_string(), b),
        ],
    );
    assert_eq!(
        root.to_string(),
        "r/top\nr/a/\nr/a/x\nr/a/y\nr/a/c/\nr/a/c/z\nr/b/\nr/b/w\n"
    );
}

#[test]
fn write_to_appends_after_what_is_there() {
    let root = Directory::new(paths(&["f"]), Vec::new());
    let mut out = String::from("tree:\n");
    root.write_to(&mut out);
    assert_eq!(out, "tree:\nf\n");
}

#[test]
fn file_order_is_kept_as_given() {
    let root = Directory::new(paths(&["b", "a", "c"]), Vec::new());
    assert_eq!(root.to_string(), "b\na\nc\n");
}

#[test]
fn new_keeps_what_it_is_given() {
    let dir = Directory::new(paths(&["f"]), Vec::new());
    assert_eq!(dir.files, paths(&["f"]));
    assert!(dir.dirs.is_empty());
    assert!(dir.exact);
    let listed = Directory::listed(paths(&["g"]), Vec::new(), false);
    assert_eq!(listed.files, paths(&["g"]));
    assert!(!listed.exact);
    let entry = DirectoryEntry::new("p".to_string(), dir);
    assert_eq!(entry.dir_path, "p");
    assert_eq!(entry.dir, Directory::new(paths(&["f"]), Vec::new()));
}
