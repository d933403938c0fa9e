use dircrawler::decode::DecodingError;
use dircrawler::encode::EncodingError;
use dircrawler::lines::{ends_line, take_lines};
use dircrawler::render::{render, Format};
use dircrawler::tree::{Directory, DirectoryEntry};
use dircrawler::yaml::{SIZE_LIMIT, TEXT_LIMIT};

fn paths(names: &[&str]) -> Vec<String> {
    names.iter().map(|name| name.to_string()).collect()
}

fn sample() -> Directory {
    Directory::new(
        paths(&["f1", "f2"]),
        vec![DirectoryEntry::new(
            "/x/y".to_string(),
            Directory::new(paths(&["f3"]), Vec::new()),
        )],
    )
}

#[test]
fn yaml_of_a_small_tree() {
    assert_eq!(
        sample().to_yaml().unwrap(),
        "files:\n- f1\n- f2\ndirs:\n- dir_path: /x/y\n  dir:\n    files:\n    - f3\n    dirs: []\n"
    );
}

#[test]
fn yaml_of_an_empty_directory() {
    let empty = Directory::new(Vec::new(), Vec::new());
    assert_eq!(empty.to_yaml().unwrap(), "files: []\ndirs: []\n");
}

#[test]
fn value_holds_files_then_dirs() {
    let value = sample().to_value();
    let mapping = value.as_mapping().unwrap();
    let keys: Vec<&str> = mapping.keys().map(|key| key.as_str().unwrap()).collect();
    assert_eq!(keys, vec!["files", "dirs"]);
    let files = value.get("files").unwrap().as_sequence().unwrap();
    assert_eq!(files.len(), 2);
    assert_eq!(files[0].as_str(), Some("f1"));
    assert_eq!(files[1].as_str(), Some("f2"));
    let dirs = value.get("dirs").unwrap().as_sequence().unwrap();
    assert_eq!(dirs.len(), 1);
    assert_eq!(dirs[0].get("dir_path").unwrap().as_str(), Some("/x/y"));
    let nested = dirs[0].get("dir").unwrap();
    assert_eq!(nested.get("files").unwrap().as_sequence().unwrap().len(), 1);
    assert_eq!(nested.get("dirs").unwrap().as_sequence().unwrap().len(), 0);
}

#[test]
fn entry_value_holds_path_then_directory() {
    let entry = DirectoryEntry::new("p".to_string(), Directory::new(paths(&["p/f"]), Vec::new()));
    let value = entry.to_value();
    let keys: Vec<&str> =
        value.as_mapping().unwrap().keys().map(|key| key.as_str().unwrap()).collect();
    assert_eq!(keys, vec!["dir_path", "dir"]);
    assert_eq!(value.get("dir_path").unwrap().as_str(), Some("p"));
}

#[test]
fn paths_that_look_like_other_yaml_are_quoted() {
    let dir = Directory::new(paths(&["true", "12", "a: b", ""]), Vec::new());
    assert_eq!(
        dir.to_yaml().unwrap(),
        "files:\n- 'true'\n- '12'\n- 'a: b'\n- ''\ndirs: []\n"
    );
}

#[test]
fn yaml_text_reads_back_as_the_same_tree() {
    let text = sample().to_yaml().unwrap();
    assert_eq!(Directory::from_yaml(&text), Ok(sample()));
}

#[test]
fn awkward_paths_survive_the_round_trip() {
    let dir = Directory::new(
        paths(&["true", "12", "a: b", "", " lead", "two\nlines", "- dash", "#hash", "é/ü", "~"]),
        vec![DirectoryEntry::new("null".to_string(), Directory::new(Vec::new(), Vec::new()))],
    );
    let text = dir.to_yaml().unwrap();
    assert_eq!(Directory::from_yaml(&text), Ok(dir));
}

#[test]
fn value_reads_back_as_the_same_tree() {
    assert_eq!(Directory::from_value(&sample().to_value()), Some(sample()));
    let entry = DirectoryEntry::new("p".to_string(), sample());
    assert_eq!(
        DirectoryEntry::from_value(&entry.to_value()),
        Some(DirectoryEntry::new("p".to_string(), sample()))
    );
}

#[test]
fn hand_written_yaml_is_read() {
    let text = "dirs:\n  - dir: {files: [b], dirs: []}\n    dir_path: a\nfiles: []\n";
    assert_eq!(
        Directory::from_yaml(text),
        Ok(Directory::new(
            Vec::new(),
            vec![DirectoryEntry::new("a".to_string(), Directory::new(paths(&["b"]), Vec::new()))],
        ))
    );
}

#[test]
fn text_that_is_not_yaml_is_a_syntax_error() {
    match Directory::from_yaml("files: [a\ndirs: ]") {
        Err(DecodingError::Syntax(message)) => assert!(!message.is_empty()),
        other => panic!("expected a syntax error, got {:?}", other),
    }
}

#[test]
fn yaml_of_another_shape_is_refused() {
    assert_eq!(Directory::from_yaml("files: []\n"), Err(DecodingError::Shape));
    assert_eq!(Directory::from_yaml("[]\n"), Err(DecodingError::Shape));
    assert_eq!(Directory::from_yaml("files: [1]\ndirs: []\n"), Err(DecodingError::Shape));
    assert_eq!(Directory::from_yaml("files: []\ndirs: {}\n"), Err(DecodingError::Shape));
    assert_eq!(
        Directory::from_yaml("files: []\ndirs:\n- dir_path: a\n"),
        Err(DecodingError::Shape)
    );
    assert_eq!(
        Directory::from_yaml("files: []\ndirs:\n- dir_path: a\n  dir: {files: []}\n"),
        Err(DecodingError::Shape)
    );
}

#[test]
fn other_keys_and_tags_are_passed_over() {
    let text = "files: !paths [a]\ndirs: []\nnote: kept elsewhere\n";
    assert_eq!(Directory::from_yaml(text), Ok(Directory::new(paths(&["a"]), Vec::new())));
}

#[test]
fn render_writes_either_form() {
    assert_eq!(render(&sample(), Format::PlainText), Ok("f1\nf2\n/x/y/\nf3\n".to_string()));
    assert_eq!(
        render(&sample(), Format::Yaml),
        Ok("files:\n- f1\n- f2\ndirs:\n- dir_path: /x/y\n  dir:\n    files:\n    - f3\n    dirs: []\n"
            .to_string())
    );
}

#[test]
fn render_of_an_empty_root() {
    let empty = Directory::new(Vec::new(), Vec::new());
    assert_eq!(render(&empty, Format::PlainText), Ok(String::new()));
    assert_eq!(render(&empty, Format::Yaml), Ok("files: []\ndirs: []\n".to_string()));
}

#[test]
fn path_that_is_too_long_is_refused() {
    let long = "a".repeat(TEXT_LIMIT);
    let dir = Directory::new(
        Vec::new(),
        vec![DirectoryEntry::new("d".to_string(), Directory::new(vec![long], Vec::new()))],
    );
    assert!(!dir.fits());
    assert_eq!(dir.to_yaml(), Err(EncodingError::PathTooLong));
    assert_eq!(render(&dir, Format::Yaml), Err(EncodingError::PathTooLong));
}

#[test]
fn ordinary_paths_fit() {
    assert!(sample().fits());
    assert!(Directory::new(Vec::new(), Vec::new()).fits());
}

#[test]
fn tree_with_a_path_that_is_not_exact_is_refused() {
    let dir = Directory::new(
        paths(&["f"]),
        vec![DirectoryEntry::new(
            "d".to_string(),
            Directory::listed(paths(&["d/\u{fffd}"]), Vec::new(), false),
        )],
    );
    assert_eq!(dir.to_yaml(), Err(EncodingError::PathNotUnicode));
    assert_eq!(render(&dir, Format::Yaml), Err(EncodingError::PathNotUnicode));
    assert_eq!(render(&dir, Format::PlainText), Ok("f\nd/\nd/\u{fffd}\n".to_string()));
}

#[test]
fn replacement_character_in_an_exact_path_is_written() {
    let dir = Directory::new(paths(&["\u{fffd}"]), Vec::new());
    let text = dir.to_yaml().unwrap();
    assert_eq!(Directory::from_yaml(&text), Ok(dir));
}

#[test]
fn what_is_read_from_yaml_is_exact() {
    let dir = Directory::from_yaml("files: [a]\ndirs:\n- dir_path: d\n  dir: {files: [], dirs: []}\n")
        .unwrap();
    assert!(dir.is_exact());
}

#[test]
fn weigh_takes_the_size_of_the_tree_from_the_budget() {
    let empty = Directory::new(Vec::new(), Vec::new());
    assert_eq!(empty.weigh(7), Some(0));
    assert_eq!(empty.weigh(6), None);
    assert_eq!(sample().weigh(100), Some(73));
    assert_eq!(sample().weigh(27), Some(0));
    assert_eq!(sample().weigh(26), None);
    assert_eq!(sample().weigh(0), None);
}

#[test]
fn size_counts_lines_and_not_characters() {
    let long = Directory::new(vec!["a".repeat(1000)], Vec::new());
    assert_eq!(long.weigh(9), Some(0));
    let broken = Directory::new(paths(&["a\nb\r\u{85}c\u{2028}\u{2029}"]), Vec::new());
    assert_eq!(broken.weigh(19), Some(0));
    assert_eq!(broken.weigh(18), None);
    let nested = Directory::new(
        Vec::new(),
        vec![DirectoryEntry::new("d\n".to_string(), Directory::new(Vec::new(), Vec::new()))],
    );
    assert_eq!(nested.weigh(23), Some(0));
    assert_eq!(nested.weigh(22), None);
}

#[test]
fn take_lines_counts_two_and_two_for_each_break() {
    assert_eq!(take_lines("", 2), Some(0));
    assert_eq!(take_lines("", 1), None);
    assert_eq!(take_lines("plain text", 10), Some(8));
    assert_eq!(take_lines("one\ntwo\nthree", 10), Some(4));
    assert_eq!(take_lines("\n\n\n", 7), None);
    assert_eq!(take_lines("\n\n\n", 8), Some(0));
    assert!(ends_line('\n') && ends_line('\r') && ends_line('\u{2029}'));
    assert!(!ends_line(' ') && !ends_line('\t') && !ends_line('a'));
}

#[test]
fn tree_that_is_too_large_is_refused() {
    let path = || "\n".repeat(TEXT_LIMIT - 1);
    let dir = Directory::new(vec![path(), path(), path(), path()], Vec::new());
    assert!(dir.fits());
    assert_eq!(dir.weigh(SIZE_LIMIT - 1), None);
    assert_eq!(dir.to_yaml(), Err(EncodingError::TreeTooLarge));
}

#[test]
fn characters_that_are_written_as_escapes_come_back() {
    let dir = Directory::new(
        paths(&["\u{ffff}\u{fffe}\u{feff}", "bell\u{7}", "tab\there", "quote\"and\\", "\u{1f600}"]),
        Vec::new(),
    );
    let text = dir.to_yaml().unwrap();
    assert_eq!(Directory::from_yaml(&text), Ok(dir));
}
