//! Reading a tree back from its structured form.
//!
//! A value is read as a directory when it is a mapping that holds a sequence
//! of strings under `files` and, under `dirs`, a sequence of mappings that
//! each hold a string under `dir_path` and a directory under `dir`. Tags and
//! other keys are passed over. What is read from a document is exact: a
//! document holds its paths as they are.

use crate::encode::{
    lemma_keys_differ, lemma_subdirectory_documents, path_documents, subdirectory_documents,
};
use crate::tree::{texts, Directory, DirectoryEntry, DirectoryEntryView, DirectoryView};
use crate::yaml::{
    error_message, field, items_of, lookup, text_of, text_value_of, untagged, value_as_list,
    value_as_text, value_document, value_documents, value_field, yaml_document, Document,
};
use vstd::prelude::*;
use vstd::string::*;

verus! {

/// Why a text could not be read as a tree.
#[derive(Debug, PartialEq, Eq)]
pub enum DecodingError {
    /// The text is not YAML; the message is what the decoder said.
    Syntax(String),
    /// The text is YAML, but does not have the shape of a directory.
    Shape,
}

/// The document is a sequence of exactly these strings.
pub open spec fn holds_paths(document: Document, paths: Seq<Seq<char>>) -> bool {
    match items_of(document) {
        Some(items) => {
            &&& items.len() == paths.len()
            &&& forall|i: int|
                0 <= i < items.len() ==> text_of(#[trigger] items[i]) == Some(paths[i])
        },
        None => false,
    }
}

/// The document reads as the directory `dir`.
pub open spec fn represents(document: Document, dir: DirectoryView) -> bool
    decreases dir,
{
    &&& dir.exact
    &&& match field(document, "files"@) {
        Some(files) => holds_paths(files, dir.files),
        None => false,
    }
    &&& match field(document, "dirs"@) {
        Some(dirs) => match items_of(dirs) {
            Some(items) => {
                &&& items.len() == dir.dirs.len()
                &&& forall|i: int|
                    0 <= i < items.len() ==> represents_entry(#[trigger] items[i], dir.dirs[i])
            },
            None => false,
        },
        None => false,
    }
}

/// The document reads as the subdirectory `entry`.
pub open spec fn represents_entry(document: Document, entry: DirectoryEntryView) -> bool
    decreases entry,
{
    &&& match field(document, "dir_path"@) {
        Some(path) => text_of(path) == Some(entry.dir_path),
        None => false,
    }
    &&& match field(document, "dir"@) {
        Some(dir) => represents(dir, entry.dir),
        None => false,
    }
}

/// A document reads as at most one directory.
pub proof fn lemma_represents_unique(document: Document, a: DirectoryView, b: DirectoryView)
    requires
        represents(document, a),
        represents(document, b),
    ensures
        a == b,
    decreases a,
{
    let files = items_of(field(document, "files"@).unwrap()).unwrap();
    assert forall|i: int| 0 <= i < a.files.len() implies a.files[i] == b.files[i] by {
        assert(text_of(files[i]) == Some(a.files[i]));
    }
    assert(a.files =~= b.files);
    let items = items_of(field(document, "dirs"@).unwrap()).unwrap();
    assert forall|i: int| 0 <= i < a.dirs.len() implies a.dirs[i] == b.dirs[i] by {
        assert(represents_entry(items[i], a.dirs[i]));
        assert(represents_entry(items[i], b.dirs[i]));
        lemma_represents_unique(
            field(items[i], "dir"@).unwrap(),
            a.dirs[i].dir,
            b.dirs[i].dir,
        );
    }
    assert(a.dirs =~= b.dirs);
}

/// The structured form of a directory whose paths are exact reads as that
/// directory.
pub proof fn lemma_document_represents(dir: DirectoryView)
    requires
        dir.exact_throughout(),
    ensures
        represents(dir.document(), dir),
    decreases dir,
{
    lemma_keys_differ();
    let entries = dir.document()->Table_0;
    assert(entries.subrange(1, 2)[0] == entries[1]);
    assert(lookup(entries.subrange(1, 2), "dirs"@) == Some(entries[1].1));
    assert(field(dir.document(), "files"@) == Some(Document::List(path_documents(dir.files))));
    assert(field(dir.document(), "dirs"@) == Some(
        Document::List(subdirectory_documents(dir.dirs, dir.dirs.len())),
    ));
    lemma_subdirectory_documents(dir.dirs, dir.dirs.len());
    let items = subdirectory_documents(dir.dirs, dir.dirs.len());
    assert forall|i: int| 0 <= i < items.len() implies represents_entry(
        #[trigger] items[i],
        dir.dirs[i],
    ) by {
        let entry = dir.dirs[i];
        let fields = entry.document()->Table_0;
        assert(fields.subrange(1, 2)[0] == fields[1]);
        assert(lookup(fields.subrange(1, 2), "dir"@) == Some(fields[1].1));
        assert(field(entry.document(), "dir_path"@) == Some(Document::Text(entry.dir_path)));
        assert(field(entry.document(), "dir"@) == Some(entry.dir.document()));
        lemma_document_represents(entry.dir);
    }
}

/// The structured form loses nothing: the document of a directory whose
/// paths are exact reads as that directory and as no other.
pub proof fn lemma_document_round_trip(dir: DirectoryView, other: DirectoryView)
    requires
        dir.exact_throughout(),
    ensures
        represents(dir.document(), other) <==> other == dir,
{
    lemma_document_represents(dir);
    if represents(dir.document(), other) {
        lemma_represents_unique(dir.document(), dir, other);
    }
}

/// A document without its tags is the document or a part of it.
proof fn lemma_untagged_below(document: Document)
    ensures
        untagged(document) == document || decreases_to!(document => untagged(document)),
    decreases document,
{
    match document {
        Document::Tagged(inner) => {
            lemma_untagged_below(*inner);
        },
        _ => {},
    }
}

/// What a mapping holds under a key is a part of the mapping.
proof fn lemma_lookup_below(entries: Seq<(Document, Document)>, key: Seq<char>)
    ensures
        lookup(entries, key) matches Some(found) ==> decreases_to!(entries => found),
    decreases entries.len(),
{
    if entries.len() > 0 {
        if entries[0].0 == Document::Text(key) {
            assert(decreases_to!(entries => entries[0]));
            assert(decreases_to!(entries[0] => entries[0].1));
        } else {
            lemma_lookup_below(entries.subrange(1, entries.len() as int), key);
            assert(decreases_to!(entries => entries.subrange(1, entries.len() as int)));
        }
    }
}

/// What a document holds under a key is a part of the document.
proof fn lemma_field_below(document: Document, key: Seq<char>)
    ensures
        field(document, key) matches Some(found) ==> decreases_to!(document => found),
{
    lemma_untagged_below(document);
    match untagged(document) {
        Document::Table(entries) => {
            lemma_lookup_below(entries, key);
        },
        _ => {},
    }
}

/// An item of the sequence that a document is, is a part of the document.
proof fn lemma_item_below(document: Document, i: int)
    ensures
        items_of(document) matches Some(items) ==> (0 <= i < items.len() ==> decreases_to!(
            document => items[i]
        )),
{
    lemma_untagged_below(document);
}

/// Reads a sequence of strings.
fn paths_from_value(value: &serde_yaml::Value) -> (result: Option<Vec<String>>)
    ensures
        match result {
            Some(paths) => holds_paths(value_document(*value), texts(paths@)),
            None => forall|paths: Seq<Seq<char>>| !holds_paths(value_document(*value), paths),
        },
{
    let items = match value_as_list(value) {
        None => {
            return None;
        },
        Some(items) => items,
    };
    let ghost documents = value_documents(items@);
    let mut paths: Vec<String> = Vec::new();
    let mut i: usize = 0;
    while i < items.len()
        invariant
            i <= items.len(),
            documents == value_documents(items@),
            items_of(value_document(*value)) == Some(documents),
            paths.len() == i,
            forall|k: int| 0 <= k < i ==> text_of(#[trigger] documents[k]) == Some(paths[k]@),
        decreases items.len() - i,
    {
        match value_as_text(&items[i]) {
            None => {
                assert(text_of(documents[i as int]) is None);
                return None;
            },
            Some(text) => {
                paths.push(String::from_str(text));
            },
        }
        i = i + 1;
    }
    assert(texts(paths@).len() == documents.len());
    Some(paths)
}

impl Directory {
    /// Reads a directory from a YAML value. `None` when, and only when, the
    /// value does not read as a directory.
    pub fn from_value(value: &serde_yaml::Value) -> (result: Option<Directory>)
        ensures
            match result {
                Some(dir) => represents(value_document(*value), dir@),
                None => forall|dir: DirectoryView| !represents(value_document(*value), dir),
            },
        decreases value_document(*value),
    {
        let ghost document = value_document(*value);
        let files = match value_field(value, "files") {
            None => {
                return None;
            },
            Some(found) => match paths_from_value(found) {
                None => {
                    return None;
                },
                Some(files) => files,
            },
        };
        let list = match value_field(value, "dirs") {
            None => {
                return None;
            },
            Some(found) => found,
        };
        let items = match value_as_list(list) {
            None => {
                return None;
            },
            Some(items) => items,
        };
        let ghost documents = value_documents(items@);
        proof {
            lemma_field_below(document, "dirs"@);
        }
        let mut dirs: Vec<DirectoryEntry> = Vec::new();
        let mut i: usize = 0;
        while i < items.len()
            invariant
                i <= items.len(),
                document == value_document(*value),
                documents == value_documents(items@),
                field(document, "dirs"@) == Some(value_document(*list)),
                decreases_to!(document => value_document(*list)),
                items_of(value_document(*list)) == Some(documents),
                dirs.len() == i,
                forall|k: int| 0 <= k < i ==> represents_entry(#[trigger] documents[k], dirs[k]@),
            decreases items.len() - i,
        {
            proof {
                lemma_item_below(value_document(*list), i as int);
            }
            match DirectoryEntry::from_value(&items[i]) {
                None => {
                    assert forall|dir: DirectoryView| !represents(document, dir) by {
                        if represents(document, dir) {
                            assert(represents_entry(documents[i as int], dir.dirs[i as int]));
                        }
                    }
                    return None;
                },
                Some(entry) => {
                    dirs.push(entry);
                },
            }
            i = i + 1;
        }
        let dir = Directory::new(files, dirs);
        assert(represents(document, dir@));
        Some(dir)
    }

    /// Reads a directory from YAML text.
    ///
    /// The text is handed to `serde_yaml`; where that gives a value, the
    /// result is what [`Directory::from_value`] reads from it.
    pub fn from_yaml(text: &str) -> (result: Result<Directory, DecodingError>)
        ensures
            match yaml_document(text@) {
                None => result matches Err(DecodingError::Syntax(_)),
                Some(document) => match result {
                    Ok(dir) => represents(document, dir@),
                    Err(error) => error == DecodingError::Shape && forall|dir: DirectoryView|
                        !represents(document, dir),
                },
            },
    {
        match text_value_of(text) {
            Err(error) => Err(DecodingError::Syntax(error_message(&error))),
            Ok(value) => match Directory::from_value(&value) {
                Some(dir) => Ok(dir),
                None => Err(DecodingError::Shape),
            },
        }
    }
}

impl DirectoryEntry {
    /// Reads a subdirectory from a YAML value. `None` when, and only when,
    /// the value does not read as a subdirectory.
    pub fn from_value(value: &serde_yaml::Value) -> (result: Option<DirectoryEntry>)
        ensures
            match result {
                Some(entry) => represents_entry(value_document(*value), entry@),
                None => forall|entry: DirectoryEntryView|
                    !represents_entry(value_document(*value), entry),
            },
        decreases value_document(*value),
    {
        let ghost document = value_document(*value);
        let dir_path = match value_field(value, "dir_path") {
            None => {
                return None;
            },
            Some(found) => match value_as_text(found) {
                None => {
                    return None;
                },
                Some(text) => String::from_str(text),
            },
        };
        let found = match value_field(value, "dir") {
            None => {
                return None;
            },
            Some(found) => found,
        };
        proof {
            lemma_field_below(document, "dir"@);
        }
        match Directory::from_value(found) {
            None => {
                assert forall|entry: DirectoryEntryView| !represents_entry(document, entry) by {
                    if represents_entry(document, entry) {
                        assert(represents(value_document(*found), entry.dir));
                    }
                }
                None
            },
            Some(dir) => {
                let entry = DirectoryEntry::new(dir_path, dir);
                assert(represents_entry(document, entry@));
                Some(entry)
            },
        }
    }
}

} // verus!
