//! The structured form of a tree.
//!
//! A directory is a mapping with the keys `files` and `dirs`: `files` holds
//! the file paths in order, `dirs` holds one mapping for each subdirectory,
//! with its path under `dir_path` and the directory found there under `dir`.

use crate::lines::{lemma_no_breaks, lines, take_lines};
use crate::tree::{Directory, DirectoryEntry, DirectoryEntryView, DirectoryView};
use crate::yaml::{
    encodable, error_message, list_value, pair_documents, pair_sizes, plain, size, sizes, small,
    table_value, text_value, value_document, value_documents, value_text, yaml_text, Document,
    SIZE_LIMIT, TEXT_LIMIT,
};
use vstd::prelude::*;
use vstd::string::*;

verus! {

/// Why a tree could not be written as YAML.
#[derive(Debug, PartialEq, Eq)]
pub enum EncodingError {
    /// A path of the tree is not exact: the name it stands for is no
    /// Unicode, and a document cannot hold it.
    PathNotUnicode,
    /// A path of the tree is too long for the encoder.
    PathTooLong,
    /// The tree as a whole is too large for the encoder.
    TreeTooLarge,
    /// The encoder gave an error; the message is what it said.
    Encoder(String),
}

/// The YAML text of a directory: what the encoder writes for its document,
/// or `None` where a path is not exact or too long for the encoder, the
/// tree is too large for it, or the encoder gives an error.
pub open spec fn yaml_of(dir: DirectoryView) -> Option<Seq<char>> {
    if dir.exact_throughout() && encodable(dir.document()) && small(dir.document()) {
        yaml_text(dir.document())
    } else {
        None
    }
}

/// The documents of file paths: one string for each.
pub open spec fn path_documents(paths: Seq<Seq<char>>) -> Seq<Document> {
    paths.map_values(|p: Seq<char>| Document::Text(p))
}

/// The documents of the first `count` subdirectories.
pub open spec fn subdirectory_documents(dirs: Seq<DirectoryEntryView>, count: nat) -> Seq<Document>
    decreases dirs, count,
{
    if count == 0 || count > dirs.len() {
        Seq::empty()
    } else {
        subdirectory_documents(dirs, (count - 1) as nat).push(dirs[count - 1].document())
    }
}

impl DirectoryView {
    /// The document of a directory: a mapping of `files` to the file paths
    /// and of `dirs` to the subdirectories, in this order.
    pub open spec fn document(self) -> Document
        decreases self, 0nat,
    {
        Document::Table(
            seq![
                (Document::Text("files"@), Document::List(path_documents(self.files))),
                (
                    Document::Text("dirs"@),
                    Document::List(subdirectory_documents(self.dirs, self.dirs.len())),
                ),
            ],
        )
    }
}

impl DirectoryEntryView {
    /// The document of a subdirectory: a mapping of `dir_path` to its path
    /// and of `dir` to the directory, in this order.
    pub open spec fn document(self) -> Document
        decreases self, 0nat,
    {
        Document::Table(
            seq![
                (Document::Text("dir_path"@), Document::Text(self.dir_path)),
                (Document::Text("dir"@), self.dir.document()),
            ],
        )
    }
}

/// The keys of the two mappings differ.
pub proof fn lemma_keys_differ()
    ensures
        "files"@ != "dirs"@,
        "dir_path"@ != "dir"@,
{
    reveal_strlit("files");
    reveal_strlit("dirs");
    reveal_strlit("dir_path");
    reveal_strlit("dir");
    assert("files"@[0] == 'f');
    assert("dirs"@[0] == 'd');
    assert("dir_path"@.len() == 8);
    assert("dir"@.len() == 3);
}

impl DirectoryView {
    /// The document of a directory is plain.
    pub proof fn lemma_document_plain(self)
        ensures
            plain(self.document()),
        decreases self, 0nat,
    {
        lemma_keys_differ();
        let files = path_documents(self.files);
        assert forall|i: int| 0 <= i < files.len() implies plain(#[trigger] files[i]) by {}
        lemma_subdirectory_documents(self.dirs, self.dirs.len());
        let entries = self.document()->Table_0;
        assert(entries[0].1 == Document::List(files));
        assert(plain(entries[0].1));
        assert(plain(entries[1].1));
    }
}

impl DirectoryEntryView {
    /// The document of a subdirectory is plain.
    pub proof fn lemma_document_plain(self)
        ensures
            plain(self.document()),
        decreases self, 0nat,
    {
        lemma_keys_differ();
        self.dir.lemma_document_plain();
        let entries = self.document()->Table_0;
        assert(plain(entries[0].1));
        assert(plain(entries[1].1));
    }
}

/// The documents of subdirectories are one for each, in order, and plain.
pub proof fn lemma_subdirectory_documents(dirs: Seq<DirectoryEntryView>, count: nat)
    requires
        count <= dirs.len(),
    ensures
        subdirectory_documents(dirs, count).len() == count,
        forall|i: int|
            0 <= i < count ==> #[trigger] subdirectory_documents(dirs, count)[i]
                == dirs[i].document(),
        forall|i: int| 0 <= i < count ==> plain(#[trigger] subdirectory_documents(dirs, count)[i]),
    decreases dirs, count,
{
    if count > 0 {
        lemma_subdirectory_documents(dirs, (count - 1) as nat);
        dirs[count - 1].lemma_document_plain();
    }
}

/// The keys of the two mappings are short enough for the encoder.
pub proof fn lemma_keys_fit()
    ensures
        "files"@.len() < TEXT_LIMIT,
        "dirs"@.len() < TEXT_LIMIT,
        "dir_path"@.len() < TEXT_LIMIT,
        "dir"@.len() < TEXT_LIMIT,
{
    reveal_strlit("files");
    reveal_strlit("dirs");
    reveal_strlit("dir_path");
    reveal_strlit("dir");
}

/// A sequence is short enough for the encoder when each of its items is.
proof fn lemma_encodable_list(items: Seq<Document>)
    ensures
        encodable(Document::List(items)) <==> forall|i: int|
            0 <= i < items.len() ==> encodable(#[trigger] items[i]),
{
    assert(Document::List(items)->List_0 == items);
}

/// A mapping of two entries is short enough for the encoder when its keys
/// and its values are.
proof fn lemma_encodable_table(entries: Seq<(Document, Document)>)
    requires
        entries.len() == 2,
    ensures
        encodable(Document::Table(entries)) <==> {
            &&& encodable(entries[0].0)
            &&& encodable(entries[0].1)
            &&& encodable(entries[1].0)
            &&& encodable(entries[1].1)
        },
{
    assert(Document::Table(entries)->Table_0 == entries);
    if encodable(Document::Table(entries)) {
        assert(encodable(entries[0].0) && encodable(entries[0].1));
        assert(encodable(entries[1].0) && encodable(entries[1].1));
    }
}

/// Each key of the two mappings takes two lines.
proof fn lemma_key_lines()
    ensures
        lines("files"@) == 2,
        lines("dirs"@) == 2,
        lines("dir_path"@) == 2,
        lines("dir"@) == 2,
{
    reveal_strlit("files");
    reveal_strlit("dirs");
    reveal_strlit("dir_path");
    reveal_strlit("dir");
    lemma_no_breaks("files"@);
    lemma_no_breaks("dirs"@);
    lemma_no_breaks("dir_path"@);
    lemma_no_breaks("dir"@);
}

/// The size of a mapping of two entries: one, and its keys and values.
proof fn lemma_pair_sizes(entries: Seq<(Document, Document)>)
    requires
        entries.len() == 2,
    ensures
        size(Document::Table(entries)) == 1 + size(entries[0].0) + size(entries[0].1) + size(
            entries[1].0,
        ) + size(entries[1].1),
{
    assert(Document::Table(entries)->Table_0 == entries);
    assert(pair_sizes(entries, 0) == 0);
    assert(pair_sizes(entries, 1) == pair_sizes(entries, 0) + size(entries[0].0) + size(
        entries[0].1,
    ));
    assert(pair_sizes(entries, 2) == pair_sizes(entries, 1) + size(entries[1].0) + size(
        entries[1].1,
    ));
}

/// The first items of a sequence are together no larger than all of them.
proof fn lemma_sizes_grow(items: Seq<Document>, count: nat, more: nat)
    requires
        count <= more <= items.len(),
    ensures
        sizes(items, count) <= sizes(items, more),
    decreases more,
{
    if count < more {
        lemma_sizes_grow(items, count, (more - 1) as nat);
    }
}

impl DirectoryView {
    /// The size of the document of a directory: seven, and the sizes of
    /// its files and of its subdirectories.
    pub proof fn lemma_size(self)
        ensures
            size(self.document()) == 7 + sizes(path_documents(self.files), self.files.len())
                + sizes(
                subdirectory_documents(self.dirs, self.dirs.len()),
                self.dirs.len(),
            ),
    {
        lemma_key_lines();
        lemma_subdirectory_documents(self.dirs, self.dirs.len());
        let entries = self.document()->Table_0;
        let files = path_documents(self.files);
        let dirs = subdirectory_documents(self.dirs, self.dirs.len());
        assert(entries.len() == 2);
        assert(size(entries[0].0) == 2);
        assert(size(entries[1].0) == 2);
        assert(Document::List(files)->List_0 == files);
        assert(Document::List(dirs)->List_0 == dirs);
        assert(size(entries[0].1) == 1 + sizes(files, files.len()));
        assert(size(entries[1].1) == 1 + sizes(dirs, dirs.len()));
        lemma_pair_sizes(entries);
    }
}

impl DirectoryEntryView {
    /// The size of the document of a subdirectory: five, the lines of its
    /// path, and the size of its directory.
    pub proof fn lemma_size(self)
        ensures
            size(self.document()) == 5 + lines(self.dir_path) + size(self.dir.document()),
    {
        lemma_key_lines();
        let entries = self.document()->Table_0;
        assert(entries.len() == 2);
        assert(size(entries[0].0) == 2);
        assert(size(entries[1].0) == 2);
        assert(size(entries[0].1) == lines(self.dir_path));
        lemma_pair_sizes(entries);
    }
}

impl DirectoryView {
    /// The document of a directory is short enough for the encoder when,
    /// and only when, each of its file paths and each of its subdirectories
    /// is.
    pub proof fn lemma_encodable(self)
        ensures
            encodable(self.document()) <==> {
                &&& forall|i: int|
                    0 <= i < self.files.len() ==> (#[trigger] self.files[i]).len() < TEXT_LIMIT
                &&& forall|i: int|
                    0 <= i < self.dirs.len() ==> encodable((#[trigger] self.dirs[i]).document())
            },
    {
        lemma_keys_fit();
        lemma_subdirectory_documents(self.dirs, self.dirs.len());
        let files = path_documents(self.files);
        let dirs = subdirectory_documents(self.dirs, self.dirs.len());
        lemma_encodable_table(self.document()->Table_0);
        lemma_encodable_list(files);
        lemma_encodable_list(dirs);
        if encodable(self.document()) {
            assert forall|i: int| 0 <= i < self.files.len() implies (#[trigger] self.files[i]).len()
                < TEXT_LIMIT by {
                assert(encodable(files[i]));
            }
            assert forall|i: int| 0 <= i < self.dirs.len() implies encodable(
                (#[trigger] self.dirs[i]).document(),
            ) by {
                assert(encodable(dirs[i]));
            }
        }
        if (forall|i: int|
            0 <= i < self.files.len() ==> (#[trigger] self.files[i]).len() < TEXT_LIMIT) && (forall|
            i: int,
        | 0 <= i < self.dirs.len() ==> encodable((#[trigger] self.dirs[i]).document())) {
            assert forall|i: int| 0 <= i < files.len() implies encodable(#[trigger] files[i]) by {
                assert(files[i] == Document::Text(self.files[i]));
            }
            assert forall|i: int| 0 <= i < dirs.len() implies encodable(#[trigger] dirs[i]) by {
                assert(dirs[i] == self.dirs[i].document());
            }
        }
    }
}

impl DirectoryEntryView {
    /// The document of a subdirectory is short enough for the encoder when,
    /// and only when, its path and its directory are.
    pub proof fn lemma_encodable(self)
        ensures
            encodable(self.document()) <==> self.dir_path.len() < TEXT_LIMIT && encodable(
                self.dir.document(),
            ),
    {
        lemma_keys_fit();
        lemma_encodable_table(self.document()->Table_0);
    }
}

impl Directory {
    /// Whether every path of the tree is exact.
    #[verifier::loop_isolation(false)]
    pub fn is_exact(&self) -> (exact: bool)
        ensures
            exact == self@.exact_throughout(),
        decreases self,
    {
        proof {
            self.lemma_view();
        }
        if !self.exact {
            return false;
        }
        let mut i: usize = 0;
        while i < self.dirs.len()
            invariant
                i <= self.dirs.len(),
                forall|k: int| 0 <= k < i ==> (#[trigger] self@.dirs[k]).dir.exact_throughout(),
            decreases self.dirs.len() - i,
        {
            assert(self@.dirs[i as int] == self.dirs[i as int]@);
            if !self.dirs[i].dir.is_exact() {
                return false;
            }
            i = i + 1;
        }
        true
    }

    /// Takes the size of the tree from `budget`: what is left of it, or
    /// `None` where the tree is larger than the budget.
    #[verifier::loop_isolation(false)]
    pub fn weigh(&self, budget: usize) -> (left: Option<usize>)
        ensures
            match left {
                Some(rest) => size(self@.document()) + rest == budget,
                None => size(self@.document()) > budget,
            },
        decreases self,
    {
        let ghost files = path_documents(self@.files);
        let ghost dirs = subdirectory_documents(self@.dirs, self@.dirs.len());
        proof {
            self.lemma_view();
            self@.lemma_size();
            lemma_subdirectory_documents(self@.dirs, self@.dirs.len());
        }
        if budget < 7 {
            return None;
        }
        let mut rest: usize = budget - 7;
        let mut i: usize = 0;
        while i < self.files.len()
            invariant
                i <= self.files.len(),
                7 + sizes(files, i as nat) + rest == budget,
            decreases self.files.len() - i,
        {
            proof {
                assert(self@.files[i as int] == self.files[i as int]@);
                assert(files[i as int] == Document::Text(self@.files[i as int]));
                assert(size(files[i as int]) == lines(self@.files[i as int]));
                assert(sizes(files, (i + 1) as nat) == sizes(files, i as nat) + size(
                    files[i as int],
                ));
                lemma_sizes_grow(files, (i + 1) as nat, self.files.len() as nat);
            }
            match take_lines(self.files[i].as_str(), rest) {
                None => {
                    return None;
                },
                Some(left) => {
                    rest = left;
                },
            }
            i = i + 1;
        }
        let ghost after_files = rest;
        let mut j: usize = 0;
        while j < self.dirs.len()
            invariant
                j <= self.dirs.len(),
                7 + sizes(files, files.len()) + after_files == budget,
                sizes(dirs, j as nat) + rest == after_files,
            decreases self.dirs.len() - j,
        {
            proof {
                assert(self@.dirs[j as int] == self.dirs[j as int]@);
                self@.dirs[j as int].lemma_size();
                assert(dirs[j as int] == self@.dirs[j as int].document());
                assert(sizes(dirs, (j + 1) as nat) == sizes(dirs, j as nat) + size(dirs[j as int]));
                lemma_sizes_grow(dirs, (j + 1) as nat, self.dirs.len() as nat);
            }
            if rest < 5 {
                return None;
            }
            let after_path = match take_lines(self.dirs[j].dir_path.as_str(), rest - 5) {
                None => {
                    return None;
                },
                Some(left) => left,
            };
            match self.dirs[j].dir.weigh(after_path) {
                None => {
                    return None;
                },
                Some(left) => {
                    rest = left;
                },
            }
            j = j + 1;
        }
        Some(rest)
    }

    /// Whether every path of the tree is short enough for the encoder.
    #[verifier::loop_isolation(false)]
    pub fn fits(&self) -> (fits: bool)
        ensures
            fits == encodable(self@.document()),
        decreases self,
    {
        proof {
            self.lemma_view();
            self@.lemma_encodable();
        }
        let mut i: usize = 0;
        while i < self.files.len()
            invariant
                i <= self.files.len(),
                forall|k: int| 0 <= k < i ==> (#[trigger] self@.files[k]).len() < TEXT_LIMIT,
            decreases self.files.len() - i,
        {
            if self.files[i].as_str().unicode_len() >= TEXT_LIMIT {
                assert(self@.files[i as int] == self.files[i as int]@);
                return false;
            }
            assert(self@.files[i as int] == self.files[i as int]@);
            i = i + 1;
        }
        let mut j: usize = 0;
        while j < self.dirs.len()
            invariant
                j <= self.dirs.len(),
                forall|k: int| 0 <= k < j ==> encodable((#[trigger] self@.dirs[k]).document()),
            decreases self.dirs.len() - j,
        {
            proof {
                assert(self@.dirs[j as int] == self.dirs[j as int]@);
                self@.dirs[j as int].lemma_encodable();
            }
            if self.dirs[j].dir_path.as_str().unicode_len() >= TEXT_LIMIT {
                return false;
            }
            if !self.dirs[j].dir.fits() {
                return false;
            }
            j = j + 1;
        }
        true
    }

    /// The YAML value of this directory.
    pub fn to_value(&self) -> (value: serde_yaml::Value)
        ensures
            value_document(value) == self@.document(),
        decreases self,
    {
        proof {
            self.lemma_view();
            lemma_keys_differ();
        }
        let mut files: Vec<serde_yaml::Value> = Vec::new();
        let mut i: usize = 0;
        while i < self.files.len()
            invariant
                i <= self.files.len(),
                self@.files.len() == self.files.len(),
                value_documents(files@) == path_documents(self@.files.take(i as int)),
            decreases self.files.len() - i,
        {
            let ghost before = files@;
            files.push(text_value(self.files[i].clone()));
            proof {
                assert(self@.files[i as int] == self.files[i as int]@);
                assert(self@.files.take(i + 1) =~= self@.files.take(i as int).push(
                    self@.files[i as int],
                ));
                assert(value_documents(files@) =~= value_documents(before).push(
                    Document::Text(self@.files[i as int]),
                ));
                assert(value_documents(files@) =~= path_documents(self@.files.take(i + 1)));
            }
            i = i + 1;
        }
        assert(self@.files.take(i as int) =~= self@.files);
        let mut dirs: Vec<serde_yaml::Value> = Vec::new();
        let mut j: usize = 0;
        while j < self.dirs.len()
            invariant
                j <= self.dirs.len(),
                self@.dirs.len() == self.dirs.len(),
                value_documents(dirs@) == subdirectory_documents(self@.dirs, j as nat),
            decreases self.dirs.len() - j,
        {
            let ghost before = dirs@;
            proof {
                assert(self@.dirs[j as int] == self.dirs[j as int]@);
            }
            dirs.push(self.dirs[j].to_value());
            proof {
                assert(value_documents(dirs@) =~= value_documents(before).push(
                    self@.dirs[j as int].document(),
                ));
            }
            j = j + 1;
        }
        let mut entries: Vec<(serde_yaml::Value, serde_yaml::Value)> = Vec::new();
        entries.push((text_value(String::from_str("files")), list_value(files)));
        entries.push((text_value(String::from_str("dirs")), list_value(dirs)));
        proof {
            assert(pair_documents(entries@) =~= self@.document()->Table_0);
        }
        table_value(entries)
    }

    /// The YAML text of this directory: what `serde_yaml` writes for its
    /// document. A tree with a path that is not exact, or of [`TEXT_LIMIT`]
    /// characters or more, or of a size of [`SIZE_LIMIT`] or more, is not
    /// handed to the encoder; otherwise it is an error when, and only when,
    /// `serde_yaml` gives one.
    pub fn to_yaml(&self) -> (result: Result<String, EncodingError>)
        ensures
            match result {
                Ok(text) => yaml_of(self@) == Some(text@),
                Err(EncodingError::PathNotUnicode) => !self@.exact_throughout(),
                Err(EncodingError::PathTooLong) => self@.exact_throughout() && !encodable(
                    self@.document(),
                ),
                Err(EncodingError::TreeTooLarge) => self@.exact_throughout() && encodable(
                    self@.document(),
                ) && !small(self@.document()),
                Err(EncodingError::Encoder(_)) => self@.exact_throughout() && encodable(
                    self@.document(),
                ) && small(self@.document()) && yaml_text(self@.document()) is None,
            },
    {
        if !self.is_exact() {
            return Err(EncodingError::PathNotUnicode);
        }
        if !self.fits() {
            return Err(EncodingError::PathTooLong);
        }
        if self.weigh(SIZE_LIMIT - 1).is_none() {
            return Err(EncodingError::TreeTooLarge);
        }
        let value = self.to_value();
        proof {
            self@.lemma_document_plain();
        }
        match value_text(&value) {
            Ok(text) => Ok(text),
            Err(error) => Err(EncodingError::Encoder(error_message(&error))),
        }
    }
}

impl DirectoryEntry {
    /// The YAML value of this subdirectory.
    pub fn to_value(&self) -> (value: serde_yaml::Value)
        ensures
            value_document(value) == self@.document(),
        decreases self,
    {
        proof {
            lemma_keys_differ();
        }
        let mut entries: Vec<(serde_yaml::Value, serde_yaml::Value)> = Vec::new();
        entries.push(
            (text_value(String::from_str("dir_path")), text_value(self.dir_path.clone())),
        );
        entries.push((text_value(String::from_str("dir")), self.dir.to_value()));
        proof {
            assert(pair_documents(entries@) =~= self@.document()->Table_0);
        }
        table_value(entries)
    }
}

} // verus!
