//! The boundary to `serde_yaml`.
//!
//! The library lays a tree out as a YAML value and reads one back in
//! verified code. What `serde_yaml` does with a value is trusted, not
//! verified: every function in this file whose body is not checked says so,
//! names the function of `serde_yaml` that it calls, and states what is
//! assumed of it. The assumptions are phrased over [`Document`], the model
//! of what a value holds.

use crate::lines::lines;
use std::iter::FromIterator;
use vstd::prelude::*;

verus! {

/// `serde_yaml::Value`, taken as it is: nothing inside it is visible here.
#[verifier::external_type_specification]
#[verifier::external_body]
pub struct ExValue(serde_yaml::Value);

/// `serde_yaml::Error`, taken as it is.
#[verifier::external_type_specification]
#[verifier::external_body]
pub struct ExError(serde_yaml::Error);

/// What a YAML value holds, as far as this library looks at it.
pub enum Document {
    /// A string.
    Text(Seq<char>),
    /// A sequence.
    List(Seq<Document>),
    /// A mapping: its keys with their values, in the order of the mapping.
    Table(Seq<(Document, Document)>),
    /// A value that carries a tag.
    Tagged(Box<Document>),
    /// A null, a boolean or a number.
    Scalar,
}

/// The document that a `serde_yaml::Value` holds.
pub uninterp spec fn value_document(value: serde_yaml::Value) -> Document;

/// The text that `serde_yaml::to_string` gives for a value that holds the
/// document, or `None` where it gives an error. It is spoken of only for
/// documents that are [`plain`], [`encodable`] and [`small`].
pub uninterp spec fn yaml_text(document: Document) -> Option<Seq<char>>;

/// The documents that a list of values holds.
pub open spec fn value_documents(values: Seq<serde_yaml::Value>) -> Seq<Document> {
    values.map_values(|v: serde_yaml::Value| value_document(v))
}

/// The documents that a list of keys with their values holds.
pub open spec fn pair_documents(entries: Seq<(serde_yaml::Value, serde_yaml::Value)>) -> Seq<
    (Document, Document),
> {
    entries.map_values(
        |e: (serde_yaml::Value, serde_yaml::Value)| (value_document(e.0), value_document(e.1)),
    )
}

/// The text that `serde_yaml::from_str` reads as a value, given as the
/// document that the value holds, or `None` where it gives an error.
pub uninterp spec fn yaml_document(text: Seq<char>) -> Option<Document>;

/// The document without the tags around it.
pub open spec fn untagged(document: Document) -> Document
    decreases document,
{
    match document {
        Document::Tagged(inner) => untagged(*inner),
        _ => document,
    }
}

/// The string that the document is, tags aside.
pub open spec fn text_of(document: Document) -> Option<Seq<char>> {
    match untagged(document) {
        Document::Text(text) => Some(text),
        _ => None,
    }
}

/// The items of the sequence that the document is, tags aside.
pub open spec fn items_of(document: Document) -> Option<Seq<Document>> {
    match untagged(document) {
        Document::List(items) => Some(items),
        _ => None,
    }
}

/// The value of the first entry whose key is the string `key`.
pub open spec fn lookup(entries: Seq<(Document, Document)>, key: Seq<char>) -> Option<Document>
    decreases entries.len(),
{
    if entries.len() == 0 {
        None
    } else if entries[0].0 == Document::Text(key) {
        Some(entries[0].1)
    } else {
        lookup(entries.subrange(1, entries.len() as int), key)
    }
}

/// What the mapping that the document is, tags aside, holds under the
/// string `key`.
pub open spec fn field(document: Document, key: Seq<char>) -> Option<Document> {
    match untagged(document) {
        Document::Table(entries) => lookup(entries, key),
        _ => None,
    }
}

/// The keys of the entries are strings, and no two of them are the same.
pub open spec fn distinct_text_keys(entries: Seq<(Document, Document)>) -> bool {
    &&& forall|i: int| 0 <= i < entries.len() ==> (#[trigger] entries[i]).0 is Text
    &&& forall|i: int, j: int|
        0 <= i < j < entries.len() ==> (#[trigger] entries[i]).0 != (#[trigger] entries[j]).0
}

/// The document is made of strings, sequences and mappings alone, and the
/// keys of each mapping are strings of which no two are the same.
pub open spec fn plain(document: Document) -> bool
    decreases document,
{
    match document {
        Document::Text(_) => true,
        Document::List(items) => forall|i: int|
            0 <= i < items.len() ==> plain(#[trigger] items[i]),
        Document::Table(entries) => {
            &&& distinct_text_keys(entries)
            &&& forall|i: int| 0 <= i < entries.len() ==> plain((#[trigger] entries[i]).1)
        },
        Document::Tagged(_) => false,
        Document::Scalar => false,
    }
}

/// The number of characters below which a string is handed to the encoder.
///
/// The encoder keeps three counts in signed 32-bit numbers: the length of a
/// string in bytes, the column it writes at, and the line it writes at. A
/// character takes at most four bytes. A line holds its indentation, which
/// is two columns for each sequence or mapping around it, and at most a key
/// and a value; a character takes at most six columns, when it is written
/// as an escape. With the strings below `TEXT_LIMIT` and the size below
/// [`SIZE_LIMIT`], no line is wider than 2 * 2^29 + 12 * 2^26 + 8 columns,
/// which is below 2^31.
pub const TEXT_LIMIT: usize = 0x0400_0000;

/// Every string in the document is short enough for the encoder.
pub open spec fn encodable(document: Document) -> bool
    decreases document,
{
    match document {
        Document::Text(text) => text.len() < TEXT_LIMIT,
        Document::List(items) => forall|i: int|
            0 <= i < items.len() ==> encodable(#[trigger] items[i]),
        Document::Table(entries) => forall|i: int|
            0 <= i < entries.len() ==> encodable((#[trigger] entries[i]).0) && encodable(
                entries[i].1,
            ),
        Document::Tagged(inner) => encodable(*inner),
        Document::Scalar => true,
    }
}

/// The size below which a document is handed to the encoder: see
/// [`TEXT_LIMIT`].
pub const SIZE_LIMIT: usize = 0x2000_0000;

/// The size of a document: no less than the number of lines that the
/// encoder writes for it, and more than the number of sequences and
/// mappings that lie around any part of it. A string counts for its lines,
/// a sequence or a mapping for one more than what it holds.
pub open spec fn size(document: Document) -> nat
    decreases document, 0nat,
{
    match document {
        Document::Text(text) => lines(text),
        Document::List(items) => 1 + sizes(items, items.len()),
        Document::Table(entries) => 1 + pair_sizes(entries, entries.len()),
        Document::Tagged(inner) => 1 + size(*inner),
        Document::Scalar => 1,
    }
}

/// The sizes of the first `count` items together.
pub open spec fn sizes(items: Seq<Document>, count: nat) -> nat
    decreases items, count,
{
    if count == 0 || count > items.len() {
        0
    } else {
        sizes(items, (count - 1) as nat) + size(items[count - 1])
    }
}

/// The sizes of the keys and values of the first `count` entries together.
pub open spec fn pair_sizes(entries: Seq<(Document, Document)>, count: nat) -> nat
    decreases entries, count,
{
    if count == 0 || count > entries.len() {
        0
    } else {
        pair_sizes(entries, (count - 1) as nat) + size(entries[count - 1].0) + size(
            entries[count - 1].1,
        )
    }
}

/// The document is small enough for the encoder.
pub open spec fn small(document: Document) -> bool {
    size(document) < SIZE_LIMIT
}

/// `serde_yaml::Value::String`: the value that holds the string.
#[verifier::external_body]
pub(crate) fn text_value(text: String) -> (value: serde_yaml::Value)
    ensures
        value_document(value) == Document::Text(text@),
{
    serde_yaml::Value::String(text)
}

/// `serde_yaml::Value::Sequence`: the value that holds the items in order.
#[verifier::external_body]
pub(crate) fn list_value(items: Vec<serde_yaml::Value>) -> (value: serde_yaml::Value)
    ensures
        value_document(value) == Document::List(value_documents(items@)),
{
    serde_yaml::Value::Sequence(items)
}

/// `serde_yaml::Mapping::from_iter`, wrapped in `serde_yaml::Value::Mapping`:
/// the mapping that holds the entries in the order given. The mapping keeps
/// one entry for each key, so this is claimed only of entries whose keys are
/// strings that differ.
#[verifier::external_body]
pub(crate) fn table_value(entries: Vec<(serde_yaml::Value, serde_yaml::Value)>) -> (value:
    serde_yaml::Value)
    requires
        distinct_text_keys(pair_documents(entries@)),
    ensures
        value_document(value) == Document::Table(pair_documents(entries@)),
{
    serde_yaml::Value::Mapping(serde_yaml::Mapping::from_iter(entries))
}

/// `serde_yaml::to_string` on a value: the text is a function of the
/// document that the value holds. This is claimed only of plain documents
/// that are small and whose strings are short. The encoder casts the length
/// of a string in bytes to a signed 32-bit number and counts its columns
/// and its lines in two more; beyond them it may panic, or read what is no
/// part of the value.
#[verifier::external_body]
pub(crate) fn value_text(value: &serde_yaml::Value) -> (result: Result<String, serde_yaml::Error>)
    requires
        plain(value_document(*value)),
        encodable(value_document(*value)),
        small(value_document(*value)),
    ensures
        match result {
            Ok(text) => yaml_text(value_document(*value)) == Some(text@),
            Err(_) => yaml_text(value_document(*value)) is None,
        },
{
    serde_yaml::to_string(value)
}

/// The `Display` text of a `serde_yaml::Error`. Nothing is claimed of it.
#[verifier::external_body]
pub(crate) fn error_message(error: &serde_yaml::Error) -> String {
    error.to_string()
}

/// `serde_yaml::from_str` for a `serde_yaml::Value`: the value that the text
/// is read as, or the error.
#[verifier::external_body]
pub(crate) fn text_value_of(text: &str) -> (result: Result<serde_yaml::Value, serde_yaml::Error>)
    ensures
        match result {
            Ok(value) => yaml_document(text@) == Some(value_document(value)),
            Err(_) => yaml_document(text@) is None,
        },
{
    serde_yaml::from_str(text)
}

/// `serde_yaml::Value::as_str`: the string that the value is, tags aside,
/// or `None` where it is no string.
#[verifier::external_body]
pub(crate) fn value_as_text(value: &serde_yaml::Value) -> (text: Option<&str>)
    ensures
        match text {
            Some(t) => text_of(value_document(*value)) == Some(t@),
            None => text_of(value_document(*value)) is None,
        },
{
    value.as_str()
}

/// `serde_yaml::Value::as_sequence`: the items of the sequence that the
/// value is, tags aside, or `None` where it is no sequence.
#[verifier::external_body]
pub(crate) fn value_as_list(value: &serde_yaml::Value) -> (items: Option<&Vec<serde_yaml::Value>>)
    ensures
        match items {
            Some(list) => items_of(value_document(*value)) == Some(value_documents(list@)),
            None => items_of(value_document(*value)) is None,
        },
{
    value.as_sequence()
}

/// `serde_yaml::Value::get` with a string: what the mapping that the value
/// is, tags aside, holds under that string as its key, or `None` where the
/// value is no mapping or has no such key.
#[verifier::external_body]
pub(crate) fn value_field<'a>(value: &'a serde_yaml::Value, key: &str) -> (found: Option<
    &'a serde_yaml::Value,
>)
    ensures
        match found {
            Some(v) => field(value_document(*value), key@) == Some(value_document(*v)),
            None => field(value_document(*value), key@) is None,
        },
{
    value.get(key)
}

} // verus!
