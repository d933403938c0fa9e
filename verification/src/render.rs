//! The two ways of writing a tree, behind one function.

use crate::encode::{yaml_of, EncodingError};
use crate::tree::{Directory, DirectoryView};
use vstd::prelude::*;

verus! {

/// How a tree is written.
#[derive(Clone, Copy, Debug, PartialEq, Eq, Structural)]
pub enum Format {
    /// One line for each file and each subdirectory, depth first.
    PlainText,
    /// A nested mapping of `files` and `dirs`, as YAML.
    Yaml,
}

/// The text of `dir` in `format`, or `None` where a path is not exact or too
/// long for the YAML encoder, the tree is too large for it, or the encoder
/// gives an error.
pub open spec fn rendered(dir: DirectoryView, format: Format) -> Option<Seq<char>> {
    match format {
        Format::PlainText => Some(dir.text()),
        Format::Yaml => yaml_of(dir),
    }
}

/// Writes the tree under `dir`, taken as the root, in `format`. Plain text
/// is always written; YAML is an error when, and only when, a path is not
/// exact or too long for the encoder, the tree is too large for it, or the
/// encoder gives an error.
pub fn render(dir: &Directory, format: Format) -> (result: Result<String, EncodingError>)
    ensures
        match result {
            Ok(text) => rendered(dir@, format) == Some(text@),
            Err(_) => rendered(dir@, format) is None,
        },
{
    match format {
        Format::PlainText => Ok(dir.to_string()),
        Format::Yaml => dir.to_yaml(),
    }
}

} // verus!
