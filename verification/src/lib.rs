pub mod chapter;
pub mod cursor;
pub mod laws;
pub mod metadata;
pub mod novel;
pub mod novel_options;
pub mod options;
pub mod parse;
pub mod part;
pub mod pattern;
pub mod text;

use vstd::prelude::*;

verus! {

/// An error that aborts the conversion of one document.
#[derive(Debug, Clone, Copy, PartialEq, Eq)]
pub enum ParseError {
    /// The byte stream is not valid text; `offset` is where the bad line starts.
    Encoding { offset: usize },
    /// The leading metadata block is not a well-formed key/value record;
    /// `line` is the index of the offending line within the block.
    MetadataParse { line: usize },
}

} // verus!
