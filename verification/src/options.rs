//! The configuration one conversion runs under: the two validated patterns,
//! the divider literals, and the flags threaded through to the renderer.

use vstd::prelude::*;

use crate::pattern::Pattern;

verus! {

/// The configuration as mathematics: pattern texts and divider literals.
#[verifier::ext_equal]
pub struct CfgView {
    pub part_src: Seq<char>,
    pub chapter_src: Seq<char>,
    pub divider: Seq<Seq<char>>,
    pub replace_quote: bool,
    pub long_preface: bool,
}

/// Options of one document conversion.  The patterns are validated at
/// construction (`Pattern::new`), so every holder of a `ParseOptions` may
/// assume they carry a capture group.
pub struct ParseOptions {
    /// Matches a part marker line; group 1 captures the part title.
    pub part_pattern: Pattern,
    /// Matches a chapter marker line; group 1 captures the chapter title.
    pub chapter_pattern: Pattern,
    /// Literals that, standing alone on a line, mark a divider.
    pub divider: Vec<String>,
    /// Whether the renderer later substitutes typographic quotes.
    pub replace_quote: bool,
    /// Force the long-preface flag on every part.
    pub long_preface: bool,
}

impl View for ParseOptions {
    type V = CfgView;

    open spec fn view(&self) -> CfgView {
        CfgView {
            part_src: self.part_pattern.src(),
            chapter_src: self.chapter_pattern.src(),
            divider: self.divider.deep_view(),
            replace_quote: self.replace_quote,
            long_preface: self.long_preface,
        }
    }
}

} // verus!
