//! Inline structural directives: a closed set of bracket-delimited literal
//! tokens that may stand on a line of their own.  A recognized token sets a
//! named boolean flag on the part it appears in and is excluded from preface
//! and content text; unrecognized bracket-like text is ordinary text.

use vstd::prelude::*;

use crate::text::{str_eq, trim_spec, trim_str};

verus! {

/// The named per-part flags that directive lines can set.
#[derive(Debug, Clone, Copy, PartialEq, Eq, Structural, Hash)]
pub enum NovelOptions {
    /// The part's preface is long enough to deserve a page of its own.
    LongPreface,
    /// Not a recognized directive.
    Unknown,
}

/// Which directive, if any, a trimmed line of text names.
pub open spec fn spec_of_token(t: Seq<char>) -> NovelOptions {
    if t == "[LongPreface]"@ {
        NovelOptions::LongPreface
    } else {
        NovelOptions::Unknown
    }
}

impl NovelOptions {
    /// Classify a line of text as a directive token or as ordinary text.
    pub fn of_str(s: &str) -> (r: NovelOptions)
        ensures
            r == spec_of_token(trim_spec(s@)),
    {
        let t = trim_str(s);
        if str_eq(t, "[LongPreface]") {
            NovelOptions::LongPreface
        } else {
            NovelOptions::Unknown
        }
    }

    /// Whether the line of text is a recognized directive token.
    pub fn is_options_string(s: &str) -> (r: bool)
        ensures
            r == (spec_of_token(trim_spec(s@)) != NovelOptions::Unknown),
    {
        match Self::of_str(s) {
            NovelOptions::Unknown => false,
            _ => true,
        }
    }

    /// The directive flags of a freshly opened part: every recognized flag,
    /// off.
    pub fn default_options() -> (r: Vec<(NovelOptions, bool)>)
        ensures
            r@ == seq![(NovelOptions::LongPreface, false)],
    {
        let mut v: Vec<(NovelOptions, bool)> = Vec::new();
        v.push((NovelOptions::LongPreface, false));
        proof {
            assert(v@ =~= seq![(NovelOptions::LongPreface, false)]);
        }
        v
    }

    /// The token text of a directive, as it stands in a document.
    pub fn token_str(self) -> (r: &'static str)
        ensures
            self is LongPreface ==> r@ == "[LongPreface]"@,
            self is Unknown ==> r@ == "UnkownOptions"@,
    {
        match self {
            NovelOptions::LongPreface => "[LongPreface]",
            NovelOptions::Unknown => "UnkownOptions",
        }
    }
}

} // verus!
