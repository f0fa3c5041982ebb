//! A validated title-matching pattern: a compiled regular expression that is
//! guaranteed, from construction on, to carry at least one capture group (the
//! title text).  Matching itself is done by the `regex` crate; its behaviour
//! is named by uninterpreted functions of the pattern text and the haystack,
//! which is sound because `regex` matching is a pure function of the two.

use vstd::prelude::*;

verus! {

/// Whether `regex::Regex::new` accepts a pattern text.
pub uninterp spec fn regex_compiles(pat: Seq<char>) -> bool;

/// What `regex::Regex::captures_len` reports for a pattern text: the number
/// of capture groups, the implicit whole-match group included.
pub uninterp spec fn regex_group_count(pat: Seq<char>) -> int;

/// What `regex::Regex::captures` yields for a pattern text on a haystack:
/// `None` where the pattern does not match, otherwise the text of capture
/// group 1 (the empty text where that group took no part in the match).
pub uninterp spec fn regex_captures(pat: Seq<char>, text: Seq<char>) -> Option<Seq<char>>;

#[verifier::external_type_specification]
#[verifier::external_body]
pub struct ExRegex(regex::Regex);

/// Why a pattern text was rejected at configuration time.
#[derive(Debug, Clone, Copy, PartialEq, Eq, Structural)]
pub enum PatternError {
    /// The text is not a valid regular expression.
    NotCompilable,
    /// The expression compiles but declares no capture group for the title.
    NoCaptureGroup,
}

/// Relies on `regex::Regex::new` and `regex::Regex::captures_len`: whether a
/// pattern text compiles, and how many capture groups the compiled expression
/// has, are properties of the pattern text alone.  `captures_len` counts the
/// implicit group 0, so it is at least 1 on every compiled expression.
#[verifier::external_body]
fn regex_new_counted(source: &str) -> (r: Option<(regex::Regex, usize)>)
    ensures
        r is Some <==> regex_compiles(source@),
        r matches Some(p) ==> p.1 as int == regex_group_count(source@),
{
    regex::Regex::new(source).ok().map(
        |re|
            {
                let n = re.captures_len();
                (re, n)
            },
    )
}

/// A compiled pattern together with the text it was compiled from.  The one
/// constructor keeps the two in step, which the trusted contract of
/// `captures` relies on.
#[derive(Debug)]
pub struct Pattern {
    re: regex::Regex,
    source: String,
}

impl Pattern {
    /// The pattern text this value was compiled from.
    pub closed spec fn src(&self) -> Seq<char> {
        self.source@
    }

    /// Compile and validate a pattern text.  It is accepted exactly when it
    /// compiles and declares at least one capture group beside the implicit
    /// whole-match group.
    pub fn new(source: &str) -> (r: Result<Pattern, PatternError>)
        ensures
            r is Ok <==> regex_compiles(source@) && regex_group_count(source@) >= 2,
            r matches Ok(p) ==> p.src() == source@,
            r matches Err(e) ==> (e is NotCompilable <==> !regex_compiles(source@)),
            r matches Err(e) ==> (e is NoCaptureGroup <==> regex_compiles(source@)
                && regex_group_count(source@) < 2),
    {
        match regex_new_counted(source) {
            None => Err(PatternError::NotCompilable),
            Some((re, n)) => {
                if n >= 2 {
                    Ok(Pattern { re, source: source.to_owned() })
                } else {
                    Err(PatternError::NoCaptureGroup)
                }
            },
        }
    }

    /// Relies on `regex::Regex::captures` and `regex::Captures::get`: what a
    /// compiled expression matches, and the span each group captured, depend
    /// on the pattern text and the haystack alone.  Returns the text of
    /// capture group 1 where the pattern matches, with the empty text where
    /// that group took no part in the match.
    #[verifier::external_body]
    pub fn captures(&self, text: &str) -> (r: Option<String>)
        ensures
            r is Some <==> regex_captures(self.src(), text@) is Some,
            r matches Some(t) ==> regex_captures(self.src(), text@) == Some(t@),
    {
        self.re.captures(text).map(
            |c| c.get(1).map_or(String::new(), |m| m.as_str().to_string()),
        )
    }

    /// Whether the pattern matches the text at all.
    pub fn is_match(&self, text: &str) -> (r: bool)
        ensures
            r == (regex_captures(self.src(), text@) is Some),
    {
        self.captures(text).is_some()
    }
}

} // verus!
