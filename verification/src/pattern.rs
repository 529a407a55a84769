//! Name filtering.  A compiled pattern wraps a regular expression of
//! the regex crate; what it matches is named, not restated, and the
//! walk's logic is verified over that name.

use vstd::prelude::*;

verus! {

#[verifier::external_type_specification]
#[verifier::external_body]
pub struct ExRegex(regex::Regex);

/// Whether the regex crate accepts this pattern text; it depends on
/// the text alone.
pub uninterp spec fn regex_pattern_ok(pattern: Seq<char>) -> bool;

/// Whether the regex compiled from `pattern` matches `text`; it
/// depends on the two texts alone.
pub uninterp spec fn regex_matches(pattern: Seq<char>, text: Seq<char>) -> bool;

/// A compiled name filter, remembering the text it was built from.
pub struct NamePattern {
    re: regex::Regex,
    source: Ghost<Seq<char>>,
}

impl NamePattern {
    /// The pattern text this filter was compiled from.
    pub closed spec fn source(self) -> Seq<char> {
        self.source@
    }

    /// Relies on regex::Regex::new: compiles the pattern, succeeding
    /// exactly on the pattern texts the regex crate accepts.
    #[verifier::external_body]
    pub fn compile(pattern: &str) -> (r: Option<NamePattern>)
        ensures
            r is Some <==> regex_pattern_ok(pattern@),
            r matches Some(p) ==> p.source() == pattern@,
    {
        match regex::Regex::new(pattern) {
            Ok(re) => Some(NamePattern { re, source: Ghost(pattern@) }),
            Err(_) => None,
        }
    }

    /// Relies on regex::Regex::is_match: whether the compiled pattern
    /// matches the text.
    #[verifier::external_body]
    pub fn is_match(&self, text: &str) -> (r: bool)
        ensures
            r == regex_matches(self.source(), text@),
    {
        self.re.is_match(text)
    }
}

} // verus!
