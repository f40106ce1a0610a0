//! Skip patterns: regular expressions that exclude files from copying.
//!
//! The regex engine itself is outside code; what this module states about it
//! is that compiling and matching are functions of the pattern text and the
//! haystack alone.  A `Pattern` pairs a compiled regex with the text it was
//! compiled from, so that contracts can speak of the text.

use vstd::prelude::*;

verus! {

/// Declares `regex::Regex`, an outside type, so that it can stand in a
/// field; its values are opaque here.
#[verifier::external_type_specification]
#[verifier::external_body]
pub struct ExRegex(regex::Regex);

/// Whether the pattern text is a valid regular expression, i.e. whether
/// compiling it succeeds.
pub uninterp spec fn pattern_compiles(text: Seq<char>) -> bool;

/// Whether the regular expression compiled from `text` matches anywhere in
/// `haystack`.
pub uninterp spec fn pattern_matched(text: Seq<char>, haystack: Seq<char>) -> bool;

/// Relies on `regex::Regex::new`: whether a pattern compiles depends on the
/// pattern text alone (the default size limit is part of that function).
#[verifier::external_body]
fn compile(text: &str) -> (r: Option<regex::Regex>)
    ensures
        (r is Some) == pattern_compiles(text@),
{
    regex::Regex::new(text).ok()
}

/// A compiled skip pattern together with the text it was compiled from.
///
/// The fields are private: the only way to build a `Pattern` is
/// [`Pattern::new`], which compiles `text` itself, so `re` is always the
/// regex compiled from `text`.
#[derive(Debug)]
pub struct Pattern {
    text: String,
    re: regex::Regex,
}

impl View for Pattern {
    type V = Seq<char>;

    /// A pattern is, for specification purposes, its text.
    closed spec fn view(&self) -> Seq<char> {
        self.text@
    }
}

impl Pattern {
    /// Compiles a pattern, returning `None` exactly when the text is not a
    /// valid regular expression.
    pub fn new(text: String) -> (r: Option<Pattern>)
        ensures
            (r is Some) == pattern_compiles(text@),
            r matches Some(p) ==> p@ == text@,
    {
        match compile(text.as_str()) {
            Some(re) => Some(Pattern { text, re }),
            None => None,
        }
    }

    /// The text the pattern was compiled from.
    pub fn text(&self) -> (r: &str)
        ensures
            r@ == self@,
    {
        self.text.as_str()
    }

    /// Relies on `regex::Regex::is_match`: the result depends only on the
    /// text the regex was compiled from and on the haystack.  `self.re` is
    /// only ever the regex compiled from `self.text` (see [`Pattern::new`]).
    #[verifier::external_body]
    pub fn is_match(&self, haystack: &str) -> (r: bool)
        ensures
            r == pattern_matched(self@, haystack@),
    {
        self.re.is_match(haystack)
    }
}

/// Whether any of the patterns matches the haystack.
pub open spec fn any_match(patterns: Seq<Seq<char>>, haystack: Seq<char>) -> bool {
    exists|i: int| 0 <= i < patterns.len() && pattern_matched(patterns[i], haystack)
}

/// The pattern texts of a list of compiled patterns.
pub open spec fn texts_of(patterns: Seq<Pattern>) -> Seq<Seq<char>> {
    patterns.map_values(|p: Pattern| p@)
}

/// Whether any pattern of the list matches the haystack.
pub fn matches_any(patterns: &Vec<Pattern>, haystack: &str) -> (r: bool)
    ensures
        r == any_match(texts_of(patterns@), haystack@),
{
    let mut i: usize = 0;
    while i < patterns.len()
        invariant
            i <= patterns@.len(),
            forall|j: int| 0 <= j < i ==> !pattern_matched(texts_of(patterns@)[j], haystack@),
        decreases patterns@.len() - i,
    {
        if patterns[i].is_match(haystack) {
            assert(pattern_matched(texts_of(patterns@)[i as int], haystack@));
            return true;
        }
        i = i + 1;
    }
    false
}

} // verus!
