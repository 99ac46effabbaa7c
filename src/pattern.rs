//! Compiled regular expressions, through the `regex` crate.
//!
//! A [`Pattern`] is only ever made by [`compile`] or [`Pattern::duplicate`],
//! so its regex is always the one compiled from its source text.
use vstd::prelude::*;

verus! {

#[verifier::external_type_specification]
#[verifier::external_body]
pub struct ExRegex(regex::Regex);

#[verifier::external_type_specification]
#[verifier::external_body]
pub struct ExRegexError(regex::Error);

/// Whether `regex::Regex::new` accepts `pattern`.
pub uninterp spec fn regex_compiles(pattern: Seq<char>) -> bool;

/// Whether the regex compiled from `pattern` matches somewhere in `haystack`.
pub uninterp spec fn regex_is_match(pattern: Seq<char>, haystack: Seq<char>) -> bool;

/// Relies on regex's `Clone` for `Regex`: the copy holds the same compiled program.
pub assume_specification[ <regex::Regex as Clone>::clone ](r: &regex::Regex) -> regex::Regex;

/// A regular expression together with the text it was compiled from.
pub struct Pattern {
    regex: regex::Regex,
    source: String,
}

impl View for Pattern {
    type V = Seq<char>;

    closed spec fn view(&self) -> Seq<char> {
        self.source@
    }
}

/// Relies on `regex::Regex::new`: whether it succeeds depends on the pattern
/// text alone.
#[verifier::external_body]
pub(crate) fn compile(pattern: &str) -> (r: Result<Pattern, regex::Error>)
    ensures
        r is Ok <==> regex_compiles(pattern@),
        r matches Ok(p) ==> p@ == pattern@,
{
    match regex::Regex::new(pattern) {
        Ok(regex) => Ok(Pattern { regex, source: pattern.to_string() }),
        Err(e) => Err(e),
    }
}

impl Pattern {
    /// Relies on `regex::Regex::is_match`, on the regex compiled from `self@`.
    #[verifier::external_body]
    pub(crate) fn is_match(&self, haystack: &str) -> (r: bool)
        ensures
            r == regex_is_match(self@, haystack@),
    {
        self.regex.is_match(haystack)
    }

    /// A second pattern with the same source text.
    pub(crate) fn duplicate(&self) -> (r: Pattern)
        ensures
            r@ == self@,
    {
        Pattern { regex: self.regex.clone(), source: self.source.clone() }
    }
}

} // verus!
