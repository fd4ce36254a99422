//! Compiled regular expressions from the `regex` crate, tied to the pattern
//! text they were built from.

use vstd::prelude::*;

verus! {

#[verifier::external_type_specification]
#[verifier::external_body]
pub struct ExRegex(regex::Regex);

#[verifier::external_type_specification]
#[verifier::external_body]
pub struct ExRegexError(regex::Error);

/// Whether `regex::Regex::new` accepts the pattern.
pub uninterp spec fn regex_pattern_valid(pattern: Seq<char>) -> bool;

/// Whether the regex compiled from `pattern` matches somewhere in `haystack`
/// (`regex::Regex::is_match`).
pub uninterp spec fn regex_finds_match(pattern: Seq<char>, haystack: Seq<char>) -> bool;

/// A compiled regex together with the pattern it was compiled from. Only
/// `compile_regex` builds one, so `source` is always that pattern.
pub struct CompiledRegex {
    re: regex::Regex,
    source: String,
}

impl CompiledRegex {
    /// The pattern this regex was compiled from.
    pub closed spec fn source_view(&self) -> Seq<char> {
        self.source@
    }
}

/// `regex::Regex::new`. Trusted: it succeeds exactly on the patterns named
/// valid by `regex_pattern_valid`, and the compiled value remembers its
/// pattern. Which patterns are valid is not stated here (the regex syntax).
#[verifier::external_body]
pub fn compile_regex(pattern: &str) -> (r: Result<CompiledRegex, regex::Error>)
    ensures
        r is Ok <==> regex_pattern_valid(pattern@),
        r matches Ok(c) ==> c.source_view() == pattern@,
{
    match regex::Regex::new(pattern) {
        Ok(re) => Ok(CompiledRegex { re, source: pattern.to_string() }),
        Err(e) => Err(e),
    }
}

/// `regex::Regex::is_match`. Trusted: the answer depends only on the pattern
/// and the haystack, and is named `regex_finds_match`; the regex semantics
/// themselves are not restated.
#[verifier::external_body]
pub fn regex_is_match(re: &CompiledRegex, haystack: &str) -> (r: bool)
    ensures
        r == regex_finds_match(re.source_view(), haystack@),
{
    re.re.is_match(haystack)
}

} // verus!
