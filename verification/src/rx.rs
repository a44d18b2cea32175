//! The engine's view of regular expressions.  Compilation and matching are
//! done by the regex crate; what a pattern means is carried by names that
//! the trusted wrappers below relate to the outside calls.

use vstd::prelude::*;

verus! {

#[verifier::external_type_specification]
#[verifier::external_body]
pub struct ExRegex(regex::Regex);

/// The set of strings in which a compiled regular expression finds a match
/// (an unanchored search, which is what the `pattern` keyword asks for).
pub uninterp spec fn regex_lang(re: regex::Regex) -> Set<Seq<char>>;

/// The set of strings in which the pattern `p`, once compiled, finds a match:
/// what `regex::Regex::new(p)` produces.
pub uninterp spec fn pattern_lang(p: Seq<char>) -> Set<Seq<char>>;

/// Whether `p` is a valid regular expression: whether `regex::Regex::new(p)`
/// succeeds.
pub uninterp spec fn pattern_valid(p: Seq<char>) -> bool;

/// Relies on regex::Regex::new: compilation is a function of the pattern
/// string alone; it succeeds exactly for the valid patterns, and the compiled
/// expression matches according to that pattern.
#[verifier::external_body]
pub fn regex_new(p: &str) -> (r: Option<regex::Regex>)
    ensures
        r is Some <==> pattern_valid(p@),
        r matches Some(re) ==> regex_lang(re) == pattern_lang(p@),
{
    regex::Regex::new(p).ok()
}

/// Relies on regex::Regex::is_match: true exactly when the compiled pattern
/// finds a match somewhere in the text; the result depends on the compiled
/// pattern and the text alone.
#[verifier::external_body]
pub fn regex_is_match(re: &regex::Regex, text: &str) -> (r: bool)
    ensures
        r == regex_lang(*re).contains(text@),
{
    re.is_match(text)
}

} // verus!
