//! Trusted interface to the `regex` crate.
//!
//! A compiled `regex::Regex` is opaque to the verifier; like a collection's
//! contents, what it holds is given a name: `regex_pattern` is the pattern
//! text it was compiled from.  `regex_match` names the crate's matching
//! relation, a function of the pattern and the text alone, and `regex_valid`
//! names the set of pattern strings the crate accepts.

use vstd::prelude::*;

verus! {

#[verifier::external_type_specification]
#[verifier::external_body]
pub struct ExRegex(regex::Regex);

/// Whether `regex::Regex::new` accepts the pattern.
pub uninterp spec fn regex_valid(p: Seq<char>) -> bool;

/// The pattern text a compiled regex was built from.
pub uninterp spec fn regex_pattern(re: regex::Regex) -> Seq<char>;

/// Whether the pattern matches somewhere in the text.
pub uninterp spec fn regex_match(p: Seq<char>, t: Seq<char>) -> bool;

/// Relies on `regex::Regex::new`: compiling succeeds exactly on the patterns
/// the crate accepts, and the compiled value holds the given pattern.
#[verifier::external_body]
pub(crate) fn regex_compile(pattern: &str) -> (r: Option<regex::Regex>)
    ensures
        r is Some <==> regex_valid(pattern@),
        r matches Some(re) ==> regex_pattern(re) == pattern@,
{
    regex::Regex::new(pattern).ok()
}

/// Relies on `regex::Regex::is_match`: whether the compiled pattern matches
/// anywhere in the text, a function of the pattern and the text alone.
#[verifier::external_body]
pub(crate) fn regex_is_match(re: &regex::Regex, text: &str) -> (r: bool)
    ensures
        r == regex_match(regex_pattern(*re), text@),
{
    re.is_match(text)
}

} // verus!
