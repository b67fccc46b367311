//! The boundary to the `regex` crate. Nothing in this file is proved: each
//! item states what the crate's documentation says of one of its functions.

use regex::Regex;
use vstd::prelude::*;

verus! {

#[verifier::external_type_specification]
#[verifier::external_body]
pub struct ExRegex(regex::Regex);

#[verifier::external_type_specification]
#[verifier::external_body]
pub struct ExRegexError(regex::Error);

/// Whether `Regex::new` compiles `pattern`. It decides by the pattern text and
/// its own fixed default limits alone.
pub uninterp spec fn pattern_accepted(pattern: Seq<char>) -> bool;

/// The pattern text that a compiled `regex::Regex` was built from: what
/// `Regex::as_str` returns for it.
pub uninterp spec fn compiled_pattern(engine: Regex) -> Seq<char>;

/// What `Regex::replace_all` returns for a compiled `regex::Regex`, on
/// `haystack`, with the replacement string `replacement`.
pub uninterp spec fn regex_replaced(
    engine: Regex,
    haystack: Seq<char>,
    replacement: Seq<char>,
) -> Seq<char>;

/// `regex::Regex::new`. The crate decides whether `pattern` compiles, by the
/// pattern alone; a regex that comes back was built from exactly that text.
#[verifier::external_body]
pub(crate) fn compile(pattern: &str) -> (compiled: Result<Regex, regex::Error>)
    ensures
        compiled is Ok <==> pattern_accepted(pattern@),
        compiled matches Ok(engine) ==> compiled_pattern(engine) == pattern@,
{
    Regex::new(pattern)
}

/// `regex::Regex::as_str`: the pattern text that the regex was compiled from.
#[verifier::external_body]
pub(crate) fn pattern_text(engine: &Regex) -> (pattern: &str)
    ensures
        pattern@ == compiled_pattern(*engine),
{
    engine.as_str()
}

/// `regex::Regex::replace_all` with a replacement string. The result depends
/// on the regex, the haystack and the replacement alone; it is named here, not
/// described.
#[verifier::external_body]
pub(crate) fn replace_all(engine: &Regex, haystack: &str, replacement: &str) -> (replaced: String)
    ensures
        replaced@ == regex_replaced(*engine, haystack@, replacement@),
{
    engine.replace_all(haystack, replacement).into_owned()
}

} // verus!
