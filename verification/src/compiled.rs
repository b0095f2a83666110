//! Regular expressions, from the `regex` crate. Verus does not look inside
//! them: what a pattern accepts and what replacing its matches gives are
//! named below and not written out. A [`Pattern`] is made here only, by the
//! call that compiles it; its fields cannot be set anywhere else, so its
//! compiled expression is always the one compiled from its source.

use vstd::prelude::*;

verus! {

#[verifier::external_type_specification]
#[verifier::external_body]
pub struct ExRegex(regex::Regex);

#[verifier::external_type_specification]
#[verifier::external_body]
pub struct ExRegexError(regex::Error);

/// Whether `regex::Regex::new` accepts `pattern`.
pub uninterp spec fn regex_compiles(pattern: Seq<char>) -> bool;

/// Whether the regular expression `pattern` matches somewhere in `haystack`.
pub uninterp spec fn regex_matches(pattern: Seq<char>, haystack: Seq<char>) -> bool;

/// `haystack` with every non-overlapping match of `pattern` replaced by
/// `replacement`.
pub uninterp spec fn regex_replaced(
    pattern: Seq<char>,
    haystack: Seq<char>,
    replacement: Seq<char>,
) -> Seq<char>;

/// A compiled regular expression together with the pattern it was compiled
/// from. Only `regex_new` makes one.
pub struct Pattern {
    source: String,
    compiled: regex::Regex,
}

/// Compiles `pattern` with `regex::Regex::new` and keeps the pattern beside
/// the compiled expression. The contract claims that it succeeds exactly on
/// the patterns that `regex` accepts, which are named and not described
/// (`regex::Regex::new` is deterministic), and that the result holds
/// `pattern` as its source.
#[verifier::external_body]
pub(crate) fn regex_new(pattern: &str) -> (res: Result<Pattern, regex::Error>)
    ensures
        res is Ok <==> regex_compiles(pattern@),
        res matches Ok(p) ==> p.source_spec() == pattern@,
{
    match regex::Regex::new(pattern) {
        Ok(compiled) => Ok(Pattern { source: pattern.to_string(), compiled }),
        Err(err) => Err(err),
    }
}

/// The explanation `regex` gives for a refused pattern (its `Display`).
/// Nothing is claimed of the text.
#[verifier::external_body]
pub(crate) fn regex_error_text(err: &regex::Error) -> String {
    format!("{}", err)
}

/// `regex::Regex::is_match` on the compiled pattern: claimed to be the named
/// `regex_matches` of the pattern's source and `haystack`. This rests on
/// `Pattern` being made only by `regex_new`, which compiles the very source
/// it stores.
#[verifier::external_body]
pub(crate) fn regex_is_match(pattern: &Pattern, haystack: &str) -> (res: bool)
    ensures
        res == regex_matches(pattern.source_spec(), haystack@),
{
    pattern.compiled.is_match(haystack)
}

/// `regex::Regex::replace_all` with a plain replacement string, as an owned
/// string: claimed to be the named `regex_replaced` of the pattern's source,
/// `haystack` and `replacement`, on the same ground as `regex_is_match`.
#[verifier::external_body]
pub(crate) fn regex_replace_all(pattern: &Pattern, haystack: &str, replacement: &str) -> (res: String)
    ensures
        res@ == regex_replaced(pattern.source_spec(), haystack@, replacement@),
{
    pattern.compiled.replace_all(haystack, replacement).into_owned()
}

impl Pattern {
    /// The pattern this was compiled from.
    pub closed spec fn source_spec(&self) -> Seq<char> {
        self.source@
    }

    /// The pattern this was compiled from.
    pub fn source(&self) -> (res: &str)
        ensures
            res@ == self.source_spec(),
    {
        self.source.as_str()
    }
}

} // verus!
