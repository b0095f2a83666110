//! Compiling the patterns that version rules and repository aliases use.

use vstd::prelude::*;
pub use crate::compiled::{regex_compiles, regex_matches, regex_replaced, Pattern};
use crate::compiled::{regex_error_text, regex_new};

verus! {

/// A pattern that `regex` refused, with its explanation.
pub struct PatternError {
    pub pattern: String,
    pub message: String,
}

impl Pattern {
    /// Compiles `pattern`; fails exactly where `regex` refuses it.
    pub fn compile(pattern: &str) -> (res: Result<Pattern, PatternError>)
        ensures
            res is Ok <==> regex_compiles(pattern@),
            res matches Ok(p) ==> p.source_spec() == pattern@,
            res matches Err(e) ==> e.pattern@ == pattern@,
    {
        match regex_new(pattern) {
            Ok(compiled) => Ok(compiled),
            Err(err) => Err(PatternError { pattern: pattern.to_owned(), message: regex_error_text(&err) }),
        }
    }
}

} // verus!
