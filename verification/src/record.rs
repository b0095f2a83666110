//! What goes wrong while a record is read field by field or element by
//! element.

use vstd::prelude::*;

verus! {

/// Why a record could not be built from what was read.
#[derive(PartialEq, Eq, Structural, Debug)]
pub enum RecordError<F> {
    /// The field came a second time.
    DuplicateField(F),
    /// A required field never came.
    MissingField(F),
    /// The sequence ended after this many elements.
    InvalidLength(usize),
}

/// Whether two strings hold the same characters.
pub fn str_eq(a: &str, b: &str) -> (res: bool)
    ensures
        res == (a@ == b@),
{
    a.to_owned() == b.to_owned()
}

} // verus!
