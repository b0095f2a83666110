//! A sample record read field by field: `val1` is a path of the form
//! `parent/child` whose two parts are kept beside it.

use vstd::prelude::*;
use crate::record::{str_eq, RecordError};
use crate::text::{split_on, split_seq};

verus! {

/// The fields of a [`DeSample`] as they are named in its serialised form.
#[derive(PartialEq, Eq, Structural, Clone, Copy, Debug)]
pub enum DeSampleField {
    Val1,
    Val2,
    Val3,
}

/// The serialised name of a field.
pub open spec fn sample_field_name(field: DeSampleField) -> Seq<char> {
    match field {
        DeSampleField::Val1 => "val1"@,
        DeSampleField::Val2 => "val2"@,
        DeSampleField::Val3 => "val3"@,
    }
}

impl DeSampleField {
    /// The serialised name of this field.
    pub fn to_str(&self) -> (res: &'static str)
        ensures
            res@ == sample_field_name(*self),
            *self == DeSampleField::Val1 ==> res@ == "val1"@,
            *self == DeSampleField::Val2 ==> res@ == "val2"@,
            *self == DeSampleField::Val3 ==> res@ == "val3"@,
    {
        match self {
            DeSampleField::Val1 => "val1",
            DeSampleField::Val2 => "val2",
            DeSampleField::Val3 => "val3",
        }
    }

    /// The field with the serialised name `name`, if there is one.
    pub fn from_name(name: &str) -> (res: Option<DeSampleField>)
        ensures
            res matches Some(f) ==> sample_field_name(f) == name@,
            res is None ==> forall|f: DeSampleField| sample_field_name(f) != name@,
            name@ == "val1"@ ==> res == Some(DeSampleField::Val1),
            name@ == "val2"@ ==> res == Some(DeSampleField::Val2),
            name@ == "val3"@ ==> res == Some(DeSampleField::Val3),
            res is None <==> (name@ != "val1"@ && name@ != "val2"@ && name@ != "val3"@),
    {
        proof {
            reveal_strlit("val1");
            reveal_strlit("val2");
            reveal_strlit("val3");
            assert forall|f: DeSampleField, g: DeSampleField|
                #[trigger] sample_field_name(f) == #[trigger] sample_field_name(g) implies f == g by {
                lemma_sample_field_names_distinct(f, g);
            }
            assert(sample_field_name(DeSampleField::Val1) == "val1"@);
            assert(sample_field_name(DeSampleField::Val2) == "val2"@);
            assert(sample_field_name(DeSampleField::Val3) == "val3"@);
        }
        if str_eq(name, DeSampleField::Val1.to_str()) {
            Some(DeSampleField::Val1)
        } else if str_eq(name, DeSampleField::Val2.to_str()) {
            Some(DeSampleField::Val2)
        } else if str_eq(name, DeSampleField::Val3.to_str()) {
            Some(DeSampleField::Val3)
        } else {
            None
        }
    }
}

/// No two fields share a name, so reading a name back gives the field.
pub proof fn lemma_sample_field_names_distinct(f: DeSampleField, g: DeSampleField)
    ensures
        sample_field_name(f) == sample_field_name(g) ==> f == g,
{
    reveal_strlit("val1");
    reveal_strlit("val2");
    reveal_strlit("val3");
    if sample_field_name(f) == sample_field_name(g) && f != g {
        let a = sample_field_name(f);
        let b = sample_field_name(g);
        assert(a[3] == b[3]);
    }
}

/// A sample record: `val_opt_1` and `val_opt_2` are the parts of `val1`
/// before and after its first `/` (up to a second one).
#[derive(Debug)]
pub struct DeSample {
    pub val1: String,
    pub val_opt_1: String,
    pub val_opt_2: String,
    pub val2: String,
    pub val3: i32,
}

/// Whether `val1` has the form `parent/child`: at least one `/`.
pub open spec fn has_two_parts(path: Seq<char>) -> bool {
    split_seq(path, '/').len() >= 2
}

/// Whether `path` holds a `/`, so that it has a first and a second part.
pub fn has_parts(path: &str) -> (res: bool)
    ensures
        res == has_two_parts(path@),
{
    split_on(path, '/').len() >= 2
}

impl DeSample {
    /// The record for the three values; `val1` must hold a `/`.
    pub fn new(val1: &str, val2: &str, val3: i32) -> (res: DeSample)
        requires
            has_two_parts(val1@),
        ensures
            res.val1@ == val1@,
            res.val_opt_1@ == split_seq(val1@, '/')[0],
            res.val_opt_2@ == split_seq(val1@, '/')[1],
            res.val2@ == val2@,
            res.val3 == val3,
    {
        let spl = split_on(val1, '/');
        assert(spl.deep_view()[0] == spl@[0]@);
        assert(spl.deep_view()[1] == spl@[1]@);
        DeSample {
            val1: val1.to_owned(),
            val_opt_1: spl[0].clone(),
            val_opt_2: spl[1].clone(),
            val2: val2.to_owned(),
            val3,
        }
    }

    /// The record from the elements of a sequence, in field order; the first
    /// missing element ends it with the number of elements read.
    pub fn from_elements(val1: Option<String>, val2: Option<String>, val3: Option<i32>) -> (res:
        Result<DeSample, RecordError<DeSampleField>>)
        requires
            val1 is Some && val2 is Some && val3 is Some ==> has_two_parts(val1->0@),
        ensures
            val1 is None ==> res == Err::<DeSample, RecordError<DeSampleField>>(
                RecordError::InvalidLength(0),
            ),
            val1 is Some && val2 is None ==> res == Err::<DeSample, RecordError<DeSampleField>>(
                RecordError::InvalidLength(1),
            ),
            val1 is Some && val2 is Some && val3 is None ==> res == Err::<
                DeSample,
                RecordError<DeSampleField>,
            >(RecordError::InvalidLength(2)),
            res is Ok <==> (val1 is Some && val2 is Some && val3 is Some),
            res matches Ok(s) ==> sample_holds(s, val1->0@, val2->0@, val3->0),
    {
        match (val1, val2, val3) {
            (None, _, _) => Err(RecordError::InvalidLength(0)),
            (Some(_), None, _) => Err(RecordError::InvalidLength(1)),
            (Some(_), Some(_), None) => Err(RecordError::InvalidLength(2)),
            (Some(a), Some(b), Some(c)) => Ok(DeSample::new(a.as_str(), b.as_str(), c)),
        }
    }
}

/// `s` is the record that `DeSample::new` makes of the three values.
pub open spec fn sample_holds(s: DeSample, val1: Seq<char>, val2: Seq<char>, val3: i32) -> bool {
    &&& s.val1@ == val1
    &&& s.val_opt_1@ == split_seq(val1, '/')[0]
    &&& s.val_opt_2@ == split_seq(val1, '/')[1]
    &&& s.val2@ == val2
    &&& s.val3 == val3
}

/// The fields of a [`DeSample`] read so far.
pub struct DeSampleBuilder {
    pub val1: Option<String>,
    pub val2: Option<String>,
    pub val3: Option<i32>,
}

impl DeSampleBuilder {
    /// No field read yet.
    pub fn new() -> (res: DeSampleBuilder)
        ensures
            res.val1 is None && res.val2 is None && res.val3 is None,
    {
        DeSampleBuilder { val1: None, val2: None, val3: None }
    }

    /// Whether `field` was read already.
    pub open spec fn has(&self, field: DeSampleField) -> bool {
        match field {
            DeSampleField::Val1 => self.val1 is Some,
            DeSampleField::Val2 => self.val2 is Some,
            DeSampleField::Val3 => self.val3 is Some,
        }
    }

    /// Refuses a field that was read already.
    pub fn check_field(&self, field: DeSampleField) -> (res: Result<(), RecordError<DeSampleField>>)
        ensures
            self.has(field) ==> res == Err::<(), RecordError<DeSampleField>>(
                RecordError::DuplicateField(field),
            ),
            !self.has(field) ==> res is Ok,
    {
        let present = match field {
            DeSampleField::Val1 => self.val1.is_some(),
            DeSampleField::Val2 => self.val2.is_some(),
            DeSampleField::Val3 => self.val3.is_some(),
        };
        if present {
            Err(RecordError::DuplicateField(field))
        } else {
            Ok(())
        }
    }

    /// The record, or the first required field that never came (in the
    /// order `val1`, `val2`, `val3`).
    pub fn finish(self) -> (res: Result<DeSample, RecordError<DeSampleField>>)
        requires
            self.val1 is Some && self.val2 is Some && self.val3 is Some ==> has_two_parts(
                self.val1->0@,
            ),
        ensures
            self.val1 is None ==> res == Err::<DeSample, RecordError<DeSampleField>>(
                RecordError::MissingField(DeSampleField::Val1),
            ),
            self.val1 is Some && self.val2 is None ==> res == Err::<
                DeSample,
                RecordError<DeSampleField>,
            >(RecordError::MissingField(DeSampleField::Val2)),
            self.val1 is Some && self.val2 is Some && self.val3 is None ==> res == Err::<
                DeSample,
                RecordError<DeSampleField>,
            >(RecordError::MissingField(DeSampleField::Val3)),
            res is Ok <==> (self.val1 is Some && self.val2 is Some && self.val3 is Some),
            res matches Ok(s) ==> sample_holds(s, self.val1->0@, self.val2->0@, self.val3->0),
    {
        match (self.val1, self.val2, self.val3) {
            (None, _, _) => Err(RecordError::MissingField(DeSampleField::Val1)),
            (Some(_), None, _) => Err(RecordError::MissingField(DeSampleField::Val2)),
            (Some(_), Some(_), None) => Err(RecordError::MissingField(DeSampleField::Val3)),
            (Some(a), Some(b), Some(c)) => Ok(DeSample::new(a.as_str(), b.as_str(), c)),
        }
    }
}

/// The error that a function not written yet gives.
pub fn fail_func() -> (res: Result<(), String>)
    ensures
        res matches Err(m) && m@ == "TODO"@,
{
    Err(String::from_str("TODO"))
}

/// The error for a piece of work not done yet, naming it.
pub fn todo(message: &str) -> (res: Result<(), String>)
    ensures
        res matches Err(m) && m@ == "TODO: "@ + message@,
{
    let mut m = String::from_str("TODO: ");
    m.append(message);
    Err(m)
}

} // verus!
