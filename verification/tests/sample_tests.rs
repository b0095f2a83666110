use rust_myscript::record::RecordError;
use rust_myscript::sample::{fail_func, has_parts, todo, DeSample, DeSampleBuilder, DeSampleField};

#[test]
fn new_splits_val1() {
    let s = DeSample::new("valval1/child", "valval2", 256);
    assert_eq!(s.val1, "valval1/child");
    assert_eq!(s.val_opt_1, "valval1");
    assert_eq!(s.val_opt_2, "child");
    assert_eq!(s.val2, "valval2");
    assert_eq!(s.val3, 256);
    let t = DeSample::new("a/b/c", "", 0);
    assert_eq!(t.val_opt_1, "a");
    assert_eq!(t.val_opt_2, "b");
}

#[test]
fn sample_field_names_round_trip() {
    for f in [DeSampleField::Val1, DeSampleField::Val2, DeSampleField::Val3] {
        assert_eq!(DeSampleField::from_name(f.to_str()), Some(f));
    }
    assert_eq!(DeSampleField::from_name("val4"), None);
    assert_eq!(DeSampleField::Val2.to_str(), "val2");
}

#[test]
fn sample_elements_in_order() {
    let s = DeSample::from_elements(Some("p/q".to_string()), Some("w".to_string()), Some(7)).ok().unwrap();
    assert_eq!(s.val_opt_2, "q");
    assert_eq!(DeSample::from_elements(None, None, None).err(), Some(RecordError::InvalidLength(0)));
    assert_eq!(DeSample::from_elements(Some("p/q".to_string()), None, Some(1)).err(), Some(RecordError::InvalidLength(1)));
    assert_eq!(DeSample::from_elements(Some("p/q".to_string()), Some("w".to_string()), None).err(), Some(RecordError::InvalidLength(2)));
}

#[test]
fn builder_refuses_duplicates_and_gaps() {
    let mut b = DeSampleBuilder::new();
    assert_eq!(b.check_field(DeSampleField::Val1), Ok(()));
    b.val1 = Some("x/y".to_string());
    assert_eq!(b.check_field(DeSampleField::Val1), Err(RecordError::DuplicateField(DeSampleField::Val1)));
    b.val3 = Some(3);
    assert_eq!(b.finish().err(), Some(RecordError::MissingField(DeSampleField::Val2)));
    assert_eq!(DeSampleBuilder::new().finish().err(), Some(RecordError::MissingField(DeSampleField::Val1)));
    let mut c = DeSampleBuilder::new();
    c.val1 = Some("x/y".to_string());
    c.val2 = Some("v".to_string());
    assert_eq!(c.finish().err(), Some(RecordError::MissingField(DeSampleField::Val3)));
    let mut d = DeSampleBuilder::new();
    d.val3 = Some(-1);
    d.val2 = Some("v".to_string());
    d.val1 = Some("x/y".to_string());
    let s = d.finish().ok().unwrap();
    assert_eq!((s.val_opt_1.as_str(), s.val_opt_2.as_str(), s.val3), ("x", "y", -1));
}

#[test]
fn parts_need_a_slash() {
    assert!(has_parts("a/b"));
    assert!(has_parts("/"));
    assert!(!has_parts("ab"));
}

#[test]
fn unfinished_work_errors() {
    assert_eq!(fail_func(), Err("TODO".to_string()));
    assert_eq!(todo("parse"), Err("TODO: parse".to_string()));
}
