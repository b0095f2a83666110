use rust_myscript::sha1pair::{chomp_line, compare_report, create_entity, Entity, IllegalFormatError};

#[test]
fn entity_new_is_empty() {
    let e = Entity::new();
    assert_eq!(e.hash, "");
    assert_eq!(e.name, "");
}

#[test]
fn sha1sum_line_gives_hash_and_name() {
    let e = create_entity("da39a3ee5e6b4b0d3255bfef95601890afd80709  empty.txt").ok().unwrap();
    assert_eq!(e.hash, "da39a3ee5e6b4b0d3255bfef95601890afd80709");
    assert_eq!(e.name, "empty.txt");
}

#[test]
fn the_last_word_is_the_name() {
    let e = create_entity(" abc  x y  z ").ok().unwrap();
    assert_eq!(e.hash, "abc");
    assert_eq!(e.name, "z");
}

#[test]
fn one_word_is_refused() {
    let err = create_entity("   abc   ").err().unwrap();
    assert_eq!(err.line, "   abc   ");
    assert_eq!(err.as_str(), "input format of sha1sum unexpected");
    assert_eq!(err.message(), "input format of sha1sum unexpected:    abc   ");
    assert!(create_entity("").is_err());
}

#[test]
fn illegal_format_error_keeps_the_line() {
    let err = IllegalFormatError::new("bad");
    assert_eq!(err.line, "bad");
    assert_eq!(err.message(), "input format of sha1sum unexpected: bad");
}

#[test]
fn chomp_cuts_the_line_break() {
    assert_eq!(chomp_line(""), None);
    assert_eq!(chomp_line("\n"), None);
    assert_eq!(chomp_line("abc x\n"), Some("abc x".to_string()));
    assert_eq!(chomp_line("abc"), Some("ab".to_string()));
}

#[test]
fn pairs_compare_by_hash() {
    let a = create_entity("h1 a.txt").ok().unwrap();
    let b = create_entity("h1 b.txt").ok().unwrap();
    let c = create_entity("h2 c.txt").ok().unwrap();
    assert_eq!(compare_report(&a, &b), "OK hash=h1 lh=a.txt rh=b.txt");
    assert_eq!(compare_report(&a, &c), "NG");
}
