use rust_myscript::text::{chars_of, contains_string, is_unicode_whitespace, join_with, split_on, trim_bounds};

fn strings(v: &[&str]) -> Vec<String> {
    v.iter().map(|s| s.to_string()).collect()
}

#[test]
fn split_keeps_empty_pieces() {
    assert_eq!(split_on("a::b", ':'), strings(&["a", "", "b"]));
    assert_eq!(split_on("", ':'), strings(&[""]));
    assert_eq!(split_on(":", ':'), strings(&["", ""]));
    assert_eq!(split_on("héllo wörld", ' '), strings(&["héllo", "wörld"]));
}

#[test]
fn split_matches_std_split() {
    for s in ["", "a", "a b", " a  b ", "x/y/z", "//"] {
        for sep in [' ', '/'] {
            let expected: Vec<String> = s.split(sep).map(|p| p.to_string()).collect();
            assert_eq!(split_on(s, sep), expected);
        }
    }
}

#[test]
fn join_then_split_gives_the_pieces_back() {
    let pieces = strings(&["usr", "", "bin"]);
    let joined = join_with(&pieces, ":");
    assert_eq!(joined, "usr::bin");
    assert_eq!(split_on(&joined, ':'), pieces);
    assert_eq!(join_with(&Vec::new(), ":"), "");
    assert_eq!(join_with(&strings(&["only"]), ", "), "only");
}

#[test]
fn chars_and_membership() {
    assert_eq!(chars_of("añb"), vec!['a', 'ñ', 'b']);
    let list = strings(&["x", "y"]);
    assert!(contains_string(&list, &"y".to_string()));
    assert!(!contains_string(&list, &"z".to_string()));
}

#[test]
fn whitespace_is_unicode_white_space() {
    for c in ['\t', '\n', '\u{b}', '\u{c}', '\r', ' ', '\u{85}', '\u{a0}', '\u{1680}', '\u{2000}', '\u{200a}', '\u{2028}', '\u{2029}', '\u{202f}', '\u{205f}', '\u{3000}'] {
        assert!(is_unicode_whitespace(c));
        assert!(c.is_whitespace());
    }
    for c in ['a', '\u{200b}', '\u{180e}', '_', '\u{0}'] {
        assert!(!is_unicode_whitespace(c));
        assert_eq!(c.is_whitespace(), false);
    }
}

#[test]
fn whitespace_agrees_with_std_on_all_chars() {
    for v in 0u32..=0x3100 {
        if let Some(c) = char::from_u32(v) {
            assert_eq!(is_unicode_whitespace(c), c.is_whitespace(), "{:x}", v);
        }
    }
}

#[test]
fn trim_bounds_cut_whitespace() {
    let chars: Vec<char> = "  ab c \t".chars().collect();
    assert_eq!(trim_bounds(&chars, 0, chars.len()), (2, 6));
    let blank: Vec<char> = " \u{3000} ".chars().collect();
    let (s, e) = trim_bounds(&blank, 0, blank.len());
    assert_eq!(s, e);
}

#[test]
fn split_then_join_gives_the_text_back() {
    for s in ["", ":", "a:b", "::x::", "no separator"] {
        assert_eq!(join_with(&split_on(s, ':'), ":"), s);
    }
}
