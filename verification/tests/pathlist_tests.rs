use rust_myscript::pathlist::dedup_path_list;

#[test]
fn repeated_entries_are_dropped_after_the_first() {
    assert_eq!(dedup_path_list("/usr/bin:/bin:/usr/bin:/sbin:/bin"), "/usr/bin:/bin:/sbin");
}

#[test]
fn nothing_repeated_is_unchanged() {
    assert_eq!(dedup_path_list("/a:/b:/c"), "/a:/b:/c");
    assert_eq!(dedup_path_list("/a"), "/a");
    assert_eq!(dedup_path_list(""), "");
}

#[test]
fn empty_entries_are_entries_too() {
    assert_eq!(dedup_path_list("/a::/b::"), "/a::/b");
    assert_eq!(dedup_path_list(":::"), "");
}

#[test]
fn dedup_twice_is_dedup_once() {
    for p in ["/x:/y:/x", "a::a:b:", "::", "q"] {
        let once = dedup_path_list(p);
        assert_eq!(dedup_path_list(&once), once);
    }
}
