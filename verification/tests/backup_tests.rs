use rust_myscript::backup::commit_message;

#[test]
fn commit_message_defaults_to_update() {
    assert_eq!(commit_message(None), "update");
    assert_eq!(commit_message(Some("nightly".to_string())), "nightly");
}
