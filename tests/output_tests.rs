use rich_prompt::{clipboard_preview, create_writer, Writer};

#[test]
fn test_utf8_safe_preview() {
    let content = "اهلا مرحب عبدالله 🚀 This string has UTF-8 characters like: ├── ./src/file.rs";

    let preview_length = 20;
    let preview: String = content.chars().take(preview_length).collect();

    assert_eq!(preview.chars().count(), preview_length);
}

#[test]
fn clipboard_preview_cuts_at_characters() {
    let content = "اهلا مرحب عبدالله 🚀 This string has UTF-8 characters like: ├── ./src/file.rs";
    let preview = clipboard_preview(content, 20);
    assert_eq!(preview.chars().count(), 23);
    assert!(preview.ends_with("..."));
    assert_eq!(clipboard_preview("short", 20), "short");
    assert_eq!(clipboard_preview("abcdef", 3), "abc...");
}

#[test]
fn writer_follows_the_configuration() {
    match create_writer(&Some("test.txt".to_string()), false) {
        Writer::File(f) => assert_eq!(f.path(), "test.txt"),
        _ => panic!("expected a file writer"),
    }
    assert!(matches!(create_writer(&None, false), Writer::Console(_)));
    assert!(matches!(create_writer(&None, true), Writer::Clipboard(_)));
    assert!(matches!(create_writer(&Some("x".to_string()), true), Writer::Clipboard(_)));
}
