use rich_prompt::{config_from_command, split_list, Commands, EditKey, PromptBuffer};

#[test]
fn lists_split_on_commas_and_trim() {
    assert_eq!(split_list(&Some("rs, toml ,md".to_string())), vec!["rs", "toml", "md"]);
    assert_eq!(split_list(&Some(".rs".to_string())), vec![".rs"]);
    assert_eq!(split_list(&Some("a,,b".to_string())), vec!["a", "", "b"]);
    assert_eq!(split_list(&Some(String::new())), vec![""]);
    assert!(split_list(&None).is_empty());
}

#[test]
fn generate_command_gives_its_configuration() {
    let config = config_from_command(Commands::Generate {
        path: "./src".to_string(),
        ext: Some(".rs, .toml".to_string()),
        exclude: None,
        output: Some("out.txt".to_string()),
        auto: true,
        prompt: Some("Test prompt".to_string()),
        exclude_version_control_dir: ".svn".to_string(),
        apply_dot_git_ignore: true,
        clipboard_output: false,
    });
    assert_eq!(config.root_path, "./src");
    assert_eq!(config.extensions, vec![".rs", ".toml"]);
    assert!(config.exclude_patterns.is_empty());
    assert_eq!(config.output_path, Some("out.txt".to_string()));
    assert!(config.auto_select);
    assert_eq!(config.user_prompt, Some("Test prompt".to_string()));
    assert_eq!(config.exclude_version_control_dir, ".svn");
    assert!(config.apply_dot_git_ignore);
    assert!(!config.clipboard_output);
}

#[test]
fn prompt_buffer_edits_at_the_cursor() {
    let mut buffer = PromptBuffer::new();
    assert_eq!(buffer.submit(), None);
    for c in "helo".chars() {
        buffer.edit(EditKey::Insert(c));
    }
    buffer.edit(EditKey::Left);
    buffer.edit(EditKey::Insert('l'));
    assert_eq!(buffer.text(), "hello");
    assert_eq!(buffer.cursor(), 4);
    buffer.edit(EditKey::Delete);
    assert_eq!(buffer.text(), "hell");
    buffer.edit(EditKey::Delete);
    assert_eq!(buffer.text(), "hell");
    buffer.edit(EditKey::Backspace);
    assert_eq!(buffer.text(), "hel");
    buffer.edit(EditKey::Right);
    assert_eq!(buffer.cursor(), 3);
    assert_eq!(buffer.submit(), Some("hel".to_string()));
    buffer.clear();
    assert_eq!(buffer.submit(), None);
    buffer.edit(EditKey::Backspace);
    buffer.edit(EditKey::Left);
    assert_eq!(buffer.cursor(), 0);
    buffer.edit(EditKey::Insert('é'));
    assert_eq!(buffer.text(), "é");
}
