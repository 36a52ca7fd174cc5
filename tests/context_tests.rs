use rich_prompt::{
    assemble_context, build_context_output, check_candidates, collect_contexts, count_tokens,
    format_output, select_files, CancelReason, ContextError, ContextOutput, FileContext,
};
use std::collections::HashMap;

fn never_picks(_: &Vec<String>) -> Result<Vec<String>, CancelReason> {
    Err(CancelReason::SelectionCancelled)
}

#[test]
fn test_count_tokens() {
    assert!(count_tokens("hello world") > 0);
    assert!(count_tokens("") == 0);
    assert!(count_tokens("one\ntwo\nthree") > 2);

    let normal_text = "This is some normal text with a few words.";
    let code_text = "```rust\nfn main() {\n    println!(\"Hello, world!\");\n}\n```";

    assert!(count_tokens(code_text) > count_tokens(normal_text));
}

#[test]
fn token_estimate_values() {
    assert_eq!(count_tokens("abcd"), 1);
    assert_eq!(count_tokens("abcde"), 2);
    assert_eq!(count_tokens("hello world"), 3);
    // 44 characters give 11 tokens, and a tab adds a tenth, rounded down.
    let tabbed = format!("\t{}", "x".repeat(43));
    assert_eq!(count_tokens(&tabbed), 12);
    assert_eq!(count_tokens("é€𝄞!"), 1);
}

#[test]
fn test_build_context_output() {
    let files = vec![
        FileContext { path: "test/file1.rs".to_string(), content: "fn test() {}".to_string() },
        FileContext { path: "test/file2.rs".to_string(), content: "struct Test {}".to_string() },
    ];

    let file_map = "test\n├── test/file1.rs\n├── test/file2.rs\n".to_string();
    let user_prompt = Some("Refactor this code".to_string());

    let output = build_context_output(files, file_map, user_prompt);

    assert!(output.token_count > 0);
    assert_eq!(output.user_instructions, "Refactor this code");
    assert!(output.file_contents.contains("fn test() {}"));
    assert!(output.file_contents.contains("struct Test {}"));
}

#[test]
fn build_context_output_blocks_and_tokens() {
    let files = vec![
        FileContext { path: "a/x.rs".to_string(), content: "abcd".to_string() },
        FileContext { path: "Makefile".to_string(), content: "all:".to_string() },
    ];
    let output = build_context_output(files, "m".to_string(), None);
    assert_eq!(output.file_contents, "\nFile: a/x.rs\n```rs\nabcd\n```\n\nFile: Makefile\n```\nall:\n```\n");
    assert_eq!(output.user_instructions, "");
    assert_eq!(output.file_map, "m");
    assert_eq!(output.token_count, 3);
}

#[test]
fn test_format_output() {
    let output = ContextOutput {
        file_map: "dir1\n".to_string(),
        file_contents: "content1\n".to_string(),
        user_instructions: "prompt1".to_string(),
        token_count: 3,
    };

    let formatted = format_output(&output);

    assert!(formatted.contains("<file_map>\ndir1\n</file_map>"));
    assert!(formatted.contains("<file_contents>content1\n</file_contents>"));
    assert!(formatted.contains("<user_instructions>\nprompt1\n</user_instructions>"));
}

#[test]
fn format_output_without_instructions() {
    let output = ContextOutput {
        file_map: "d\n".to_string(),
        file_contents: "c".to_string(),
        user_instructions: String::new(),
        token_count: 0,
    };
    assert_eq!(format_output(&output), "<file_map>\nd\n</file_map>\n\n\n<file_contents>c</file_contents>");
}

#[test]
fn test_select_files_with_auto() {
    let mut mock_fs: HashMap<String, String> = HashMap::new();
    mock_fs.insert("file1.rs".to_string(), "content1".to_string());
    mock_fs.insert("file2.rs".to_string(), "content2".to_string());

    let files = vec!["file1.rs".to_string(), "file2.rs".to_string()];

    let reader = |path: &String| -> Result<String, anyhow::Error> {
        match mock_fs.get(path) {
            Some(content) => Ok(content.clone()),
            None => Err(anyhow::Error::msg("File not found")),
        }
    };

    let selected = select_files(files, reader, true, never_picks).unwrap();

    assert_eq!(selected.len(), 2);
    assert_eq!(selected[0].content, "content1");
    assert_eq!(selected[1].content, "content2");
}

#[test]
fn test_select_files_with_empty_input() {
    let files: Vec<String> = vec![];
    let reader = |_: &String| -> Result<String, anyhow::Error> { Ok("".to_string()) };

    let selected = select_files(files, reader, true, never_picks).unwrap();

    assert_eq!(selected.len(), 0);
}

#[test]
fn test_select_files_with_read_error() {
    let files = vec!["nonexistent.rs".to_string()];
    let reader =
        |_: &String| -> Result<String, anyhow::Error> { Err(anyhow::Error::msg("File not found")) };

    let selected = select_files(files, reader, true, never_picks).unwrap();

    assert_eq!(selected.len(), 0);
}

#[test]
fn interactive_selection_reads_only_the_picked_files() {
    let files = vec!["a.rs".to_string(), "b.rs".to_string(), "c.rs".to_string()];
    let reader = |path: &String| -> Result<String, String> {
        if path == "c.rs" {
            Err("unreadable".to_string())
        } else {
            Ok(format!("text of {}", path))
        }
    };
    let picker = |all: &Vec<String>| -> Result<Vec<String>, CancelReason> {
        Ok(vec![all[1].clone(), all[2].clone()])
    };
    let selected = select_files(files.clone(), reader, false, picker).unwrap();
    assert_eq!(selected.len(), 1);
    assert_eq!(selected[0].path, "b.rs");
    assert_eq!(selected[0].content, "text of b.rs");

    let cancelled = select_files(files, reader, false, never_picks);
    assert!(matches!(cancelled, Err(CancelReason::SelectionCancelled)));
}

#[test]
fn collect_contexts_skips_failed_reads() {
    let paths = vec!["a".to_string(), "b".to_string(), "c".to_string()];
    let outcomes: Vec<Result<String, ()>> = vec![Ok("1".to_string()), Err(()), Ok("3".to_string())];
    let got = collect_contexts(&paths, outcomes);
    assert_eq!(got.len(), 2);
    assert_eq!((got[0].path.as_str(), got[0].content.as_str()), ("a", "1"));
    assert_eq!((got[1].path.as_str(), got[1].content.as_str()), ("c", "3"));
}

#[test]
fn assembling_needs_at_least_one_file() {
    assert_eq!(assemble_context(vec![], "m".to_string(), None), Err(ContextError::NoFilesLoaded));
    let files = vec![FileContext { path: "a.txt".to_string(), content: "hi".to_string() }];
    let text = assemble_context(files, "m\n".to_string(), Some("do it".to_string())).unwrap();
    assert_eq!(
        text,
        "<file_map>\nm\n</file_map>\n\n\n<file_contents>\nFile: a.txt\n```txt\nhi\n```\n</file_contents>\n\n<user_instructions>\ndo it\n</user_instructions>"
    );
}

#[test]
fn candidates_are_required() {
    assert_eq!(check_candidates(&vec![]), Err(ContextError::NoFilesFound));
    assert_eq!(check_candidates(&vec!["a".to_string()]), Ok(()));
    assert!(!ContextError::NoFilesFound.is_quiet());
    assert!(!ContextError::NoFilesLoaded.is_quiet());
    assert!(ContextError::Cancelled(CancelReason::NoFilesSelected).is_quiet());
    assert_eq!(ContextError::Cancelled(CancelReason::SelectionCancelled).message(), "Selection cancelled");
}
