use rich_prompt::{Action, CancelReason, CursorMove, SelectionTree, SessionState, TreeController, TreeNode};

fn paths(items: &[&str]) -> Vec<String> {
    items.iter().map(|s| s.to_string()).collect()
}

/// Each line of the view as (name, depth, is_file).
fn lines(tree: &SelectionTree) -> Vec<(String, usize, bool)> {
    (0..tree.line_count())
        .map(|i| {
            let (node, depth) = tree.line(i);
            (node.get_display_name(), depth, node.is_file())
        })
        .collect()
}

/// The lines right below line `i`.
fn children(tree: &SelectionTree, i: usize) -> Vec<usize> {
    let all = lines(tree);
    let depth = all[i].1;
    let mut out = Vec::new();
    for j in i + 1..all.len() {
        if all[j].1 <= depth {
            break;
        }
        if all[j].1 == depth + 1 {
            out.push(j);
        }
    }
    out
}

#[test]
fn test_tree_structure() {
    let files = paths(&["src/main.rs", "src/lib.rs", "src/utils/helper.rs"]);
    let tree = SelectionTree::build(&files);
    let all = lines(&tree);

    let top = children(&tree, 0);
    assert_eq!(top.len(), 1);
    assert_eq!(all[top[0]].0, "src");
    let src_children = children(&tree, top[0]);
    assert_eq!(src_children.len(), 3);
    let utils = src_children.iter().find(|&&j| all[j].0 == "utils" && !all[j].2);
    assert!(utils.is_some());
    assert_eq!(children(&tree, *utils.unwrap()).len(), 1);
}

#[test]
fn build_groups_files_under_one_directory() {
    let tree = SelectionTree::build(&paths(&["a/b.txt", "a/c.txt"]));
    let all = lines(&tree);
    assert_eq!(
        all,
        vec![
            ("".to_string(), 0, false),
            ("a".to_string(), 1, false),
            ("b.txt".to_string(), 2, true),
            ("c.txt".to_string(), 2, true),
        ]
    );
    assert_eq!(children(&tree, 1), vec![2, 3]);
}

#[test]
fn build_keeps_duplicate_files() {
    let tree = SelectionTree::build(&paths(&["x.txt", "x.txt"]));
    let all = lines(&tree);
    assert_eq!(
        all,
        vec![("".to_string(), 0, false), ("x.txt".to_string(), 1, true), ("x.txt".to_string(), 1, true)]
    );
    assert_eq!(tree.total_file_count(), 2);
}

#[test]
fn file_nodes_keep_their_full_path() {
    let mut tree = SelectionTree::build(&paths(&["./src/a.rs"]));
    let all = lines(&tree);
    assert_eq!(all[1].0, ".");
    assert_eq!(all[2].0, "src");
    assert_eq!(all[3].0, "a.rs");
    tree.select_all();
    assert_eq!(tree.selected_paths(), paths(&["./src/a.rs"]));
}

#[test]
fn select_all_then_counts_agree() {
    let mut tree = SelectionTree::build(&paths(&["a/b.txt", "a/c.txt", "d.txt"]));
    assert_eq!(tree.selected_count(), 0);
    assert_eq!(tree.total_file_count(), 3);
    tree.select_all();
    assert_eq!(tree.selected_count(), tree.total_file_count());
    tree.deselect_all();
    assert_eq!(tree.selected_count(), 0);
}

#[test]
fn select_all_reaches_collapsed_directories() {
    let mut tree = SelectionTree::build(&paths(&["a/b.txt", "c.txt"]));
    assert!(tree.collapse_by_name(&"a".to_string()));
    assert_eq!(tree.line_count(), 3);
    tree.select_all();
    assert_eq!(tree.selected_count(), 2);
    assert_eq!(tree.selected_paths(), paths(&["a/b.txt", "c.txt"]));
}

#[test]
fn cursor_wraps_at_both_ends() {
    let mut tree = SelectionTree::build(&paths(&["a/b.txt", "a/c.txt"]));
    let last = tree.line_count() - 1;
    assert_eq!(tree.cursor(), Some(0));
    tree.move_cursor(CursorMove::Previous);
    assert_eq!(tree.cursor(), Some(last));
    tree.move_cursor(CursorMove::Next);
    assert_eq!(tree.cursor(), Some(0));
    tree.move_cursor(CursorMove::Next);
    assert_eq!(tree.cursor(), Some(1));
}

#[test]
fn toggle_flips_files_only() {
    let mut tree = SelectionTree::build(&paths(&["a/b.txt"]));
    tree.move_cursor(CursorMove::Next);
    tree.toggle_at_cursor();
    assert_eq!(tree.selected_count(), 0);
    tree.move_cursor(CursorMove::Next);
    tree.toggle_at_cursor();
    assert_eq!(tree.selected_count(), 1);
    assert_eq!(tree.selected_paths(), paths(&["a/b.txt"]));
    tree.toggle_at_cursor();
    assert_eq!(tree.selected_count(), 0);
}

#[test]
fn expand_and_collapse_by_name_use_the_first_match() {
    let mut tree = SelectionTree::build(&paths(&["x/utils/a.rs", "y/utils/b.rs"]));
    assert_eq!(tree.line_count(), 7);
    assert!(tree.collapse_by_name(&"utils".to_string()));
    let all = lines(&tree);
    assert_eq!(all.len(), 6);
    assert_eq!(all[2].0, "utils");
    assert_eq!(all[3].0, "y");
    assert!(!tree.collapse_by_name(&"missing".to_string()));
    assert!(tree.expand_by_name(&"utils".to_string()));
    assert_eq!(tree.line_count(), 7);
    let node: &TreeNode = tree.line(2).0;
    assert!(node.is_expanded());
}

#[test]
fn cursor_returns_to_the_directory_after_collapse() {
    let mut tree = SelectionTree::build(&paths(&["a/b.txt", "c/d.txt"]));
    assert!(tree.collapse_by_name(&"c".to_string()));
    assert_eq!(tree.cursor(), Some(0));
    tree.place_cursor_on_directory(&"c".to_string());
    assert_eq!(tree.cursor(), Some(3));
    tree.place_cursor_on_directory(&"nowhere".to_string());
    assert_eq!(tree.cursor(), Some(0));
}

#[test]
fn confirm_with_nothing_selected_keeps_browsing() {
    let mut session = TreeController::new(&paths(&["a.rs", "b.rs"]));
    session.handle(Action::Confirm);
    assert!(session.is_browsing());
    session.handle(Action::Quit);
    assert!(matches!(
        session.state(),
        SessionState::Cancelled { reason: CancelReason::NoFilesSelected }
    ));
}

#[test]
fn quit_with_selection_confirms() {
    let mut session = TreeController::new(&paths(&["a.rs", "b.rs"]));
    session.handle(Action::MoveDown);
    session.handle(Action::MoveDown);
    session.handle(Action::ToggleSelect);
    session.handle(Action::Quit);
    match session.state() {
        SessionState::Confirmed { paths: chosen } => assert_eq!(chosen, &paths(&["b.rs"])),
        _ => panic!("expected a confirmed selection"),
    }
}

#[test]
fn confirm_with_selection_confirms_in_tree_order() {
    let mut session = TreeController::new(&paths(&["z/b.rs", "a.rs"]));
    session.handle(Action::SelectAll);
    session.handle(Action::Confirm);
    match session.state() {
        SessionState::Confirmed { paths: chosen } => assert_eq!(chosen, &paths(&["z/b.rs", "a.rs"])),
        _ => panic!("expected a confirmed selection"),
    }
}

#[test]
fn cancel_always_cancels_and_ends_the_session() {
    let mut session = TreeController::new(&paths(&["a.rs"]));
    session.handle(Action::SelectAll);
    session.handle(Action::Cancel);
    assert!(matches!(
        session.state(),
        SessionState::Cancelled { reason: CancelReason::SelectionCancelled }
    ));
    session.handle(Action::Confirm);
    assert!(matches!(
        session.state(),
        SessionState::Cancelled { reason: CancelReason::SelectionCancelled }
    ));
    assert_eq!(CancelReason::SelectionCancelled.message(), "selection cancelled");
    assert_eq!(CancelReason::NoFilesSelected.message(), "no files selected");
}

#[test]
fn collapse_and_expand_keep_the_cursor_on_the_directory() {
    let mut session = TreeController::new(&paths(&["a/b.rs", "c/d.rs"]));
    for _ in 0..3 {
        session.handle(Action::MoveDown);
    }
    assert_eq!(session.tree().cursor(), Some(3));
    session.handle(Action::CollapseLeft);
    assert_eq!(session.tree().line_count(), 4);
    assert_eq!(session.tree().cursor(), Some(3));
    session.handle(Action::CollapseLeft);
    assert_eq!(session.tree().line_count(), 4);
    session.handle(Action::ExpandRight);
    assert_eq!(session.tree().line_count(), 5);
    assert_eq!(session.tree().cursor(), Some(3));
    session.handle(Action::DeselectAll);
    assert_eq!(session.tree().selected_count(), 0);
}
