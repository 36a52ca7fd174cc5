use rich_prompt::{generate_file_map, Discovery, DiscoveryConfig, EntryKind, IgnoreSet};
use std::collections::BTreeSet;

fn config(extensions: &[&str], excludes: &[&str], vcs: &str, use_ignore: bool) -> DiscoveryConfig {
    DiscoveryConfig {
        root: "/r".to_string(),
        extensions: extensions.iter().map(|s| s.to_string()).collect(),
        exclude_patterns: excludes.iter().map(|s| s.to_string()).collect(),
        vcs_dir: vcs.to_string(),
        use_ignore_file: use_ignore,
    }
}

fn walk(cfg: &DiscoveryConfig, entries: &[(&str, &str, EntryKind)]) -> Discovery {
    let mut found = Discovery::new();
    for (path, parent, kind) in entries {
        found.record(cfg, &path.to_string(), &parent.to_string(), *kind);
    }
    found
}

#[test]
fn extension_filter_keeps_matching_files_in_any_order() {
    let cfg = config(&["rs"], &[], ".git", false);
    let forward = [
        ("/r", "/", EntryKind::Directory),
        ("/r/a.rs", "/r", EntryKind::File),
        ("/r/b.py", "/r", EntryKind::File),
        ("/r/c.rs", "/r", EntryKind::File),
    ];
    let backward = [forward[3], forward[2], forward[0], forward[1]];
    let a: BTreeSet<String> = walk(&cfg, &forward).files().iter().cloned().collect();
    let b: BTreeSet<String> = walk(&cfg, &backward).files().iter().cloned().collect();
    let expected: BTreeSet<String> = ["/r/a.rs", "/r/c.rs"].iter().map(|s| s.to_string()).collect();
    assert_eq!(a, expected);
    assert_eq!(b, expected);
}

#[test]
fn allow_list_entries_may_carry_a_dot() {
    let cfg = config(&[".rs", "toml"], &[], "", false);
    assert!(cfg.file_matches("src/main.rs"));
    assert!(cfg.file_matches("Cargo.toml"));
    assert!(!cfg.file_matches("README.md"));
    assert!(!cfg.file_matches("Makefile"));
    let all = config(&[], &[], "", false);
    assert!(all.file_matches("Makefile"));
}

#[test]
fn symlinks_and_directories_are_never_candidates() {
    let cfg = config(&[], &[], "", false);
    let found = walk(&cfg, &[
        ("/r/d", "/r", EntryKind::Directory),
        ("/r/link.rs", "/r", EntryKind::Symlink),
        ("/r/f.rs", "/r", EntryKind::File),
    ]);
    assert_eq!(found.into_files(), vec!["/r/f.rs".to_string()]);
}

#[test]
fn excluded_names_prune_entries() {
    let cfg = config(&[], &["target", "node_modules"], ".git", false);
    let rules = IgnoreSet::new();
    assert!(!cfg.admit_entry(&rules, "/r/.git", true));
    assert!(!cfg.admit_entry(&rules, "/r/target/debug", true));
    assert!(!cfg.admit_entry(&rules, "/r/web/node_modules", true));
    assert!(cfg.admit_entry(&rules, "/r/src/main.rs", false));
    let no_vcs = config(&[], &[], "", false);
    assert!(no_vcs.admit_entry(&rules, "/r/.git", true));
}

#[test]
fn ignore_rules_prune_only_when_enabled() {
    let rules = IgnoreSet::parse("*.log\n/dist\n");
    let on = config(&[], &[], ".git", true);
    let off = config(&[], &[], ".git", false);
    assert!(!on.admit_entry(&rules, "/r/app.log", false));
    assert!(!on.admit_entry(&rules, "/r/dist", true));
    assert!(on.admit_entry(&rules, "/r/src/dist", true));
    assert!(off.admit_entry(&rules, "/r/app.log", false));
}

#[test]
fn file_map_lists_every_directory_and_file() {
    let cfg = config(&["rs"], &[], "", false);
    let found = walk(&cfg, &[
        ("/r", "/", EntryKind::Directory),
        ("/r/a.rs", "/r", EntryKind::File),
        ("/r/sub", "/r", EntryKind::Directory),
        ("/r/b.md", "/r", EntryKind::File),
        ("/r/empty", "/r", EntryKind::Directory),
        ("/r/sub/c.rs", "/r/sub", EntryKind::File),
    ]);
    assert_eq!(
        generate_file_map(&found),
        "/r\n├── /r/a.rs\n├── /r/b.md\n/r/sub\n├── /r/sub/c.rs\n/r/empty\n"
    );
    assert_eq!(found.files(), &vec!["/r/a.rs".to_string(), "/r/sub/c.rs".to_string()]);
}
