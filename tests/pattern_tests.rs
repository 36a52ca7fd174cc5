use rich_prompt::{matches_gitignore_pattern, should_ignore_by_gitignore, IgnoreSet};

fn rule_set(lines: &[&str]) -> IgnoreSet {
    let mut set = IgnoreSet::new();
    for line in lines {
        set.insert(line);
    }
    set
}

#[test]
fn test_matches_gitignore_pattern() {
    assert!(matches_gitignore_pattern("test.log", "*.log", false));
    assert!(matches_gitignore_pattern("logs/test.log", "*.log", false));
    assert!(matches_gitignore_pattern("node_modules/package.json", "node_modules/", true));
    assert!(!matches_gitignore_pattern("node_modules.txt", "node_modules/", false));
    assert!(matches_gitignore_pattern("dist/main.js", "/dist", false));
    assert!(matches_gitignore_pattern("temp", "temp*", false));
    assert!(matches_gitignore_pattern("temporary.txt", "temp*", false));
    assert!(matches_gitignore_pattern("abc.xyz", "*.xy*", false));
    assert!(matches_gitignore_pattern("a/b/c.txt", "**/c.txt", false));

    assert!(!matches_gitignore_pattern("node_modules.txt", "node_modules/", false));
    assert!(matches_gitignore_pattern("node_modules", "node_modules/", true));
}

#[test]
fn test_should_ignore_by_gitignore() {
    let root = "/test";
    let patterns = rule_set(&["node_modules/", "*.log", "build", "/dist", "temp*", "!important.log"]);

    assert!(should_ignore_by_gitignore("/test/logs/server.log", root, &patterns, false));
    assert!(should_ignore_by_gitignore("/test/build/index.js", root, &patterns, false));
    assert!(should_ignore_by_gitignore("/test/dist/main.js", root, &patterns, false));
    assert!(should_ignore_by_gitignore("/test/temporary.txt", root, &patterns, false));

    assert!(!should_ignore_by_gitignore("/test/logs/important.log", root, &patterns, false));

    assert!(!should_ignore_by_gitignore("/test/src/index.js", root, &patterns, false));
    assert!(!should_ignore_by_gitignore("/test/package.json", root, &patterns, false));
}

#[test]
fn test_parse_gitignore() {
    let text = "# Comment line\nnode_modules/\n*.log\nbuild\n\n/dist\ntemp*\n!important.log\n**/coverage\n";
    let patterns = IgnoreSet::parse(text);

    assert_eq!(patterns.len(), 7);
    assert!(patterns.contains("node_modules/"));
    assert!(patterns.contains("*.log"));
    assert!(patterns.contains("build"));
    assert!(patterns.contains("/dist"));
    assert!(patterns.contains("temp*"));
    assert!(patterns.contains("!important.log"));
    assert!(patterns.contains("**/coverage"));
}

#[test]
fn parse_trims_lines_and_negated_bodies() {
    let patterns = IgnoreSet::parse("  target/  \r\n!   keep.log\n!\n\t# indented comment\n");
    assert_eq!(patterns.len(), 3);
    assert!(patterns.contains("target/"));
    assert!(patterns.contains("!keep.log"));
    assert!(patterns.contains("!"));
}

#[test]
fn duplicate_lines_collapse() {
    let patterns = IgnoreSet::parse("*.log\n*.log\n  *.log\n");
    assert_eq!(patterns.len(), 1);
    let mut set = IgnoreSet::new();
    set.insert("a");
    set.insert("a");
    assert_eq!(set.len(), 1);
}

#[test]
fn empty_rule_set_ignores_nothing() {
    let empty = IgnoreSet::new();
    assert!(empty.is_empty());
    for path in ["/r/a.log", "/r/node_modules", "/r", "/elsewhere/x"] {
        assert!(!should_ignore_by_gitignore(path, "/r", &empty, false));
        assert!(!should_ignore_by_gitignore(path, "/r", &empty, true));
    }
    assert!(!empty.ignores_relative("anything", false));
}

#[test]
fn leading_wildcard_matches_suffix_only() {
    assert!(matches_gitignore_pattern("test.log", "*.log", false));
    assert!(matches_gitignore_pattern("logs/test.log", "*.log", false));
    assert!(!matches_gitignore_pattern("notalog.txt", "*.log", false));
}

#[test]
fn directory_only_rule_needs_a_directory() {
    assert!(matches_gitignore_pattern("node_modules/pkg.json", "node_modules/", true));
    assert!(!matches_gitignore_pattern("node_modules.txt", "node_modules/", false));
    assert!(!matches_gitignore_pattern("node_modules", "node_modules/", false));
}

#[test]
fn negation_overrides_any_plain_match() {
    let rules = rule_set(&["*.log", "!important.log"]);
    assert!(!rules.ignores_relative("logs/important.log", false));
    assert!(rules.ignores_relative("logs/other.log", false));
    let reversed = rule_set(&["!important.log", "*.log"]);
    assert!(!reversed.ignores_relative("logs/important.log", false));
    assert!(reversed.ignores_relative("logs/other.log", false));
}

#[test]
fn anchored_rule_matches_from_the_root_only() {
    assert!(matches_gitignore_pattern("dist/main.js", "/dist", false));
    assert!(!matches_gitignore_pattern("src/dist/main.js", "/dist", false));
    assert!(matches_gitignore_pattern("dist", "/dist", true));
}

#[test]
fn literal_rule_matches_segment_or_substring() {
    assert!(matches_gitignore_pattern("build", "build", true));
    assert!(matches_gitignore_pattern("build/out.o", "build", false));
    assert!(matches_gitignore_pattern("src/build", "build", true));
    assert!(matches_gitignore_pattern("rebuilder.rs", "build", false));
    assert!(!matches_gitignore_pattern("bild.rs", "build", false));
}

#[test]
fn interior_wildcards_check_ends_and_fragments() {
    assert!(matches_gitignore_pattern("src/a/mid/b.rs", "src*mid*.rs", false));
    assert!(!matches_gitignore_pattern("src/a/b.rs", "src*mid*.rs", false));
    assert!(!matches_gitignore_pattern("lib/mid/b.rs", "src*mid*.rs", false));
    assert!(matches_gitignore_pattern("a.tmp", "a*tmp", false));
}

#[test]
fn relative_path_is_taken_against_the_root() {
    let rules = rule_set(&["/dist"]);
    assert!(should_ignore_by_gitignore("/proj/dist/x.js", "/proj", &rules, false));
    assert!(!should_ignore_by_gitignore("/proj/src/dist/x.js", "/proj", &rules, false));
    assert!(should_ignore_by_gitignore("dist/x.js", "/elsewhere", &rules, false));
}
