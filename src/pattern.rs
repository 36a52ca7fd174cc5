//! Evaluation of one gitignore-style rule against a relative path.
use crate::text::{
    chars_of, contains, contains_exec, ends_with, eq_exec, ends_with_exec, has_char, has_char_exec,
    lemma_split_on_nonempty, split_on, split_on_exec, starts_with, starts_with_exec, trim_end,
    trim_end_exec, trim_start, trim_start_exec,
};
use vstd::prelude::*;

verus! {

/// A trailing `/` limits the rule to directories.
pub open spec fn is_directory_only(pattern: Seq<char>) -> bool {
    pattern.len() > 0 && pattern.last() == '/'
}

/// The pattern without its trailing slashes.
pub open spec fn clean_pattern(pattern: Seq<char>) -> Seq<char> {
    trim_end(pattern, '/')
}

/// A leading `/` anchors the rule at the root.
pub open spec fn is_root_anchored(pattern: Seq<char>) -> bool {
    let clean = clean_pattern(pattern);
    clean.len() > 0 && clean[0] == '/'
}

/// An anchored rule names `anchor` itself or anything below it.
pub open spec fn anchored_match(path: Seq<char>, anchor: Seq<char>) -> bool {
    path == anchor || starts_with(path, anchor.push('/'))
}

/// A literal rule names the path, a prefix directory, or a trailing segment.
pub open spec fn literal_match(path: Seq<char>, clean: Seq<char>) -> bool {
    path == clean || starts_with(path, clean.push('/')) || ends_with(path, seq!['/'] + clean)
}

/// The four shapes of a pattern that holds `*`, in order of precedence.
pub open spec fn wildcard_match(path: Seq<char>, clean: Seq<char>) -> bool {
    if clean[0] == '*' && clean.last() == '*' {
        contains(path, trim_end(trim_start(clean, '*'), '*'))
    } else if clean[0] == '*' {
        ends_with(path, trim_start(clean, '*'))
    } else if clean.last() == '*' {
        starts_with(path, trim_end(clean, '*'))
    } else {
        let parts = split_on(clean, '*');
        &&& starts_with(path, parts[0])
        &&& ends_with(path, parts.last())
        &&& forall|k: int| 1 <= k < parts.len() - 1 ==> contains(path, #[trigger] parts[k])
    }
}

/// Whether the rule `pattern` (its `!` already removed) names `path`.
pub open spec fn pattern_matches(path: Seq<char>, pattern: Seq<char>, is_dir: bool) -> bool {
    let clean = clean_pattern(pattern);
    if is_directory_only(pattern) && !is_dir {
        false
    } else if is_root_anchored(pattern) {
        anchored_match(path, trim_start(clean, '/'))
    } else if has_char(clean, '*') {
        wildcard_match(path, clean)
    } else {
        literal_match(path, clean) || contains(path, clean)
    }
}

fn anchored_match_exec(path: &Vec<char>, anchor: &Vec<char>) -> (r: bool)
    ensures
        r == anchored_match(path@, anchor@),
{
    if eq_exec(path, anchor) {
        return true;
    }
    let mut prefix = anchor.clone();
    prefix.push('/');
    starts_with_exec(path, &prefix)
}

fn literal_match_exec(path: &Vec<char>, clean: &Vec<char>) -> (r: bool)
    ensures
        r == literal_match(path@, clean@),
{
    if eq_exec(path, clean) {
        return true;
    }
    let mut prefix = clean.clone();
    prefix.push('/');
    if starts_with_exec(path, &prefix) {
        return true;
    }
    let mut suffix: Vec<char> = Vec::new();
    suffix.push('/');
    let mut i: usize = 0;
    while i < clean.len()
        invariant
            i <= clean.len(),
            suffix@ == seq!['/'] + clean@.take(i as int),
        decreases clean.len() - i,
    {
        suffix.push(clean[i]);
        i = i + 1;
        assert(suffix@ =~= seq!['/'] + clean@.take(i as int));
    }
    assert(clean@.take(clean.len() as int) =~= clean@);
    ends_with_exec(path, &suffix)
}

fn wildcard_match_exec(path: &Vec<char>, clean: &Vec<char>) -> (r: bool)
    requires
        clean.len() > 0,
    ensures
        r == wildcard_match(path@, clean@),
{
    let first = clean[0];
    let last = clean[clean.len() - 1];
    if first == '*' && last == '*' {
        let inner = trim_end_exec(&trim_start_exec(clean, '*'), '*');
        contains_exec(path, &inner)
    } else if first == '*' {
        ends_with_exec(path, &trim_start_exec(clean, '*'))
    } else if last == '*' {
        starts_with_exec(path, &trim_end_exec(clean, '*'))
    } else {
        let parts = split_on_exec(clean, '*');
        proof {
            lemma_split_on_nonempty(clean@, '*');
        }
        let n = parts.len();
        if !starts_with_exec(path, &parts[0]) || !ends_with_exec(path, &parts[n - 1]) {
            return false;
        }
        let mut k: usize = 1;
        while k < n - 1
            invariant
                n == parts.len(),
                n >= 1,
                clean.len() > 0,
                clean@[0] != '*',
                clean@.last() != '*',
                starts_with(path@, split_on(clean@, '*')[0]),
                ends_with(path@, split_on(clean@, '*').last()),
                n == split_on(clean@, '*').len(),
                forall|j: int| 0 <= j < n ==> (#[trigger] parts@[j])@ == split_on(clean@, '*')[j],
                1 <= k,
                forall|j: int| 1 <= j < k ==> contains(path@, #[trigger] split_on(clean@, '*')[j]),
            decreases n - k,
        {
            if !contains_exec(path, &parts[k]) {
                assert(!contains(path@, split_on(clean@, '*')[k as int]));
                return false;
            }
            k = k + 1;
        }
        true
    }
}

/// Whether the rule `pattern` (its `!` already removed) names `path`, a path
/// relative to the root; `is_dir` tells whether that path is a directory.
pub fn matches_gitignore_pattern(path: &str, pattern: &str, is_dir: bool) -> (r: bool)
    ensures
        r == pattern_matches(path@, pattern@, is_dir),
{
    pattern_matches_exec(&chars_of(path), &chars_of(pattern), is_dir)
}

/// `matches_gitignore_pattern` on character vectors.
pub fn pattern_matches_exec(path: &Vec<char>, pattern: &Vec<char>, is_dir: bool) -> (r: bool)
    ensures
        r == pattern_matches(path@, pattern@, is_dir),
{
    let n = pattern.len();
    if n > 0 && pattern[n - 1] == '/' && !is_dir {
        return false;
    }
    let clean = trim_end_exec(pattern, '/');
    if clean.len() > 0 && clean[0] == '/' {
        let anchor = trim_start_exec(&clean, '/');
        anchored_match_exec(path, &anchor)
    } else if has_char_exec(&clean, '*') {
        wildcard_match_exec(path, &clean)
    } else {
        literal_match_exec(path, &clean) || contains_exec(path, &clean)
    }
}

} // verus!
