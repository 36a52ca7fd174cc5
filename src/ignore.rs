//! A set of gitignore-style rules and its verdict on a path.
use crate::pattern::{pattern_matches, pattern_matches_exec};
use crate::text::{chars_of, slice_chars, split_on, split_on_exec, trim_ws, trim_ws_range};
use vstd::prelude::*;

verus! {

/// A rule whose line starts with `!` re-includes what it names.
pub open spec fn is_negated(rule: Seq<char>) -> bool {
    rule.len() > 0 && rule[0] == '!'
}

/// Whether the rule set ignores `rel`, a path relative to the root: some
/// plain rule names it and no negated rule does, whatever the rules' order.
pub open spec fn ignored_by(rules: Set<Seq<char>>, rel: Seq<char>, is_dir: bool) -> bool {
    &&& exists|r: Seq<char>|
        #![trigger rules.contains(r)]
        rules.contains(r) && !is_negated(r) && pattern_matches(rel, r, is_dir)
    &&& !exists|r: Seq<char>|
        #![trigger rules.contains(r)]
        rules.contains(r) && is_negated(r) && pattern_matches(rel, r.drop_first(), is_dir)
}

/// The rule that one line of an ignore file holds, if any: blank lines and
/// comments hold none, and the text after a leading `!` is trimmed too.
pub open spec fn rule_of_line(line: Seq<char>) -> Option<Seq<char>> {
    let t = trim_ws(line);
    if t.len() == 0 || t[0] == '#' {
        None
    } else if t[0] == '!' && t.len() > 1 {
        Some(seq!['!'] + trim_ws(t.drop_first()))
    } else {
        Some(t)
    }
}

/// The rules that the text of an ignore file holds.
pub open spec fn rules_of_text(text: Seq<char>) -> Set<Seq<char>> {
    Set::new(
        |r: Seq<char>|
            exists|k: int|
                0 <= k < split_on(text, '\n').len() && rule_of_line(#[trigger] split_on(text, '\n')[k])
                    == Some(r),
    )
}

/// The path of `path` relative to `root`, as `Path::strip_prefix` gives it,
/// or `path` itself where it does not lie under `root`.
pub uninterp spec fn relative_of(path: Seq<char>, root: Seq<char>) -> Seq<char>;

/// Relies on `std::path::Path::strip_prefix`: the components of `path` after
/// those of `root`, or all of `path` when `root` is not a prefix of it.
#[verifier::external_body]
fn relative_path(path: &str, root: &str) -> (r: Vec<char>)
    ensures
        r@ == relative_of(path@, root@),
{
    let p = std::path::Path::new(path);
    p.strip_prefix(root).unwrap_or(p).to_string_lossy().chars().collect()
}

/// An unordered set of rules; equal lines collapse into one.
pub struct IgnoreSet {
    rules: Vec<Vec<char>>,
}

impl IgnoreSet {
    pub closed spec fn rule_seq(&self) -> Seq<Seq<char>> {
        self.rules@.map_values(|r: Vec<char>| r@)
    }

    #[verifier::type_invariant]
    closed spec fn no_duplicates(&self) -> bool {
        self.rule_seq().no_duplicates()
    }
}

impl View for IgnoreSet {
    type V = Set<Seq<char>>;

    closed spec fn view(&self) -> Set<Seq<char>> {
        self.rule_seq().to_set()
    }
}

impl IgnoreSet {
    /// The empty set, which ignores nothing.
    pub fn new() -> (r: IgnoreSet)
        ensures
            r@ == Set::<Seq<char>>::empty(),
    {
        let r = IgnoreSet { rules: Vec::new() };
        assert(r.rule_seq() =~= Seq::<Seq<char>>::empty());
        assert(r@ =~= Set::<Seq<char>>::empty());
        r
    }

    pub fn len(&self) -> (r: usize)
        ensures
            r as nat == self@.len(),
    {
        proof {
            use_type_invariant(self);
            self.rule_seq().unique_seq_to_set();
        }
        self.rules.len()
    }

    pub fn is_empty(&self) -> (r: bool)
        ensures
            r == (self@ == Set::<Seq<char>>::empty()),
    {
        if self.rules.len() == 0 {
            assert(self.rule_seq() =~= Seq::<Seq<char>>::empty());
            assert(self@ =~= Set::<Seq<char>>::empty());
            true
        } else {
            assert(self.rule_seq().contains(self.rule_seq()[0]));
            assert(self@.contains(self.rules@[0]@));
            false
        }
    }

    pub fn contains(&self, rule: &str) -> (r: bool)
        ensures
            r == self@.contains(rule@),
    {
        self.contains_chars(&chars_of(rule))
    }

    fn contains_chars(&self, rule: &Vec<char>) -> (r: bool)
        ensures
            r == self@.contains(rule@),
    {
        let mut i: usize = 0;
        while i < self.rules.len()
            invariant
                forall|j: int| 0 <= j < i ==> self.rule_seq()[j] != rule@,
            decreases self.rules.len() - i,
        {
            if crate::text::eq_exec(&self.rules[i], rule) {
                assert(self.rule_seq()[i as int] == rule@);
                return true;
            }
            i = i + 1;
        }
        false
    }

    /// Adds one rule line; a line already present changes nothing.
    pub fn insert(&mut self, rule: &str)
        ensures
            final(self)@ == old(self)@.insert(rule@),
    {
        self.insert_chars(chars_of(rule));
    }

    fn insert_chars(&mut self, rule: Vec<char>)
        ensures
            final(self)@ == old(self)@.insert(rule@),
    {
        if self.contains_chars(&rule) {
            assert(self@ =~= self@.insert(rule@));
            return;
        }
        let ghost old_seq = self.rule_seq();
        proof {
            use_type_invariant(&*self);
        }
        let ghost v = rule@;
        let mut rules = Vec::new();
        std::mem::swap(&mut rules, &mut self.rules);
        rules.push(rule);
        proof {
            assert(rules@.map_values(|r: Vec<char>| r@) =~= old_seq.push(v));
            old_seq.lemma_push_to_set_commute(v);
            assert(!old_seq.contains(v));
        }
        self.rules = rules;
    }

    /// The rules that the text of an ignore file holds.
    pub fn parse(text: &str) -> (r: IgnoreSet)
        ensures
            r@ == rules_of_text(text@),
    {
        let chars = chars_of(text);
        let lines = split_on_exec(&chars, '\n');
        let ghost split = split_on(text@, '\n');
        let mut set = IgnoreSet::new();
        let mut k: usize = 0;
        while k < lines.len()
            invariant
                lines.len() == split.len(),
                forall|j: int| 0 <= j < lines.len() ==> (#[trigger] lines@[j])@ == split[j],
                k <= lines.len(),
                set@ == Set::new(
                    |r: Seq<char>|
                        exists|j: int| 0 <= j < k && rule_of_line(#[trigger] split[j]) == Some(r),
                ),
            decreases lines.len() - k,
        {
            let ghost before = set@;
            let line = &lines[k];
            let t = trim_ws_range(line, 0, line.len());
            assert(line@.subrange(0, line@.len() as int) =~= line@);
            if t.len() == 0 || t[0] == '#' {
            } else if t[0] == '!' && t.len() > 1 {
                let mut rule: Vec<char> = Vec::new();
                rule.push('!');
                let mut rest = trim_ws_range(&t, 1, t.len());
                assert(t@.subrange(1, t@.len() as int) =~= t@.drop_first());
                rule.append(&mut rest);
                set.insert_chars(rule);
            } else {
                set.insert_chars(t);
            }
            k = k + 1;
            assert(set@ =~= Set::new(
                |r: Seq<char>|
                    exists|j: int| 0 <= j < k && rule_of_line(#[trigger] split[j]) == Some(r),
            )) by {
                assert forall|r: Seq<char>| set@.contains(r) implies exists|j: int|
                    0 <= j < k && rule_of_line(#[trigger] split[j]) == Some(r) by {
                    if !before.contains(r) {
                        assert(rule_of_line(split[k - 1]) == Some(r));
                    }
                }
            }
        }
        assert(set@ =~= rules_of_text(text@));
        set
    }

    /// `should_ignore_by_gitignore` on a path that is already relative to the root.
    pub fn ignores_relative(&self, rel: &str, is_dir: bool) -> (r: bool)
        ensures
            r == ignored_by(self@, rel@, is_dir),
            self@ == Set::<Seq<char>>::empty() ==> !r,
    {
        self.ignores_chars(&chars_of(rel), is_dir)
    }

    fn ignores_chars(&self, rel: &Vec<char>, is_dir: bool) -> (r: bool)
        ensures
            r == ignored_by(self@, rel@, is_dir),
    {
        let mut matched_negated = false;
        let mut should_ignore = false;
        let mut i: usize = 0;
        while i < self.rules.len()
            invariant
                i <= self.rules.len(),
                matched_negated == exists|j: int|
                    0 <= j < i && is_negated(#[trigger] self.rule_seq()[j]) && pattern_matches(
                        rel@,
                        self.rule_seq()[j].drop_first(),
                        is_dir,
                    ),
                should_ignore ==> exists|j: int|
                    0 <= j < i && !is_negated(#[trigger] self.rule_seq()[j]) && pattern_matches(
                        rel@,
                        self.rule_seq()[j],
                        is_dir,
                    ),
                !matched_negated ==> (should_ignore == exists|j: int|
                    0 <= j < i && !is_negated(#[trigger] self.rule_seq()[j]) && pattern_matches(
                        rel@,
                        self.rule_seq()[j],
                        is_dir,
                    )),
            decreases self.rules.len() - i,
        {
            let rule = &self.rules[i];
            let ghost s = self.rule_seq();
            assert(s[i as int] == rule@);
            if rule.len() > 0 && rule[0] == '!' {
                let body = slice_chars(rule, 1, rule.len());
                assert(body@ =~= rule@.drop_first());
                if pattern_matches_exec(rel, &body, is_dir) {
                    matched_negated = true;
                }
            } else if !matched_negated && pattern_matches_exec(rel, rule, is_dir) {
                should_ignore = true;
            }
            i = i + 1;
        }
        let r = !matched_negated && should_ignore;
        proof {
            let s = self.rule_seq();
            assert(s.len() == i);
            assert(self@ == s.to_set());
            if matched_negated {
                let j = choose|j: int|
                    0 <= j < i && is_negated(#[trigger] s[j]) && pattern_matches(
                        rel@,
                        s[j].drop_first(),
                        is_dir,
                    );
                assert(s.contains(s[j]));
                assert(self@.contains(s[j]));
            } else {
                assert forall|x: Seq<char>| #[trigger]
                    self@.contains(x) && is_negated(x) implies !pattern_matches(
                    rel@,
                    x.drop_first(),
                    is_dir,
                ) by {
                    assert(s.contains(x));
                    let j = choose|j: int| 0 <= j < s.len() && s[j] == x;
                    assert(is_negated(s[j]));
                }
                if should_ignore {
                    let j = choose|j: int|
                        0 <= j < i && !is_negated(#[trigger] s[j]) && pattern_matches(
                            rel@,
                            s[j],
                            is_dir,
                        );
                    assert(s.contains(s[j]));
                    assert(self@.contains(s[j]));
                } else {
                    assert forall|x: Seq<char>| #[trigger]
                        self@.contains(x) && !is_negated(x) implies !pattern_matches(
                        rel@,
                        x,
                        is_dir,
                    ) by {
                        assert(s.contains(x));
                        let j = choose|j: int| 0 <= j < s.len() && s[j] == x;
                        assert(!is_negated(s[j]));
                    }
                }
            }
        }
        r
    }
}

/// Whether the rules ignore `path`, taken relative to `root`; `is_dir` tells
/// whether `path` is a directory. An empty set ignores nothing.
pub fn should_ignore_by_gitignore(path: &str, root: &str, patterns: &IgnoreSet, is_dir: bool) -> (r:
    bool)
    ensures
        r == ignored_by(patterns@, relative_of(path@, root@), is_dir),
        patterns@ == Set::<Seq<char>>::empty() ==> !r,
{
    if patterns.is_empty() {
        return false;
    }
    let rel = relative_path(path, root);
    patterns.ignores_chars(&rel, is_dir)
}

} // verus!
