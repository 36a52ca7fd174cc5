//! The decisions of the recursive walk: which entries are pruned, which files
//! are candidates, and the directory-to-files map.
use crate::ignore::{ignored_by, relative_of, should_ignore_by_gitignore, IgnoreSet};
use vstd::string::StringExecFns;
use crate::text::{chars_of, contains, contains_exec, eq_exec, trim_start, trim_start_exec, views_of};
use vstd::prelude::*;

verus! {

/// How one discovery run is set up.
pub struct DiscoveryConfig {
    pub root: String,
    /// Allowed extensions, with or without a leading dot; empty allows all.
    pub extensions: Vec<String>,
    /// Literal substrings that prune any path holding one.
    pub exclude_patterns: Vec<String>,
    /// The version-control directory to leave out; empty leaves nothing out.
    pub vcs_dir: String,
    pub use_ignore_file: bool,
}

/// What kind of filesystem entry the walk met.
#[derive(Clone, Copy, PartialEq, Eq, Structural, Debug)]
pub enum EntryKind {
    Directory,
    File,
    Symlink,
    Other,
}

/// Whether the path holds one of the literal substrings or the named
/// version-control directory.
pub open spec fn excluded_by_name(path: Seq<char>, excludes: Seq<Seq<char>>, vcs: Seq<char>) -> bool {
    (vcs.len() > 0 && contains(path, vcs)) || exists|i: int|
        0 <= i < excludes.len() && contains(path, #[trigger] excludes[i])
}

/// Whether the walk keeps an entry and, for a directory, descends into it.
pub open spec fn admitted(
    path: Seq<char>,
    root: Seq<char>,
    excludes: Seq<Seq<char>>,
    vcs: Seq<char>,
    use_ignore: bool,
    rules: Set<Seq<char>>,
    is_dir: bool,
) -> bool {
    !excluded_by_name(path, excludes, vcs) && !(use_ignore && ignored_by(
        rules,
        relative_of(path, root),
        is_dir,
    ))
}

/// Whether a file with extension `ext` passes the allow-list `exts`.
pub open spec fn extension_allowed(ext: Option<Seq<char>>, exts: Seq<Seq<char>>) -> bool {
    exts.len() == 0 || match ext {
        Some(e) => exists|i: int| 0 <= i < exts.len() && trim_start(#[trigger] exts[i], '.') == e,
        None => false,
    }
}

/// The extension of a path's file name, as `Path::extension` gives it.
pub uninterp spec fn extension_of(path: Seq<char>) -> Option<Seq<char>>;

/// Relies on `std::path::Path::extension`: the text after the last `.` of the
/// file name, where that `.` does not start the name.
#[verifier::external_body]
pub(crate) fn path_extension(path: &str) -> (r: Option<String>)
    ensures
        match r {
            Some(e) => extension_of(path@) == Some(e@),
            None => extension_of(path@) is None,
        },
{
    std::path::Path::new(path).extension().map(|e| e.to_string_lossy().into_owned())
}

impl DiscoveryConfig {
    /// Whether the path holds an exclude substring or the version-control directory.
    pub fn excludes(&self, path: &str) -> (r: bool)
        ensures
            r == excluded_by_name(path@, views_of(self.exclude_patterns@), self.vcs_dir@),
    {
        let p = chars_of(path);
        let vcs = chars_of(self.vcs_dir.as_str());
        if vcs.len() > 0 && contains_exec(&p, &vcs) {
            return true;
        }
        let mut i: usize = 0;
        while i < self.exclude_patterns.len()
            invariant
                p@ == path@,
                forall|j: int| 0 <= j < i ==> !contains(p@, #[trigger] views_of(self.exclude_patterns@)[j]),
            decreases self.exclude_patterns.len() - i,
        {
            let pat = chars_of(self.exclude_patterns[i].as_str());
            if contains_exec(&p, &pat) {
                assert(views_of(self.exclude_patterns@)[i as int] == pat@);
                assert(contains(path@, views_of(self.exclude_patterns@)[i as int]));
                return true;
            }
            i = i + 1;
        }
        false
    }

    /// Whether the walk keeps the entry at `path`, and descends into it when it
    /// is a directory: it holds no excluded name and, where the ignore file is
    /// in use, the rules do not ignore it.
    pub fn admit_entry(&self, rules: &IgnoreSet, path: &str, is_dir: bool) -> (r: bool)
        ensures
            r == admitted(
                path@,
                self.root@,
                views_of(self.exclude_patterns@),
                self.vcs_dir@,
                self.use_ignore_file,
                rules@,
                is_dir,
            ),
    {
        if self.excludes(path) {
            return false;
        }
        !(self.use_ignore_file && should_ignore_by_gitignore(path, self.root.as_str(), rules, is_dir))
    }

    /// Whether a file with extension `ext` passes the allow-list.
    pub fn allows_extension(&self, ext: &Option<String>) -> (r: bool)
        ensures
            r == extension_allowed(
                match ext {
                    Some(e) => Some(e@),
                    None => None,
                },
                views_of(self.extensions@),
            ),
    {
        if self.extensions.len() == 0 {
            return true;
        }
        match ext {
            None => false,
            Some(x) => {
                let e = chars_of(x.as_str());
                let mut i: usize = 0;
                while i < self.extensions.len()
                    invariant
                        e@ == x@,
                        match ext {
                            Some(y) => y@ == x@,
                            None => false,
                        },
                        forall|j: int|
                            0 <= j < i ==> trim_start(#[trigger] views_of(self.extensions@)[j], '.') != e@,
                    decreases self.extensions.len() - i,
                {
                    let allowed = trim_start_exec(&chars_of(self.extensions[i].as_str()), '.');
                    if eq_exec(&allowed, &e) {
                        assert(views_of(self.extensions@)[i as int] == self.extensions@[i as int]@);
                        assert(trim_start(views_of(self.extensions@)[i as int], '.') == e@);
                        assert(extension_allowed(Some(x@), views_of(self.extensions@)));
                        return true;
                    }
                    i = i + 1;
                }
                false
            },
        }
    }

    /// Whether a file at `path` passes the extension allow-list.
    pub fn file_matches(&self, path: &str) -> (r: bool)
        ensures
            r == extension_allowed(extension_of(path@), views_of(self.extensions@)),
    {
        let ext = path_extension(path);
        self.allows_extension(&ext)
    }
}

/// A directory map: each directory path with the paths of the files found
/// right inside it, in the order met.
pub type DirMap = Seq<(Seq<char>, Seq<Seq<char>>)>;

/// The first index at or after `i` whose directory is `key`, or the length.
pub open spec fn key_position(m: DirMap, key: Seq<char>, i: int) -> int
    decreases m.len() - i,
{
    if i < 0 || i >= m.len() {
        m.len() as int
    } else if m[i].0 == key {
        i
    } else {
        key_position(m, key, i + 1)
    }
}

proof fn lemma_key_position(m: DirMap, key: Seq<char>, i: int)
    requires
        0 <= i <= m.len(),
    ensures
        i <= key_position(m, key, i) <= m.len(),
        key_position(m, key, i) < m.len() ==> m[key_position(m, key, i)].0 == key,
    decreases m.len() - i,
{
    if i < m.len() && m[i].0 != key {
        lemma_key_position(m, key, i + 1);
    }
}

/// The map with `key` present, added with no files where it was missing.
pub open spec fn with_directory(m: DirMap, key: Seq<char>) -> DirMap {
    if key_position(m, key, 0) < m.len() {
        m
    } else {
        m.push((key, Seq::empty()))
    }
}

/// The map with `file` appended to the files of `dir`, which is added where
/// it was missing.
pub open spec fn with_file(m: DirMap, dir: Seq<char>, file: Seq<char>) -> DirMap {
    let k = key_position(m, dir, 0);
    if k < m.len() {
        m.update(k, (dir, m[k].1.push(file)))
    } else {
        m.push((dir, seq![file]))
    }
}

/// The map after the walk admitted an entry: a directory adds its own key,
/// a regular file joins its parent's list, anything else changes nothing.
pub open spec fn map_after(m: DirMap, path: Seq<char>, parent: Seq<char>, kind: EntryKind) -> DirMap {
    match kind {
        EntryKind::Directory => with_directory(m, path),
        EntryKind::File => with_file(m, parent, path),
        _ => m,
    }
}

/// The candidates after the walk admitted an entry: a regular file whose
/// extension passes the allow-list joins them.
pub open spec fn files_after(
    files: Seq<Seq<char>>,
    path: Seq<char>,
    kind: EntryKind,
    exts: Seq<Seq<char>>,
) -> Seq<Seq<char>> {
    if kind == EntryKind::File && extension_allowed(extension_of(path), exts) {
        files.push(path)
    } else {
        files
    }
}

/// What one discovery run has found so far.
pub struct Discovery {
    files: Vec<String>,
    dirs: Vec<String>,
    dir_files: Vec<Vec<String>>,
}

impl Discovery {
    /// The candidate files, in the order met.
    pub closed spec fn files_spec(&self) -> Seq<Seq<char>> {
        views_of(self.files@)
    }

    /// The directory map.
    pub closed spec fn map_spec(&self) -> DirMap {
        Seq::new(self.dirs.len() as nat, |i: int| (self.dirs@[i]@, views_of(self.dir_files@[i]@)))
    }

    pub closed spec fn wf(&self) -> bool {
        self.dirs.len() == self.dir_files.len()
    }

    pub fn new() -> (r: Discovery)
        ensures
            r.wf(),
            r.files_spec() == Seq::<Seq<char>>::empty(),
            r.map_spec() == Seq::<(Seq<char>, Seq<Seq<char>>)>::empty(),
    {
        let r = Discovery { files: Vec::new(), dirs: Vec::new(), dir_files: Vec::new() };
        assert(r.files_spec() =~= Seq::<Seq<char>>::empty());
        assert(r.map_spec() =~= Seq::<(Seq<char>, Seq<Seq<char>>)>::empty());
        r
    }

    /// The candidate files.
    pub fn files(&self) -> (r: &Vec<String>)
        ensures
            views_of(r@) == self.files_spec(),
    {
        &self.files
    }

    /// Takes the candidate files out.
    pub fn into_files(self) -> (r: Vec<String>)
        ensures
            views_of(r@) == self.files_spec(),
    {
        self.files
    }

    fn position(&self, key: &String) -> (r: usize)
        requires
            self.wf(),
        ensures
            r == key_position(self.map_spec(), key@, 0),
    {
        let ghost m = self.map_spec();
        let mut i: usize = 0;
        while i < self.dirs.len()
            invariant
                m == self.map_spec(),
                self.wf(),
                i <= self.dirs.len(),
                key_position(m, key@, 0) == key_position(m, key@, i as int),
            decreases self.dirs.len() - i,
        {
            if self.dirs[i] == *key {
                return i;
            }
            i = i + 1;
        }
        i
    }

    /// Records one entry that the walk admitted; `parent` is the path of the
    /// directory that holds it.
    pub fn record(&mut self, config: &DiscoveryConfig, path: &String, parent: &String, kind: EntryKind)
        requires
            old(self).wf(),
        ensures
            final(self).wf(),
            final(self).files_spec() == files_after(
                old(self).files_spec(),
                path@,
                kind,
                views_of(config.extensions@),
            ),
            final(self).map_spec() == map_after(old(self).map_spec(), path@, parent@, kind),
    {
        let ghost m = self.map_spec();
        let ghost f = self.files_spec();
        proof {
            lemma_key_position(m, path@, 0);
            lemma_key_position(m, parent@, 0);
        }
        if kind == EntryKind::File && config.file_matches(path.as_str()) {
            self.files.push(path.clone());
            assert(self.files_spec() =~= f.push(path@));
        }
        match kind {
            EntryKind::Directory => {
                let k = self.position(path);
                if k == self.dirs.len() {
                    self.dirs.push(path.clone());
                    let none: Vec<String> = Vec::new();
                    assert(views_of(none@) =~= Seq::<Seq<char>>::empty());
                    self.dir_files.push(none);
                    assert(self.map_spec() =~= m.push((path@, Seq::empty())));
                } else {
                    assert(with_directory(m, path@) == m);
                }
            },
            EntryKind::File => {
                let k = self.position(parent);
                if k == self.dirs.len() {
                    self.dirs.push(parent.clone());
                    let mut one: Vec<String> = Vec::new();
                    one.push(path.clone());
                    self.dir_files.push(one);
                    assert(views_of(one@) =~= seq![path@]);
                    assert(self.map_spec() =~= m.push((parent@, seq![path@])));
                } else {
                    let mut lists = Vec::new();
                    std::mem::swap(&mut lists, &mut self.dir_files);
                    let mut list = lists.remove(k);
                    let ghost before = list@;
                    list.push(path.clone());
                    assert(views_of(list@) =~= views_of(before).push(path@));
                    lists.insert(k, list);
                    self.dir_files = lists;
                    assert(self.map_spec() =~= m.update(k as int, (parent@, m[k as int].1.push(path@))));
                }
            },
            _ => {},
        }
    }
}

/// The text of the lines that list `files` under their directory.
pub open spec fn render_files(files: Seq<Seq<char>>) -> Seq<char>
    decreases files.len(),
{
    if files.len() == 0 {
        Seq::empty()
    } else {
        render_files(files.drop_last()) + "├── "@ + files.last() + "\n"@
    }
}

/// The text of a directory map: each directory on a line of its own, then
/// one line per file.
pub open spec fn render_map(m: DirMap) -> Seq<char>
    decreases m.len(),
{
    if m.len() == 0 {
        Seq::empty()
    } else {
        render_map(m.drop_last()) + m.last().0 + "\n"@ + render_files(m.last().1)
    }
}

/// The text of the directory map found so far.
pub fn generate_file_map(discovery: &Discovery) -> (r: String)
    requires
        discovery.wf(),
    ensures
        r@ == render_map(discovery.map_spec()),
{
    let ghost m = discovery.map_spec();
    let mut out = String::new();
    let mut i: usize = 0;
    while i < discovery.dirs.len()
        invariant
            m == discovery.map_spec(),
            discovery.wf(),
            i <= discovery.dirs.len(),
            out@ == render_map(m.take(i as int)),
        decreases discovery.dirs.len() - i,
    {
        let ghost start = out@;
        out.append(discovery.dirs[i].as_str());
        out.append("\n");
        let files = &discovery.dir_files[i];
        let ghost fv = views_of(files@);
        let mut j: usize = 0;
        while j < files.len()
            invariant
                fv == views_of(files@),
                j <= files.len(),
                out@ == start + m[i as int].0 + "\n"@ + render_files(fv.take(j as int)),
            decreases files.len() - j,
        {
            out.append("├── ");
            out.append(files[j].as_str());
            out.append("\n");
            assert(fv.take(j + 1).drop_last() =~= fv.take(j as int));
            j = j + 1;
        }
        assert(fv.take(files.len() as int) =~= fv);
        assert(m.take(i + 1).drop_last() =~= m.take(i as int));
        i = i + 1;
    }
    assert(m.take(discovery.dirs.len() as int) =~= m);
    out
}

/// The candidates after recording `entries` (path and kind) in order.
pub open spec fn candidates(entries: Seq<(Seq<char>, EntryKind)>, exts: Seq<Seq<char>>) -> Seq<Seq<char>>
    decreases entries.len(),
{
    if entries.len() == 0 {
        Seq::empty()
    } else {
        files_after(candidates(entries.drop_last(), exts), entries.last().0, entries.last().1, exts)
    }
}

/// Whether `p` is the path of a regular file among `entries` whose extension
/// passes the allow-list.
pub open spec fn is_candidate(entries: Seq<(Seq<char>, EntryKind)>, exts: Seq<Seq<char>>, p: Seq<char>) -> bool {
    exists|i: int|
        0 <= i < entries.len() && (#[trigger] entries[i]).0 == p && entries[i].1 == EntryKind::File
            && extension_allowed(extension_of(p), exts)
}

/// As a set, the candidates are the regular files met whose extension passes
/// the allow-list.
pub proof fn lemma_candidates_set(entries: Seq<(Seq<char>, EntryKind)>, exts: Seq<Seq<char>>)
    ensures
        candidates(entries, exts).to_set() == Set::new(|p: Seq<char>| is_candidate(entries, exts, p)),
    decreases entries.len(),
{
    broadcast use vstd::seq_lib::group_seq_properties;
    if entries.len() > 0 {
        let prev = entries.drop_last();
        lemma_candidates_set(prev, exts);
        let c = candidates(prev, exts);
        let last = entries.last();
        assert forall|p: Seq<char>| is_candidate(entries, exts, p) == (is_candidate(prev, exts, p) || (
        last.1 == EntryKind::File && extension_allowed(extension_of(last.0), exts) && p == last.0)) by {
            if is_candidate(entries, exts, p) {
                let i = choose|i: int|
                    0 <= i < entries.len() && (#[trigger] entries[i]).0 == p && entries[i].1
                        == EntryKind::File && extension_allowed(extension_of(p), exts);
                if i < entries.len() - 1 {
                    assert(prev[i] == entries[i]);
                }
            }
            if is_candidate(prev, exts, p) {
                let i = choose|i: int|
                    0 <= i < prev.len() && (#[trigger] prev[i]).0 == p && prev[i].1 == EntryKind::File
                        && extension_allowed(extension_of(p), exts);
                assert(entries[i] == prev[i]);
            }
            if last.1 == EntryKind::File && extension_allowed(extension_of(last.0), exts) && p == last.0 {
                assert(entries[entries.len() - 1] == last);
            }
        }
        if last.1 == EntryKind::File && extension_allowed(extension_of(last.0), exts) {
            assert(c.push(last.0).to_set() =~= c.to_set().insert(last.0));
        }
        assert(candidates(entries, exts).to_set() =~= Set::new(
            |p: Seq<char>| is_candidate(entries, exts, p),
        ));
    } else {
        assert(candidates(entries, exts).to_set() =~= Set::new(
            |p: Seq<char>| is_candidate(entries, exts, p),
        ));
    }
}

/// Meeting the same entries in another order yields the same set of candidates.
pub proof fn lemma_candidates_order_free(
    entries: Seq<(Seq<char>, EntryKind)>,
    reordered: Seq<(Seq<char>, EntryKind)>,
    exts: Seq<Seq<char>>,
)
    requires
        entries.to_multiset() == reordered.to_multiset(),
    ensures
        candidates(entries, exts).to_set() == candidates(reordered, exts).to_set(),
{
    broadcast use vstd::seq_lib::group_to_multiset_ensures;
    lemma_candidates_set(entries, exts);
    lemma_candidates_set(reordered, exts);
    assert forall|p: Seq<char>| is_candidate(entries, exts, p) == is_candidate(reordered, exts, p) by {
        if is_candidate(entries, exts, p) {
            let i = choose|i: int|
                0 <= i < entries.len() && (#[trigger] entries[i]).0 == p && entries[i].1 == EntryKind::File
                    && extension_allowed(extension_of(p), exts);
            assert(entries.contains(entries[i]));
            assert(entries.to_multiset().count(entries[i]) > 0);
            assert(reordered.to_multiset().count(entries[i]) > 0);
            assert(reordered.contains(entries[i]));
        }
        if is_candidate(reordered, exts, p) {
            let i = choose|i: int|
                0 <= i < reordered.len() && (#[trigger] reordered[i]).0 == p && reordered[i].1
                    == EntryKind::File && extension_allowed(extension_of(p), exts);
            assert(reordered.contains(reordered[i]));
            assert(reordered.to_multiset().count(reordered[i]) > 0);
            assert(entries.to_multiset().count(reordered[i]) > 0);
            assert(entries.contains(reordered[i]));
        }
    }
    assert(Set::new(|p: Seq<char>| is_candidate(entries, exts, p)) =~= Set::new(
        |p: Seq<char>| is_candidate(reordered, exts, p),
    ));
}

} // verus!
