//! The selection tree: every node in depth-first pre-order with its depth,
//! the flattened view that skips the contents of collapsed directories, and
//! a cursor into that view.
use crate::text::views_of;
use vstd::prelude::*;

verus! {

pub enum TreeNode {
    Directory { name: String, expanded: bool },
    File { name: String, path: String, selected: bool },
}

/// What a node holds, as character sequences.
pub enum NodeView {
    Directory { name: Seq<char>, expanded: bool },
    File { name: Seq<char>, path: Seq<char>, selected: bool },
}

impl View for TreeNode {
    type V = NodeView;

    open spec fn view(&self) -> NodeView {
        match self {
            TreeNode::Directory { name, expanded } => NodeView::Directory {
                name: name@,
                expanded: *expanded,
            },
            TreeNode::File { name, path, selected } => NodeView::File {
                name: name@,
                path: path@,
                selected: *selected,
            },
        }
    }
}

/// The nodes of a tree in pre-order, each with its depth; the root comes first.
pub type Outline = Seq<(NodeView, nat)>;

pub open spec fn is_dir(n: NodeView) -> bool {
    n is Directory
}

pub open spec fn is_file(n: NodeView) -> bool {
    n is File
}

pub open spec fn name_of(n: NodeView) -> Seq<char> {
    match n {
        NodeView::Directory { name, .. } => name,
        NodeView::File { name, .. } => name,
    }
}

pub open spec fn expanded_of(n: NodeView) -> bool {
    match n {
        NodeView::Directory { expanded, .. } => expanded,
        NodeView::File { .. } => false,
    }
}

pub open spec fn selected_of(n: NodeView) -> bool {
    match n {
        NodeView::File { selected, .. } => selected,
        NodeView::Directory { .. } => false,
    }
}

pub open spec fn is_dir_named(n: NodeView, name: Seq<char>) -> bool {
    is_dir(n) && name_of(n) == name
}

/// `n` with its expanded flag set to `e`, where it is a directory.
pub open spec fn with_expanded(n: NodeView, e: bool) -> NodeView {
    match n {
        NodeView::Directory { name, .. } => NodeView::Directory { name, expanded: e },
        NodeView::File { .. } => n,
    }
}

/// `n` with its selected flag set to `s`, where it is a file.
pub open spec fn with_selected(n: NodeView, s: bool) -> NodeView {
    match n {
        NodeView::File { name, path, .. } => NodeView::File { name, path, selected: s },
        NodeView::Directory { .. } => n,
    }
}

/// The shape of a pre-order outline: the root is a directory at depth 0, every
/// other node lies deeper, each node is at most one level below the one before
/// it, and only a directory has a node right below it.
pub open spec fn wf_outline(t: Outline) -> bool {
    &&& t.len() >= 1
    &&& t[0].1 == 0
    &&& is_dir(t[0].0)
    &&& forall|i: int|
        #![trigger t[i]]
        1 <= i < t.len() ==> {
            &&& t[i].1 >= 1
            &&& t[i].1 <= t[i - 1].1 + 1
            &&& (t[i].1 == t[i - 1].1 + 1 ==> is_dir(t[i - 1].0))
        }
}

/// The last node before index `j` at depth `l`, or -1.
pub open spec fn last_at(t: Outline, j: int, l: nat) -> int
    decreases j,
{
    if j <= 0 {
        -1
    } else if t[j - 1].1 == l {
        j - 1
    } else {
        last_at(t, j - 1, l)
    }
}

/// The parent of node `j`: the last node before it one level up.
pub open spec fn parent_of(t: Outline, j: int) -> int {
    last_at(t, j, (t[j].1 - 1) as nat)
}

/// A node is shown when each directory above it is expanded.
pub open spec fn visible(t: Outline, j: int) -> bool
    decreases j,
{
    if j <= 0 {
        true
    } else {
        let p = parent_of(t, j);
        0 <= p < j && visible(t, p) && expanded_of(t[p].0)
    }
}

/// The indices below `n` of the shown nodes, in order.
pub open spec fn visible_indices(t: Outline, n: int) -> Seq<int>
    decreases n,
{
    if n <= 0 {
        Seq::empty()
    } else if visible(t, n - 1) {
        visible_indices(t, n - 1).push(n - 1)
    } else {
        visible_indices(t, n - 1)
    }
}

/// The flattened sequence: each shown node as (index, depth), in pre-order.
pub open spec fn flatten_spec(t: Outline) -> Seq<(int, nat)> {
    visible_indices(t, t.len() as int).map_values(|i: int| (i, t[i].1))
}

/// The number of file nodes below index `n`.
pub open spec fn count_files(t: Outline, n: int) -> nat
    decreases n,
{
    if n <= 0 {
        0
    } else {
        count_files(t, n - 1) + if is_file(t[n - 1].0) {
            1nat
        } else {
            0nat
        }
    }
}

/// The number of selected file nodes below index `n`.
pub open spec fn count_selected(t: Outline, n: int) -> nat
    decreases n,
{
    if n <= 0 {
        0
    } else {
        count_selected(t, n - 1) + if is_file(t[n - 1].0) && selected_of(t[n - 1].0) {
            1nat
        } else {
            0nat
        }
    }
}

/// The paths of the selected file nodes below index `n`, in pre-order.
pub open spec fn selected_paths_spec(t: Outline, n: int) -> Seq<Seq<char>>
    decreases n,
{
    if n <= 0 {
        Seq::empty()
    } else {
        match t[n - 1].0 {
            NodeView::File { path, selected, .. } => if selected {
                selected_paths_spec(t, n - 1).push(path)
            } else {
                selected_paths_spec(t, n - 1)
            },
            NodeView::Directory { .. } => selected_paths_spec(t, n - 1),
        }
    }
}

/// Every file node with its selected flag set to `s`.
pub open spec fn select_every(t: Outline, s: bool) -> Outline {
    t.map_values(|e: (NodeView, nat)| (with_selected(e.0, s), e.1))
}

/// The outline after setting the expanded flag of the first directory named
/// `name` below the root, if there is one, to `e`.
pub open spec fn set_expanded_by_name(t: Outline, name: Seq<char>, e: bool, found: bool, t2: Outline) -> bool {
    &&& found == exists|j: int| 1 <= j < t.len() && is_dir_named(#[trigger] t[j].0, name)
    &&& found ==> exists|j: int|
        #![trigger t[j]]
        1 <= j < t.len() && is_dir_named(t[j].0, name) && (forall|k: int|
            1 <= k < j ==> !is_dir_named(#[trigger] t[k].0, name)) && t2 == t.update(
            j,
            (with_expanded(t[j].0, e), t[j].1),
        )
    &&& !found ==> t2 == t
}

/// The first node at or after `j`, and before `end`, that is a directory named
/// `name` one level below `p`.
pub open spec fn find_child_from(t: Outline, p: int, name: Seq<char>, j: int, end: int) -> Option<int>
    decreases end - j,
{
    if j >= end || j < 0 {
        None
    } else if t[j].1 == t[p].1 + 1 && is_dir_named(t[j].0, name) {
        Some(j)
    } else {
        find_child_from(t, p, name, j + 1, end)
    }
}

/// The first index at or after `j` whose node is no deeper than node `p`, or
/// the length: where the part of the outline below `p` ends.
pub open spec fn subtree_end_from(t: Outline, p: int, j: int) -> int
    decreases t.len() - j,
{
    if j >= t.len() || j < 0 || t[j].1 <= t[p].1 {
        j
    } else {
        subtree_end_from(t, p, j + 1)
    }
}

pub open spec fn subtree_end(t: Outline, p: int) -> int {
    subtree_end_from(t, p, p + 1)
}

/// The directory child of `p` named `name`, if there is one.
pub open spec fn find_child(t: Outline, p: int, name: Seq<char>) -> Option<int> {
    find_child_from(t, p, name, p + 1, subtree_end(t, p))
}

/// The outline after adding components `comps[k..]` of `path` below node `p`:
/// each component but the last reuses a directory child of that name or
/// appends a new expanded one; the last is appended as an unselected file,
/// whether or not a file of that name is already there.
pub open spec fn insert_spec(t: Outline, p: int, comps: Seq<Seq<char>>, k: int, path: Seq<char>) -> Outline
    decreases comps.len() - k,
{
    if k < 0 || k >= comps.len() {
        t
    } else {
        let d = t[p].1 + 1;
        let end = subtree_end(t, p);
        if k == comps.len() - 1 {
            t.insert(end, (NodeView::File { name: comps[k], path, selected: false }, d as nat))
        } else {
            match find_child(t, p, comps[k]) {
                Some(c) => insert_spec(t, c, comps, k + 1, path),
                None => insert_spec(
                    t.insert(end, (NodeView::Directory { name: comps[k], expanded: true }, d as nat)),
                    end,
                    comps,
                    k + 1,
                    path,
                ),
            }
        }
    }
}

/// The outline of a fresh tree: the unnamed, expanded root alone.
pub open spec fn root_outline() -> Outline {
    seq![(NodeView::Directory { name: Seq::<char>::empty(), expanded: true }, 0nat)]
}

/// The outline that a vector of nodes and depths stands for.
pub open spec fn outline_of(nodes: Seq<(TreeNode, usize)>) -> Outline {
    nodes.map_values(|e: (TreeNode, usize)| (e.0@, e.1 as nat))
}

proof fn lemma_depth_bound(t: Outline, i: int)
    requires
        wf_outline(t),
        0 <= i < t.len(),
    ensures
        t[i].1 <= i,
    decreases i,
{
    if i > 0 {
        lemma_depth_bound(t, i - 1);
        assert(t[i].1 <= t[i - 1].1 + 1);
    }
}

proof fn lemma_subtree_end_from(t: Outline, p: int, j: int)
    requires
        0 <= p < j <= t.len(),
    ensures
        j <= subtree_end_from(t, p, j) <= t.len(),
        forall|m: int| j <= m < subtree_end_from(t, p, j) ==> t[m].1 > t[p].1,
        subtree_end_from(t, p, j) == t.len() || t[subtree_end_from(t, p, j)].1 <= t[p].1,
    decreases t.len() - j,
{
    if j < t.len() && t[j].1 > t[p].1 {
        lemma_subtree_end_from(t, p, j + 1);
    }
}

proof fn lemma_find_child_from(t: Outline, p: int, name: Seq<char>, j: int, end: int)
    requires
        0 <= j,
        end <= t.len(),
    ensures
        match find_child_from(t, p, name, j, end) {
            Some(c) => j <= c < end && t[c].1 == t[p].1 + 1 && is_dir_named(t[c].0, name),
            None => true,
        },
    decreases end - j,
{
    if j < end && !(t[j].1 == t[p].1 + 1 && is_dir_named(t[j].0, name)) {
        lemma_find_child_from(t, p, name, j + 1, end);
    }
}

/// Adding a node one level below directory `p`, where the part of the
/// outline below `p` ends, keeps the outline's shape.
proof fn lemma_insert_keeps_shape(t: Outline, p: int, x: (NodeView, nat))
    requires
        wf_outline(t),
        0 <= p < t.len(),
        is_dir(t[p].0),
        x.1 == t[p].1 + 1,
    ensures
        wf_outline(t.insert(subtree_end(t, p), x)),
        t.insert(subtree_end(t, p), x)[subtree_end(t, p)] == x,
        p < subtree_end(t, p) <= t.len(),
{
    let e = subtree_end(t, p);
    lemma_subtree_end_from(t, p, p + 1);
    let t2 = t.insert(e, x);
    assert forall|i: int| #![trigger t2[i]] 1 <= i < t2.len() implies {
        &&& t2[i].1 >= 1
        &&& t2[i].1 <= t2[i - 1].1 + 1
        &&& (t2[i].1 == t2[i - 1].1 + 1 ==> is_dir(t2[i - 1].0))
    } by {
        if i < e {
            assert(t2[i] == t[i] && t2[i - 1] == t[i - 1]);
            assert(t[i].1 >= 1);
        } else if i == e {
            assert(t2[i - 1] == t[i - 1]);
            if i - 1 > p {
                assert(t[i - 1].1 > t[p].1);
            }
        } else if i == e + 1 {
            assert(t2[i] == t[e]);
            assert(t[e].1 >= 1);
        } else {
            assert(t2[i] == t[i - 1] && t2[i - 1] == t[i - 2]);
            assert(t[i - 1].1 >= 1);
        }
    }
}

fn subtree_end_exec(nodes: &Vec<(TreeNode, usize)>, p: usize) -> (e: usize)
    requires
        p < nodes.len(),
    ensures
        e == subtree_end(outline_of(nodes@), p as int),
{
    let ghost t = outline_of(nodes@);
    let d = nodes[p].1;
    let mut j: usize = p + 1;
    while j < nodes.len() && nodes[j].1 > d
        invariant
            p < j <= nodes.len(),
            d == t[p as int].1,
            t == outline_of(nodes@),
            subtree_end_from(t, p as int, j as int) == subtree_end(t, p as int),
        decreases nodes.len() - j,
    {
        j = j + 1;
    }
    j
}

fn find_child_exec(nodes: &Vec<(TreeNode, usize)>, p: usize, end: usize, name: &String) -> (r: Option<
    usize,
>)
    requires
        p < nodes.len(),
        end == subtree_end(outline_of(nodes@), p as int),
    ensures
        r matches Some(c) ==> find_child(outline_of(nodes@), p as int, name@) == Some(c as int),
        r is None ==> find_child(outline_of(nodes@), p as int, name@) is None,
{
    proof {
        lemma_subtree_end_from(outline_of(nodes@), p as int, p + 1);
    }
    let ghost t = outline_of(nodes@);
    let d = nodes[p].1;
    let mut j: usize = p + 1;
    while j < end
        invariant
            p < nodes.len(),
            end <= nodes.len(),
            p + 1 <= j,
            d == t[p as int].1,
            t == outline_of(nodes@),
            end == subtree_end(t, p as int),
            find_child_from(t, p as int, name@, p + 1, end as int) == find_child_from(
                t,
                p as int,
                name@,
                j as int,
                end as int,
            ),
        decreases end - j,
    {
        assert(t[j as int] == (nodes@[j as int].0@, nodes@[j as int].1 as nat));
        let is_child = match &nodes[j].0 {
            TreeNode::Directory { name: n, .. } => nodes[j].1 > d && nodes[j].1 - 1 == d && *n == *name,
            TreeNode::File { .. } => false,
        };
        if is_child {
            return Some(j);
        }
        j = j + 1;
    }
    None
}

/// Adds components `comps[k..]` of `path` below node `p`.
fn insert_path(
    nodes: &mut Vec<(TreeNode, usize)>,
    p: usize,
    comps: &Vec<String>,
    k: usize,
    path: &String,
)
    requires
        wf_outline(outline_of(old(nodes)@)),
        p < old(nodes).len(),
        is_dir(outline_of(old(nodes)@)[p as int].0),
        k < comps.len(),
    ensures
        wf_outline(outline_of(final(nodes)@)),
        outline_of(final(nodes)@) == insert_spec(
            outline_of(old(nodes)@),
            p as int,
            views_of(comps@),
            k as int,
            path@,
        ),
    decreases comps.len() - k,
{
    let ghost t = outline_of(nodes@);
    proof {
        lemma_depth_bound(t, p as int);
        lemma_subtree_end_from(t, p as int, p + 1);
    }
    let d = nodes[p].1 + 1;
    let end = subtree_end_exec(nodes, p);
    let ghost cv = views_of(comps@);
    if k == comps.len() - 1 {
        let node = TreeNode::new_file(comps[k].clone(), path.clone());
        let ghost x = (node@, d as nat);
        proof {
            lemma_insert_keeps_shape(t, p as int, x);
        }
        nodes.insert(end, (node, d));
        assert(outline_of(nodes@) =~= t.insert(end as int, x));
    } else {
        match find_child_exec(nodes, p, end, &comps[k]) {
            Some(c) => {
                proof {
                    lemma_find_child_from(t, p as int, cv[k as int], p + 1, end as int);
                }
                insert_path(nodes, c, comps, k + 1, path);
            },
            None => {
                let node = TreeNode::new_directory(comps[k].clone());
                let ghost x = (node@, d as nat);
                proof {
                    lemma_insert_keeps_shape(t, p as int, x);
                }
                nodes.insert(end, (node, d));
                assert(outline_of(nodes@) =~= t.insert(end as int, x));
                insert_path(nodes, end, comps, k + 1, path);
            },
        }
    }
}

impl TreeNode {
    pub fn new_directory(name: String) -> (r: TreeNode)
        ensures
            r@ == (NodeView::Directory { name: name@, expanded: true }),
    {
        TreeNode::Directory { name, expanded: true }
    }

    pub fn new_file(name: String, path: String) -> (r: TreeNode)
        ensures
            r@ == (NodeView::File { name: name@, path: path@, selected: false }),
    {
        TreeNode::File { name, path, selected: false }
    }

    pub fn is_file(&self) -> (r: bool)
        ensures
            r == is_file(self@),
    {
        match self {
            TreeNode::File { .. } => true,
            TreeNode::Directory { .. } => false,
        }
    }

    pub fn get_display_name(&self) -> (r: String)
        ensures
            r@ == name_of(self@),
    {
        match self {
            TreeNode::Directory { name, .. } => name.clone(),
            TreeNode::File { name, .. } => name.clone(),
        }
    }

    /// Flips the selected flag of a file; a directory stays as it is.
    pub fn toggle_selected(&mut self)
        ensures
            final(self)@ == with_selected(old(self)@, !selected_of(old(self)@)),
    {
        match self {
            TreeNode::File { selected, .. } => {
                *selected = !*selected;
            },
            TreeNode::Directory { .. } => {},
        }
    }

    pub fn is_selected(&self) -> (r: bool)
        ensures
            r == selected_of(self@),
    {
        match self {
            TreeNode::File { selected, .. } => *selected,
            TreeNode::Directory { .. } => false,
        }
    }

    pub fn is_expanded(&self) -> (r: bool)
        ensures
            r == expanded_of(self@),
    {
        match self {
            TreeNode::Directory { expanded, .. } => *expanded,
            TreeNode::File { .. } => false,
        }
    }

    /// Whether this is a directory named `name`.
    pub fn is_directory_named(&self, name: &String) -> (r: bool)
        ensures
            r == is_dir_named(self@, name@),
    {
        match self {
            TreeNode::Directory { name: n, .. } => *n == *name,
            TreeNode::File { .. } => false,
        }
    }
}

/// One line of the flattened view: the node's index in the outline and its depth.
#[derive(Clone, Copy)]
pub struct FlattenedEntry {
    pub index: usize,
    pub depth: usize,
}

pub open spec fn flat_view(flat: Seq<FlattenedEntry>) -> Seq<(int, nat)> {
    flat.map_values(|e: FlattenedEntry| (e.index as int, e.depth as nat))
}

/// The flattened view of an outline.
fn flatten_nodes(nodes: &Vec<(TreeNode, usize)>) -> (r: Vec<FlattenedEntry>)
    requires
        wf_outline(outline_of(nodes@)),
    ensures
        flat_view(r@) == flatten_spec(outline_of(nodes@)),
{
    let ghost t = outline_of(nodes@);
    let n = nodes.len();
    let mut flat: Vec<FlattenedEntry> = Vec::new();
    let mut vis: Vec<bool> = Vec::new();
    let mut stack: Vec<usize> = Vec::new();
    let mut j: usize = 0;
    while j < n
        invariant
            n == nodes.len(),
            t == outline_of(nodes@),
            wf_outline(t),
            j <= n,
            vis.len() == j,
            forall|i: int| 0 <= i < j ==> vis@[i] == visible(t, i),
            j == 0 ==> stack.len() == 0,
            j > 0 ==> stack.len() == t[j - 1].1 + 1,
            forall|l: int|
                0 <= l < stack.len() ==> stack@[l] == last_at(t, j as int, l as nat) && 0 <= #[trigger] stack@[l] < j,
            flat_view(flat@) == visible_indices(t, j as int).map_values(|i: int| (i, t[i].1)),
        decreases n - j,
    {
        let d = nodes[j].1;
        assert(t[j as int] == (nodes@[j as int].0@, nodes@[j as int].1 as nat));
        let v = if j == 0 {
            true
        } else {
            assert(t[j as int].1 >= 1 && t[j as int].1 <= t[j - 1].1 + 1);
            let p = stack[d - 1];
            assert(t[p as int] == (nodes@[p as int].0@, nodes@[p as int].1 as nat));
            assert(p as int == parent_of(t, j as int));
            assert(vis@[p as int] == visible(t, p as int));
            let v = vis[p] && nodes[p].0.is_expanded();
            assert(v == (visible(t, p as int) && expanded_of(t[p as int].0)));
            v
        };
        assert(v == visible(t, j as int));
        proof {
            assert forall|l: int| 0 <= l < d implies #[trigger] last_at(t, j + 1, l as nat) == last_at(t, j as int, l as nat) by {
            }
            assert(last_at(t, j + 1, d as nat) == j);
        }
        stack.truncate(d);
        stack.push(j);
        vis.push(v);
        let ghost old_flat = flat@;
        if v {
            flat.push(FlattenedEntry { index: j, depth: d });
            assert(flat_view(flat@) =~= flat_view(old_flat).push((j as int, d as nat)));
        }
        proof {
            let vi = visible_indices(t, j as int);
            let f = |i: int| (i, t[i].1);
            if v {
                assert(visible_indices(t, j + 1) == vi.push(j as int));
                assert(vi.push(j as int).map_values(f) =~= vi.map_values(f).push(f(j as int)));
            } else {
                assert(visible_indices(t, j + 1) == vi);
            }
        }
        j = j + 1;
        assert(flat_view(flat@) =~= visible_indices(t, j as int).map_values(|i: int| (i, t[i].1)));
    }
    assert(t.len() == n);
    flat
}

/// Which way the cursor moves; it wraps around at either end.
#[derive(Clone, Copy, PartialEq, Eq, Structural)]
pub enum CursorMove {
    Next,
    Previous,
}

/// Where the cursor lands after `m` from `c` in a view of `len` lines.
pub open spec fn moved(c: int, len: int, m: CursorMove) -> int {
    match m {
        CursorMove::Next => if c + 1 >= len {
            0
        } else {
            c + 1
        },
        CursorMove::Previous => if c == 0 {
            len - 1
        } else {
            c - 1
        },
    }
}

/// The outline after adding `path`, split into `comps`, below the root; a
/// path without components changes nothing.
pub open spec fn add_path_spec(t: Outline, comps: Seq<Seq<char>>, path: Seq<char>) -> Outline {
    if comps.len() == 0 {
        t
    } else {
        insert_spec(t, 0, comps, 0, path)
    }
}

/// The components of a path, as `Path::components` gives them.
pub uninterp spec fn components_of(path: Seq<char>) -> Seq<Seq<char>>;

/// Relies on `std::path::Path::components`: the path's components in order,
/// each as text.
#[verifier::external_body]
fn path_components(path: &String) -> (r: Vec<String>)
    ensures
        views_of(r@) == components_of(path@),
{
    std::path::Path::new(path).components().map(|c| c.as_os_str().to_string_lossy().into_owned()).collect()
}

/// The outline built from the first `n` of `paths`, added in order.
pub open spec fn build_spec(paths: Seq<Seq<char>>, n: int) -> Outline
    decreases n,
{
    if n <= 0 {
        root_outline()
    } else {
        let t = build_spec(paths, n - 1);
        add_path_spec(t, components_of(paths[n - 1]), paths[n - 1])
    }
}

/// The flattened views of two outlines agree when their nodes agree in depth,
/// kind and expanded flag.
proof fn lemma_same_shape(t: Outline, t2: Outline)
    requires
        t.len() == t2.len(),
        forall|i: int|
            #![trigger t[i]]
            0 <= i < t.len() ==> (t[i].1 == t2[i].1 && expanded_of(t[i].0) == expanded_of(t2[i].0)
                && is_dir(t[i].0) == is_dir(t2[i].0)),
    ensures
        flatten_spec(t) == flatten_spec(t2),
        wf_outline(t) ==> wf_outline(t2),
{
    assert forall|j: int, l: nat| 0 <= j <= t.len() implies last_at(t, j, l) == last_at(t2, j, l) by {
        lemma_last_at_same(t, t2, j, l);
    }
    assert forall|j: int| 0 <= j < t.len() implies visible(t, j) == visible(t2, j) by {
        lemma_visible_same(t, t2, j);
    }
    assert forall|n: int| 0 <= n <= t.len() implies visible_indices(t, n) == visible_indices(t2, n) by {
        lemma_visible_indices_same(t, t2, n);
    }
    lemma_visible_indices_range(t, t.len() as int);
    assert(flatten_spec(t) =~= flatten_spec(t2));
    if wf_outline(t) {
        assert forall|i: int| #![trigger t2[i]] 1 <= i < t2.len() implies {
            &&& t2[i].1 >= 1
            &&& t2[i].1 <= t2[i - 1].1 + 1
            &&& (t2[i].1 == t2[i - 1].1 + 1 ==> is_dir(t2[i - 1].0))
        } by {
            assert(t[i].1 == t2[i].1);
            assert(t[i - 1].1 == t2[i - 1].1);
        }
        assert(t[0].1 == t2[0].1);
    }
}

proof fn lemma_last_at_same(t: Outline, t2: Outline, j: int, l: nat)
    requires
        t.len() == t2.len(),
        0 <= j <= t.len(),
        forall|i: int| #![trigger t[i]] 0 <= i < t.len() ==> t[i].1 == t2[i].1,
    ensures
        last_at(t, j, l) == last_at(t2, j, l),
    decreases j,
{
    if j > 0 {
        assert(t[j - 1].1 == t2[j - 1].1);
        lemma_last_at_same(t, t2, j - 1, l);
    }
}

proof fn lemma_visible_same(t: Outline, t2: Outline, j: int)
    requires
        t.len() == t2.len(),
        0 <= j < t.len(),
        forall|i: int|
            #![trigger t[i]]
            0 <= i < t.len() ==> (t[i].1 == t2[i].1 && expanded_of(t[i].0) == expanded_of(t2[i].0)),
    ensures
        visible(t, j) == visible(t2, j),
    decreases j,
{
    if j > 0 {
        let p = parent_of(t, j);
        assert(t[j].1 == t2[j].1);
        lemma_last_at_same(t, t2, j, (t[j].1 - 1) as nat);
        if 0 <= p < j {
            lemma_visible_same(t, t2, p);
            assert(expanded_of(t[p].0) == expanded_of(t2[p].0));
        }
    }
}

proof fn lemma_visible_indices_range(t: Outline, n: int)
    requires
        0 <= n,
    ensures
        forall|k: int|
            0 <= k < visible_indices(t, n).len() ==> 0 <= #[trigger] visible_indices(t, n)[k] < n,
    decreases n,
{
    if n > 0 {
        lemma_visible_indices_range(t, n - 1);
        let prev = visible_indices(t, n - 1);
        if visible(t, n - 1) {
            assert forall|k: int| 0 <= k < prev.len() + 1 implies 0 <= #[trigger] prev.push(n - 1)[k] < n by {
                if k < prev.len() {
                    assert(prev.push(n - 1)[k] == prev[k]);
                }
            }
        }
    }
}

proof fn lemma_visible_indices_same(t: Outline, t2: Outline, n: int)
    requires
        t.len() == t2.len(),
        0 <= n <= t.len(),
        forall|j: int| 0 <= j < t.len() ==> visible(t, j) == visible(t2, j),
    ensures
        visible_indices(t, n) == visible_indices(t2, n),
    decreases n,
{
    if n > 0 {
        lemma_visible_indices_same(t, t2, n - 1);
    }
}

/// A tree of directories and files built from paths, its flattened view and a
/// cursor into that view.
pub struct SelectionTree {
    nodes: Vec<(TreeNode, usize)>,
    flat: Vec<FlattenedEntry>,
    cursor: Option<usize>,
}

impl SelectionTree {
    /// Every node in pre-order with its depth.
    pub closed spec fn outline(&self) -> Outline {
        outline_of(self.nodes@)
    }

    /// The flattened view, as (node index, depth) pairs.
    pub closed spec fn flattened(&self) -> Seq<(int, nat)> {
        flat_view(self.flat@)
    }

    pub closed spec fn cursor_spec(&self) -> Option<int> {
        match self.cursor {
            Some(c) => Some(c as int),
            None => None,
        }
    }

    pub closed spec fn wf(&self) -> bool {
        &&& wf_outline(self.outline())
        &&& self.flattened() == flatten_spec(self.outline())
        &&& match self.cursor {
            Some(c) => c < self.flat.len(),
            None => self.flat.len() == 0,
        }
    }

    /// The node that line `i` of the flattened view shows.
    pub open spec fn node_on_line(&self, i: int) -> NodeView {
        self.outline()[self.flattened()[i].0].0
    }

    /// A tree that holds the unnamed root alone.
    pub fn new() -> (r: SelectionTree)
        ensures
            r.wf(),
            r.outline() == root_outline(),
            r.cursor_spec() == Some(0int),
    {
        let mut nodes: Vec<(TreeNode, usize)> = Vec::new();
        nodes.push((TreeNode::new_directory(String::new()), 0));
        assert(outline_of(nodes@) =~= root_outline());
        let mut tree = SelectionTree { nodes, flat: Vec::new(), cursor: None };
        tree.flatten();
        tree
    }

    /// The tree built from `paths`, added one after another, with the cursor
    /// on the first line.
    pub fn build(paths: &Vec<String>) -> (r: SelectionTree)
        ensures
            r.wf(),
            r.outline() == build_spec(views_of(paths@), paths.len() as int),
            r.cursor_spec() == Some(0int),
    {
        let mut tree = SelectionTree::new();
        let mut i: usize = 0;
        while i < paths.len()
            invariant
                i <= paths.len(),
                tree.wf(),
                tree.outline() == build_spec(views_of(paths@), i as int),
                tree.cursor_spec() == Some(0int),
            decreases paths.len() - i,
        {
            tree.add_path(&paths[i]);
            i = i + 1;
        }
        tree
    }

    /// Adds one path below the root.
    pub fn add_path(&mut self, path: &String)
        requires
            old(self).wf(),
        ensures
            final(self).wf(),
            final(self).outline() == add_path_spec(old(self).outline(), components_of(path@), path@),
            final(self).cursor_spec() == Some(0int),
    {
        let comps = path_components(path);
        self.add_components(&comps, path);
    }

    /// Adds `path`, already split into its components, below the root, and
    /// flattens the tree again.
    pub fn add_components(&mut self, comps: &Vec<String>, path: &String)
        requires
            old(self).wf(),
        ensures
            final(self).wf(),
            final(self).outline() == add_path_spec(old(self).outline(), views_of(comps@), path@),
            final(self).cursor_spec() == Some(0int),
    {
        if comps.len() > 0 {
            insert_path(&mut self.nodes, 0, comps, 0, path);
        }
        self.flatten();
    }

    /// Computes the flattened view again and puts the cursor on its first line.
    pub fn flatten(&mut self)
        requires
            wf_outline(old(self).outline()),
        ensures
            final(self).wf(),
            final(self).outline() == old(self).outline(),
            final(self).flattened() == flatten_spec(old(self).outline()),
            final(self).cursor_spec() == Some(0int),
    {
        proof {
            lemma_root_shown(self.outline());
        }
        self.flat = flatten_nodes(&self.nodes);
        if self.flat.len() > 0 {
            self.cursor = Some(0);
        } else {
            self.cursor = None;
        }
    }

    /// Moves the cursor one line, wrapping around at either end.
    pub fn move_cursor(&mut self, m: CursorMove)
        requires
            old(self).wf(),
        ensures
            final(self).wf(),
            final(self).outline() == old(self).outline(),
            final(self).flattened() == old(self).flattened(),
            final(self).cursor_spec() == match old(self).cursor_spec() {
                Some(c) => Some(moved(c, old(self).flattened().len() as int, m)),
                None => None,
            },
            old(self).cursor_spec() == Some(0int) && m == CursorMove::Previous ==> final(self).cursor_spec()
                == Some(old(self).flattened().len() - 1),
            old(self).cursor_spec() == Some(old(self).flattened().len() - 1) && m == CursorMove::Next
                ==> final(self).cursor_spec() == Some(0int),
    {
        match self.cursor {
            Some(c) => {
                let len = self.flat.len();
                let next = match m {
                    CursorMove::Next => if c + 1 >= len {
                        0
                    } else {
                        c + 1
                    },
                    CursorMove::Previous => if c == 0 {
                        len - 1
                    } else {
                        c - 1
                    },
                };
                self.cursor = Some(next);
            },
            None => {},
        }
    }

    /// The cursor's line, if the view has any line.
    pub fn cursor(&self) -> (r: Option<usize>)
        ensures
            match r {
                Some(c) => self.cursor_spec() == Some(c as int),
                None => self.cursor_spec() is None,
            },
            self.wf() ==> (r matches Some(c) ==> c < self.flattened().len()),
    {
        self.cursor
    }

    /// The flattened view.
    pub fn flattened_entries(&self) -> (r: &Vec<FlattenedEntry>)
        ensures
            flat_view(r@) == self.flattened(),
    {
        &self.flat
    }

    /// The number of lines in the flattened view.
    pub fn line_count(&self) -> (r: usize)
        requires
            self.wf(),
        ensures
            r == self.flattened().len(),
    {
        self.flat.len()
    }

    /// The node shown on line `i` and its depth.
    pub fn line(&self, i: usize) -> (r: (&TreeNode, usize))
        requires
            self.wf(),
            i < self.flattened().len(),
        ensures
            r.0@ == self.node_on_line(i as int),
            r.1 == self.flattened()[i as int].1,
    {
        let e = self.flat[i];
        proof {
            lemma_flat_range(self.outline());
            assert(self.flattened()[i as int] == (e.index as int, e.depth as nat));
        }
        (&self.nodes[e.index].0, e.depth)
    }

    /// Flips the selected flag of the file under the cursor; on a directory,
    /// or with no cursor, nothing changes.
    pub fn toggle_at_cursor(&mut self)
        requires
            old(self).wf(),
        ensures
            final(self).wf(),
            final(self).flattened() == old(self).flattened(),
            final(self).cursor_spec() == old(self).cursor_spec(),
            final(self).outline() == match old(self).cursor_spec() {
                Some(c) => {
                    let h = old(self).flattened()[c].0;
                    let e = old(self).outline()[h];
                    if is_file(e.0) {
                        old(self).outline().update(h, (with_selected(e.0, !selected_of(e.0)), e.1))
                    } else {
                        old(self).outline()
                    }
                },
                None => old(self).outline(),
            },
    {
        let ghost t = self.outline();
        if let Some(c) = self.cursor {
            let h = self.flat[c].index;
            proof {
                lemma_flat_range(t);
                assert(self.flattened()[c as int].0 == h);
            }
            if self.nodes[h].0.is_file() {
                let mut nodes = Vec::new();
                std::mem::swap(&mut nodes, &mut self.nodes);
                let (mut node, d) = nodes.remove(h);
                node.toggle_selected();
                nodes.insert(h, (node, d));
                self.nodes = nodes;
                proof {
                    let t2 = self.outline();
                    assert(t2 =~= t.update(h as int, (with_selected(t[h as int].0, !selected_of(t[h as int].0)), t[h as int].1)));
                    lemma_same_shape(t, t2);
                }
            }
        }
    }

    /// Sets the selected flag of every file, shown or not.
    pub fn select_all(&mut self)
        requires
            old(self).wf(),
        ensures
            final(self).wf(),
            final(self).outline() == select_every(old(self).outline(), true),
            final(self).flattened() == old(self).flattened(),
            final(self).cursor_spec() == old(self).cursor_spec(),
    {
        self.set_all_selected(true);
    }

    /// Clears the selected flag of every file, shown or not.
    pub fn deselect_all(&mut self)
        requires
            old(self).wf(),
        ensures
            final(self).wf(),
            final(self).outline() == select_every(old(self).outline(), false),
            final(self).flattened() == old(self).flattened(),
            final(self).cursor_spec() == old(self).cursor_spec(),
    {
        self.set_all_selected(false);
    }

    fn set_all_selected(&mut self, value: bool)
        requires
            old(self).wf(),
        ensures
            final(self).wf(),
            final(self).outline() == select_every(old(self).outline(), value),
            final(self).flattened() == old(self).flattened(),
            final(self).cursor_spec() == old(self).cursor_spec(),
    {
        let ghost t = self.outline();
        let mut nodes = Vec::new();
        std::mem::swap(&mut nodes, &mut self.nodes);
        let mut out: Vec<(TreeNode, usize)> = Vec::new();
        let n = nodes.len();
        let mut i: usize = 0;
        while i < n
            invariant
                n == nodes.len(),
                t == outline_of(nodes@),
                i <= n,
                outline_of(out@) =~= select_every(t, value).take(i as int),
            decreases n - i,
        {
            let d = nodes[i].1;
            let node = match &nodes[i].0 {
                TreeNode::File { name, path, .. } => TreeNode::File {
                    name: name.clone(),
                    path: path.clone(),
                    selected: value,
                },
                TreeNode::Directory { name, expanded } => TreeNode::Directory {
                    name: name.clone(),
                    expanded: *expanded,
                },
            };
            let ghost prev = outline_of(out@);
            assert(t[i as int] == (nodes@[i as int].0@, nodes@[i as int].1 as nat));
            assert((node@, d as nat) == select_every(t, value)[i as int]);
            out.push((node, d));
            assert(outline_of(out@) =~= prev.push((node@, d as nat)));
            assert(select_every(t, value).take(i + 1) =~= select_every(t, value).take(i as int).push(
                select_every(t, value)[i as int],
            ));
            i = i + 1;
        }
        self.nodes = out;
        proof {
            assert(select_every(t, value).take(n as int) =~= select_every(t, value));
            lemma_same_shape(t, self.outline());
        }
    }

    /// The number of selected files.
    pub fn selected_count(&self) -> (r: usize)
        requires
            self.wf(),
        ensures
            r == count_selected(self.outline(), self.outline().len() as int),
    {
        let ghost t = self.outline();
        let mut count: usize = 0;
        let mut i: usize = 0;
        while i < self.nodes.len()
            invariant
                t == self.outline(),
                i <= self.nodes.len(),
                count == count_selected(t, i as int),
                count <= i,
            decreases self.nodes.len() - i,
        {
            assert(t[i as int] == (self.nodes@[i as int].0@, self.nodes@[i as int].1 as nat));
            if self.nodes[i].0.is_file() && self.nodes[i].0.is_selected() {
                count = count + 1;
            }
            i = i + 1;
        }
        count
    }

    /// The number of files.
    pub fn total_file_count(&self) -> (r: usize)
        requires
            self.wf(),
        ensures
            r == count_files(self.outline(), self.outline().len() as int),
    {
        let ghost t = self.outline();
        let mut count: usize = 0;
        let mut i: usize = 0;
        while i < self.nodes.len()
            invariant
                t == self.outline(),
                i <= self.nodes.len(),
                count == count_files(t, i as int),
                count <= i,
            decreases self.nodes.len() - i,
        {
            assert(t[i as int] == (self.nodes@[i as int].0@, self.nodes@[i as int].1 as nat));
            if self.nodes[i].0.is_file() {
                count = count + 1;
            }
            i = i + 1;
        }
        count
    }

    /// The paths of the selected files, in pre-order.
    pub fn selected_paths(&self) -> (r: Vec<String>)
        requires
            self.wf(),
        ensures
            views_of(r@) == selected_paths_spec(self.outline(), self.outline().len() as int),
    {
        let ghost t = self.outline();
        let mut out: Vec<String> = Vec::new();
        let mut i: usize = 0;
        while i < self.nodes.len()
            invariant
                t == self.outline(),
                i <= self.nodes.len(),
                views_of(out@) == selected_paths_spec(t, i as int),
            decreases self.nodes.len() - i,
        {
            assert(t[i as int] == (self.nodes@[i as int].0@, self.nodes@[i as int].1 as nat));
            match &self.nodes[i].0 {
                TreeNode::File { path, selected, .. } => {
                    if *selected {
                        let ghost before = out@;
                        out.push(path.clone());
                        assert(views_of(out@) =~= views_of(before).push(path@));
                    }
                },
                TreeNode::Directory { .. } => {},
            }
            i = i + 1;
        }
        out
    }

    /// Sets the expanded flag of the first directory below the root named
    /// `name`, in pre-order, to `value`; tells whether there was one. When
    /// there was, the tree is flattened again.
    /// The index of the first directory below the root named `name`.
    fn find_directory(&self, name: &String) -> (r: Option<usize>)
        requires
            self.wf(),
        ensures
            match r {
                Some(i) => 1 <= i < self.outline().len() && is_dir_named(self.outline()[i as int].0, name@)
                    && forall|k: int| 1 <= k < i ==> !is_dir_named(#[trigger] self.outline()[k].0, name@),
                None => forall|k: int|
                    1 <= k < self.outline().len() ==> !is_dir_named(#[trigger] self.outline()[k].0, name@),
            },
    {
        let ghost t = self.outline();
        let mut i: usize = 1;
        while i < self.nodes.len()
            invariant
                t == self.outline(),
                1 <= i <= self.nodes.len(),
                forall|k: int| 1 <= k < i ==> !is_dir_named(#[trigger] t[k].0, name@),
            decreases self.nodes.len() - i,
        {
            assert(t[i as int] == (self.nodes@[i as int].0@, self.nodes@[i as int].1 as nat));
            if self.nodes[i].0.is_directory_named(name) {
                return Some(i);
            }
            i = i + 1;
        }
        None
    }

    /// Sets the expanded flag of the first directory below the root named
    /// `name`, in pre-order, to `value`; tells whether there was one. When
    /// there was, the tree is flattened again.
    fn set_expanded_by_name(&mut self, name: &String, value: bool) -> (r: bool)
        requires
            old(self).wf(),
        ensures
            final(self).wf(),
            set_expanded_by_name(old(self).outline(), name@, value, r, final(self).outline()),
            r ==> final(self).cursor_spec() == Some(0int),
            !r ==> *final(self) == *old(self),
    {
        let ghost t = self.outline();
        match self.find_directory(name) {
            None => false,
            Some(i) => {
                let mut nodes = Vec::new();
                std::mem::swap(&mut nodes, &mut self.nodes);
                let (node, d) = nodes.remove(i);
                let updated = match node {
                    TreeNode::Directory { name: n, .. } => TreeNode::Directory { name: n, expanded: value },
                    TreeNode::File { name: n, path, selected } => TreeNode::File { name: n, path, selected },
                };
                nodes.insert(i, (updated, d));
                self.nodes = nodes;
                proof {
                    let t2 = self.outline();
                    assert(t2 =~= t.update(i as int, (with_expanded(t[i as int].0, value), t[i as int].1)));
                    assert forall|k: int| 0 <= k < t.len() implies #[trigger] t[k].1 == t2[k].1 && is_dir(t[k].0) == is_dir(t2[k].0) by {
                    }
                    lemma_keep_shape(t, t2);
                }
                self.flatten();
                true
            },
        }
    }

    /// Expands the first directory named `name`, wherever it is in the tree;
    /// tells whether there was one.
    pub fn expand_by_name(&mut self, name: &String) -> (r: bool)
        requires
            old(self).wf(),
        ensures
            final(self).wf(),
            set_expanded_by_name(old(self).outline(), name@, true, r, final(self).outline()),
            r ==> final(self).cursor_spec() == Some(0int),
            !r ==> *final(self) == *old(self),
    {
        self.set_expanded_by_name(name, true)
    }

    /// Collapses the first directory named `name`, wherever it is in the tree;
    /// tells whether there was one.
    pub fn collapse_by_name(&mut self, name: &String) -> (r: bool)
        requires
            old(self).wf(),
        ensures
            final(self).wf(),
            set_expanded_by_name(old(self).outline(), name@, false, r, final(self).outline()),
            r ==> final(self).cursor_spec() == Some(0int),
            !r ==> *final(self) == *old(self),
    {
        self.set_expanded_by_name(name, false)
    }

    /// The first line that shows a directory named `name`.
    fn find_line(&self, name: &String) -> (r: Option<usize>)
        requires
            self.wf(),
        ensures
            match r {
                Some(i) => first_named_from(self.outline(), self.flattened(), name@, 0) == Some(i as int)
                    && i < self.flat.len(),
                None => first_named_from(self.outline(), self.flattened(), name@, 0) is None,
            },
    {
        let ghost t = self.outline();
        proof {
            lemma_flat_range(t);
        }
        let mut i: usize = 0;
        while i < self.flat.len()
            invariant
                self.wf(),
                t == self.outline(),
                forall|k: int|
                    0 <= k < self.flattened().len() ==> 0 <= #[trigger] self.flattened()[k].0 < t.len(),
                i <= self.flat.len(),
                first_named_from(t, self.flattened(), name@, 0) == first_named_from(
                    t,
                    self.flattened(),
                    name@,
                    i as int,
                ),
            decreases self.flat.len() - i,
        {
            let h = self.flat[i].index;
            assert(self.flattened()[i as int].0 == h);
            assert(t[h as int] == (self.nodes@[h as int].0@, self.nodes@[h as int].1 as nat));
            if self.nodes[h].0.is_directory_named(name) {
                return Some(i);
            }
            i = i + 1;
        }
        None
    }

    /// Puts the cursor on the first line that shows a directory named `name`,
    /// or on the first line if none does.
    pub fn place_cursor_on_directory(&mut self, name: &String)
        requires
            old(self).wf(),
        ensures
            final(self).wf(),
            final(self).outline() == old(self).outline(),
            final(self).flattened() == old(self).flattened(),
            final(self).cursor_spec() == first_line_named(old(self).outline(), old(self).flattened(), name@),
    {
        match self.find_line(name) {
            Some(i) => {
                self.cursor = Some(i);
            },
            None => {
                if self.flat.len() > 0 {
                    self.cursor = Some(0);
                } else {
                    self.cursor = None;
                }
            },
        }
    }
}

/// The first line at or after `i` that shows a directory named `name`.
pub open spec fn first_named_from(t: Outline, flat: Seq<(int, nat)>, name: Seq<char>, i: int) -> Option<int>
    decreases flat.len() - i,
{
    if i < 0 || i >= flat.len() {
        None
    } else if is_dir_named(t[flat[i].0].0, name) {
        Some(i)
    } else {
        first_named_from(t, flat, name, i + 1)
    }
}

/// The first line of the view that shows a directory named `name`; else the
/// first line, if there is one.
pub open spec fn first_line_named(t: Outline, flat: Seq<(int, nat)>, name: Seq<char>) -> Option<int> {
    match first_named_from(t, flat, name, 0) {
        Some(i) => Some(i),
        None => if flat.len() > 0 {
            Some(0)
        } else {
            None
        },
    }
}

proof fn lemma_flat_range(t: Outline)
    ensures
        forall|k: int|
            0 <= k < flatten_spec(t).len() ==> 0 <= #[trigger] flatten_spec(t)[k].0 < t.len()
                && flatten_spec(t)[k].1 == t[flatten_spec(t)[k].0].1,
{
    lemma_visible_indices_range(t, t.len() as int);
}

/// The root is always on the first line of the view.
proof fn lemma_root_shown(t: Outline)
    requires
        t.len() >= 1,
    ensures
        flatten_spec(t).len() >= 1,
        flatten_spec(t)[0].0 == 0,
{
    lemma_first_visible(t, t.len() as int);
}

proof fn lemma_first_visible(t: Outline, n: int)
    requires
        n >= 1,
    ensures
        visible_indices(t, n).len() >= 1,
        visible_indices(t, n)[0] == 0,
    decreases n,
{
    if n > 1 {
        lemma_first_visible(t, n - 1);
    } else {
        assert(visible_indices(t, 0) =~= Seq::<int>::empty());
    }
}

/// Changing flags but not depths or kinds keeps the outline's shape.
proof fn lemma_keep_shape(t: Outline, t2: Outline)
    requires
        wf_outline(t),
        t.len() == t2.len(),
        forall|k: int| 0 <= k < t.len() ==> #[trigger] t[k].1 == t2[k].1 && is_dir(t[k].0) == is_dir(t2[k].0),
    ensures
        wf_outline(t2),
{
    assert forall|i: int| #![trigger t2[i]] 1 <= i < t2.len() implies {
        &&& t2[i].1 >= 1
        &&& t2[i].1 <= t2[i - 1].1 + 1
        &&& (t2[i].1 == t2[i - 1].1 + 1 ==> is_dir(t2[i - 1].0))
    } by {
        assert(t[i].1 == t2[i].1);
        assert(t[i - 1].1 == t2[i - 1].1);
        assert(t[i].1 >= 1);
    }
    assert(t[0].1 == t2[0].1);
}

/// Once every file is selected, the selected files are all the files; once
/// every file is deselected, none is.
pub proof fn lemma_select_all_counts(t: Outline)
    ensures
        count_selected(select_every(t, true), t.len() as int) == count_files(
            select_every(t, true),
            t.len() as int,
        ),
        count_selected(select_every(t, false), t.len() as int) == 0,
{
    lemma_select_every_prefix(t, t.len() as int);
}

proof fn lemma_select_every_prefix(t: Outline, n: int)
    requires
        0 <= n <= t.len(),
    ensures
        count_selected(select_every(t, true), n) == count_files(select_every(t, true), n),
        count_selected(select_every(t, false), n) == 0,
    decreases n,
{
    if n > 0 {
        lemma_select_every_prefix(t, n - 1);
        assert(select_every(t, true)[n - 1] == (with_selected(t[n - 1].0, true), t[n - 1].1));
        assert(select_every(t, false)[n - 1] == (with_selected(t[n - 1].0, false), t[n - 1].1));
    }
}

} // verus!
