//! The interactive selection session: logical input actions drive the
//! selection tree until the operator confirms or cancels.
use crate::tree::{
    expanded_of, first_line_named, is_dir, name_of, select_every, selected_paths_spec,
    set_expanded_by_name, count_selected, with_selected, is_file, selected_of, moved,
    CursorMove, SelectionTree, TreeNode, build_spec,
};
use crate::text::views_of;
use vstd::prelude::*;

verus! {

/// One logical input action.
#[derive(Clone, Copy, PartialEq, Eq, Structural)]
pub enum Action {
    MoveUp,
    MoveDown,
    ExpandRight,
    CollapseLeft,
    ToggleSelect,
    SelectAll,
    DeselectAll,
    Confirm,
    Quit,
    Cancel,
}

/// Why a session ended without a selection.
#[derive(Clone, Copy, PartialEq, Eq, Structural, Debug)]
pub enum CancelReason {
    /// The operator quit with no file selected.
    NoFilesSelected,
    /// The operator aborted the session.
    SelectionCancelled,
}

impl CancelReason {
    pub fn message(&self) -> (r: &'static str)
        ensures
            r@ == match self {
                CancelReason::NoFilesSelected => "no files selected"@,
                CancelReason::SelectionCancelled => "selection cancelled"@,
            },
    {
        match self {
            CancelReason::NoFilesSelected => "no files selected",
            CancelReason::SelectionCancelled => "selection cancelled",
        }
    }
}

pub enum SessionState {
    Browsing,
    Confirmed { paths: Vec<String> },
    Cancelled { reason: CancelReason },
}

/// A session state, with the confirmed paths as character sequences.
pub enum StateView {
    Browsing,
    Confirmed(Seq<Seq<char>>),
    Cancelled(CancelReason),
}

impl View for SessionState {
    type V = StateView;

    open spec fn view(&self) -> StateView {
        match self {
            SessionState::Browsing => StateView::Browsing,
            SessionState::Confirmed { paths } => StateView::Confirmed(views_of(paths@)),
            SessionState::Cancelled { reason } => StateView::Cancelled(*reason),
        }
    }
}

/// The tree after an expand (`e`) or collapse of the directory named `name`
/// followed by the cursor's return to the first line that shows a directory
/// of that name; when no directory has that name, nothing changes.
pub open spec fn after_toggle_expansion(
    before: SelectionTree,
    after: SelectionTree,
    name: Seq<char>,
    e: bool,
) -> bool {
    exists|found: bool|
        {
            &&& set_expanded_by_name(before.outline(), name, e, found, after.outline())
            &&& found ==> after.cursor_spec() == first_line_named(
                after.outline(),
                after.flattened(),
                name,
            )
            &&& !found ==> after == before
        }
}

/// The selection state machine. It starts in `Browsing`; `Confirmed` and
/// `Cancelled` are final.
pub struct TreeController {
    tree: SelectionTree,
    state: SessionState,
}

impl TreeController {
    pub closed spec fn tree_spec(&self) -> SelectionTree {
        self.tree
    }

    pub closed spec fn state_spec(&self) -> StateView {
        self.state@
    }

    pub closed spec fn wf(&self) -> bool {
        self.tree.wf()
    }

    /// The session over the tree built from `paths`, browsing.
    pub fn new(paths: &Vec<String>) -> (r: TreeController)
        ensures
            r.wf(),
            r.tree_spec().outline() == build_spec(views_of(paths@), paths.len() as int),
            r.tree_spec().cursor_spec() == Some(0int),
            r.state_spec() == StateView::Browsing,
    {
        TreeController { tree: SelectionTree::build(paths), state: SessionState::Browsing }
    }

    pub fn tree(&self) -> (r: &SelectionTree)
        ensures
            *r == self.tree_spec(),
    {
        &self.tree
    }

    pub fn state(&self) -> (r: &SessionState)
        ensures
            r@ == self.state_spec(),
    {
        &self.state
    }

    pub fn is_browsing(&self) -> (r: bool)
        ensures
            r == (self.state_spec() == StateView::Browsing),
    {
        match self.state {
            SessionState::Browsing => true,
            _ => false,
        }
    }

    /// The directory under the cursor, if it is one whose expanded flag is `expanded`.
    fn directory_at_cursor(&self, expanded: bool) -> (r: Option<String>)
        requires
            self.wf(),
        ensures
            match r {
                Some(name) => match self.tree_spec().cursor_spec() {
                    Some(c) => is_dir(self.tree_spec().node_on_line(c)) && expanded_of(
                        self.tree_spec().node_on_line(c),
                    ) == expanded && name@ == name_of(self.tree_spec().node_on_line(c)),
                    None => false,
                },
                None => match self.tree_spec().cursor_spec() {
                    Some(c) => !(is_dir(self.tree_spec().node_on_line(c)) && expanded_of(
                        self.tree_spec().node_on_line(c),
                    ) == expanded),
                    None => true,
                },
            },
    {
        match self.tree.cursor() {
            None => None,
            Some(c) => {
                let (node, _depth) = self.tree.line(c);
                match node {
                    TreeNode::Directory { name, expanded: e } => if *e == expanded {
                        Some(name.clone())
                    } else {
                        None
                    },
                    TreeNode::File { .. } => None,
                }
            },
        }
    }

    /// Applies one action. Outside `Browsing` nothing changes.
    pub fn handle(&mut self, action: Action)
        requires
            old(self).wf(),
        ensures
            final(self).wf(),
            old(self).state_spec() != StateView::Browsing ==> *final(self) == *old(self),
            old(self).state_spec() == StateView::Browsing ==> {
                let before = old(self).tree_spec();
                let after = final(self).tree_spec();
                let t = before.outline();
                let selected = count_selected(t, t.len() as int);
                match action {
                    Action::MoveUp => after.outline() == t && after.flattened() == before.flattened()
                        && after.cursor_spec() == match before.cursor_spec() {
                        Some(c) => Some(moved(c, before.flattened().len() as int, CursorMove::Previous)),
                        None => None,
                    } && final(self).state_spec() == StateView::Browsing,
                    Action::MoveDown => after.outline() == t && after.flattened() == before.flattened()
                        && after.cursor_spec() == match before.cursor_spec() {
                        Some(c) => Some(moved(c, before.flattened().len() as int, CursorMove::Next)),
                        None => None,
                    } && final(self).state_spec() == StateView::Browsing,
                    Action::ExpandRight => final(self).state_spec() == StateView::Browsing && match before.cursor_spec() {
                        Some(c) => {
                            let n = before.node_on_line(c);
                            if is_dir(n) && !expanded_of(n) {
                                after_toggle_expansion(before, after, name_of(n), true)
                            } else {
                                after == before
                            }
                        },
                        None => after == before,
                    },
                    Action::CollapseLeft => final(self).state_spec() == StateView::Browsing && match before.cursor_spec() {
                        Some(c) => {
                            let n = before.node_on_line(c);
                            if is_dir(n) && expanded_of(n) {
                                after_toggle_expansion(before, after, name_of(n), false)
                            } else {
                                after == before
                            }
                        },
                        None => after == before,
                    },
                    Action::ToggleSelect => final(self).state_spec() == StateView::Browsing
                        && after.flattened() == before.flattened() && after.cursor_spec()
                        == before.cursor_spec() && after.outline() == match before.cursor_spec() {
                        Some(c) => {
                            let h = before.flattened()[c].0;
                            let e = t[h];
                            if is_file(e.0) {
                                t.update(h, (with_selected(e.0, !selected_of(e.0)), e.1))
                            } else {
                                t
                            }
                        },
                        None => t,
                    },
                    Action::SelectAll => final(self).state_spec() == StateView::Browsing
                        && after.outline() == select_every(t, true) && after.flattened()
                        == before.flattened() && after.cursor_spec() == before.cursor_spec(),
                    Action::DeselectAll => final(self).state_spec() == StateView::Browsing
                        && after.outline() == select_every(t, false) && after.flattened()
                        == before.flattened() && after.cursor_spec() == before.cursor_spec(),
                    Action::Confirm => after == before && final(self).state_spec() == if selected > 0 {
                        StateView::Confirmed(selected_paths_spec(t, t.len() as int))
                    } else {
                        StateView::Browsing
                    },
                    Action::Quit => after == before && final(self).state_spec() == if selected > 0 {
                        StateView::Confirmed(selected_paths_spec(t, t.len() as int))
                    } else {
                        StateView::Cancelled(CancelReason::NoFilesSelected)
                    },
                    Action::Cancel => after == before && final(self).state_spec() == StateView::Cancelled(
                        CancelReason::SelectionCancelled,
                    ),
                }
            },
    {
        if !self.is_browsing() {
            return ;
        }
        match action {
            Action::MoveUp => self.tree.move_cursor(CursorMove::Previous),
            Action::MoveDown => self.tree.move_cursor(CursorMove::Next),
            Action::ExpandRight => {
                if let Some(name) = self.directory_at_cursor(false) {
                    if self.tree.expand_by_name(&name) {
                        self.tree.place_cursor_on_directory(&name);
                    }
                }
            },
            Action::CollapseLeft => {
                if let Some(name) = self.directory_at_cursor(true) {
                    if self.tree.collapse_by_name(&name) {
                        self.tree.place_cursor_on_directory(&name);
                    }
                }
            },
            Action::ToggleSelect => self.tree.toggle_at_cursor(),
            Action::SelectAll => self.tree.select_all(),
            Action::DeselectAll => self.tree.deselect_all(),
            Action::Confirm => {
                if self.tree.selected_count() > 0 {
                    self.state = SessionState::Confirmed { paths: self.tree.selected_paths() };
                }
            },
            Action::Quit => {
                if self.tree.selected_count() > 0 {
                    self.state = SessionState::Confirmed { paths: self.tree.selected_paths() };
                } else {
                    self.state = SessionState::Cancelled { reason: CancelReason::NoFilesSelected };
                }
            },
            Action::Cancel => {
                self.state = SessionState::Cancelled { reason: CancelReason::SelectionCancelled };
            },
        }
    }
}

} // verus!
