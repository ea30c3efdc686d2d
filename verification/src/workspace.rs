//! Workspaces, as far as a Git status refresh reads them.
use vstd::prelude::*;

use crate::path::{GitPath, PathView};
use crate::refresh::{ItemView, TargetView};
use crate::status::PaneId;
use crate::views::{option_view, seq_view};

verus! {

/// A pane, with the directory whose Git status it displays, where it has one.
#[derive(Debug, PartialEq, Eq)]
pub struct Pane {
    pub pane_id: PaneId,
    /// Read only by a refresh that reports the branch.
    pub git_cwd: Option<GitPath>,
}

/// What a [`Pane`] stands for.
pub struct PaneView {
    pub pane_id: PaneId,
    pub git_cwd: Option<PathView>,
}

impl View for Pane {
    type V = PaneView;

    open spec fn view(&self) -> PaneView {
        PaneView { pane_id: self.pane_id, git_cwd: option_view(self.git_cwd) }
    }
}

impl PaneView {
    /// The refresh item of the pane. The directory of a pane can change while
    /// the identity of its workspace does not, so no checkout is taken as known.
    pub open spec fn refresh_item(self) -> Option<ItemView> {
        match self.git_cwd {
            Some(cwd) => Some(
                ItemView {
                    target: TargetView::Pane { pane_id: self.pane_id, cwd },
                    cache_key_hint: None,
                },
            ),
            None => None,
        }
    }
}

/// No pane occurs twice.
pub open spec fn panes_distinct(panes: Seq<PaneView>) -> bool {
    forall|i: int, j: int|
        #![trigger panes[i], panes[j]]
        0 <= i < j < panes.len() ==> panes[i].pane_id != panes[j].pane_id
}

/// The panes once `pane` stands among them: in the place of the one that has its
/// identity, or at the end.
pub open spec fn with_pane(panes: Seq<PaneView>, pane: PaneView) -> Seq<PaneView> {
    if exists|i: int| 0 <= i < panes.len() && (#[trigger] panes[i]).pane_id == pane.pane_id {
        panes.map_values(
            |other: PaneView|
                if other.pane_id == pane.pane_id {
                    pane
                } else {
                    other
                },
        )
    } else {
        panes.push(pane)
    }
}

/// A tab, with its panes in the order in which they are visited. No pane occurs
/// twice.
#[derive(Debug, PartialEq, Eq)]
pub struct Tab {
    panes: Vec<Pane>,
}

impl View for Tab {
    type V = Seq<PaneView>;

    closed spec fn view(&self) -> Seq<PaneView> {
        seq_view(self.panes@)
    }
}

impl Tab {
    #[verifier::type_invariant]
    spec fn well_formed(self) -> bool {
        panes_distinct(seq_view(self.panes@))
    }

    /// A tab without panes.
    pub fn new() -> (res: Self)
        ensures
            res@ == Seq::<PaneView>::empty(),
    {
        let res = Tab { panes: Vec::new() };
        assert(res@ =~= Seq::<PaneView>::empty());
        res
    }

    /// The panes, in the order in which they are visited.
    pub fn panes(&self) -> (res: &Vec<Pane>)
        ensures
            seq_view(res@) == self@,
            panes_distinct(self@),
    {
        proof {
            use_type_invariant(self);
        }
        &self.panes
    }

    /// Adds a pane, in place of an earlier one with its identity.
    pub fn insert(&mut self, pane: Pane)
        ensures
            final(self)@ == with_pane(old(self)@, pane@),
    {
        proof {
            use_type_invariant(&*self);
        }
        let ghost before = seq_view(self.panes@);
        let ghost added = pane@;
        let mut panes: Vec<Pane> = Vec::new();
        std::mem::swap(&mut panes, &mut self.panes);
        let mut i: usize = 0;
        while i < panes.len() && panes[i].pane_id != pane.pane_id
            invariant
                i <= panes.len(),
                before == seq_view(panes@),
                added == pane@,
                forall|j: int| 0 <= j < i ==> (#[trigger] before[j]).pane_id != added.pane_id,
            decreases panes.len() - i,
        {
            i = i + 1;
        }
        if i < panes.len() {
            panes.set(i, pane);
            proof {
                assert(before[i as int].pane_id == added.pane_id);
                assert(seq_view(panes@) =~= before.update(i as int, added));
                assert forall|j: int| 0 <= j < before.len() && j != i implies (
                #[trigger] before[j]).pane_id != added.pane_id by {
                    if j > i {
                        assert(before[i as int].pane_id != before[j].pane_id);
                    }
                }
                assert(seq_view(panes@) =~= with_pane(before, added));
                assert(panes_distinct(seq_view(panes@)));
            }
        } else {
            panes.push(pane);
            assert(seq_view(panes@) =~= with_pane(before, added));
        }
        self.panes = panes;
    }
}

/// The repository that a workspace was opened as a worktree of.
#[derive(Debug, PartialEq, Eq)]
pub struct WorktreeSpaceMembership {
    pub key: String,
    pub label: String,
    pub repo_root: GitPath,
    pub checkout_path: GitPath,
    pub is_linked_worktree: bool,
}

/// What a [`WorktreeSpaceMembership`] stands for.
pub struct WorktreeSpaceView {
    pub key: Seq<char>,
    pub label: Seq<char>,
    pub repo_root: PathView,
    pub checkout_path: PathView,
    pub is_linked_worktree: bool,
}

impl View for WorktreeSpaceMembership {
    type V = WorktreeSpaceView;

    open spec fn view(&self) -> WorktreeSpaceView {
        WorktreeSpaceView {
            key: self.key@,
            label: self.label@,
            repo_root: self.repo_root@,
            checkout_path: self.checkout_path@,
            is_linked_worktree: self.is_linked_worktree,
        }
    }
}

/// A workspace.
#[derive(Debug, PartialEq, Eq)]
pub struct Workspace {
    pub id: String,
    pub custom_name: Option<String>,
    pub worktree_space: Option<WorktreeSpaceMembership>,
    /// The directory that now identifies the workspace, where there is one.
    pub resolved_identity_cwd: Option<GitPath>,
    /// The directory that identified the workspace at its last refresh.
    pub cached_identity_cwd: GitPath,
    /// The checkout that answered for it then.
    pub cached_git_status_key: GitPath,
    pub tabs: Vec<Tab>,
}

/// What a [`Workspace`] stands for.
pub struct WorkspaceView {
    pub id: Seq<char>,
    pub custom_name: Option<Seq<char>>,
    pub worktree_space: Option<WorktreeSpaceView>,
    pub resolved_identity_cwd: Option<PathView>,
    pub cached_identity_cwd: PathView,
    pub cached_git_status_key: PathView,
    pub tabs: Seq<Seq<PaneView>>,
}

impl View for Workspace {
    type V = WorkspaceView;

    open spec fn view(&self) -> WorkspaceView {
        WorkspaceView {
            id: self.id@,
            custom_name: option_view(self.custom_name),
            worktree_space: option_view(self.worktree_space),
            resolved_identity_cwd: option_view(self.resolved_identity_cwd),
            cached_identity_cwd: self.cached_identity_cwd@,
            cached_git_status_key: self.cached_git_status_key@,
            tabs: seq_view(self.tabs@),
        }
    }
}

impl WorkspaceView {
    /// The refresh item of the workspace row. The checkout that answered last
    /// is taken as known while the workspace is identified by the same
    /// directory, unless checkouts are to be discovered anew.
    pub open spec fn refresh_item(self, refresh_repo_discovery: bool) -> Option<ItemView> {
        match self.resolved_identity_cwd {
            Some(cwd) => Some(
                ItemView {
                    target: TargetView::Workspace {
                        workspace_id: self.id,
                        resolved_identity_cwd: cwd,
                    },
                    cache_key_hint: if !refresh_repo_discovery && self.cached_identity_cwd == cwd {
                        Some(self.cached_git_status_key)
                    } else {
                        None
                    },
                },
            ),
            None => None,
        }
    }
}

} // verus!
