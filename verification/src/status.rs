//! Git status values: what is asked for, what Git answers, what is cached and
//! what workspace rows and panes receive.
use vstd::prelude::*;

use crate::path::{GitPath, PathView};

verus! {

/// Which parts of the Git status something displays.
#[derive(Clone, Copy, Debug, PartialEq, Eq, Structural)]
pub struct GitStatusRefreshDemand {
    pub branch: bool,
    pub ahead_behind: bool,
}

impl Default for GitStatusRefreshDemand {
    /// Nothing is displayed.
    fn default() -> (res: Self)
        ensures
            res == (GitStatusRefreshDemand { branch: false, ahead_behind: false }),
    {
        GitStatusRefreshDemand { branch: false, ahead_behind: false }
    }
}

impl GitStatusRefreshDemand {
    /// Everything is displayed.
    pub fn all() -> (res: Self)
        ensures
            res == (GitStatusRefreshDemand { branch: true, ahead_behind: true }),
    {
        GitStatusRefreshDemand { branch: true, ahead_behind: true }
    }

    /// No part of the Git status is displayed.
    pub open spec fn asks_nothing(self) -> bool {
        !self.branch && !self.ahead_behind
    }

    /// Whether no part of the Git status is displayed.
    pub fn is_empty(&self) -> (res: bool)
        ensures
            res == self.asks_nothing(),
    {
        !self.branch && !self.ahead_behind
    }
}

/// The identity of a pane.
#[derive(Clone, Copy, Debug, PartialEq, Eq, Structural)]
pub struct PaneId {
    pub raw: u32,
}

/// The repository a directory belongs to.
#[derive(Debug, PartialEq, Eq)]
pub struct GitSpaceMetadata {
    pub key: String,
    pub checkout_key: String,
    pub repo_name: String,
    pub repo_root: GitPath,
    pub is_linked_worktree: bool,
}

/// What a [`GitSpaceMetadata`] stands for.
pub struct GitSpaceView {
    pub key: Seq<char>,
    pub checkout_key: Seq<char>,
    pub repo_name: Seq<char>,
    pub repo_root: PathView,
    pub is_linked_worktree: bool,
}

impl View for GitSpaceMetadata {
    type V = GitSpaceView;

    open spec fn view(&self) -> GitSpaceView {
        GitSpaceView {
            key: self.key@,
            checkout_key: self.checkout_key@,
            repo_name: self.repo_name@,
            repo_root: self.repo_root@,
            is_linked_worktree: self.is_linked_worktree,
        }
    }
}

impl Clone for GitSpaceMetadata {
    fn clone(&self) -> (res: Self)
        ensures
            res@ == self@,
    {
        GitSpaceMetadata {
            key: self.key.clone(),
            checkout_key: self.checkout_key.clone(),
            repo_name: self.repo_name.clone(),
            repo_root: self.repo_root.clone(),
            is_linked_worktree: self.is_linked_worktree,
        }
    }
}

/// What Git says of one checkout, for everything that shows it.
#[derive(Debug, PartialEq, Eq)]
pub struct WorkspaceGitStatusSnapshot {
    pub auto_label: String,
    pub branch: Option<String>,
    pub ahead_behind: Option<(usize, usize)>,
    pub space: Option<GitSpaceMetadata>,
}

/// What a [`WorkspaceGitStatusSnapshot`] stands for.
pub struct SnapshotView {
    pub auto_label: Seq<char>,
    pub branch: Option<Seq<char>>,
    pub ahead_behind: Option<(usize, usize)>,
    pub space: Option<GitSpaceView>,
}

impl View for WorkspaceGitStatusSnapshot {
    type V = SnapshotView;

    open spec fn view(&self) -> SnapshotView {
        SnapshotView {
            auto_label: self.auto_label@,
            branch: crate::views::option_view(self.branch),
            ahead_behind: self.ahead_behind,
            space: crate::views::option_view(self.space),
        }
    }
}

impl Clone for WorkspaceGitStatusSnapshot {
    fn clone(&self) -> (res: Self)
        ensures
            res@ == self@,
    {
        WorkspaceGitStatusSnapshot {
            auto_label: self.auto_label.clone(),
            branch: self.branch.clone(),
            ahead_behind: self.ahead_behind,
            space: self.space.clone(),
        }
    }
}

/// A cached answer of Git for one checkout.
#[derive(Debug, PartialEq, Eq)]
pub struct GitStatusCacheEntry {
    /// The state of the checkout the answer was taken from, where there was a
    /// repository to take it from.
    pub fingerprint: Option<String>,
    /// The time, in nanoseconds of a monotonic clock, before which the answer
    /// is not to be taken again.
    pub retry_after: Option<u64>,
    pub snapshot: WorkspaceGitStatusSnapshot,
}

/// What a [`GitStatusCacheEntry`] stands for.
pub struct CacheEntryView {
    pub fingerprint: Option<Seq<char>>,
    pub retry_after: Option<u64>,
    pub snapshot: SnapshotView,
}

impl View for GitStatusCacheEntry {
    type V = CacheEntryView;

    open spec fn view(&self) -> CacheEntryView {
        CacheEntryView {
            fingerprint: crate::views::option_view(self.fingerprint),
            retry_after: self.retry_after,
            snapshot: self.snapshot@,
        }
    }
}

impl Clone for GitStatusCacheEntry {
    fn clone(&self) -> (res: Self)
        ensures
            res@ == self@,
    {
        GitStatusCacheEntry {
            fingerprint: self.fingerprint.clone(),
            retry_after: self.retry_after,
            snapshot: self.snapshot.clone(),
        }
    }
}

/// The refreshed status of one workspace.
#[derive(Debug, PartialEq, Eq)]
pub struct WorkspaceGitStatus {
    pub workspace_id: String,
    pub resolved_identity_cwd: GitPath,
    pub git_status_key: GitPath,
    pub demand: GitStatusRefreshDemand,
    pub auto_label: String,
    pub branch: Option<String>,
    pub ahead_behind: Option<(usize, usize)>,
    pub space: Option<GitSpaceMetadata>,
}

/// What a [`WorkspaceGitStatus`] stands for.
pub struct WorkspaceStatusView {
    pub workspace_id: Seq<char>,
    pub resolved_identity_cwd: PathView,
    pub git_status_key: PathView,
    pub demand: GitStatusRefreshDemand,
    pub auto_label: Seq<char>,
    pub branch: Option<Seq<char>>,
    pub ahead_behind: Option<(usize, usize)>,
    pub space: Option<GitSpaceView>,
}

impl View for WorkspaceGitStatus {
    type V = WorkspaceStatusView;

    open spec fn view(&self) -> WorkspaceStatusView {
        WorkspaceStatusView {
            workspace_id: self.workspace_id@,
            resolved_identity_cwd: self.resolved_identity_cwd@,
            git_status_key: self.git_status_key@,
            demand: self.demand,
            auto_label: self.auto_label@,
            branch: crate::views::option_view(self.branch),
            ahead_behind: self.ahead_behind,
            space: crate::views::option_view(self.space),
        }
    }
}

/// The refreshed status of one pane.
#[derive(Debug, PartialEq, Eq)]
pub struct PaneGitStatus {
    pub pane_id: PaneId,
    pub cwd: GitPath,
    pub demand: GitStatusRefreshDemand,
    pub branch: Option<String>,
    pub repo_name: Option<String>,
    pub is_linked_worktree: bool,
}

/// What a [`PaneGitStatus`] stands for.
pub struct PaneStatusView {
    pub pane_id: PaneId,
    pub cwd: PathView,
    pub demand: GitStatusRefreshDemand,
    pub branch: Option<Seq<char>>,
    pub repo_name: Option<Seq<char>>,
    pub is_linked_worktree: bool,
}

impl View for PaneGitStatus {
    type V = PaneStatusView;

    open spec fn view(&self) -> PaneStatusView {
        PaneStatusView {
            pane_id: self.pane_id,
            cwd: self.cwd@,
            demand: self.demand,
            branch: crate::views::option_view(self.branch),
            repo_name: crate::views::option_view(self.repo_name),
            is_linked_worktree: self.is_linked_worktree,
        }
    }
}

/// The label of a workspace whose checkout, at `key`, is labelled `shared`, and
/// whose own directory is called `own_name`. A checkout at the file system root
/// has no name that could label the workspaces in it, so each of those falls
/// back to the name of its own directory.
pub open spec fn workspace_label(
    shared: Seq<char>,
    key: PathView,
    own_name: Option<Seq<char>>,
) -> Seq<char> {
    match (crate::path::file_name_of(key), own_name) {
        (None, Some(name)) => name,
        _ => shared,
    }
}

impl SnapshotView {
    /// The status of the workspace `workspace_id` at `cwd`, in the checkout at
    /// `key`, where `own_name` is what the directory is called.
    pub open spec fn for_named_workspace(
        self,
        workspace_id: Seq<char>,
        cwd: PathView,
        key: PathView,
        demand: GitStatusRefreshDemand,
        own_name: Option<Seq<char>>,
    ) -> WorkspaceStatusView {
        WorkspaceStatusView {
            workspace_id,
            resolved_identity_cwd: cwd,
            git_status_key: key,
            demand,
            auto_label: workspace_label(self.auto_label, key, own_name),
            branch: self.branch,
            ahead_behind: self.ahead_behind,
            space: self.space,
        }
    }

    /// The status of the workspace `workspace_id` at `cwd`, in the checkout at
    /// `key`.
    pub open spec fn for_workspace(
        self,
        workspace_id: Seq<char>,
        cwd: PathView,
        key: PathView,
        demand: GitStatusRefreshDemand,
    ) -> WorkspaceStatusView {
        self.for_named_workspace(
            workspace_id,
            cwd,
            key,
            demand,
            crate::path::display_name_of(cwd),
        )
    }

    /// The status of the pane `pane_id` at `cwd`.
    pub open spec fn for_pane(
        self,
        pane_id: PaneId,
        cwd: PathView,
        demand: GitStatusRefreshDemand,
    ) -> PaneStatusView {
        PaneStatusView {
            pane_id,
            cwd,
            demand,
            branch: self.branch,
            repo_name: match self.space {
                Some(space) => Some(space.repo_name),
                None => None,
            },
            is_linked_worktree: match self.space {
                Some(space) => space.is_linked_worktree,
                None => false,
            },
        }
    }
}

impl WorkspaceGitStatusSnapshot {
    /// The status of one workspace of the checkout.
    pub fn into_workspace_status(
        self,
        workspace_id: String,
        resolved_identity_cwd: GitPath,
        cache_key: GitPath,
        demand: GitStatusRefreshDemand,
    ) -> (res: WorkspaceGitStatus)
        ensures
            res@ == self@.for_workspace(
                workspace_id@,
                resolved_identity_cwd@,
                cache_key@,
                demand,
            ),
    {
        let own_name = resolved_identity_cwd.display_name();
        self.into_named_workspace_status(
            workspace_id,
            resolved_identity_cwd,
            cache_key,
            demand,
            own_name,
        )
    }

    /// The status of one workspace of the checkout, where `own_name` is what the
    /// directory of the workspace is called.
    pub fn into_named_workspace_status(
        self,
        workspace_id: String,
        resolved_identity_cwd: GitPath,
        cache_key: GitPath,
        demand: GitStatusRefreshDemand,
        own_name: Option<String>,
    ) -> (res: WorkspaceGitStatus)
        ensures
            res@ == self@.for_named_workspace(
                workspace_id@,
                resolved_identity_cwd@,
                cache_key@,
                demand,
                crate::views::option_view(own_name),
            ),
    {
        let auto_label = match (cache_key.file_name(), own_name) {
            (None, Some(name)) => name,
            _ => self.auto_label,
        };
        WorkspaceGitStatus {
            workspace_id,
            resolved_identity_cwd,
            git_status_key: cache_key,
            demand,
            auto_label,
            branch: self.branch,
            ahead_behind: self.ahead_behind,
            space: self.space,
        }
    }

    /// The status of one pane in the checkout.
    pub fn pane_status(
        &self,
        pane_id: PaneId,
        cwd: GitPath,
        demand: GitStatusRefreshDemand,
    ) -> (res: PaneGitStatus)
        ensures
            res@ == self@.for_pane(pane_id, cwd@, demand),
    {
        let (repo_name, is_linked_worktree) = match &self.space {
            Some(space) => (Some(space.repo_name.clone()), space.is_linked_worktree),
            None => (None, false),
        };
        PaneGitStatus {
            pane_id,
            cwd,
            demand,
            branch: self.branch.clone(),
            repo_name,
            is_linked_worktree,
        }
    }
}

} // verus!
