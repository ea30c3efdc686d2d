//! What values stand for: nothing is lost between a value and its view.
use vstd::prelude::*;

use crate::app::{App, GitRefreshRequest};
use crate::output::{GitRefreshAnswer, GitRefreshOutput};
use crate::path::{GitPath, PathPart, PathPartView, PathPrefix, PathPrefixView};
use crate::refresh::{GitRefreshItem, GitRefreshJob, GitRefreshTarget};
use crate::sidebar::{SidebarAgents, SidebarSpaces};
use crate::status::{
    GitSpaceMetadata, GitStatusCacheEntry, PaneGitStatus, WorkspaceGitStatus,
    WorkspaceGitStatusSnapshot,
};
use crate::views::{option_view, seq_view};
use crate::workspace::{Pane, Workspace, WorktreeSpaceMembership};

verus! {

/// An optional value is seen if and only if it is there, and as it is.
pub proof fn optional_value_is_seen_as_it_is<T: View>(value: Option<T>)
    ensures
        value is None ==> option_view(value) is None,
        value is Some ==> option_view(value) is Some && option_view(value)->0 == value->0@,
{
}

/// The elements of a sequence are all seen, each in its place.
pub proof fn elements_are_seen_in_their_places<T: View>(values: Seq<T>)
    ensures
        seq_view(values).len() == values.len(),
        forall|i: int| 0 <= i < values.len() ==> #[trigger] seq_view(values)[i] == values[i]@,
{
}

/// The tokens of a layout are all seen, each in its place.
pub proof fn tokens_are_seen_in_their_places<T>(rows: Seq<Vec<T>>)
    ensures
        crate::sidebar::rows_view(rows).len() == rows.len(),
        forall|row: int|
            0 <= row < rows.len() ==> #[trigger] crate::sidebar::rows_view(rows)[row] == rows[row]@,
{
}

/// Entries are all seen, each in its place, with its checkout and its answer.
pub proof fn entries_are_seen_in_their_places(entries: Seq<(GitPath, GitStatusCacheEntry)>)
    ensures
        crate::cache::entries_view(entries).len() == entries.len(),
        forall|i: int|
            0 <= i < entries.len() ==> {
                let entry = #[trigger] crate::cache::entries_view(entries)[i];
                entry.0 == entries[i].0@ && entry.1 == entries[i].1@
            },
{
}

/// What discovery found is seen item by item.
pub proof fn discovered_checkouts_are_seen_in_their_places(discovered: Seq<Option<GitPath>>)
    ensures
        crate::refresh::discovered_view(discovered).len() == discovered.len(),
        forall|i: int|
            0 <= i < discovered.len() ==> {
                let found = #[trigger] crate::refresh::discovered_view(discovered)[i];
                &&& discovered[i] is None ==> found is None
                &&& discovered[i] is Some ==> found is Some && found->0 == discovered[i]->0@
            },
{
}

/// A prefix is seen by its kind and its parts.
pub proof fn prefix_is_seen_as_it_is(prefix: PathPrefix)
    ensures
        match prefix {
            PathPrefix::Verbatim(name) => prefix@ == PathPrefixView::Verbatim(name@),
            PathPrefix::VerbatimUNC(server, share) => prefix@ == PathPrefixView::VerbatimUNC(
                server@,
                share@,
            ),
            PathPrefix::VerbatimDisk(letter) => prefix@ == PathPrefixView::VerbatimDisk(letter),
            PathPrefix::DeviceNS(name) => prefix@ == PathPrefixView::DeviceNS(name@),
            PathPrefix::UNC(server, share) => prefix@ == PathPrefixView::UNC(server@, share@),
            PathPrefix::Disk(letter) => prefix@ == PathPrefixView::Disk(letter),
        },
{
}

/// A part of a path is seen by its kind and its name.
pub proof fn path_part_is_seen_as_it_is(part: PathPart)
    ensures
        match part {
            PathPart::Prefix(prefix) => part@ == PathPartView::Prefix(prefix@),
            PathPart::RootDir => part@ == PathPartView::RootDir,
            PathPart::CurDir => part@ == PathPartView::CurDir,
            PathPart::ParentDir => part@ == PathPartView::ParentDir,
            PathPart::Normal(name) => part@ == PathPartView::Normal(name@),
        },
{
}

/// Two parts are of one kind, with the same name or prefix where they have one.
pub open spec fn same_kind_and_name(first: PathPart, second: PathPart) -> bool {
    match (first, second) {
        (PathPart::Prefix(a), PathPart::Prefix(b)) => a@ == b@,
        (PathPart::RootDir, PathPart::RootDir) => true,
        (PathPart::CurDir, PathPart::CurDir) => true,
        (PathPart::ParentDir, PathPart::ParentDir) => true,
        (PathPart::Normal(a), PathPart::Normal(b)) => a@ == b@,
        _ => false,
    }
}

/// Two paths are the same exactly if they have the same parts: as many, of the
/// same kinds, and with the same names and prefixes.
pub proof fn paths_are_the_same_by_their_parts(first: GitPath, second: GitPath)
    ensures
        first@ == second@ <==> {
            &&& first.parts@.len() == second.parts@.len()
            &&& forall|i: int|
                0 <= i < first.parts@.len() ==> same_kind_and_name(
                    #[trigger] first.parts@[i],
                    second.parts@[i],
                )
        },
{
    let (one, other) = (first.parts@, second.parts@);
    assert(first@.len() == one.len() && second@.len() == other.len());
    if first@ == second@ {
        assert forall|i: int| 0 <= i < one.len() implies same_kind_and_name(
            #[trigger] one[i],
            other[i],
        ) by {
            assert(first@[i] == one[i]@ && second@[i] == other[i]@);
        }
    }
    if one.len() == other.len() && forall|i: int|
        0 <= i < one.len() ==> same_kind_and_name(#[trigger] one[i], other[i]) {
        assert forall|i: int| 0 <= i < first@.len() implies #[trigger] first@[i] == second@[i] by {
            assert(same_kind_and_name(one[i], other[i]));
        }
        assert(first@ =~= second@);
    }
}

/// A pane is seen with its identity and its directory.
pub proof fn pane_is_seen_as_it_is(pane: Pane)
    ensures
        pane@.pane_id == pane.pane_id,
        pane@.git_cwd == option_view(pane.git_cwd),
{
}

/// A workspace is seen with all that it holds.
pub proof fn workspace_is_seen_as_it_is(ws: Workspace)
    ensures
        ws@.id == ws.id@,
        ws@.custom_name == option_view(ws.custom_name),
        ws@.worktree_space == option_view(ws.worktree_space),
        ws@.resolved_identity_cwd == option_view(ws.resolved_identity_cwd),
        ws@.cached_identity_cwd == ws.cached_identity_cwd@,
        ws@.cached_git_status_key == ws.cached_git_status_key@,
        ws@.tabs == seq_view(ws.tabs@),
{
}

/// The repository that a workspace was opened as a worktree of is seen with all
/// that it holds.
pub proof fn worktree_space_is_seen_as_it_is(space: WorktreeSpaceMembership)
    ensures
        space@.key == space.key@,
        space@.label == space.label@,
        space@.repo_root == space.repo_root@,
        space@.checkout_path == space.checkout_path@,
        space@.is_linked_worktree == space.is_linked_worktree,
{
}

/// A target is seen as what it is, with its identity and its directory.
pub proof fn target_is_seen_as_it_is(target: GitRefreshTarget)
    ensures
        match target {
            GitRefreshTarget::Workspace { workspace_id, resolved_identity_cwd } => {
                &&& target@ is Workspace
                &&& target@->workspace_id == workspace_id@
                &&& target@->resolved_identity_cwd == resolved_identity_cwd@
            },
            GitRefreshTarget::Pane { pane_id, cwd } => {
                &&& target@ is Pane
                &&& target@->pane_id == pane_id
                &&& target@->cwd == cwd@
            },
        },
{
}

/// An item is seen with its target and the checkout that it is known to be in.
pub proof fn item_is_seen_as_it_is(item: GitRefreshItem)
    ensures
        item@.target == item.target@,
        item@.cache_key_hint == option_view(item.cache_key_hint),
{
}

/// A job is seen with its checkout, its cached answer and its targets.
pub proof fn job_is_seen_as_it_is(job: GitRefreshJob)
    ensures
        job@.cache_key == job.cache_key@,
        job@.cached == option_view(job.cached),
        job@.targets == seq_view(job.targets@),
{
}

/// What Git answers is seen with all that it holds.
pub proof fn answer_is_seen_as_it_is(answer: GitRefreshAnswer)
    ensures
        answer@.snapshot == answer.snapshot@,
        answer@.cache_entry == option_view(answer.cache_entry),
{
}

/// A snapshot is seen with all that it holds.
pub proof fn snapshot_is_seen_as_it_is(snapshot: WorkspaceGitStatusSnapshot)
    ensures
        snapshot@.auto_label == snapshot.auto_label@,
        snapshot@.branch == option_view(snapshot.branch),
        snapshot@.ahead_behind == snapshot.ahead_behind,
        snapshot@.space == option_view(snapshot.space),
{
}

/// A repository is seen with all that it holds.
pub proof fn repository_is_seen_as_it_is(space: GitSpaceMetadata)
    ensures
        space@.key == space.key@,
        space@.checkout_key == space.checkout_key@,
        space@.repo_name == space.repo_name@,
        space@.repo_root == space.repo_root@,
        space@.is_linked_worktree == space.is_linked_worktree,
{
}

/// A cached answer is seen with all that it holds.
pub proof fn cached_answer_is_seen_as_it_is(entry: GitStatusCacheEntry)
    ensures
        entry@.fingerprint == option_view(entry.fingerprint),
        entry@.retry_after == entry.retry_after,
        entry@.snapshot == entry.snapshot@,
{
}

/// The status of a workspace is seen with all that it holds.
pub proof fn workspace_status_is_seen_as_it_is(status: WorkspaceGitStatus)
    ensures
        status@.workspace_id == status.workspace_id@,
        status@.resolved_identity_cwd == status.resolved_identity_cwd@,
        status@.git_status_key == status.git_status_key@,
        status@.demand == status.demand,
        status@.auto_label == status.auto_label@,
        status@.branch == option_view(status.branch),
        status@.ahead_behind == status.ahead_behind,
        status@.space == option_view(status.space),
{
}

/// The status of a pane is seen with all that it holds.
pub proof fn pane_status_is_seen_as_it_is(status: PaneGitStatus)
    ensures
        status@.pane_id == status.pane_id,
        status@.cwd == status.cwd@,
        status@.demand == status.demand,
        status@.branch == option_view(status.branch),
        status@.repo_name == option_view(status.repo_name),
        status@.is_linked_worktree == status.is_linked_worktree,
{
}

/// The results of a refresh are seen with all that they hold.
pub proof fn output_is_seen_as_it_is(output: GitRefreshOutput)
    ensures
        output@.workspace_results == seq_view(output.workspace_results@),
        output@.pane_results == seq_view(output.pane_results@),
        output@.cache_updates == crate::cache::entries_view(output.cache_updates@),
{
}

/// A refresh to run is seen with its items, its cache and its demand.
pub proof fn request_is_seen_as_it_is(request: GitRefreshRequest)
    ensures
        request@.items == seq_view(request.items@),
        request@.cache == request.cache@,
        request@.demand == request.demand,
{
}

/// The layouts are seen with their tokens.
pub proof fn layouts_are_seen_as_they_are(spaces: SidebarSpaces, agents: SidebarAgents)
    ensures
        spaces@ == crate::sidebar::rows_view(spaces.rows@),
        agents@.rows == crate::sidebar::rows_view(agents.rows@),
        agents@.rows_by_agent == agents.rows_by_agent@,
{
}

/// The scheduler is seen with all that it holds.
pub proof fn scheduler_is_seen_as_it_is(app: App)
    ensures
        app@.workspaces == seq_view(app.state.workspaces@),
        app@.spaces == app.state.sidebar_spaces@,
        app@.agents == app.state.sidebar_agents@,
        app@.cache == app.git_status_cache@,
        app@.remote_status_interval == app.git_remote_status_refresh_interval,
        app@.repo_discovery_interval == app.git_repo_discovery_refresh_interval,
        app@.last_remote_status == app.last_git_remote_status_refresh,
        app@.last_repo_discovery == app.last_git_repo_discovery_refresh,
        app@.identity_requested == app.git_identity_refresh_requested,
        app@.in_flight == app.git_refresh_in_flight,
        app@.due_after_in_flight == app.git_refresh_due_after_in_flight,
{
}

} // verus!
