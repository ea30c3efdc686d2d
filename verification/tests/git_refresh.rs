use std::path::{Component, Path, PathBuf};

use git_refresh::app::{App, AppState};
use git_refresh::cache::GitStatusCache;
use git_refresh::output::{refresh_git_statuses_with_cache_and_demand, GitRefreshAnswer};
use git_refresh::path::{GitPath, PathPart};
use git_refresh::refresh::{deduplicate_git_refresh_items, GitRefreshItem, GitRefreshTarget};
use git_refresh::sidebar::{
    AgentLayouts, AgentSidebarToken, SidebarAgents, SidebarSpaces, SpaceSidebarToken,
};
use git_refresh::status::{
    GitSpaceMetadata, GitStatusCacheEntry, GitStatusRefreshDemand, PaneId,
    WorkspaceGitStatusSnapshot,
};
use git_refresh::workspace::{Pane, Tab, Workspace, WorktreeSpaceMembership};

const REMOTE_STATUS_INTERVAL: u64 = 5_000_000_000;
const REPO_DISCOVERY_INTERVAL: u64 = 60_000_000_000;
const NOW: u64 = 3_600_000_000_000;

fn git_path(path: &Path) -> GitPath {
    let parts = path
        .components()
        .map(|component| match component {
            Component::Prefix(prefix) => panic!("no prefix expected, got {prefix:?}"),
            Component::RootDir => PathPart::RootDir,
            Component::CurDir => PathPart::CurDir,
            Component::ParentDir => PathPart::ParentDir,
            Component::Normal(name) => PathPart::Normal(name.as_encoded_bytes().to_vec()),
        })
        .collect();
    GitPath { parts }
}

fn path(text: &str) -> GitPath {
    git_path(Path::new(text))
}

fn default_spaces() -> Vec<Vec<SpaceSidebarToken>> {
    vec![
        vec![SpaceSidebarToken::Workspace],
        vec![SpaceSidebarToken::Branch, SpaceSidebarToken::GitStatus],
    ]
}

fn default_agents() -> Vec<Vec<AgentSidebarToken>> {
    vec![vec![AgentSidebarToken::Workspace]]
}

fn test_app(spaces: Vec<Vec<SpaceSidebarToken>>, agents: Vec<Vec<AgentSidebarToken>>) -> App {
    App {
        state: AppState {
            workspaces: Vec::new(),
            sidebar_spaces: SidebarSpaces { rows: spaces },
            sidebar_agents: SidebarAgents {
                rows: agents,
                rows_by_agent: AgentLayouts::new(),
            },
        },
        git_status_cache: GitStatusCache::new(),
        git_remote_status_refresh_interval: REMOTE_STATUS_INTERVAL,
        git_repo_discovery_refresh_interval: REPO_DISCOVERY_INTERVAL,
        last_git_remote_status_refresh: NOW,
        last_git_repo_discovery_refresh: NOW,
        git_identity_refresh_requested: false,
        git_refresh_in_flight: false,
        git_refresh_due_after_in_flight: false,
    }
}

fn root_pane_tab(git_cwd: Option<GitPath>) -> Tab {
    let mut tab = Tab::new();
    tab.insert(Pane {
        pane_id: PaneId { raw: 1 },
        git_cwd,
    });
    tab
}

fn test_workspace(name: &str) -> Workspace {
    Workspace {
        id: name.to_string(),
        custom_name: Some(name.to_string()),
        worktree_space: None,
        resolved_identity_cwd: Some(path("/")),
        cached_identity_cwd: path(""),
        cached_git_status_key: path(""),
        tabs: vec![root_pane_tab(None)],
    }
}

fn workspace_target_cwd(item: &GitRefreshItem) -> &GitPath {
    match &item.target {
        GitRefreshTarget::Workspace {
            resolved_identity_cwd,
            ..
        } => resolved_identity_cwd,
        other => panic!("expected a workspace target, got {other:?}"),
    }
}

fn no_repository(_: &GitPath) -> Option<GitPath> {
    None
}

fn bare_snapshot(label: &str) -> WorkspaceGitStatusSnapshot {
    WorkspaceGitStatusSnapshot {
        auto_label: label.to_string(),
        branch: None,
        ahead_behind: None,
        space: None,
    }
}

#[test]
fn git_refresh_deduplicates_workspaces_with_same_cache_key() {
    let repo = PathBuf::from("/tmp/herdr-git-refresh-dedupe");
    let nested = git_path(&repo.join("nested"));
    let other = git_path(&repo.join("other"));
    let root = git_path(&repo);

    let output = refresh_git_statuses_with_cache_and_demand(
        vec![
            GitRefreshItem {
                target: GitRefreshTarget::Workspace {
                    workspace_id: "one".into(),
                    resolved_identity_cwd: nested.clone(),
                },
                cache_key_hint: None,
            },
            GitRefreshItem {
                target: GitRefreshTarget::Workspace {
                    workspace_id: "two".into(),
                    resolved_identity_cwd: other.clone(),
                },
                cache_key_hint: None,
            },
        ],
        &GitStatusCache::new(),
        GitStatusRefreshDemand::all(),
        &|_: &GitPath| Some(root.clone()),
        &|_: &GitPath, cached: Option<&GitStatusCacheEntry>, _: GitStatusRefreshDemand| {
            assert_eq!(cached, None);
            GitRefreshAnswer {
                snapshot: bare_snapshot("herdr-git-refresh-dedupe"),
                cache_entry: Some(GitStatusCacheEntry {
                    fingerprint: Some("head".into()),
                    retry_after: None,
                    snapshot: bare_snapshot("herdr-git-refresh-dedupe"),
                }),
            }
        },
    );

    assert_eq!(output.cache_updates.len(), 1);
    assert_eq!(output.cache_updates[0].0, root);
    assert_eq!(output.workspace_results.len(), 2);
    assert_eq!(output.workspace_results[0].workspace_id, "one");
    assert_eq!(output.workspace_results[0].resolved_identity_cwd, nested);
    assert_eq!(output.workspace_results[1].workspace_id, "two");
    assert_eq!(output.workspace_results[1].resolved_identity_cwd, other);
}

#[test]
fn shared_root_repo_refresh_keeps_workspace_specific_fallback_labels() {
    let cache_key = PathBuf::from("/");
    let cached = GitStatusCacheEntry {
        fingerprint: None,
        retry_after: Some(NOW + 30 * 1_000_000_000),
        snapshot: WorkspaceGitStatusSnapshot {
            auto_label: "/".into(),
            branch: Some("main".into()),
            ahead_behind: None,
            space: Some(GitSpaceMetadata {
                key: "/.git".into(),
                checkout_key: "/".into(),
                repo_name: "repo".into(),
                repo_root: git_path(&cache_key),
                is_linked_worktree: false,
            }),
        },
    };
    let items = ["alpha", "beta"]
        .into_iter()
        .map(|name| GitRefreshItem {
            target: GitRefreshTarget::Workspace {
                workspace_id: name.into(),
                resolved_identity_cwd: git_path(&cache_key.join(name)),
            },
            cache_key_hint: Some(git_path(&cache_key)),
        })
        .collect();
    let mut cache = GitStatusCache::new();
    cache.insert(git_path(&cache_key), cached);

    // Git is not to be asked again before the retry time, so the cached answer
    // stands.
    let output = refresh_git_statuses_with_cache_and_demand(
        items,
        &cache,
        GitStatusRefreshDemand::all(),
        &no_repository,
        &|_: &GitPath, cached: Option<&GitStatusCacheEntry>, _: GitStatusRefreshDemand| {
            let entry = cached.expect("the checkout is cached");
            assert!(entry.retry_after > Some(NOW));
            GitRefreshAnswer {
                snapshot: entry.snapshot.clone(),
                cache_entry: Some(entry.clone()),
            }
        },
    );

    assert_eq!(output.cache_updates.len(), 1);
    assert_eq!(output.workspace_results.len(), 2);
    assert_eq!(output.workspace_results[0].auto_label, "alpha");
    assert_eq!(output.workspace_results[1].auto_label, "beta");
    assert_eq!(output.workspace_results[0].branch.as_deref(), Some("main"));
    assert_eq!(output.workspace_results[1].branch.as_deref(), Some("main"));
}

#[test]
fn git_refresh_item_collection_does_not_discover_uncached_cwd() {
    let mut app = test_app(default_spaces(), default_agents());
    let cwd = path("/tmp/herdr-uncached-cwd");
    let mut ws = test_workspace("test");
    ws.resolved_identity_cwd = Some(cwd.clone());
    ws.tabs.clear();
    app.state.workspaces.push(ws);

    let items = app.git_refresh_items(false, app.git_refresh_demand());

    assert_eq!(items.len(), 1);
    assert_eq!(workspace_target_cwd(&items[0]), &cwd);
    assert_eq!(items[0].cache_key_hint, None);
}

#[test]
fn git_refresh_item_collection_reuses_matching_cached_key() {
    let mut app = test_app(default_spaces(), default_agents());
    let cwd = path("/repo/deep/nested");
    let cache_key = path("/repo");
    let mut ws = test_workspace("test");
    ws.resolved_identity_cwd = Some(cwd.clone());
    ws.cached_identity_cwd = cwd;
    ws.cached_git_status_key = cache_key.clone();
    ws.tabs.clear();
    app.state.workspaces.push(ws);

    let items = app.git_refresh_items(false, app.git_refresh_demand());

    assert_eq!(items.len(), 1);
    assert_eq!(items[0].cache_key_hint, Some(cache_key));
}

#[test]
fn periodic_repo_discovery_ignores_cached_key_hints() {
    let mut app = test_app(default_spaces(), default_agents());
    let cwd = path("/repo/deep/nested");
    let mut ws = test_workspace("test");
    ws.resolved_identity_cwd = Some(cwd.clone());
    ws.cached_identity_cwd = cwd;
    ws.cached_git_status_key = path("/repo");
    ws.tabs.clear();
    app.state.workspaces.push(ws);

    let items = app.git_refresh_items(true, app.git_refresh_demand());

    assert_eq!(items.len(), 1);
    assert_eq!(items[0].cache_key_hint, None);
    let cache_key = workspace_target_cwd(&items[0]).clone();
    let cached = GitStatusCacheEntry {
        fingerprint: None,
        retry_after: None,
        snapshot: WorkspaceGitStatusSnapshot {
            auto_label: "stale".into(),
            branch: None,
            ahead_behind: None,
            space: None,
        },
    };
    let mut cache = GitStatusCache::new();
    cache.insert(cache_key, cached);
    let jobs = deduplicate_git_refresh_items(items, &cache, &no_repository);
    assert_eq!(jobs.len(), 1);
    assert_eq!(jobs[0].cached, None);
}

#[test]
fn cwd_identity_refresh_runs_once_without_sidebar_git_tokens() {
    let mut app = test_app(vec![vec![SpaceSidebarToken::Workspace]], default_agents());
    app.state.workspaces.push(test_workspace("test"));
    let now = NOW;

    app.request_git_identity_refresh(now);

    assert!(app.git_refresh_deadline().is_some());
    let request = app.start_git_status_refresh_if_due(now);
    assert!(request.is_some());
    assert!(app.git_refresh_in_flight);
    assert!(!app.git_identity_refresh_requested);
}

#[test]
fn due_git_refresh_does_not_start_without_sidebar_consumer() {
    let mut app = test_app(vec![vec![SpaceSidebarToken::Workspace]], default_agents());
    app.state.workspaces.push(test_workspace("test"));
    let now = NOW;
    app.last_git_remote_status_refresh = now - REMOTE_STATUS_INTERVAL;

    let request = app.start_git_status_refresh_if_due(now);

    assert!(!app.git_refresh_in_flight);
    assert!(request.is_none());
}

#[test]
fn git_refresh_demand_matches_sidebar_rows() {
    let cases = [
        (
            SpaceSidebarToken::Workspace,
            GitStatusRefreshDemand::default(),
        ),
        (
            SpaceSidebarToken::Branch,
            GitStatusRefreshDemand {
                branch: true,
                ahead_behind: false,
            },
        ),
        (
            SpaceSidebarToken::GitStatus,
            GitStatusRefreshDemand {
                branch: false,
                ahead_behind: true,
            },
        ),
    ];

    for (token, expected) in cases {
        let mut app = test_app(vec![vec![token]], default_agents());
        app.state.workspaces.push(test_workspace("test"));

        assert_eq!(app.git_refresh_demand(), expected, "token: {token:?}");
        assert_eq!(
            app.git_refresh_deadline().is_some(),
            !expected.is_empty(),
            "token: {token:?}"
        );
    }
}

#[test]
fn agent_branch_token_alone_keeps_periodic_git_refresh_alive() {
    // Space rows carry no Git token, so only the agent row can create demand.
    let mut app = test_app(
        vec![vec![SpaceSidebarToken::Workspace]],
        vec![
            vec![AgentSidebarToken::Workspace],
            vec![AgentSidebarToken::Branch],
        ],
    );
    app.state.workspaces.push(test_workspace("test"));

    assert_eq!(
        app.git_refresh_demand(),
        GitStatusRefreshDemand {
            branch: true,
            ahead_behind: false,
        }
    );
    assert!(app.git_refresh_deadline().is_some());
}

#[test]
fn agent_repo_token_alone_keeps_pane_git_refresh_alive() {
    let mut app = test_app(
        vec![vec![SpaceSidebarToken::Workspace]],
        vec![
            vec![AgentSidebarToken::Workspace],
            vec![AgentSidebarToken::Repo],
        ],
    );
    app.state.workspaces.push(test_workspace("test"));

    assert_eq!(
        app.git_refresh_demand(),
        GitStatusRefreshDemand {
            branch: true,
            ahead_behind: false,
        }
    );
    assert!(app.git_refresh_deadline().is_some());
}

#[test]
fn agent_worktree_token_alone_keeps_pane_git_refresh_alive() {
    let mut app = test_app(
        vec![vec![SpaceSidebarToken::Workspace]],
        vec![
            vec![AgentSidebarToken::Workspace],
            vec![AgentSidebarToken::Worktree],
        ],
    );
    app.state.workspaces.push(test_workspace("test"));

    assert_eq!(
        app.git_refresh_demand(),
        GitStatusRefreshDemand {
            branch: true,
            ahead_behind: false,
        }
    );
    assert!(app.git_refresh_deadline().is_some());
}

#[test]
fn agent_row_git_demand_ignores_rows_without_git_tokens() {
    let mut app = test_app(
        vec![vec![SpaceSidebarToken::Workspace]],
        vec![
            vec![AgentSidebarToken::Workspace],
            vec![AgentSidebarToken::Machine],
        ],
    );
    app.state.workspaces.push(test_workspace("test"));

    assert_eq!(app.git_refresh_demand(), GitStatusRefreshDemand::default());
    assert!(app.git_refresh_deadline().is_none());
}

#[test]
fn per_agent_override_rows_contribute_git_demand() {
    let mut app = test_app(
        vec![vec![SpaceSidebarToken::Workspace]],
        vec![vec![AgentSidebarToken::Workspace]],
    );
    app.state
        .sidebar_agents
        .rows_by_agent
        .insert("builder".into(), vec![vec![AgentSidebarToken::Branch]]);
    app.state.workspaces.push(test_workspace("test"));

    assert_eq!(
        app.git_refresh_demand(),
        GitStatusRefreshDemand {
            branch: true,
            ahead_behind: false,
        }
    );
}

fn linked_worktree() -> WorktreeSpaceMembership {
    WorktreeSpaceMembership {
        key: "repo".into(),
        label: "repo".into(),
        repo_root: path("/repo"),
        checkout_path: path("/repo-worktree"),
        is_linked_worktree: true,
    }
}

#[test]
fn unnamed_linked_worktree_does_not_force_periodic_branch_refresh() {
    let mut app = test_app(vec![vec![SpaceSidebarToken::Workspace]], default_agents());
    let mut child = test_workspace("test");
    child.custom_name = None;
    child.worktree_space = Some(linked_worktree());
    app.state.workspaces.push(child);

    assert_eq!(app.git_refresh_deadline(), None);
}

#[test]
fn custom_named_linked_worktree_does_not_require_branch_refresh() {
    let mut app = test_app(vec![vec![SpaceSidebarToken::Workspace]], default_agents());
    let mut child = test_workspace("custom");
    child.worktree_space = Some(linked_worktree());
    app.state.workspaces.push(child);

    assert_eq!(app.git_refresh_deadline(), None);
}

#[test]
fn explicit_git_refresh_invalidates_cached_non_git_results() {
    let mut app = test_app(default_spaces(), default_agents());
    let cwd = path("/tmp/herdr-git-miss");
    // Outside any repository there is nothing to take a fingerprint of.
    app.git_status_cache.insert(
        cwd,
        GitStatusCacheEntry {
            fingerprint: None,
            retry_after: Some(NOW + 1),
            snapshot: bare_snapshot("herdr-git-miss"),
        },
    );

    app.mark_git_status_refresh_due(NOW);

    assert!(app.git_status_cache.is_empty());
}

#[test]
fn git_refresh_due_request_survives_in_flight_refresh() {
    let mut app = test_app(default_spaces(), default_agents());
    let now = NOW;
    app.git_refresh_in_flight = true;

    app.mark_git_status_refresh_due(now);
    assert!(app.git_refresh_due_after_in_flight);

    let ended = now + 1;
    app.git_status_refreshed(ended);

    assert!(!app.git_refresh_in_flight);
    assert!(!app.git_refresh_due_after_in_flight);
    assert_eq!(app.git_refresh_deadline(), None);

    app.state.workspaces.push(test_workspace("test"));
    let deadline = app
        .git_refresh_deadline()
        .expect("refresh should be due once a workspace exists");
    assert!(deadline <= ended);
}

#[test]
fn pane_refresh_reports_each_checkouts_own_branch_and_worktree() {
    let repo = path("/tmp/pane-git-refresh/repo");
    let linked = path("/tmp/pane-git-refresh/linked");
    let main_pane = PaneId { raw: 1 };
    let linked_pane = PaneId { raw: 2 };
    let items = vec![
        GitRefreshItem {
            target: GitRefreshTarget::Pane {
                pane_id: main_pane,
                cwd: repo.clone(),
            },
            cache_key_hint: None,
        },
        GitRefreshItem {
            target: GitRefreshTarget::Pane {
                pane_id: linked_pane,
                cwd: linked.clone(),
            },
            cache_key_hint: None,
        },
    ];

    let output = refresh_git_statuses_with_cache_and_demand(
        items,
        &GitStatusCache::new(),
        GitStatusRefreshDemand::all(),
        &|cwd: &GitPath| Some(cwd.clone()),
        &|key: &GitPath, _: Option<&GitStatusCacheEntry>, _: GitStatusRefreshDemand| {
            let is_linked_worktree = *key == linked;
            let branch = if is_linked_worktree { "linked" } else { "main" };
            let snapshot = WorkspaceGitStatusSnapshot {
                auto_label: "repo".into(),
                branch: Some(branch.into()),
                ahead_behind: None,
                space: Some(GitSpaceMetadata {
                    key: "/tmp/pane-git-refresh/repo/.git".into(),
                    checkout_key: branch.into(),
                    repo_name: "repo".into(),
                    repo_root: key.clone(),
                    is_linked_worktree,
                }),
            };
            GitRefreshAnswer {
                snapshot: snapshot.clone(),
                cache_entry: Some(GitStatusCacheEntry {
                    fingerprint: Some(branch.into()),
                    retry_after: None,
                    snapshot,
                }),
            }
        },
    );

    // No workspace row is produced for either pane.
    assert!(output.workspace_results.is_empty());
    assert_eq!(output.pane_results.len(), 2);
    // Each worktree has its own HEAD and index, so they keep separate status
    // caches.
    assert_eq!(output.cache_updates.len(), 2);
    let main = output
        .pane_results
        .iter()
        .find(|result| result.pane_id == main_pane)
        .expect("main checkout pane result");
    let worktree = output
        .pane_results
        .iter()
        .find(|result| result.pane_id == linked_pane)
        .expect("linked checkout pane result");
    assert_ne!(main.branch, worktree.branch, "{:?}", output.pane_results);
    let repo_name = main.repo_name.clone().expect("main repo name");
    assert_eq!(worktree.repo_name.as_deref(), Some(repo_name.as_str()));
    assert!(!main.is_linked_worktree);
    assert!(worktree.is_linked_worktree);
}

#[test]
fn pane_refresh_items_are_collected_only_when_something_displays_branch() {
    let checkout = path("/tmp/herdr-pane-git-demand/work");
    let mut app = test_app(
        vec![vec![SpaceSidebarToken::Workspace]],
        vec![vec![AgentSidebarToken::Workspace]],
    );
    let mut ws = test_workspace("pane-cwd");
    ws.resolved_identity_cwd = Some(checkout.clone());
    ws.cached_identity_cwd = checkout.clone();
    ws.tabs = vec![root_pane_tab(Some(checkout))];
    app.state.workspaces.push(ws);

    let without_branch = app.git_refresh_items(false, app.git_refresh_demand());
    assert!(
        without_branch
            .iter()
            .all(|item| matches!(item.target, GitRefreshTarget::Workspace { .. })),
        "panes must not be inspected when no row shows a branch"
    );

    // Adding the agent `branch` token brings pane context into the refresh.
    app.state.sidebar_agents.rows = vec![vec![AgentSidebarToken::Branch]];
    let demand = app.git_refresh_demand();
    let with_branch = app.git_refresh_items(false, demand);
    let pane_items = with_branch
        .iter()
        .filter(|item| matches!(item.target, GitRefreshTarget::Pane { .. }))
        .count();
    assert_eq!(pane_items, 1, "the agent branch row needs pane context");
}
