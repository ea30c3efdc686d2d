use std::cell::{Cell, RefCell};
use std::path::{Component, Path};

use git_refresh::app::{App, AppState};
use git_refresh::cache::GitStatusCache;
use git_refresh::output::{
    collect_refresh_results, refresh_git_statuses_with_cache_and_demand, GitRefreshAnswer,
};
use git_refresh::path::{GitPath, PathPart, PathPrefix};
use git_refresh::refresh::{
    deduplicate_git_refresh_items, group_discovered_items, GitRefreshItem, GitRefreshJob,
    GitRefreshTarget,
};
use git_refresh::sidebar::{
    AgentLayouts, AgentSidebarToken, SidebarAgents, SidebarSpaces, SpaceSidebarToken,
};
use git_refresh::status::{
    GitSpaceMetadata, GitStatusCacheEntry, GitStatusRefreshDemand, PaneId,
    WorkspaceGitStatusSnapshot,
};
use git_refresh::workspace::{Pane, Tab, Workspace};

fn path(text: &str) -> GitPath {
    let parts = Path::new(text)
        .components()
        .map(|component| match component {
            Component::Prefix(prefix) => panic!("no prefix expected, got {prefix:?}"),
            Component::RootDir => PathPart::RootDir,
            Component::CurDir => PathPart::CurDir,
            Component::ParentDir => PathPart::ParentDir,
            Component::Normal(name) => PathPart::Normal(name.as_encoded_bytes().to_vec()),
        })
        .collect();
    GitPath { parts }
}

fn snapshot(label: &str, branch: Option<&str>) -> WorkspaceGitStatusSnapshot {
    WorkspaceGitStatusSnapshot {
        auto_label: label.to_string(),
        branch: branch.map(|b| b.to_string()),
        ahead_behind: Some((2, 1)),
        space: None,
    }
}

fn entry(label: &str, fingerprint: Option<&str>) -> GitStatusCacheEntry {
    GitStatusCacheEntry {
        fingerprint: fingerprint.map(|f| f.to_string()),
        retry_after: None,
        snapshot: snapshot(label, None),
    }
}

fn workspace_item(id: &str, cwd: &str, hint: Option<&str>) -> GitRefreshItem {
    GitRefreshItem {
        target: GitRefreshTarget::Workspace {
            workspace_id: id.to_string(),
            resolved_identity_cwd: path(cwd),
        },
        cache_key_hint: hint.map(path),
    }
}

fn pane_item(raw: u32, cwd: &str) -> GitRefreshItem {
    GitRefreshItem {
        target: GitRefreshTarget::Pane {
            pane_id: PaneId { raw },
            cwd: path(cwd),
        },
        cache_key_hint: None,
    }
}

fn tab(panes: Vec<Pane>) -> Tab {
    let mut tab = Tab::new();
    for pane in panes {
        tab.insert(pane);
    }
    tab
}

fn workspace(id: &str, cwd: Option<&str>, cached: (&str, &str), panes: Vec<Pane>) -> Workspace {
    Workspace {
        id: id.to_string(),
        custom_name: None,
        worktree_space: None,
        resolved_identity_cwd: cwd.map(path),
        cached_identity_cwd: path(cached.0),
        cached_git_status_key: path(cached.1),
        tabs: vec![tab(panes)],
    }
}

fn pane(raw: u32, cwd: Option<&str>) -> Pane {
    Pane {
        pane_id: PaneId { raw },
        git_cwd: cwd.map(path),
    }
}

fn app(token: SpaceSidebarToken, workspaces: Vec<Workspace>) -> App {
    App {
        state: AppState {
            workspaces,
            sidebar_spaces: SidebarSpaces {
                rows: vec![vec![token]],
            },
            sidebar_agents: SidebarAgents {
                rows: Vec::new(),
                rows_by_agent: AgentLayouts::new(),
            },
        },
        git_status_cache: GitStatusCache::new(),
        git_remote_status_refresh_interval: 5,
        git_repo_discovery_refresh_interval: 60,
        last_git_remote_status_refresh: 100,
        last_git_repo_discovery_refresh: 100,
        git_identity_refresh_requested: false,
        git_refresh_in_flight: false,
        git_refresh_due_after_in_flight: false,
    }
}

fn one_workspace() -> Vec<Workspace> {
    vec![workspace("w", Some("/repo/a"), ("/repo/a", "/repo"), vec![])]
}

#[test]
fn spellings_of_one_path_are_the_same() {
    assert!(path("/repo/").same_path(&path("/repo")));
    assert!(path("/repo//a/./b").same_path(&path("/repo/a/b")));
    assert!(!path("/repo").same_path(&path("repo")));
    assert!(!path("/repo/a").same_path(&path("/repo")));
    assert!(!path("/repo/../repo").same_path(&path("/repo")));
    assert!(!path("./repo").same_path(&path("repo")));
    assert!(path("").same_path(&path("")));
}

#[test]
fn parts_are_compared_by_kind_and_name() {
    let kinds = [
        PathPart::Prefix(PathPrefix::Disk(b'A')),
        PathPart::RootDir,
        PathPart::CurDir,
        PathPart::ParentDir,
        PathPart::Normal(b"a".to_vec()),
        PathPart::Normal(b"b".to_vec()),
        PathPart::Normal(b"ab".to_vec()),
    ];
    for (i, first) in kinds.iter().enumerate() {
        for (j, second) in kinds.iter().enumerate() {
            assert_eq!(first.same_part(second), i == j);
            assert_eq!(first.same_part(&second.clone()), i == j);
        }
    }
}

#[test]
fn prefixes_are_compared_by_their_parts() {
    let prefixes = [
        PathPrefix::Verbatim(b"a".to_vec()),
        PathPrefix::Verbatim(b"b".to_vec()),
        PathPrefix::VerbatimUNC(b"a".to_vec(), b"b".to_vec()),
        PathPrefix::VerbatimUNC(b"a".to_vec(), b"c".to_vec()),
        PathPrefix::VerbatimUNC(b"c".to_vec(), b"b".to_vec()),
        PathPrefix::VerbatimDisk(b'C'),
        PathPrefix::VerbatimDisk(b'D'),
        PathPrefix::DeviceNS(b"a".to_vec()),
        PathPrefix::DeviceNS(b"b".to_vec()),
        PathPrefix::UNC(b"a".to_vec(), b"b".to_vec()),
        PathPrefix::UNC(b"a".to_vec(), b"c".to_vec()),
        PathPrefix::UNC(b"c".to_vec(), b"b".to_vec()),
        PathPrefix::Disk(b'C'),
        PathPrefix::Disk(b'D'),
    ];
    for (i, first) in prefixes.iter().enumerate() {
        for (j, second) in prefixes.iter().enumerate() {
            assert_eq!(first.same_prefix(second), i == j);
            assert_eq!(first.same_prefix(&second.clone()), i == j);
            let first = PathPart::Prefix(first.clone());
            assert_eq!(first.same_part(&PathPart::Prefix(second.clone())), i == j);
        }
    }
}

#[test]
fn file_name_is_the_last_name() {
    assert_eq!(path("/repo/a").file_name(), Some(&b"a".to_vec()));
    assert_eq!(path("a").file_name(), Some(&b"a".to_vec()));
    assert_eq!(path("/").file_name(), None);
    assert_eq!(path("/repo/..").file_name(), None);
    assert_eq!(path(".").file_name(), None);
    assert_eq!(path("").file_name(), None);
    let drive = GitPath {
        parts: vec![PathPart::Prefix(PathPrefix::Disk(b'C'))],
    };
    assert_eq!(drive.file_name(), None);
}

fn named(bytes: &[u8]) -> GitPath {
    GitPath {
        parts: vec![PathPart::RootDir, PathPart::Normal(bytes.to_vec())],
    }
}

#[test]
fn display_name_is_the_text_of_the_last_name() {
    assert_eq!(path("/repo/a").display_name().as_deref(), Some("a"));
    assert_eq!(path("/repo/h\u{e9}h\u{e9}").display_name().as_deref(), Some("h\u{e9}h\u{e9}"));
    assert_eq!(path("/").display_name(), None);
    assert_eq!(
        named(b"x\xffy").display_name().as_deref(),
        Some("x\u{fffd}y")
    );
    assert_eq!(named(b"\xff").file_name(), Some(&b"\xff".to_vec()));
}

#[test]
fn names_that_are_no_text_stay_apart() {
    let first = named(b"x\xff");
    let second = named(b"x\xfe");
    assert_eq!(first.display_name(), second.display_name());
    assert!(!first.same_path(&second));
    assert!(first.same_path(&first.clone()));

    let mut cache = GitStatusCache::new();
    cache.insert(first.clone(), entry("first", Some("1")));
    assert_eq!(cache.get(&second), None);

    let item = |id: &str, cwd: &GitPath| GitRefreshItem {
        target: GitRefreshTarget::Workspace {
            workspace_id: id.to_string(),
            resolved_identity_cwd: cwd.clone(),
        },
        cache_key_hint: None,
    };
    let discovered: RefCell<Vec<GitPath>> = RefCell::new(Vec::new());
    let probed: RefCell<Vec<GitPath>> = RefCell::new(Vec::new());
    let output = refresh_git_statuses_with_cache_and_demand(
        vec![item("a", &first), item("b", &second), item("c", &first)],
        &cache,
        GitStatusRefreshDemand::all(),
        &|cwd: &GitPath| {
            discovered.borrow_mut().push(cwd.clone());
            Some(cwd.clone())
        },
        &|key: &GitPath, _: Option<&GitStatusCacheEntry>, _: GitStatusRefreshDemand| {
            probed.borrow_mut().push(key.clone());
            GitRefreshAnswer {
                snapshot: snapshot("shared", None),
                cache_entry: Some(entry("shared", Some("f"))),
            }
        },
    );
    assert_eq!(
        discovered.into_inner(),
        vec![first.clone(), second.clone(), first.clone()]
    );
    assert_eq!(probed.into_inner(), vec![first.clone(), second.clone()]);
    let keys: Vec<&GitPath> = output.cache_updates.iter().map(|update| &update.0).collect();
    assert_eq!(keys, vec![&first, &second]);
    let ids: Vec<&str> = output
        .workspace_results
        .iter()
        .map(|result| result.workspace_id.as_str())
        .collect();
    assert_eq!(ids, vec!["a", "c", "b"]);
}

#[test]
fn cache_holds_one_answer_for_each_checkout() {
    let mut cache = GitStatusCache::new();
    assert!(cache.is_empty());
    assert_eq!(cache.get(&path("/a")), None);
    cache.insert(path("/a"), entry("first", Some("1")));
    cache.insert(path("/b"), entry("other", None));
    cache.insert(path("/a/"), entry("second", Some("2")));
    assert!(!cache.is_empty());
    assert_eq!(cache.get(&path("/a")), Some(&entry("second", Some("2"))));
    assert_eq!(cache.get(&path("/b")), Some(&entry("other", None)));
    let copy = cache.clone();
    cache.retain_fingerprinted();
    assert_eq!(cache.get(&path("/a")), Some(&entry("second", Some("2"))));
    assert_eq!(cache.get(&path("/b")), None);
    assert_eq!(copy.get(&path("/b")), Some(&entry("other", None)));
}

#[test]
fn retain_drops_neighbouring_answers() {
    let mut cache = GitStatusCache::new();
    cache.insert(path("/a"), entry("a", None));
    cache.insert(path("/b"), entry("b", None));
    cache.insert(path("/c"), entry("c", Some("c")));
    cache.insert(path("/d"), entry("d", None));
    cache.retain_fingerprinted();
    assert_eq!(cache.get(&path("/a")), None);
    assert_eq!(cache.get(&path("/b")), None);
    assert_eq!(cache.get(&path("/c")), Some(&entry("c", Some("c"))));
    assert_eq!(cache.get(&path("/d")), None);
}

#[test]
fn demand_is_empty_only_without_any_part() {
    for branch in [false, true] {
        for ahead_behind in [false, true] {
            let demand = GitStatusRefreshDemand {
                branch,
                ahead_behind,
            };
            assert_eq!(demand.is_empty(), !branch && !ahead_behind);
        }
    }
    assert_eq!(
        GitStatusRefreshDemand::all(),
        GitStatusRefreshDemand {
            branch: true,
            ahead_behind: true
        }
    );
}

#[test]
fn tokens_anywhere_in_the_layouts_count() {
    let mut app = app(SpaceSidebarToken::Other, one_workspace());
    assert!(app.git_refresh_demand().is_empty());
    app.state.sidebar_spaces.rows = vec![
        vec![],
        vec![SpaceSidebarToken::Other, SpaceSidebarToken::GitStatus],
        vec![SpaceSidebarToken::Branch],
    ];
    assert_eq!(app.git_refresh_demand(), GitStatusRefreshDemand::all());
    app.state.sidebar_spaces.rows = vec![];
    let layouts = &mut app.state.sidebar_agents.rows_by_agent;
    layouts.insert("a".into(), vec![vec![AgentSidebarToken::Machine]]);
    layouts.insert(
        "b".into(),
        vec![vec![], vec![AgentSidebarToken::Other, AgentSidebarToken::Worktree]],
    );
    assert_eq!(
        app.git_refresh_demand(),
        GitStatusRefreshDemand {
            branch: true,
            ahead_behind: false
        }
    );
}

#[test]
fn an_agent_has_one_layout() {
    let mut app = app(SpaceSidebarToken::Other, one_workspace());
    let layouts = &mut app.state.sidebar_agents.rows_by_agent;
    layouts.insert("a".into(), vec![vec![AgentSidebarToken::Branch]]);
    layouts.insert("b".into(), vec![vec![AgentSidebarToken::Machine]]);
    assert!(app.git_refresh_demand().branch);
    let layouts = &mut app.state.sidebar_agents.rows_by_agent;
    layouts.insert("a".into(), vec![vec![AgentSidebarToken::Workspace]]);
    assert!(app.git_refresh_demand().is_empty());
    let layouts = &mut app.state.sidebar_agents.rows_by_agent;
    layouts.insert("b".into(), vec![vec![AgentSidebarToken::Repo]]);
    assert!(app.git_refresh_demand().branch);
}

#[test]
fn a_pane_stands_once_in_its_tab() {
    let mut tab = Tab::new();
    assert!(tab.panes().is_empty());
    tab.insert(pane(1, Some("/1")));
    tab.insert(pane(2, None));
    tab.insert(pane(3, Some("/3")));
    tab.insert(pane(1, Some("/moved")));
    tab.insert(pane(2, Some("/2")));
    assert_eq!(
        tab.panes(),
        &vec![
            pane(1, Some("/moved")),
            pane(2, Some("/2")),
            pane(3, Some("/3")),
        ]
    );
}

#[test]
fn deadline_is_one_interval_after_last_refresh() {
    let mut app = app(SpaceSidebarToken::Branch, one_workspace());
    assert_eq!(app.git_refresh_deadline(), Some(105));
    app.git_refresh_in_flight = true;
    assert_eq!(app.git_refresh_deadline(), None);
    app.git_refresh_in_flight = false;
    app.state.workspaces.clear();
    assert_eq!(app.git_refresh_deadline(), None);
    app.git_identity_refresh_requested = true;
    assert_eq!(app.git_refresh_deadline(), None);
}

#[test]
fn refresh_starts_at_the_deadline_and_not_before() {
    let mut app = app(SpaceSidebarToken::Branch, one_workspace());
    app.git_status_cache.insert(path("/repo"), entry("r", None));
    assert!(app.start_git_status_refresh_if_due(104).is_none());
    assert!(!app.git_refresh_in_flight);
    let request = app.start_git_status_refresh_if_due(105).unwrap();
    assert_eq!(request.items, vec![workspace_item("w", "/repo/a", Some("/repo"))]);
    assert_eq!(
        request.demand,
        GitStatusRefreshDemand {
            branch: true,
            ahead_behind: false
        }
    );
    assert_eq!(request.cache.get(&path("/repo")), Some(&entry("r", None)));
    assert!(app.git_refresh_in_flight);
    assert_eq!(app.last_git_remote_status_refresh, 100);
    assert_eq!(app.last_git_repo_discovery_refresh, 100);
    assert!(app.start_git_status_refresh_if_due(1000).is_none());
    assert!(app.git_refresh_in_flight);
}

#[test]
fn discovery_interval_drops_known_checkouts() {
    let mut app = app(SpaceSidebarToken::GitStatus, one_workspace());
    let request = app.start_git_status_refresh_if_due(160).unwrap();
    assert_eq!(request.items, vec![workspace_item("w", "/repo/a", None)]);
    assert_eq!(app.last_git_repo_discovery_refresh, 160);
}

#[test]
fn discovery_time_ahead_of_the_clock_is_no_reason_to_discover() {
    let mut app = app(SpaceSidebarToken::GitStatus, one_workspace());
    app.last_git_repo_discovery_refresh = 500;
    let request = app.start_git_status_refresh_if_due(160).unwrap();
    assert_eq!(request.items, vec![workspace_item("w", "/repo/a", Some("/repo"))]);
    assert_eq!(app.last_git_repo_discovery_refresh, 500);
}

#[test]
fn identity_refresh_discovers_everything_and_looks_at_panes() {
    let mut app = app(
        SpaceSidebarToken::Workspace,
        vec![workspace(
            "w",
            Some("/repo/a"),
            ("/repo/a", "/repo"),
            vec![pane(7, Some("/repo/b")), pane(8, None)],
        )],
    );
    app.request_git_identity_refresh(200);
    assert_eq!(app.git_refresh_deadline(), Some(200));
    let request = app.start_git_status_refresh_if_due(200).unwrap();
    assert_eq!(
        request.items,
        vec![workspace_item("w", "/repo/a", None), pane_item(7, "/repo/b")]
    );
    assert_eq!(
        request.demand,
        GitStatusRefreshDemand {
            branch: true,
            ahead_behind: false
        }
    );
    assert_eq!(app.last_git_repo_discovery_refresh, 200);
    assert!(!app.git_identity_refresh_requested);
    app.git_status_refreshed(210);
    assert_eq!(app.git_refresh_deadline(), None);
    assert!(app.start_git_status_refresh_if_due(9999).is_none());
}

#[test]
fn refresh_with_nothing_to_look_at_is_over_at_once() {
    let mut app = app(
        SpaceSidebarToken::Branch,
        vec![workspace("w", None, ("/", "/"), vec![pane(1, None)])],
    );
    app.git_identity_refresh_requested = true;
    assert!(app.start_git_status_refresh_if_due(170).is_none());
    assert!(!app.git_refresh_in_flight);
    assert!(!app.git_identity_refresh_requested);
    assert_eq!(app.last_git_remote_status_refresh, 170);
    assert_eq!(app.last_git_repo_discovery_refresh, 100);
    assert_eq!(app.git_refresh_deadline(), Some(175));
}

#[test]
fn mark_due_makes_a_refresh_due_at_once() {
    let mut app = app(SpaceSidebarToken::Branch, one_workspace());
    app.git_refresh_due_after_in_flight = true;
    app.mark_git_status_refresh_due(101);
    assert_eq!(app.last_git_remote_status_refresh, 96);
    assert_eq!(app.git_refresh_deadline(), Some(101));
    assert!(!app.git_refresh_due_after_in_flight);
}

#[test]
fn mark_due_cannot_reach_before_the_clock() {
    let mut app = app(SpaceSidebarToken::Branch, one_workspace());
    app.mark_git_status_refresh_due(4);
    assert_eq!(app.last_git_remote_status_refresh, 4);
    assert_eq!(app.git_refresh_deadline(), Some(9));
    app.mark_git_status_refresh_due(5);
    assert_eq!(app.last_git_remote_status_refresh, 0);
    assert_eq!(app.git_refresh_deadline(), Some(5));
}

#[test]
fn mark_due_in_flight_waits_for_the_end() {
    let mut app = app(SpaceSidebarToken::Branch, one_workspace());
    app.git_status_cache.insert(path("/a"), entry("a", None));
    app.git_refresh_in_flight = true;
    app.mark_git_status_refresh_due(300);
    app.mark_git_status_refresh_due(300);
    assert_eq!(app.last_git_remote_status_refresh, 100);
    assert!(app.git_status_cache.is_empty());
    app.git_status_cache.insert(path("/b"), entry("b", None));
    app.git_status_refreshed(310);
    assert!(app.git_status_cache.is_empty());
    assert_eq!(app.git_refresh_deadline(), Some(310));
}

#[test]
fn identity_request_in_flight_is_kept() {
    let mut app = app(SpaceSidebarToken::Workspace, one_workspace());
    app.git_refresh_in_flight = true;
    app.request_git_identity_refresh(300);
    assert!(app.start_git_status_refresh_if_due(300).is_none());
    app.git_status_refreshed(310);
    assert!(app.start_git_status_refresh_if_due(310).is_some());
}

#[test]
fn end_of_refresh_starts_the_interval() {
    let mut app = app(SpaceSidebarToken::Branch, one_workspace());
    app.git_refresh_in_flight = true;
    app.git_status_cache.insert(path("/a"), entry("a", None));
    app.git_status_refreshed(300);
    assert_eq!(app.git_refresh_deadline(), Some(305));
    assert!(!app.git_status_cache.is_empty());
}

#[test]
fn changed_directory_is_discovered() {
    let app = app(
        SpaceSidebarToken::GitStatus,
        vec![
            workspace("moved", Some("/new"), ("/old", "/old"), vec![]),
            workspace("gone", None, ("/x", "/x"), vec![]),
            workspace("same", Some("/same/"), ("/same", "/key"), vec![]),
        ],
    );
    assert_eq!(
        app.git_refresh_items(false, app.git_refresh_demand()),
        vec![
            workspace_item("moved", "/new", None),
            workspace_item("same", "/same", Some("/key")),
        ]
    );
}

#[test]
fn pane_items_follow_workspaces_tabs_and_panes() {
    let mut first = workspace(
        "a",
        Some("/a"),
        ("/a", "/a"),
        vec![pane(1, Some("/1")), pane(2, None)],
    );
    first.tabs.push(tab(vec![pane(3, Some("/3"))]));
    let second = workspace("b", None, ("/b", "/b"), vec![pane(4, Some("/4"))]);
    let app = app(SpaceSidebarToken::Branch, vec![first, second]);
    assert_eq!(
        app.pane_git_refresh_items(),
        vec![pane_item(1, "/1"), pane_item(3, "/3"), pane_item(4, "/4")]
    );
    assert_eq!(
        app.git_refresh_items(false, GitStatusRefreshDemand::all()).len(),
        4
    );
    assert_eq!(
        app.git_refresh_items(false, GitStatusRefreshDemand::default()).len(),
        1
    );
}

#[test]
fn tabs_make_no_difference_without_branch_demand() {
    let with_panes = workspace(
        "w",
        Some("/repo/a"),
        ("/repo/a", "/repo"),
        vec![pane(1, Some("/repo/b"))],
    );
    let bare = app(SpaceSidebarToken::GitStatus, one_workspace());
    let full = app(SpaceSidebarToken::GitStatus, vec![with_panes]);
    let demand = full.git_refresh_demand();
    assert!(!demand.branch);
    assert_eq!(
        full.git_refresh_items(false, demand),
        bare.git_refresh_items(false, demand)
    );
    assert_eq!(full.git_refresh_items(false, GitStatusRefreshDemand::all()).len(), 2);
}

#[test]
fn pane_directories_are_wanted_by_due_branch_refreshes_only() {
    let mut branch = app(SpaceSidebarToken::Branch, one_workspace());
    assert!(!branch.pane_directories_wanted(104));
    assert!(branch.pane_directories_wanted(105));
    branch.git_refresh_in_flight = true;
    assert!(!branch.pane_directories_wanted(105));

    let mut status = app(SpaceSidebarToken::GitStatus, one_workspace());
    assert!(!status.pane_directories_wanted(105));
    status.git_identity_refresh_requested = true;
    assert!(status.pane_directories_wanted(105));

    let mut nothing = app(SpaceSidebarToken::Workspace, one_workspace());
    assert!(!nothing.pane_directories_wanted(105));
    nothing.request_git_identity_refresh(200);
    assert!(nothing.pane_directories_wanted(200));
    nothing.state.workspaces.clear();
    assert!(!nothing.pane_directories_wanted(200));
}

#[test]
fn target_directory_is_where_it_stands() {
    assert_eq!(workspace_item("w", "/a", None).target.cwd(), &path("/a"));
    assert_eq!(pane_item(1, "/b").target.cwd(), &path("/b"));
    assert_eq!(pane_item(1, "/b").clone(), pane_item(1, "/b"));
}

#[test]
fn jobs_follow_the_first_occurrence_of_their_checkout() {
    let mut cache = GitStatusCache::new();
    cache.insert(path("/one"), entry("one", Some("1")));
    cache.insert(path("/two"), entry("two", Some("2")));
    let items = vec![
        workspace_item("a", "/one/a", Some("/one")),
        workspace_item("b", "/two/b", Some("/two")),
        workspace_item("c", "/one/c", Some("/one")),
        pane_item(1, "/two/p"),
        pane_item(2, "/lost"),
    ];
    let targets: Vec<GitRefreshTarget> = items.iter().map(|item| item.target.clone()).collect();
    let discovered = vec![None, None, None, Some(path("/two")), None];
    let jobs = group_discovered_items(items, discovered, &cache);
    assert_eq!(
        jobs,
        vec![
            GitRefreshJob {
                cache_key: path("/one"),
                cached: Some(entry("one", Some("1"))),
                targets: vec![targets[0].clone(), targets[2].clone()],
            },
            GitRefreshJob {
                cache_key: path("/two"),
                cached: None,
                targets: vec![targets[1].clone(), targets[3].clone()],
            },
            GitRefreshJob {
                cache_key: path("/lost"),
                cached: None,
                targets: vec![targets[4].clone()],
            },
        ]
    );
}

#[test]
fn discovered_checkout_is_not_cached_whichever_comes_first() {
    let mut cache = GitStatusCache::new();
    cache.insert(path("/r"), entry("r", Some("1")));
    let jobs = group_discovered_items(
        vec![pane_item(1, "/r"), workspace_item("w", "/r", Some("/r"))],
        vec![None, None],
        &cache,
    );
    assert_eq!(jobs.len(), 1);
    assert_eq!(jobs[0].cached, None);
    assert_eq!(jobs[0].targets.len(), 2);
}

#[test]
fn known_checkout_without_cached_answer_has_none() {
    let jobs = group_discovered_items(
        vec![workspace_item("w", "/r", Some("/r"))],
        vec![Some(path("/other"))],
        &GitStatusCache::new(),
    );
    assert_eq!(jobs[0].cache_key, path("/r"));
    assert_eq!(jobs[0].cached, None);
}

#[test]
fn nothing_to_refresh_gives_nothing() {
    let output = refresh_git_statuses_with_cache_and_demand(
        vec![],
        &GitStatusCache::new(),
        GitStatusRefreshDemand::all(),
        &|_: &GitPath| unreachable!(),
        &|_: &GitPath, _: Option<&GitStatusCacheEntry>, _: GitStatusRefreshDemand| unreachable!(),
    );
    assert!(output.workspace_results.is_empty());
    assert!(output.pane_results.is_empty());
    assert!(output.cache_updates.is_empty());
}

#[test]
fn only_unknown_checkouts_are_discovered() {
    let asked: RefCell<Vec<GitPath>> = RefCell::new(Vec::new());
    let jobs = deduplicate_git_refresh_items(
        vec![
            workspace_item("a", "/a", Some("/known")),
            pane_item(1, "/b"),
        ],
        &GitStatusCache::new(),
        &|cwd: &GitPath| {
            asked.borrow_mut().push(cwd.clone());
            Some(path("/found"))
        },
    );
    assert_eq!(asked.into_inner(), vec![path("/b")]);
    assert_eq!(jobs[0].cache_key, path("/known"));
    assert_eq!(jobs[1].cache_key, path("/found"));
}

#[test]
fn each_checkout_is_asked_about_once_and_every_item_gets_a_result() {
    let asked = Cell::new(0);
    let demand = GitStatusRefreshDemand {
        branch: true,
        ahead_behind: false,
    };
    let output = refresh_git_statuses_with_cache_and_demand(
        vec![
            pane_item(1, "/r/a"),
            workspace_item("w", "/r/b", Some("/r")),
            pane_item(2, "/r/c"),
            workspace_item("x", "/s", Some("/s")),
        ],
        &GitStatusCache::new(),
        demand,
        &|_: &GitPath| Some(path("/r")),
        &|key: &GitPath, cached: Option<&GitStatusCacheEntry>, asked_for: GitStatusRefreshDemand| {
            asked.set(asked.get() + 1);
            assert!(cached.is_none());
            assert_eq!(asked_for, demand);
            let name = key.display_name().unwrap();
            GitRefreshAnswer {
                snapshot: snapshot(&name, Some(&name)),
                cache_entry: if name == "s" {
                    Some(entry("s", Some("s")))
                } else {
                    None
                },
            }
        },
    );
    assert_eq!(asked.get(), 2);
    assert_eq!(output.pane_results.len(), 2);
    assert_eq!(output.pane_results[0].pane_id, PaneId { raw: 1 });
    assert_eq!(output.pane_results[0].cwd, path("/r/a"));
    assert_eq!(output.pane_results[0].demand, demand);
    assert_eq!(output.pane_results[0].branch.as_deref(), Some("r"));
    assert_eq!(output.pane_results[0].repo_name, None);
    assert!(!output.pane_results[0].is_linked_worktree);
    assert_eq!(output.pane_results[1].pane_id, PaneId { raw: 2 });
    assert_eq!(output.pane_results[1].branch, output.pane_results[0].branch);
    assert_eq!(output.workspace_results.len(), 2);
    assert_eq!(output.workspace_results[0].workspace_id, "w");
    assert_eq!(output.workspace_results[0].git_status_key, path("/r"));
    assert_eq!(output.workspace_results[0].auto_label, "r");
    assert_eq!(output.workspace_results[0].ahead_behind, Some((2, 1)));
    assert_eq!(output.workspace_results[0].demand, demand);
    assert_eq!(output.workspace_results[1].workspace_id, "x");
    assert_eq!(output.workspace_results[1].branch.as_deref(), Some("s"));
    assert_eq!(output.cache_updates, vec![(path("/s"), entry("s", Some("s")))]);
}

#[test]
fn results_carry_the_repository() {
    let space = GitSpaceMetadata {
        key: "k".into(),
        checkout_key: "c".into(),
        repo_name: "repo".into(),
        repo_root: path("/r"),
        is_linked_worktree: true,
    };
    let answer = WorkspaceGitStatusSnapshot {
        auto_label: "r".into(),
        branch: None,
        ahead_behind: None,
        space: Some(space.clone()),
    };
    let output = collect_refresh_results(
        vec![GitRefreshJob {
            cache_key: path("/r"),
            cached: None,
            targets: vec![
                pane_item(1, "/r").target,
                workspace_item("w", "/r", None).target,
            ],
        }],
        vec![GitRefreshAnswer {
            snapshot: answer,
            cache_entry: None,
        }],
        GitStatusRefreshDemand::all(),
    );
    assert_eq!(output.pane_results[0].repo_name.as_deref(), Some("repo"));
    assert!(output.pane_results[0].is_linked_worktree);
    assert_eq!(output.workspace_results[0].space, Some(space));
    assert!(output.cache_updates.is_empty());
}

#[test]
fn labels_fall_back_only_at_the_root() {
    let label = |cwd: &str, key: &str| {
        snapshot("shared", None)
            .into_workspace_status(
                "w".into(),
                path(cwd),
                path(key),
                GitStatusRefreshDemand::all(),
            )
            .auto_label
    };
    assert_eq!(label("/alpha", "/"), "alpha");
    assert_eq!(label("/", "/"), "shared");
    assert_eq!(label("/repo/alpha", "/repo"), "shared");
    let at_root = snapshot("shared", None).into_workspace_status(
        "w".into(),
        named(b"\xc3\x28"),
        path("/"),
        GitStatusRefreshDemand::all(),
    );
    assert_eq!(at_root.auto_label, "\u{fffd}(");
    assert_eq!(at_root.resolved_identity_cwd, named(b"\xc3\x28"));
}

#[test]
fn own_name_labels_a_workspace_only_at_the_root() {
    let label = |key: &str, own_name: Option<&str>| {
        snapshot("shared", None)
            .into_named_workspace_status(
                "w".into(),
                path("/dir"),
                path(key),
                GitStatusRefreshDemand::all(),
                own_name.map(|name| name.to_string()),
            )
            .auto_label
    };
    assert_eq!(label("/", Some("own")), "own");
    assert_eq!(label("/", None), "shared");
    assert_eq!(label("/repo", Some("own")), "shared");
    assert_eq!(label("/repo", None), "shared");
}
