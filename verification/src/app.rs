//! When a refresh is due, and what it has to look at.
//!
//! Times are nanoseconds of a monotonic clock.
use vstd::prelude::*;

use crate::cache::{CacheView, GitStatusCache};
use crate::refresh::{GitRefreshItem, GitRefreshTarget, ItemView};
use crate::sidebar::{AgentsView, SidebarAgents, SidebarSpaces, SpaceSidebarToken};
use crate::status::GitStatusRefreshDemand;
use crate::views::{option_view, seq_view};
use crate::workspace::{PaneView, Tab, Workspace, WorkspaceView};

verus! {

/// The state that refreshes are made for.
#[derive(Debug)]
pub struct AppState {
    pub workspaces: Vec<Workspace>,
    pub sidebar_spaces: SidebarSpaces,
    pub sidebar_agents: SidebarAgents,
}

/// The refresh scheduler.
#[derive(Debug)]
pub struct App {
    pub state: AppState,
    pub git_status_cache: GitStatusCache,
    /// How long a status is shown before it is refreshed.
    pub git_remote_status_refresh_interval: u64,
    /// How long a discovered checkout is taken as known.
    pub git_repo_discovery_refresh_interval: u64,
    pub last_git_remote_status_refresh: u64,
    pub last_git_repo_discovery_refresh: u64,
    /// A refresh is wanted whether or not anything displays Git status.
    pub git_identity_refresh_requested: bool,
    /// A refresh is under way.
    pub git_refresh_in_flight: bool,
    /// Another refresh is wanted as soon as the one under way ends.
    pub git_refresh_due_after_in_flight: bool,
}

/// What an [`App`] stands for.
#[verifier::ext_equal]
pub struct AppView {
    pub workspaces: Seq<WorkspaceView>,
    pub spaces: Seq<Seq<SpaceSidebarToken>>,
    pub agents: AgentsView,
    pub cache: CacheView,
    pub remote_status_interval: u64,
    pub repo_discovery_interval: u64,
    pub last_remote_status: u64,
    pub last_repo_discovery: u64,
    pub identity_requested: bool,
    pub in_flight: bool,
    pub due_after_in_flight: bool,
}

impl View for App {
    type V = AppView;

    open spec fn view(&self) -> AppView {
        AppView {
            workspaces: seq_view(self.state.workspaces@),
            spaces: self.state.sidebar_spaces@,
            agents: self.state.sidebar_agents@,
            cache: self.git_status_cache@,
            remote_status_interval: self.git_remote_status_refresh_interval,
            repo_discovery_interval: self.git_repo_discovery_refresh_interval,
            last_remote_status: self.last_git_remote_status_refresh,
            last_repo_discovery: self.last_git_repo_discovery_refresh,
            identity_requested: self.git_identity_refresh_requested,
            in_flight: self.git_refresh_in_flight,
            due_after_in_flight: self.git_refresh_due_after_in_flight,
        }
    }
}

/// A refresh to run: what to look at, what is cached, and what is displayed.
#[derive(Debug)]
pub struct GitRefreshRequest {
    pub items: Vec<GitRefreshItem>,
    pub cache: GitStatusCache,
    pub demand: GitStatusRefreshDemand,
}

/// What a [`GitRefreshRequest`] stands for.
pub struct RequestView {
    pub items: Seq<ItemView>,
    pub cache: CacheView,
    pub demand: GitStatusRefreshDemand,
}

impl View for GitRefreshRequest {
    type V = RequestView;

    open spec fn view(&self) -> RequestView {
        RequestView { items: seq_view(self.items@), cache: self.cache@, demand: self.demand }
    }
}

impl AppView {
    /// The Git status that the sidebar displays.
    pub open spec fn demand(self) -> GitStatusRefreshDemand {
        crate::sidebar::displayed(self.spaces, self.agents)
    }

    /// The time of the next refresh. There is none while a refresh is under way,
    /// without workspaces, and while nobody wants one.
    pub open spec fn deadline(self) -> Option<int> {
        if !self.in_flight && self.workspaces.len() > 0 && (self.identity_requested
            || !self.demand().asks_nothing()) {
            Some(self.last_remote_status + self.remote_status_interval)
        } else {
            None
        }
    }

    /// The refresh items of the workspace rows, in order.
    pub open spec fn workspace_items(self, refresh_repo_discovery: bool) -> Seq<ItemView> {
        self.workspaces.filter_map(|ws: WorkspaceView| ws.refresh_item(refresh_repo_discovery))
    }

    /// The refresh items of the panes, in order.
    pub open spec fn pane_items(self) -> Seq<ItemView> {
        self.workspaces.flat_map(|ws: WorkspaceView| workspace_pane_items(ws.tabs))
    }

    /// The items of a refresh: the workspace rows and, while something displays
    /// what panes are asked for, the panes.
    pub open spec fn items(
        self,
        refresh_repo_discovery: bool,
        demand: GitStatusRefreshDemand,
    ) -> Seq<ItemView> {
        self.workspace_items(refresh_repo_discovery) + if demand.branch {
            self.pane_items()
        } else {
            Seq::empty()
        }
    }

    /// A refresh is due.
    pub open spec fn due(self, now: u64) -> bool {
        self.deadline() is Some && self.deadline()->0 <= now
    }

    /// A refresh that starts now discovers checkouts anew.
    pub open spec fn rediscovers(self, now: u64) -> bool {
        self.identity_requested || (if now >= self.last_repo_discovery {
            now - self.last_repo_discovery
        } else {
            0
        }) >= self.repo_discovery_interval
    }

    /// What a refresh that starts now is to answer.
    pub open spec fn started_demand(self) -> GitStatusRefreshDemand {
        GitStatusRefreshDemand {
            branch: self.demand().branch || self.identity_requested,
            ahead_behind: self.demand().ahead_behind,
        }
    }

    /// A refresh is due that looks at the panes.
    pub open spec fn looks_at_panes(self, now: u64) -> bool {
        self.due(now) && self.started_demand().branch
    }

    /// What a refresh that starts now looks at.
    pub open spec fn started_items(self, now: u64) -> Seq<ItemView> {
        self.items(self.rediscovers(now), self.started_demand())
    }

    /// The refresh that starts now, if one does.
    pub open spec fn started(self, now: u64) -> Option<RequestView> {
        if self.due(now) && self.started_items(now).len() > 0 {
            Some(
                RequestView {
                    items: self.started_items(now),
                    cache: self.cache,
                    demand: self.started_demand(),
                },
            )
        } else {
            None
        }
    }

    /// The state after the time was tested. A refresh that is due starts; where
    /// there is nothing to look at, it is over at once.
    pub open spec fn after_tick(self, now: u64) -> AppView {
        if !self.due(now) {
            self
        } else if self.started_items(now).len() == 0 {
            AppView { last_remote_status: now, identity_requested: false, ..self }
        } else {
            AppView {
                in_flight: true,
                identity_requested: false,
                last_repo_discovery: if self.rediscovers(now) {
                    now
                } else {
                    self.last_repo_discovery
                },
                ..self
            }
        }
    }

    /// The state after a refresh was asked for. Answers that no repository
    /// stands behind are forgotten. A refresh under way is followed by another;
    /// otherwise the refresh interval counts as over, as far as the clock
    /// reaches back.
    pub open spec fn after_mark_due(self, now: u64) -> AppView {
        let cache = crate::cache::fingerprinted_only(self.cache);
        if self.in_flight {
            AppView { cache, due_after_in_flight: true, ..self }
        } else {
            AppView {
                cache,
                last_remote_status: if now >= self.remote_status_interval {
                    (now - self.remote_status_interval) as u64
                } else {
                    now
                },
                due_after_in_flight: false,
                ..self
            }
        }
    }

    /// The state after an identity refresh was asked for.
    pub open spec fn after_identity_request(self, now: u64) -> AppView {
        AppView { identity_requested: true, ..self }.after_mark_due(now)
    }

    /// The state after the refresh under way ended.
    pub open spec fn after_refreshed(self, now: u64) -> AppView {
        let idle = AppView { in_flight: false, last_remote_status: now, ..self };
        if self.due_after_in_flight {
            idle.after_mark_due(now)
        } else {
            idle
        }
    }
}

/// The refresh items of the panes of a tab, in order.
pub open spec fn tab_pane_items(panes: Seq<PaneView>) -> Seq<ItemView> {
    panes.filter_map(|pane: PaneView| pane.refresh_item())
}

/// The refresh items of the panes of a workspace, in order.
pub open spec fn workspace_pane_items(tabs: Seq<Seq<PaneView>>) -> Seq<ItemView> {
    tabs.flat_map(|panes: Seq<PaneView>| tab_pane_items(panes))
}

impl App {
    /// Starts a refresh if one is due. The request is to be run by the caller,
    /// who reports its end with [`App::git_status_refreshed`].
    pub fn start_git_status_refresh_if_due(&mut self, now: u64) -> (res: Option<GitRefreshRequest>)
        requires
            old(self).last_git_remote_status_refresh + old(self).git_remote_status_refresh_interval
                <= u64::MAX,
        ensures
            option_view(res) == old(self)@.started(now),
            final(self)@ == old(self)@.after_tick(now),
    {
        let deadline = match self.git_refresh_deadline() {
            Some(deadline) => deadline,
            None => {
                return None;
            },
        };
        if now < deadline {
            return None;
        }
        let refresh_repo_discovery = self.git_identity_refresh_requested || now.saturating_sub(
            self.last_git_repo_discovery_refresh,
        ) >= self.git_repo_discovery_refresh_interval;
        let mut demand = self.git_refresh_demand();
        if self.git_identity_refresh_requested {
            demand.branch = true;
        }
        let items = self.git_refresh_items(refresh_repo_discovery, demand);
        assert(seq_view(items@).len() == items@.len());
        if items.len() == 0 {
            self.last_git_remote_status_refresh = now;
            self.git_identity_refresh_requested = false;
            return None;
        }
        self.git_refresh_in_flight = true;
        let cache = self.git_status_cache.clone();
        self.git_identity_refresh_requested = false;
        if refresh_repo_discovery {
            self.last_git_repo_discovery_refresh = now;
        }
        Some(GitRefreshRequest { items, cache, demand })
    }

    /// Asks for a refresh of what identifies the workspaces, whether or not
    /// anything displays Git status.
    pub fn request_git_identity_refresh(&mut self, now: u64)
        ensures
            final(self)@ == old(self)@.after_identity_request(now),
    {
        self.git_identity_refresh_requested = true;
        self.mark_git_status_refresh_due(now);
    }

    /// Asks for a refresh, of what is displayed, without waiting for the
    /// interval to pass.
    pub fn mark_git_status_refresh_due(&mut self, now: u64)
        ensures
            final(self)@ == old(self)@.after_mark_due(now),
    {
        self.git_status_cache.retain_fingerprinted();
        if self.git_refresh_in_flight {
            self.git_refresh_due_after_in_flight = true;
            return;
        }
        self.last_git_remote_status_refresh = now.checked_sub(
            self.git_remote_status_refresh_interval,
        ).unwrap_or(now);
        self.git_refresh_due_after_in_flight = false;
    }

    /// Reports that the refresh under way ended.
    pub fn git_status_refreshed(&mut self, now: u64)
        ensures
            final(self)@ == old(self)@.after_refreshed(now),
    {
        self.git_refresh_in_flight = false;
        self.last_git_remote_status_refresh = now;
        if self.git_refresh_due_after_in_flight {
            self.mark_git_status_refresh_due(now);
        }
    }

    /// The time of the next refresh.
    pub fn git_refresh_deadline(&self) -> (res: Option<u64>)
        requires
            self.last_git_remote_status_refresh + self.git_remote_status_refresh_interval
                <= u64::MAX,
        ensures
            match res {
                Some(deadline) => self@.deadline() == Some(deadline as int),
                None => self@.deadline() is None,
            },
    {
        assert(self@.workspaces.len() == self.state.workspaces@.len());
        if !self.git_refresh_in_flight && self.state.workspaces.len() > 0 && (
        self.git_identity_refresh_requested || !self.git_refresh_demand().is_empty()) {
            Some(self.last_git_remote_status_refresh + self.git_remote_status_refresh_interval)
        } else {
            None
        }
    }

    /// Whether a refresh is due that looks at the panes. Only then do their
    /// directories have to be known to [`App::start_git_status_refresh_if_due`].
    pub fn pane_directories_wanted(&self, now: u64) -> (res: bool)
        requires
            self.last_git_remote_status_refresh + self.git_remote_status_refresh_interval
                <= u64::MAX,
        ensures
            res == self@.looks_at_panes(now),
    {
        match self.git_refresh_deadline() {
            Some(deadline) => deadline <= now && (self.git_identity_refresh_requested
                || self.git_refresh_demand().branch),
            None => false,
        }
    }

    /// The Git status that the sidebar displays.
    pub fn git_refresh_demand(&self) -> (demand: GitStatusRefreshDemand)
        ensures
            demand == self@.demand(),
    {
        crate::sidebar::displayed_git_status(
            &self.state.sidebar_spaces,
            &self.state.sidebar_agents,
        )
    }

    /// The items of a refresh.
    pub fn git_refresh_items(
        &self,
        refresh_repo_discovery: bool,
        demand: GitStatusRefreshDemand,
    ) -> (items: Vec<GitRefreshItem>)
        ensures
            seq_view(items@) == self@.items(refresh_repo_discovery, demand),
    {
        let ghost item_of = |ws: WorkspaceView| ws.refresh_item(refresh_repo_discovery);
        let mut items: Vec<GitRefreshItem> = Vec::new();
        let mut i: usize = 0;
        proof {
            assert(self@.workspaces.take(0) =~= Seq::empty());
            assert(seq_view(items@) =~= self@.workspaces.take(0).filter_map(item_of));
        }
        while i < self.state.workspaces.len()
            invariant
                i <= self.state.workspaces.len(),
                item_of == (|ws: WorkspaceView| ws.refresh_item(refresh_repo_discovery)),
                seq_view(items@) == self@.workspaces.take(i as int).filter_map(item_of),
            decreases self.state.workspaces.len() - i,
        {
            let ws = &self.state.workspaces[i];
            let ghost before = seq_view(items@);
            proof {
                self@.workspaces.lemma_filter_map_take_succ(item_of, i as int);
                assert(self@.workspaces[i as int] == ws@);
            }
            match &ws.resolved_identity_cwd {
                Some(cwd) => {
                    let cache_key_hint = if !refresh_repo_discovery
                        && ws.cached_identity_cwd.same_path(cwd) {
                        Some(ws.cached_git_status_key.clone())
                    } else {
                        None
                    };
                    let item = GitRefreshItem {
                        target: GitRefreshTarget::Workspace {
                            workspace_id: ws.id.clone(),
                            resolved_identity_cwd: cwd.clone(),
                        },
                        cache_key_hint,
                    };
                    assert(item_of(ws@) == Some(item@));
                    items.push(item);
                    assert(seq_view(items@) =~= before + seq![item@]);
                },
                None => {},
            }
            i = i + 1;
        }
        assert(self@.workspaces.take(self@.workspaces.len() as int) =~= self@.workspaces);
        let ghost of_workspaces = seq_view(items@);
        if demand.branch {
            let mut pane_items = self.pane_git_refresh_items();
            let ghost of_panes = seq_view(pane_items@);
            items.append(&mut pane_items);
            assert(seq_view(items@) =~= of_workspaces + of_panes);
        } else {
            assert(of_workspaces =~= of_workspaces + Seq::<ItemView>::empty());
        }
        items
    }

    /// The refresh items of the panes.
    pub fn pane_git_refresh_items(&self) -> (items: Vec<GitRefreshItem>)
        ensures
            seq_view(items@) == self@.pane_items(),
    {
        let ghost items_of = |ws: WorkspaceView| workspace_pane_items(ws.tabs);
        let mut items: Vec<GitRefreshItem> = Vec::new();
        let mut i: usize = 0;
        proof {
            assert(self@.workspaces.take(0).map_values(items_of) =~= Seq::empty());
            assert(seq_view(items@) =~= self@.workspaces.take(0).flat_map(items_of));
        }
        while i < self.state.workspaces.len()
            invariant
                i <= self.state.workspaces.len(),
                items_of == (|ws: WorkspaceView| workspace_pane_items(ws.tabs)),
                seq_view(items@) == self@.workspaces.take(i as int).flat_map(items_of),
            decreases self.state.workspaces.len() - i,
        {
            proof {
                self@.workspaces.lemma_flat_map_take_append(items_of, i as int);
                assert(self@.workspaces[i as int] == self.state.workspaces@[i as int]@);
            }
            push_workspace_pane_items(&self.state.workspaces[i].tabs, &mut items);
            i = i + 1;
        }
        assert(self@.workspaces.take(self@.workspaces.len() as int) =~= self@.workspaces);
        items
    }
}

/// Adds the refresh items of the panes of a workspace.
fn push_workspace_pane_items(tabs: &Vec<Tab>, items: &mut Vec<GitRefreshItem>)
    ensures
        seq_view(final(items)@) == seq_view(old(items)@) + workspace_pane_items(seq_view(tabs@)),
{
    let ghost all = seq_view(tabs@);
    let ghost before = seq_view(items@);
    let ghost items_of = |panes: Seq<PaneView>| tab_pane_items(panes);
    let mut i: usize = 0;
    proof {
        assert(all.take(0).map_values(items_of) =~= Seq::empty());
        assert(seq_view(items@) =~= before + all.take(0).flat_map(items_of));
    }
    while i < tabs.len()
        invariant
            i <= tabs.len(),
            all == seq_view(tabs@),
            items_of == (|panes: Seq<PaneView>| tab_pane_items(panes)),
            seq_view(items@) == before + all.take(i as int).flat_map(items_of),
        decreases tabs.len() - i,
    {
        proof {
            all.lemma_flat_map_take_append(items_of, i as int);
        }
        push_tab_pane_items(&tabs[i], items);
        i = i + 1;
        assert(seq_view(items@) =~= before + all.take(i as int).flat_map(items_of));
    }
    assert(all.take(all.len() as int) =~= all);
}

/// Adds the refresh items of the panes of a tab.
fn push_tab_pane_items(tab: &Tab, items: &mut Vec<GitRefreshItem>)
    ensures
        seq_view(final(items)@) == seq_view(old(items)@) + tab_pane_items(tab@),
{
    let panes = tab.panes();
    let ghost before = seq_view(items@);
    let ghost item_of = |pane: PaneView| pane.refresh_item();
    let mut i: usize = 0;
    proof {
        assert(tab@.take(0) =~= Seq::empty());
        assert(seq_view(items@) =~= before + tab@.take(0).filter_map(item_of));
    }
    while i < panes.len()
        invariant
            i <= panes.len(),
            seq_view(panes@) == tab@,
            item_of == (|pane: PaneView| pane.refresh_item()),
            seq_view(items@) == before + tab@.take(i as int).filter_map(item_of),
        decreases panes.len() - i,
    {
        let pane = &panes[i];
        let ghost earlier = seq_view(items@);
        proof {
            tab@.lemma_filter_map_take_succ(item_of, i as int);
            assert(tab@[i as int] == pane@);
        }
        match &pane.git_cwd {
            Some(cwd) => {
                let item = GitRefreshItem {
                    target: GitRefreshTarget::Pane { pane_id: pane.pane_id, cwd: cwd.clone() },
                    cache_key_hint: None,
                };
                assert(item_of(pane@) == Some(item@));
                items.push(item);
                assert(seq_view(items@) =~= earlier + seq![item@]);
            },
            None => {},
        }
        i = i + 1;
        assert(seq_view(items@) =~= before + tab@.take(i as int).filter_map(item_of));
    }
    assert(tab@.take(tab@.len() as int) =~= tab@);
}

} // verus!
