//! How each step of the scheduler changes its state, field by field.
use vstd::prelude::*;

use crate::app::AppView;
use crate::cache::CacheView;
use crate::path::PathView;
use crate::sidebar::{AgentSidebarToken, AgentsView, SpaceSidebarToken};
use crate::status::GitStatusRefreshDemand;
use crate::workspace::PaneView;

verus! {

/// A token stands somewhere in the workspace rows.
pub open spec fn in_spaces(
    spaces: Seq<Seq<SpaceSidebarToken>>,
    token: SpaceSidebarToken,
) -> bool {
    exists|row: int, place: int|
        0 <= row < spaces.len() && 0 <= place < spaces[row].len() && #[trigger] spaces[row][place]
            == token
}

/// A token stands somewhere in an agent layout.
pub open spec fn in_layout(layout: Seq<Seq<AgentSidebarToken>>, token: AgentSidebarToken) -> bool {
    exists|row: int, place: int|
        0 <= row < layout.len() && 0 <= place < layout[row].len() && #[trigger] layout[row][place]
            == token
}

/// A token stands somewhere in the agent layouts, the common one or that of a
/// single agent.
pub open spec fn in_agents(agents: AgentsView, token: AgentSidebarToken) -> bool {
    ||| in_layout(agents.rows, token)
    ||| exists|agent: Seq<char>| #[trigger]
        agents.rows_by_agent.contains_key(agent) && in_layout(agents.rows_by_agent[agent], token)
}

/// The branch is displayed exactly for a branch token in the workspace rows and
/// for a branch, repository or worktree token in the agent layouts. The commits
/// ahead and behind are displayed exactly for a status token in the workspace
/// rows.
pub proof fn tokens_decide_what_is_displayed(app: AppView)
    ensures
        app.demand().ahead_behind <==> in_spaces(app.spaces, SpaceSidebarToken::GitStatus),
        app.demand().branch <==> in_spaces(app.spaces, SpaceSidebarToken::Branch) || in_agents(
            app.agents,
            AgentSidebarToken::Branch,
        ) || in_agents(app.agents, AgentSidebarToken::Repo) || in_agents(
            app.agents,
            AgentSidebarToken::Worktree,
        ),
        app.demand().asks_nothing() <==> !app.demand().branch && !app.demand().ahead_behind,
{
    let branch = |token: SpaceSidebarToken| token == SpaceSidebarToken::Branch;
    let status = |token: SpaceSidebarToken| token == SpaceSidebarToken::GitStatus;
    lemma_spaces_show(app.spaces, SpaceSidebarToken::Branch, branch);
    lemma_spaces_show(app.spaces, SpaceSidebarToken::GitStatus, status);
    lemma_layout_shows(app.agents.rows);
    assert forall|agent: Seq<char>| #[trigger]
        app.agents.rows_by_agent.contains_key(agent) implies crate::sidebar::rows_show(
        app.agents.rows_by_agent[agent],
        |token: AgentSidebarToken| crate::sidebar::reads_pane_repository(token),
    ) == (in_layout(app.agents.rows_by_agent[agent], AgentSidebarToken::Branch) || in_layout(
        app.agents.rows_by_agent[agent],
        AgentSidebarToken::Repo,
    ) || in_layout(app.agents.rows_by_agent[agent], AgentSidebarToken::Worktree)) by {
        lemma_layout_shows(app.agents.rows_by_agent[agent]);
    }
}

proof fn lemma_spaces_show(
    spaces: Seq<Seq<SpaceSidebarToken>>,
    token: SpaceSidebarToken,
    wanted: spec_fn(SpaceSidebarToken) -> bool,
)
    requires
        forall|t: SpaceSidebarToken| #[trigger] wanted(t) <==> t == token,
    ensures
        crate::sidebar::rows_show(spaces, wanted) <==> in_spaces(spaces, token),
{
    if in_spaces(spaces, token) {
        let (row, place) = choose|row: int, place: int|
            0 <= row < spaces.len() && 0 <= place < spaces[row].len() && #[trigger] spaces[row][place]
                == token;
        assert(wanted(spaces[row][place]));
    }
}

proof fn lemma_layout_shows(layout: Seq<Seq<AgentSidebarToken>>)
    ensures
        crate::sidebar::rows_show(
            layout,
            |token: AgentSidebarToken| crate::sidebar::reads_pane_repository(token),
        ) == (in_layout(layout, AgentSidebarToken::Branch) || in_layout(
            layout,
            AgentSidebarToken::Repo,
        ) || in_layout(layout, AgentSidebarToken::Worktree)),
{
    let wanted = |token: AgentSidebarToken| crate::sidebar::reads_pane_repository(token);
    assert forall|row: int, place: int|
        0 <= row < layout.len() && 0 <= place < layout[row].len() && (
        #[trigger] layout[row][place] == AgentSidebarToken::Branch || layout[row][place]
            == AgentSidebarToken::Repo || layout[row][place]
            == AgentSidebarToken::Worktree) implies crate::sidebar::rows_show(layout, wanted) by {
        assert(wanted(layout[row][place]));
    }
    if crate::sidebar::rows_show(layout, wanted) {
        let (row, place) = choose|row: int, place: int|
            0 <= row < layout.len() && 0 <= place < layout[row].len() && wanted(
                #[trigger] layout[row][place],
            );
        let token = layout[row][place];
        assert(in_layout(layout, token));
    }
}

/// There is a next refresh exactly if none is under way, there are workspaces,
/// and something is displayed or an identity refresh was asked for. It is due
/// one interval after the last one.
pub proof fn next_refresh_is_an_interval_after_the_last(app: AppView)
    ensures
        app.deadline() is Some <==> {
            &&& !app.in_flight
            &&& app.workspaces.len() != 0
            &&& app.identity_requested || app.demand().branch || app.demand().ahead_behind
        },
        app.deadline() is Some ==> app.deadline()->0 == app.last_remote_status
            + app.remote_status_interval,
{
}

/// A refresh that starts at `now` discovers checkouts anew: an identity refresh
/// was asked for, or the discovery interval has passed.
pub open spec fn must_discover(app: AppView, now: u64) -> bool {
    ||| app.identity_requested
    ||| app.repo_discovery_interval == 0
    ||| app.last_repo_discovery + app.repo_discovery_interval <= now
}

proof fn lemma_started(app: AppView, now: u64, asked: GitStatusRefreshDemand)
    requires
        asked.branch == (app.demand().branch || app.identity_requested),
        asked.ahead_behind == app.demand().ahead_behind,
    ensures
        app.started_demand() == asked,
        app.rediscovers(now) == must_discover(app, now),
        app.started_items(now) == app.items(must_discover(app, now), asked),
{
}

/// A refresh that starts asks for all that is displayed and for nothing else,
/// but that an identity refresh asks for the branch too.
pub proof fn started_refresh_asks_for_what_is_displayed(app: AppView, now: u64)
    requires
        app.started(now) is Some,
    ensures
        app.started(now)->0.demand.ahead_behind <==> app.demand().ahead_behind,
        app.started(now)->0.demand.branch <==> app.demand().branch || app.identity_requested,
        app.started(now)->0.demand.ahead_behind <==> in_spaces(
            app.spaces,
            SpaceSidebarToken::GitStatus,
        ),
        in_spaces(app.spaces, SpaceSidebarToken::Branch) ==> app.started(now)->0.demand.branch,
{
    tokens_decide_what_is_displayed(app);
}

/// A refresh that starts takes all that is cached along, and looks at the items
/// for what it asks. It takes known checkouts as such exactly if no identity
/// refresh was asked for and the discovery interval has not passed.
pub proof fn started_refresh_takes_items_and_cache_along(app: AppView, now: u64)
    requires
        app.started(now) is Some,
    ensures
        app.started(now)->0.cache == app.cache,
        app.started(now)->0.items == app.items(must_discover(app, now), app.started(now)->0.demand),
{
    lemma_started(
        app,
        now,
        GitStatusRefreshDemand {
            branch: app.demand().branch || app.identity_requested,
            ahead_behind: app.demand().ahead_behind,
        },
    );
}

/// Some workspace has a directory.
pub open spec fn has_located_workspace(app: AppView) -> bool {
    exists|i: int|
        0 <= i < app.workspaces.len() && (
        #[trigger] app.workspaces[i]).resolved_identity_cwd is Some
}

/// Some pane has a directory.
pub open spec fn has_located_pane(app: AppView) -> bool {
    exists|w: int, t: int, p: int|
        0 <= w < app.workspaces.len() && 0 <= t < app.workspaces[w].tabs.len() && 0 <= p
            < app.workspaces[w].tabs[t].len() && (
        #[trigger] app.workspaces[w].tabs[t][p]).git_cwd is Some
}

/// The time of a refresh has come: none is under way, there are workspaces, the
/// interval since the last one has passed, and something is displayed or an
/// identity refresh was asked for.
pub open spec fn time_has_come(app: AppView, now: u64) -> bool {
    &&& !app.in_flight
    &&& app.workspaces.len() != 0
    &&& app.last_remote_status + app.remote_status_interval <= now
    &&& app.identity_requested || app.demand().branch || app.demand().ahead_behind
}

/// There is something to look at: a workspace with a directory or, where the
/// branch is displayed or an identity refresh was asked for, a pane with one.
pub open spec fn has_something_to_look_at(app: AppView) -> bool {
    ||| has_located_workspace(app)
    ||| (app.demand().branch || app.identity_requested) && has_located_pane(app)
}

/// A refresh starts exactly if its time has come and there is something to look
/// at.
pub proof fn refresh_starts_when_its_time_has_come(app: AppView, now: u64)
    ensures
        app.started(now) is Some <==> time_has_come(app, now) && has_something_to_look_at(app),
{
    let asked = GitStatusRefreshDemand {
        branch: app.demand().branch || app.identity_requested,
        ahead_behind: app.demand().ahead_behind,
    };
    lemma_started(app, now, asked);
    crate::item_laws::nothing_to_look_at(app, must_discover(app, now), asked);
    assert(app.due(now) <==> time_has_come(app, now));
    if app.items(must_discover(app, now), asked).len() == 0 {
        assert(!has_something_to_look_at(app));
    } else {
        assert(has_something_to_look_at(app));
    }
}

/// What testing the time does to the state.
/// - Before the time of a refresh nothing changes.
/// - A refresh that starts is under way; the identity refresh is no longer asked
///   for; where checkouts are discovered anew, the discovery interval starts.
/// - Where there is nothing to look at, the refresh counts as made.
/// - All else stays as it is.
pub proof fn testing_the_time_field_by_field(app: AppView, now: u64)
    ensures
        ({
            let next = app.after_tick(now);
            let starts = time_has_come(app, now) && has_something_to_look_at(app);
            let ends_at_once = time_has_come(app, now) && !has_something_to_look_at(app);
            &&& next.workspaces == app.workspaces
            &&& next.spaces == app.spaces
            &&& next.agents == app.agents
            &&& next.cache == app.cache
            &&& next.remote_status_interval == app.remote_status_interval
            &&& next.repo_discovery_interval == app.repo_discovery_interval
            &&& next.due_after_in_flight == app.due_after_in_flight
            &&& next.in_flight <==> app.in_flight || starts
            &&& next.identity_requested <==> app.identity_requested && !time_has_come(app, now)
            &&& next.last_repo_discovery == if starts && must_discover(app, now) {
                now
            } else {
                app.last_repo_discovery
            }
            &&& next.last_remote_status == if ends_at_once {
                now
            } else {
                app.last_remote_status
            }
        }),
{
    refresh_starts_when_its_time_has_come(app, now);
    lemma_started(
        app,
        now,
        GitStatusRefreshDemand {
            branch: app.demand().branch || app.identity_requested,
            ahead_behind: app.demand().ahead_behind,
        },
    );
    assert(app.due(now) <==> time_has_come(app, now));
}

/// `kept` is what stays of `cache` when exactly the answers that no repository
/// stands behind are forgotten.
pub open spec fn forgets_answers_without_repository(cache: CacheView, kept: CacheView) -> bool {
    &&& forall|key: PathView| #[trigger]
        kept.contains_key(key) <==> cache.contains_key(key) && cache[key].fingerprint is Some
    &&& forall|key: PathView| #[trigger] kept.contains_key(key) ==> kept[key] == cache[key]
}

/// What asking for a refresh does to the state.
/// - The cached answers that no repository stands behind are forgotten.
/// - While a refresh is under way, another is wanted after it, and the time of
///   the last one stands.
/// - Otherwise the last refresh counts as an interval ago, where the clock
///   reaches back so far, and as made now where it does not.
/// - All else stays as it is.
pub proof fn asking_field_by_field(app: AppView, now: u64)
    ensures
        ({
            let next = app.after_mark_due(now);
            &&& forgets_answers_without_repository(app.cache, next.cache)
            &&& next.workspaces == app.workspaces
            &&& next.spaces == app.spaces
            &&& next.agents == app.agents
            &&& next.remote_status_interval == app.remote_status_interval
            &&& next.repo_discovery_interval == app.repo_discovery_interval
            &&& next.last_repo_discovery == app.last_repo_discovery
            &&& next.identity_requested == app.identity_requested
            &&& next.in_flight == app.in_flight
            &&& next.due_after_in_flight == app.in_flight
            &&& app.in_flight ==> next.last_remote_status == app.last_remote_status
            &&& !app.in_flight && app.remote_status_interval <= now ==> next.last_remote_status
                + app.remote_status_interval == now
            &&& !app.in_flight && now < app.remote_status_interval ==> next.last_remote_status
                == now
        }),
{
}

/// Asking for an identity refresh is asking for a refresh, and leaves the
/// request behind.
pub proof fn asking_for_identity_field_by_field(app: AppView, now: u64)
    ensures
        ({
            let next = app.after_identity_request(now);
            &&& next.identity_requested
            &&& forgets_answers_without_repository(app.cache, next.cache)
            &&& next.workspaces == app.workspaces
            &&& next.spaces == app.spaces
            &&& next.agents == app.agents
            &&& next.remote_status_interval == app.remote_status_interval
            &&& next.repo_discovery_interval == app.repo_discovery_interval
            &&& next.last_repo_discovery == app.last_repo_discovery
            &&& next.in_flight == app.in_flight
            &&& next.due_after_in_flight == app.in_flight
            &&& app.in_flight ==> next.last_remote_status == app.last_remote_status
            &&& !app.in_flight && app.remote_status_interval <= now ==> next.last_remote_status
                + app.remote_status_interval == now
            &&& !app.in_flight && now < app.remote_status_interval ==> next.last_remote_status
                == now
        }),
{
}

/// What the end of a refresh does to the state.
/// - None is under way or wanted after it any more.
/// - Where none was wanted, the last refresh is made now, and the cache stands.
/// - Where one was wanted, the cached answers that no repository stands behind
///   are forgotten, and the last refresh counts as an interval ago, where the
///   clock reaches back so far.
/// - All else stays as it is.
pub proof fn end_of_refresh_field_by_field(app: AppView, now: u64)
    ensures
        ({
            let next = app.after_refreshed(now);
            &&& !next.in_flight
            &&& !next.due_after_in_flight
            &&& next.workspaces == app.workspaces
            &&& next.spaces == app.spaces
            &&& next.agents == app.agents
            &&& next.remote_status_interval == app.remote_status_interval
            &&& next.repo_discovery_interval == app.repo_discovery_interval
            &&& next.last_repo_discovery == app.last_repo_discovery
            &&& next.identity_requested == app.identity_requested
            &&& !app.due_after_in_flight ==> next.cache == app.cache
            &&& app.due_after_in_flight ==> forgets_answers_without_repository(
                app.cache,
                next.cache,
            )
            &&& !app.due_after_in_flight || now < app.remote_status_interval
                ==> next.last_remote_status == now
            &&& app.due_after_in_flight && app.remote_status_interval <= now
                ==> next.last_remote_status + app.remote_status_interval == now
        }),
{
}

/// The directories of panes are wanted exactly if the time of a refresh has come
/// that asks for the branch.
pub proof fn pane_directories_are_wanted_for_the_branch(app: AppView, now: u64)
    ensures
        app.looks_at_panes(now) <==> time_has_come(app, now) && (app.demand().branch
            || app.identity_requested),
{
}

/// A pane that is added to a tab stands there once, in the place of the one with
/// its identity or else at the end; every other pane stays where it is.
pub proof fn added_pane_stands_in_its_tab(panes: Seq<PaneView>, pane: PaneView)
    requires
        crate::workspace::panes_distinct(panes),
    ensures
        ({
            let next = crate::workspace::with_pane(panes, pane);
            let known = exists|i: int|
                0 <= i < panes.len() && (#[trigger] panes[i]).pane_id == pane.pane_id;
            &&& next.contains(pane)
            &&& next.len() == if known {
                panes.len()
            } else {
                panes.len() + 1
            }
            &&& forall|i: int|
                0 <= i < panes.len() && (#[trigger] panes[i]).pane_id != pane.pane_id ==> next[i]
                    == panes[i]
            &&& forall|i: int|
                0 <= i < panes.len() && (#[trigger] panes[i]).pane_id == pane.pane_id ==> next[i]
                    == pane
            &&& forall|i: int, j: int|
                #![trigger next[i], next[j]]
                0 <= i < j < next.len() ==> next[i].pane_id != next[j].pane_id
        }),
{
    let next = crate::workspace::with_pane(panes, pane);
    if exists|i: int| 0 <= i < panes.len() && (#[trigger] panes[i]).pane_id == pane.pane_id {
        let i = choose|i: int| 0 <= i < panes.len() && (#[trigger] panes[i]).pane_id == pane.pane_id;
        assert(next[i] == pane);
        assert forall|a: int, b: int| #![trigger next[a], next[b]] 0 <= a < b < next.len() implies next[a].pane_id
            != next[b].pane_id by {
            assert(panes[a].pane_id != panes[b].pane_id);
        }
    } else {
        assert(next[panes.len() as int] == pane);
    }
}

} // verus!
