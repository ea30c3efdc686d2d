//! What holds of the scheduler as a whole.
use vstd::prelude::*;

use crate::app::AppView;
use crate::path::PathView;
use crate::refresh::{ItemView, TargetView};
use crate::sidebar::{AgentSidebarToken, SpaceSidebarToken};
use crate::status::GitStatusRefreshDemand;
use crate::workspace::{PaneView, WorkspaceView};

verus! {

/// With workspaces, and no refresh under way or asked for, the timer runs
/// exactly while the sidebar displays Git status.
pub proof fn timer_runs_while_something_is_displayed(app: AppView)
    requires
        !app.in_flight,
        !app.identity_requested,
        app.workspaces.len() > 0,
    ensures
        app.deadline() is Some <==> !app.demand().asks_nothing(),
{
}

/// Where nothing displays Git status and no identity refresh was asked for, no
/// refresh starts at any time, and nothing changes.
pub proof fn nothing_starts_without_consumer(app: AppView, now: u64)
    requires
        !app.identity_requested,
        app.demand().asks_nothing(),
    ensures
        app.deadline() is None,
        app.started(now) is None,
        app.after_tick(now) == app,
{
}

/// While a refresh is under way no other starts, and nothing changes.
pub proof fn one_refresh_at_a_time(app: AppView, now: u64)
    requires
        app.in_flight,
    ensures
        app.started(now) is None,
        app.after_tick(now) == app,
{
}

/// A refresh that started is under way, and stays so whatever the time.
pub proof fn started_refresh_is_in_flight(app: AppView, now: u64, later: u64)
    requires
        app.started(now) is Some,
    ensures
        app.after_tick(now).in_flight,
        app.after_tick(now).started(later) is None,
        app.after_tick(now).after_tick(later) == app.after_tick(now),
{
}

/// Before the deadline no refresh starts, and nothing changes.
pub proof fn nothing_starts_before_deadline(app: AppView, now: u64)
    requires
        app.deadline() is Some,
        now < app.deadline()->0,
    ensures
        app.started(now) is None,
        app.after_tick(now) == app,
{
}

/// What the workspaces are called, where they are and what they hold does not
/// decide when a refresh is due; that there are some does.
pub proof fn workspaces_count_only_by_presence(app: AppView, workspaces: Seq<WorkspaceView>)
    requires
        (app.workspaces.len() > 0) == (workspaces.len() > 0),
    ensures
        (AppView { workspaces, ..app }).demand() == app.demand(),
        (AppView { workspaces, ..app }).deadline() == app.deadline(),
{
}

/// A branch, repository or worktree token anywhere in the agent layouts, the
/// common one or that of a single agent, keeps the timer running and has every
/// pane looked at.
pub proof fn agent_git_token_keeps_panes_refreshed(
    app: AppView,
    refresh_repo_discovery: bool,
    layout: Seq<Seq<AgentSidebarToken>>,
    row: int,
    place: int,
)
    requires
        layout == app.agents.rows || exists|agent: Seq<char>| #[trigger]
            app.agents.rows_by_agent.contains_key(agent) && app.agents.rows_by_agent[agent]
                == layout,
        0 <= row < layout.len(),
        0 <= place < layout[row].len(),
        crate::sidebar::reads_pane_repository(layout[row][place]),
    ensures
        app.demand().branch,
        !app.in_flight && app.workspaces.len() > 0 ==> app.deadline() is Some,
        app.items(refresh_repo_discovery, app.demand()) == app.workspace_items(
            refresh_repo_discovery,
        ) + app.pane_items(),
{
    let pred = |token: AgentSidebarToken| crate::sidebar::reads_pane_repository(token);
    assert(pred(layout[row][place]));
    assert(crate::sidebar::rows_show(layout, pred));
}

/// Layouts without any Git token display nothing of Git.
pub proof fn layouts_without_git_tokens_display_nothing(app: AppView)
    requires
        forall|row: int, place: int|
            0 <= row < app.spaces.len() && 0 <= place < app.spaces[row].len() ==> (
            #[trigger] app.spaces[row][place]) != SpaceSidebarToken::Branch
                && app.spaces[row][place] != SpaceSidebarToken::GitStatus,
        forall|row: int, place: int|
            0 <= row < app.agents.rows.len() && 0 <= place < app.agents.rows[row].len()
                ==> !crate::sidebar::reads_pane_repository(
                #[trigger] app.agents.rows[row][place],
            ),
        forall|agent: Seq<char>, row: int, place: int|
            app.agents.rows_by_agent.contains_key(agent) && 0 <= row
                < app.agents.rows_by_agent[agent].len() && 0 <= place
                < app.agents.rows_by_agent[agent][row].len()
                ==> !crate::sidebar::reads_pane_repository(
                #[trigger] app.agents.rows_by_agent[agent][row][place],
            ),
    ensures
        app.demand().asks_nothing(),
{
}

/// A branch token or a status token anywhere in the workspace rows asks for what
/// it displays.
pub proof fn space_token_is_displayed(app: AppView, row: int, place: int)
    requires
        0 <= row < app.spaces.len(),
        0 <= place < app.spaces[row].len(),
    ensures
        app.spaces[row][place] == SpaceSidebarToken::Branch ==> app.demand().branch,
        app.spaces[row][place] == SpaceSidebarToken::GitStatus ==> app.demand().ahead_behind,
{
    let branch = |token: SpaceSidebarToken| token == SpaceSidebarToken::Branch;
    let status = |token: SpaceSidebarToken| token == SpaceSidebarToken::GitStatus;
    assert(branch(app.spaces[row][place]) ==> crate::sidebar::rows_show(app.spaces, branch));
    assert(status(app.spaces[row][place]) ==> crate::sidebar::rows_show(app.spaces, status));
}

/// A refresh asked for while none is under way is due at once, if anything
/// displays Git status. The clock has to reach back by one interval.
pub proof fn marked_refresh_is_due_at_once(app: AppView, now: u64)
    requires
        !app.in_flight,
        app.workspaces.len() > 0,
        app.identity_requested || !app.demand().asks_nothing(),
        now >= app.remote_status_interval,
    ensures
        app.after_mark_due(now).deadline() == Some(now as int),
        app.after_mark_due(now).due(now),
{
}

/// An identity refresh asked for while none is under way is due at once, even
/// if nothing displays Git status. The clock has to reach back by one interval.
pub proof fn identity_refresh_is_due_at_once(app: AppView, now: u64)
    requires
        !app.in_flight,
        app.workspaces.len() > 0,
        now >= app.remote_status_interval,
    ensures
        app.after_identity_request(now).deadline() == Some(now as int),
        app.after_identity_request(now).due(now),
{
}

/// An identity refresh runs once: when its time comes the request is taken
/// back, and where nothing displays Git status nothing is due after that,
/// neither while it is under way nor when it has ended.
pub proof fn identity_refresh_runs_once(app: AppView, now: u64, later: u64)
    requires
        app.identity_requested,
        app.due(now),
    ensures
        !app.after_tick(now).identity_requested,
        app.demand().asks_nothing() ==> app.after_tick(now).deadline() is None
            && app.after_tick(now).after_refreshed(later).deadline() is None,
{
}

/// An identity refresh discovers every checkout anew and reports the branch:
/// no item is taken to be in a known checkout, and the panes are looked at.
pub proof fn identity_refresh_rediscovers(app: AppView, now: u64)
    requires
        app.identity_requested,
        app.started(now) is Some,
    ensures
        app.started(now)->0.demand.branch,
        app.started(now)->0.items == app.workspace_items(true) + app.pane_items(),
        forall|i: int|
            0 <= i < app.started(now)->0.items.len() ==> (
            #[trigger] app.started(now)->0.items[i]).cache_key_hint is None,
        app.after_tick(now).last_repo_discovery == now,
{
    rediscovery_ignores_known_checkouts(app, app.started_demand());
}

/// Once the discovery interval has passed, the next refresh discovers every
/// checkout anew, and the interval starts again.
pub proof fn discovery_is_periodic(app: AppView, now: u64)
    requires
        app.started(now) is Some,
        now >= app.last_repo_discovery + app.repo_discovery_interval,
    ensures
        forall|i: int|
            0 <= i < app.started(now)->0.items.len() ==> (
            #[trigger] app.started(now)->0.items[i]).cache_key_hint is None,
        app.after_tick(now).last_repo_discovery == now,
{
    rediscovery_ignores_known_checkouts(app, app.started_demand());
}

/// A refresh asked for while one is under way is not lost. When that one ends
/// the next is due at once, if anything displays Git status. The clock has to
/// reach back by one interval.
pub proof fn due_request_survives_refresh_in_flight(app: AppView, asked: u64, ended: u64)
    requires
        app.in_flight,
    ensures
        app.after_mark_due(asked).in_flight,
        app.after_mark_due(asked).due_after_in_flight,
        !app.after_mark_due(asked).after_refreshed(ended).in_flight,
        !app.after_mark_due(asked).after_refreshed(ended).due_after_in_flight,
        ended >= app.remote_status_interval && app.workspaces.len() > 0 && (app.identity_requested
            || !app.demand().asks_nothing()) ==> app.after_mark_due(asked).after_refreshed(
            ended,
        ).deadline() == Some(ended as int),
{
}

/// An identity refresh asked for while a refresh is under way is not lost
/// either: it is due when that one ends. The clock has to reach back by one
/// interval.
pub proof fn identity_request_survives_refresh_in_flight(app: AppView, asked: u64, ended: u64)
    requires
        app.in_flight,
        app.workspaces.len() > 0,
        ended >= app.remote_status_interval,
    ensures
        app.after_identity_request(asked).after_refreshed(ended).identity_requested,
        app.after_identity_request(asked).after_refreshed(ended).due(ended),
{
}

/// Without a request in between, the next refresh comes a whole interval after
/// the end of the last one.
pub proof fn refreshes_are_an_interval_apart(app: AppView, ended: u64)
    requires
        app.in_flight,
        !app.due_after_in_flight,
        app.after_refreshed(ended).deadline() is Some,
    ensures
        app.after_refreshed(ended).deadline() == Some(ended + app.remote_status_interval),
{
}

/// A refresh that finds nothing to look at counts as made: the next one comes a
/// whole interval later.
pub proof fn empty_refresh_waits_for_interval(app: AppView, now: u64)
    requires
        app.due(now),
        app.started(now) is None,
        app.after_tick(now).deadline() is Some,
    ensures
        !app.after_tick(now).in_flight,
        app.after_tick(now).deadline() == Some(now + app.remote_status_interval),
{
}

/// Asking for a refresh forgets exactly the answers that no repository stands
/// behind; every other answer stays as it is.
pub proof fn asking_forgets_answers_without_repository(app: AppView, now: u64, key: PathView)
    ensures
        app.after_mark_due(now).cache.contains_key(key) <==> app.cache.contains_key(key)
            && app.cache[key].fingerprint is Some,
        app.after_mark_due(now).cache.contains_key(key) ==> app.after_mark_due(now).cache[key]
            == app.cache[key],
        app.after_identity_request(now).cache == app.after_mark_due(now).cache,
{
}

/// Asking twice at one time is asking once.
pub proof fn asking_twice_is_asking_once(app: AppView, now: u64)
    ensures
        app.after_mark_due(now).after_mark_due(now) == app.after_mark_due(now),
        app.after_identity_request(now).after_identity_request(now) == app.after_identity_request(
            now,
        ),
{
    let once = app.after_mark_due(now);
    assert(crate::cache::fingerprinted_only(once.cache) =~= once.cache);
    assert(once.after_mark_due(now) =~= once);
    let request = app.after_identity_request(now);
    assert(crate::cache::fingerprinted_only(request.cache) =~= request.cache);
    assert(request.after_identity_request(now) =~= request);
}

/// Two states have the same workspaces, layouts and intervals.
pub open spec fn same_surroundings(first: AppView, second: AppView) -> bool {
    &&& first.workspaces == second.workspaces
    &&& first.spaces == second.spaces
    &&& first.agents == second.agents
    &&& first.remote_status_interval == second.remote_status_interval
    &&& first.repo_discovery_interval == second.repo_discovery_interval
}

/// The scheduler never changes the workspaces, the layouts or the intervals.
pub proof fn scheduling_leaves_surroundings_alone(app: AppView, now: u64)
    ensures
        same_surroundings(app, app.after_tick(now)),
        same_surroundings(app, app.after_mark_due(now)),
        same_surroundings(app, app.after_identity_request(now)),
        same_surroundings(app, app.after_refreshed(now)),
{
}

proof fn lemma_filter_map_all<A, B>(
    s: Seq<A>,
    f: spec_fn(A) -> Option<B>,
    property: spec_fn(B) -> bool,
)
    requires
        forall|a: A| (#[trigger] f(a)) is Some ==> property(f(a)->0),
    ensures
        forall|i: int| 0 <= i < s.filter_map(f).len() ==> property(#[trigger] s.filter_map(f)[i]),
{
    let out = s.filter_map(f);
    assert forall|i: int| 0 <= i < out.len() implies property(#[trigger] out[i]) by {
        assert(out.contains(out[i]));
        s.lemma_filter_map_contains(f, out[i]);
    }
}

proof fn lemma_flat_map_all<A, B>(
    s: Seq<A>,
    f: spec_fn(A) -> Seq<B>,
    property: spec_fn(B) -> bool,
)
    requires
        forall|a: A, i: int| 0 <= i < f(a).len() ==> property(#[trigger] f(a)[i]),
    ensures
        forall|i: int| 0 <= i < s.flat_map(f).len() ==> property(#[trigger] s.flat_map(f)[i]),
    decreases s.len(),
{
    if s.len() > 0 {
        let rest = s.drop_last();
        lemma_flat_map_all(rest, f, property);
        rest.lemma_flat_map_push(f, s.last());
        assert(rest.push(s.last()) =~= s);
        let out = s.flat_map(f);
        assert forall|i: int| 0 <= i < out.len() implies property(#[trigger] out[i]) by {
            if i < rest.flat_map(f).len() {
                assert(out[i] == rest.flat_map(f)[i]);
            } else {
                assert(out[i] == f(s.last())[i - rest.flat_map(f).len()]);
            }
        }
    }
}

/// A refresh item of a pane.
pub open spec fn is_pane_item(item: ItemView) -> bool {
    item.target is Pane && item.cache_key_hint is None
}

/// Every item collected for a pane names a pane, and none is taken to be in a
/// known checkout.
pub proof fn pane_items_are_always_discovered(app: AppView)
    ensures
        forall|i: int|
            0 <= i < app.pane_items().len() ==> is_pane_item(#[trigger] app.pane_items()[i]),
{
    let wanted = |item: ItemView| is_pane_item(item);
    let item_of = |pane: PaneView| pane.refresh_item();
    let of_tab = |panes: Seq<PaneView>| crate::app::tab_pane_items(panes);
    let of_workspace = |ws: WorkspaceView| crate::app::workspace_pane_items(ws.tabs);
    assert forall|panes: Seq<PaneView>, i: int| 0 <= i < of_tab(panes).len() implies wanted(
        #[trigger] of_tab(panes)[i],
    ) by {
        lemma_filter_map_all(panes, item_of, wanted);
        assert(wanted(panes.filter_map(item_of)[i]));
    }
    assert forall|ws: WorkspaceView, i: int| 0 <= i < of_workspace(ws).len() implies wanted(
        #[trigger] of_workspace(ws)[i],
    ) by {
        lemma_flat_map_all(ws.tabs, of_tab, wanted);
        assert(wanted(ws.tabs.flat_map(of_tab)[i]));
    }
    lemma_flat_map_all(app.workspaces, of_workspace, wanted);
    assert forall|i: int| 0 <= i < app.pane_items().len() implies is_pane_item(
        #[trigger] app.pane_items()[i],
    ) by {
        assert(wanted(app.workspaces.flat_map(of_workspace)[i]));
    }
}

/// Panes are looked at only while something displays what they are asked for.
pub proof fn panes_are_left_alone_without_branch_demand(
    app: AppView,
    refresh_repo_discovery: bool,
    demand: GitStatusRefreshDemand,
)
    requires
        !demand.branch,
    ensures
        forall|i: int|
            0 <= i < app.items(refresh_repo_discovery, demand).len() ==> (
            #[trigger] app.items(refresh_repo_discovery, demand)[i]).target is Workspace,
{
    let item_of = |ws: WorkspaceView| ws.refresh_item(refresh_repo_discovery);
    let wanted = |item: ItemView| item.target is Workspace;
    lemma_filter_map_all(app.workspaces, item_of, wanted);
    let items = app.items(refresh_repo_discovery, demand);
    assert(items =~= app.workspace_items(refresh_repo_discovery));
    assert forall|i: int| 0 <= i < items.len() implies (#[trigger] items[i]).target is Workspace by {
        assert(wanted(app.workspaces.filter_map(item_of)[i]));
    }
}

proof fn lemma_filter_map_agrees<A, B>(s: Seq<A>, t: Seq<A>, f: spec_fn(A) -> Option<B>, n: int)
    requires
        s.len() == t.len(),
        forall|i: int| 0 <= i < s.len() ==> f(#[trigger] s[i]) == f(t[i]),
        0 <= n <= s.len(),
    ensures
        s.take(n).filter_map(f) == t.take(n).filter_map(f),
    decreases n,
{
    if n == 0 {
        assert(s.take(0) =~= t.take(0));
    } else {
        lemma_filter_map_agrees(s, t, f, n - 1);
        s.lemma_filter_map_take_succ(f, n - 1);
        t.lemma_filter_map_take_succ(f, n - 1);
        assert(f(s[n - 1]) == f(t[n - 1]));
    }
}

/// Two sequences of workspaces differ at most in their tabs.
pub open spec fn same_but_for_tabs(
    first: Seq<WorkspaceView>,
    second: Seq<WorkspaceView>,
) -> bool {
    &&& first.len() == second.len()
    &&& forall|i: int|
        0 <= i < first.len() ==> (#[trigger] first[i]) == (WorkspaceView {
            tabs: first[i].tabs,
            ..second[i]
        })
}

/// Without branch demand the tabs of the workspaces, their panes and where the
/// panes are make no difference to what is looked at.
pub proof fn tabs_are_not_read_without_branch_demand(
    app: AppView,
    others: Seq<WorkspaceView>,
    refresh_repo_discovery: bool,
    demand: GitStatusRefreshDemand,
)
    requires
        !demand.branch,
        same_but_for_tabs(others, app.workspaces),
    ensures
        (AppView { workspaces: others, ..app }).items(refresh_repo_discovery, demand) == app.items(
            refresh_repo_discovery,
            demand,
        ),
{
    let item_of = |ws: WorkspaceView| ws.refresh_item(refresh_repo_discovery);
    lemma_filter_map_agrees(others, app.workspaces, item_of, others.len() as int);
    assert(others.take(others.len() as int) =~= others);
    assert(app.workspaces.take(app.workspaces.len() as int) =~= app.workspaces);
}

/// Unless a refresh is due that looks at the panes, the tabs of the workspaces,
/// their panes and where the panes are make no difference to whether a refresh
/// starts, to the refresh that does, and to the state after it.
pub proof fn panes_need_not_be_known_unless_wanted(
    app: AppView,
    others: Seq<WorkspaceView>,
    now: u64,
)
    requires
        !app.looks_at_panes(now),
        same_but_for_tabs(others, app.workspaces),
    ensures
        (AppView { workspaces: others, ..app }).started(now) == app.started(now),
        (AppView { workspaces: others, ..app }).after_tick(now) == (AppView {
            workspaces: others,
            ..app.after_tick(now)
        }),
{
    workspaces_count_only_by_presence(app, others);
    if app.due(now) {
        tabs_are_not_read_without_branch_demand(
            app,
            others,
            app.rediscovers(now),
            app.started_demand(),
        );
    }
}

/// When checkouts are discovered anew, no item is taken to be in a known one.
pub proof fn rediscovery_ignores_known_checkouts(app: AppView, demand: GitStatusRefreshDemand)
    ensures
        forall|i: int|
            0 <= i < app.items(true, demand).len() ==> (#[trigger] app.items(
                true,
                demand,
            )[i]).cache_key_hint is None,
{
    let item_of = |ws: WorkspaceView| ws.refresh_item(true);
    let wanted = |item: ItemView| item.cache_key_hint is None;
    lemma_filter_map_all(app.workspaces, item_of, wanted);
    pane_items_are_always_discovered(app);
    let items = app.items(true, demand);
    assert forall|i: int| 0 <= i < items.len() implies (
    #[trigger] items[i]).cache_key_hint is None by {
        if i < app.workspace_items(true).len() {
            assert(items[i] == app.workspace_items(true)[i]);
            assert(wanted(app.workspaces.filter_map(item_of)[i]));
        } else {
            assert(items[i] == app.pane_items()[i - app.workspace_items(true).len()]);
        }
    }
}

/// An item is taken to be in a known checkout only for a workspace whose last
/// refresh was for the same directory, and then the checkout is the one that
/// answered that refresh.
pub proof fn known_checkout_comes_from_last_refresh(
    app: AppView,
    refresh_repo_discovery: bool,
    demand: GitStatusRefreshDemand,
    i: int,
)
    requires
        0 <= i < app.items(refresh_repo_discovery, demand).len(),
        app.items(refresh_repo_discovery, demand)[i].cache_key_hint is Some,
    ensures
        exists|ws: WorkspaceView|
            {
                &&& #[trigger] app.workspaces.contains(ws)
                &&& app.items(refresh_repo_discovery, demand)[i].target == (
                TargetView::Workspace {
                    workspace_id: ws.id,
                    resolved_identity_cwd: ws.cached_identity_cwd,
                })
                &&& app.items(refresh_repo_discovery, demand)[i].cache_key_hint == Some(
                    ws.cached_git_status_key,
                )
            },
{
    let item_of = |ws: WorkspaceView| ws.refresh_item(refresh_repo_discovery);
    let items = app.items(refresh_repo_discovery, demand);
    let of_workspaces = app.workspace_items(refresh_repo_discovery);
    pane_items_are_always_discovered(app);
    if i >= of_workspaces.len() {
        assert(items[i] == app.pane_items()[i - of_workspaces.len()]);
    }
    assert(items[i] == of_workspaces[i]);
    assert(of_workspaces.contains(items[i]));
    app.workspaces.lemma_filter_map_contains(item_of, items[i]);
    let ws = choose|ws: WorkspaceView| #[trigger]
        app.workspaces.contains(ws) && item_of(ws) == Some(items[i]);
    assert(app.workspaces.contains(ws) && item_of(ws) == Some(items[i]));
}

} // verus!
