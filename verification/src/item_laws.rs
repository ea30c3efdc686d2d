//! What a refresh looks at, workspace by workspace and pane by pane.
use vstd::prelude::*;

use crate::app::AppView;
use crate::places::{increasing, increasing_triples};
use crate::refresh::{ItemView, TargetView};
use crate::status::GitStatusRefreshDemand;
use crate::workspace::{PaneView, WorkspaceView};

verus! {

/// `item` is what a refresh looks at for the workspace `ws`: the workspace at
/// the directory that identifies it, with the checkout that answered last taken
/// as known exactly if checkouts are not discovered anew and the directory is
/// still the one of the last refresh.
pub open spec fn looks_at_workspace(
    item: ItemView,
    ws: WorkspaceView,
    refresh_repo_discovery: bool,
) -> bool {
    &&& ws.resolved_identity_cwd is Some
    &&& item.target is Workspace
    &&& item.target->workspace_id == ws.id
    &&& item.target->resolved_identity_cwd == ws.resolved_identity_cwd->0
    &&& item.cache_key_hint is Some <==> !refresh_repo_discovery && ws.cached_identity_cwd
        == ws.resolved_identity_cwd->0
    &&& item.cache_key_hint is Some ==> item.cache_key_hint->0 == ws.cached_git_status_key
}

/// `item` is what a refresh looks at for `pane`: the pane at its directory, in a
/// checkout that is not known.
pub open spec fn looks_at_pane(item: ItemView, pane: PaneView) -> bool {
    &&& pane.git_cwd is Some
    &&& item.target is Pane
    &&& item.target->pane_id == pane.pane_id
    &&& item.target->cwd == pane.git_cwd->0
    &&& item.cache_key_hint is None
}

/// The items of the workspace rows are those of the workspaces that have a
/// directory, of each of them one, in the order of the workspaces. `places` are
/// the places of those workspaces.
pub proof fn located_workspaces_are_looked_at_in_order(
    app: AppView,
    refresh_repo_discovery: bool,
) -> (places: Seq<int>)
    ensures
        places.len() == app.workspace_items(refresh_repo_discovery).len(),
        increasing(places),
        forall|m: int|
            #![trigger places[m]]
            0 <= m < places.len() ==> 0 <= places[m] < app.workspaces.len() && looks_at_workspace(
                app.workspace_items(refresh_repo_discovery)[m],
                app.workspaces[places[m]],
                refresh_repo_discovery,
            ),
        forall|i: int|
            0 <= i < app.workspaces.len() && (
            #[trigger] app.workspaces[i]).resolved_identity_cwd is Some ==> places.contains(i),
{
    let f = |ws: WorkspaceView| ws.refresh_item(refresh_repo_discovery);
    let places = crate::places::lemma_filter_map_places(app.workspaces, f);
    assert forall|i: int|
        0 <= i < app.workspaces.len() && (
        #[trigger] app.workspaces[i]).resolved_identity_cwd is Some implies places.contains(i) by {
        assert(f(app.workspaces[i]) is Some);
    }
    assert forall|m: int| #![trigger places[m]] 0 <= m < places.len() implies 0 <= places[m]
        < app.workspaces.len() && looks_at_workspace(
        app.workspace_items(refresh_repo_discovery)[m],
        app.workspaces[places[m]],
        refresh_repo_discovery,
    ) by {
        assert(f(app.workspaces[places[m]]) == Some(app.workspaces.filter_map(f)[m]));
    }
    places
}

proof fn lemma_tab_places(tabs: Seq<Seq<PaneView>>) -> (places: Seq<(int, int)>)
    ensures
        crate::places::picked_inside(
            tabs,
            |panes: Seq<PaneView>| panes,
            |panes: Seq<PaneView>| |pane: PaneView| pane.refresh_item(),
            crate::app::workspace_pane_items(tabs),
            places,
        ),
{
    let g = |panes: Seq<PaneView>| panes;
    let f = |panes: Seq<PaneView>| |pane: PaneView| pane.refresh_item();
    let h = |panes: Seq<PaneView>| crate::app::tab_pane_items(panes);
    assert forall|panes: Seq<PaneView>| (#[trigger] h(panes)) == g(panes).filter_map(f(panes)) by {
        assert(f(panes) =~= (|pane: PaneView| pane.refresh_item()));
    }
    crate::places::lemma_flat_map_places(tabs, g, f, h)
}

proof fn lemma_pane_places(workspaces: Seq<WorkspaceView>) -> (places: Seq<(int, int, int)>)
    ensures
        ({
            let out = workspaces.flat_map(
                |ws: WorkspaceView| crate::app::workspace_pane_items(ws.tabs),
            );
            &&& places.len() == out.len()
            &&& increasing_triples(places)
            &&& forall|m: int|
                0 <= m < places.len() ==> {
                    let (w, t, p) = #[trigger] places[m];
                    &&& 0 <= w < workspaces.len()
                    &&& 0 <= t < workspaces[w].tabs.len()
                    &&& 0 <= p < workspaces[w].tabs[t].len()
                    &&& looks_at_pane(out[m], workspaces[w].tabs[t][p])
                }
            &&& forall|w: int, t: int, p: int|
                0 <= w < workspaces.len() && 0 <= t < workspaces[w].tabs.len() && 0 <= p
                    < workspaces[w].tabs[t].len() && (
                #[trigger] workspaces[w].tabs[t][p]).git_cwd is Some ==> places.contains((w, t, p))
        }),
    decreases workspaces.len(),
{
    let h = |ws: WorkspaceView| crate::app::workspace_pane_items(ws.tabs);
    let out = workspaces.flat_map(h);
    if workspaces.len() == 0 {
        assert(workspaces.map_values(h) =~= Seq::empty());
        Seq::empty()
    } else {
        let n = workspaces.len() - 1;
        let rest = workspaces.drop_last();
        let last = workspaces.last();
        rest.lemma_flat_map_push(h, last);
        assert(rest.push(last) =~= workspaces);
        let earlier = lemma_pane_places(rest);
        let inner = lemma_tab_places(last.tabs);
        let g = |panes: Seq<PaneView>| panes;
        let f = |panes: Seq<PaneView>| |pane: PaneView| pane.refresh_item();
        let own = Seq::new(inner.len(), |m: int| (n, inner[m].0, inner[m].1));
        let places = earlier + own;
        assert forall|m: int| 0 <= m < places.len() implies ({
            let (w, t, p) = #[trigger] places[m];
            &&& 0 <= w < workspaces.len()
            &&& 0 <= t < workspaces[w].tabs.len()
            &&& 0 <= p < workspaces[w].tabs[t].len()
            &&& looks_at_pane(out[m], workspaces[w].tabs[t][p])
        }) by {
            if m < earlier.len() {
                assert(places[m] == earlier[m]);
                assert(rest[earlier[m].0] == workspaces[earlier[m].0]);
            } else {
                let k = m - earlier.len();
                assert(places[m] == own[k]);
                let (t, p) = inner[k];
                assert(f(last.tabs[t])(g(last.tabs[t])[p]) == Some(out[m]));
            }
        }
        assert forall|w: int, t: int, p: int|
            0 <= w < workspaces.len() && 0 <= t < workspaces[w].tabs.len() && 0 <= p
                < workspaces[w].tabs[t].len() && (
            #[trigger] workspaces[w].tabs[t][p]).git_cwd is Some implies places.contains(
            (w, t, p),
        ) by {
            if w < n {
                assert(rest[w].tabs[t][p].git_cwd is Some);
                assert(earlier.contains((w, t, p)));
                let m = choose|m: int| 0 <= m < earlier.len() && earlier[m] == (w, t, p);
                assert(places[m] == (w, t, p));
            } else {
                assert(f(last.tabs[t])(g(last.tabs[t])[p]) is Some);
                assert(inner.contains((t, p)));
                let m = choose|m: int| 0 <= m < inner.len() && inner[m] == (t, p);
                assert(own[m] == (w, t, p));
                assert(places[earlier.len() + m] == (w, t, p));
            }
        }
        assert forall|a: int, b: int|
            #![trigger places[a], places[b]]
            0 <= a < b < places.len() implies places[a].0 < places[b].0 || (places[a].0
            == places[b].0 && (places[a].1 < places[b].1 || (places[a].1 == places[b].1
            && places[a].2 < places[b].2))) by {
            if b < earlier.len() {
                assert(places[a] == earlier[a] && places[b] == earlier[b]);
            } else if a < earlier.len() {
                assert(places[a] == earlier[a]);
                assert(places[b] == own[b - earlier.len()]);
            } else {
                assert(places[a] == own[a - earlier.len()] && places[b] == own[b - earlier.len()]);
                let (x, y) = (inner[a - earlier.len()], inner[b - earlier.len()]);
                assert(x.0 < y.0 || (x.0 == y.0 && x.1 < y.1));
            }
        }
        places
    }
}

/// The pane items are those of the panes that have a directory, of each of them
/// one, in the order of the workspaces, of the tabs of a workspace and of the
/// panes of a tab. `places` are the places of those panes: workspace, tab, pane.
pub proof fn located_panes_are_looked_at_in_order(app: AppView) -> (places: Seq<
    (int, int, int),
>)
    ensures
        places.len() == app.pane_items().len(),
        increasing_triples(places),
        forall|m: int|
            0 <= m < places.len() ==> {
                let (w, t, p) = #[trigger] places[m];
                &&& 0 <= w < app.workspaces.len()
                &&& 0 <= t < app.workspaces[w].tabs.len()
                &&& 0 <= p < app.workspaces[w].tabs[t].len()
                &&& looks_at_pane(app.pane_items()[m], app.workspaces[w].tabs[t][p])
            },
        forall|w: int, t: int, p: int|
            0 <= w < app.workspaces.len() && 0 <= t < app.workspaces[w].tabs.len() && 0 <= p
                < app.workspaces[w].tabs[t].len() && (
            #[trigger] app.workspaces[w].tabs[t][p]).git_cwd is Some ==> places.contains((w, t, p)),
{
    lemma_pane_places(app.workspaces)
}

/// A refresh looks at the workspace rows first, and after them at the panes if
/// the branch is asked for, and at nothing else.
pub proof fn panes_follow_workspaces(
    app: AppView,
    refresh_repo_discovery: bool,
    demand: GitStatusRefreshDemand,
)
    ensures
        ({
            let items = app.items(refresh_repo_discovery, demand);
            let rows = app.workspace_items(refresh_repo_discovery);
            let panes = app.pane_items();
            &&& demand.branch ==> items.len() == rows.len() + panes.len()
            &&& !demand.branch ==> items.len() == rows.len()
            &&& forall|i: int| 0 <= i < rows.len() ==> #[trigger] items[i] == rows[i]
            &&& demand.branch ==> forall|i: int|
                0 <= i < panes.len() ==> items[rows.len() + i] == #[trigger] panes[i]
        }),
{
}

/// Every workspace that has a directory is looked at there, whatever it is
/// called and whether or not it was opened as a worktree.
pub proof fn every_located_workspace_is_looked_at(
    app: AppView,
    refresh_repo_discovery: bool,
    demand: GitStatusRefreshDemand,
    i: int,
)
    requires
        0 <= i < app.workspaces.len(),
        app.workspaces[i].resolved_identity_cwd is Some,
    ensures
        exists|m: int|
            0 <= m < app.items(refresh_repo_discovery, demand).len() && looks_at_workspace(
                #[trigger] app.items(refresh_repo_discovery, demand)[m],
                app.workspaces[i],
                refresh_repo_discovery,
            ),
{
    let places = located_workspaces_are_looked_at_in_order(app, refresh_repo_discovery);
    assert(places.contains(i));
    let m = choose|m: int| 0 <= m < places.len() && places[m] == i;
    let items = app.items(refresh_repo_discovery, demand);
    assert(items[m] == app.workspace_items(refresh_repo_discovery)[m]);
    assert(looks_at_workspace(items[m], app.workspaces[places[m]], refresh_repo_discovery));
}

/// Every pane that has a directory is looked at there, in whichever workspace
/// and tab and beside whichever other panes it stands, if the branch is asked
/// for.
pub proof fn every_located_pane_is_looked_at(
    app: AppView,
    refresh_repo_discovery: bool,
    demand: GitStatusRefreshDemand,
    w: int,
    t: int,
    p: int,
)
    requires
        0 <= w < app.workspaces.len(),
        0 <= t < app.workspaces[w].tabs.len(),
        0 <= p < app.workspaces[w].tabs[t].len(),
        app.workspaces[w].tabs[t][p].git_cwd is Some,
    ensures
        exists|m: int|
            0 <= m < app.pane_items().len() && looks_at_pane(
                #[trigger] app.pane_items()[m],
                app.workspaces[w].tabs[t][p],
            ),
        demand.branch ==> exists|m: int|
            0 <= m < app.items(refresh_repo_discovery, demand).len() && looks_at_pane(
                #[trigger] app.items(refresh_repo_discovery, demand)[m],
                app.workspaces[w].tabs[t][p],
            ),
{
    let places = located_panes_are_looked_at_in_order(app);
    assert(places.contains((w, t, p)));
    let m = choose|m: int| 0 <= m < places.len() && places[m] == (w, t, p);
    assert(looks_at_pane(app.pane_items()[m], app.workspaces[w].tabs[t][p]));
    if demand.branch {
        let items = app.items(refresh_repo_discovery, demand);
        let rows = app.workspace_items(refresh_repo_discovery).len();
        assert(items[rows + m] == app.pane_items()[m]);
    }
}

/// How many panes of some tabs have a directory.
pub open spec fn located_panes_of_tabs(tabs: Seq<Seq<PaneView>>) -> nat
    decreases tabs.len(),
{
    if tabs.len() == 0 {
        0
    } else {
        located_panes_of_tabs(tabs.drop_last()) + tabs.last().filter(
            |pane: PaneView| pane.git_cwd is Some,
        ).len()
    }
}

/// How many panes of some workspaces have a directory.
pub open spec fn located_panes(workspaces: Seq<WorkspaceView>) -> nat
    decreases workspaces.len(),
{
    if workspaces.len() == 0 {
        0
    } else {
        located_panes(workspaces.drop_last()) + located_panes_of_tabs(workspaces.last().tabs)
    }
}

proof fn lemma_tab_count(tabs: Seq<Seq<PaneView>>)
    ensures
        crate::app::workspace_pane_items(tabs).len() == located_panes_of_tabs(tabs),
    decreases tabs.len(),
{
    let h = |panes: Seq<PaneView>| crate::app::tab_pane_items(panes);
    if tabs.len() == 0 {
        assert(tabs.map_values(h) =~= Seq::empty());
    } else {
        let rest = tabs.drop_last();
        lemma_tab_count(rest);
        rest.lemma_flat_map_push(h, tabs.last());
        assert(rest.push(tabs.last()) =~= tabs);
        crate::places::lemma_filter_map_count(
            tabs.last(),
            |pane: PaneView| pane.refresh_item(),
            |pane: PaneView| pane.git_cwd is Some,
        );
    }
}

proof fn lemma_pane_count(workspaces: Seq<WorkspaceView>)
    ensures
        workspaces.flat_map(
            |ws: WorkspaceView| crate::app::workspace_pane_items(ws.tabs),
        ).len() == located_panes(workspaces),
    decreases workspaces.len(),
{
    let h = |ws: WorkspaceView| crate::app::workspace_pane_items(ws.tabs);
    if workspaces.len() == 0 {
        assert(workspaces.map_values(h) =~= Seq::empty());
    } else {
        let rest = workspaces.drop_last();
        lemma_pane_count(rest);
        lemma_tab_count(workspaces.last().tabs);
        rest.lemma_flat_map_push(h, workspaces.last());
        assert(rest.push(workspaces.last()) =~= workspaces);
    }
}

/// There are as many items as workspaces with a directory and, if the branch is
/// asked for, panes with a directory.
pub proof fn nothing_is_looked_at_twice(
    app: AppView,
    refresh_repo_discovery: bool,
    demand: GitStatusRefreshDemand,
)
    ensures
        app.pane_items().len() == located_panes(app.workspaces),
        app.items(refresh_repo_discovery, demand).len() == app.workspaces.filter(
            |ws: WorkspaceView| ws.resolved_identity_cwd is Some,
        ).len() + if demand.branch {
            located_panes(app.workspaces)
        } else {
            0
        },
{
    lemma_pane_count(app.workspaces);
    crate::places::lemma_filter_map_count(
        app.workspaces,
        |ws: WorkspaceView| ws.refresh_item(refresh_repo_discovery),
        |ws: WorkspaceView| ws.resolved_identity_cwd is Some,
    );
}

/// There is nothing to look at exactly if no workspace has a directory and, if
/// the branch is asked for, no pane has one either.
pub proof fn nothing_to_look_at(
    app: AppView,
    refresh_repo_discovery: bool,
    demand: GitStatusRefreshDemand,
)
    ensures
        app.items(refresh_repo_discovery, demand).len() == 0 <==> {
            &&& forall|i: int|
                0 <= i < app.workspaces.len() ==> (
                #[trigger] app.workspaces[i]).resolved_identity_cwd is None
            &&& demand.branch ==> forall|w: int, t: int, p: int|
                0 <= w < app.workspaces.len() && 0 <= t < app.workspaces[w].tabs.len() && 0 <= p
                    < app.workspaces[w].tabs[t].len() ==> (
                #[trigger] app.workspaces[w].tabs[t][p]).git_cwd is None
        },
{
    let items = app.items(refresh_repo_discovery, demand);
    let rows = app.workspace_items(refresh_repo_discovery);
    let places = located_workspaces_are_looked_at_in_order(app, refresh_repo_discovery);
    let panes = located_panes_are_looked_at_in_order(app);
    if items.len() == 0 {
        assert forall|i: int| 0 <= i < app.workspaces.len() implies (
        #[trigger] app.workspaces[i]).resolved_identity_cwd is None by {
            if app.workspaces[i].resolved_identity_cwd is Some {
                assert(places.contains(i));
            }
        }
        if demand.branch {
            assert forall|w: int, t: int, p: int|
                0 <= w < app.workspaces.len() && 0 <= t < app.workspaces[w].tabs.len() && 0 <= p
                    < app.workspaces[w].tabs[t].len() implies (
            #[trigger] app.workspaces[w].tabs[t][p]).git_cwd is None by {
                if app.workspaces[w].tabs[t][p].git_cwd is Some {
                    assert(panes.contains((w, t, p)));
                }
            }
        }
    } else if rows.len() > 0 {
        assert(app.workspaces[places[0]].resolved_identity_cwd is Some);
    } else {
        let (w, t, p) = panes[0];
        assert(app.workspaces[w].tabs[t][p].git_cwd is Some);
    }
}

} // verus!
