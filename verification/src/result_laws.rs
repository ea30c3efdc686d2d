//! What the results of a refresh say, field by field.
use vstd::prelude::*;

use crate::cache::CacheView;
use crate::grouping_laws::{answers_for, grouped};
use crate::output::{AnswerView, AnsweredJob, GitRefreshAnswer, OutputView};
use crate::path::{GitPath, PathPartView, PathView};
use crate::places::{increasing, increasing_pairs};
use crate::refresh::{GitRefreshJob, ItemView, JobView, TargetView};
use crate::status::{
    GitStatusCacheEntry, GitStatusRefreshDemand, PaneStatusView, SnapshotView,
    WorkspaceStatusView,
};

verus! {

/// The results for answered jobs.
pub open spec fn results(
    jobs: Seq<JobView>,
    answers: Seq<AnswerView>,
    demand: GitStatusRefreshDemand,
) -> OutputView {
    crate::output::refresh_results(crate::output::answered_jobs(jobs, answers), demand)
}

/// `status` is what the pane `target` is told when Git answers `answer` for its
/// checkout: the branch of the answer, and the name and the worktree mark of
/// its repository, where there is one.
pub open spec fn tells_pane(
    status: PaneStatusView,
    target: TargetView,
    answer: SnapshotView,
    demand: GitStatusRefreshDemand,
) -> bool {
    &&& target is Pane
    &&& status.pane_id == target->pane_id
    &&& status.cwd == target->cwd
    &&& status.demand == demand
    &&& status.branch == answer.branch
    &&& answer.space is Some ==> status.repo_name == Some(answer.space->0.repo_name)
    &&& answer.space is Some ==> status.is_linked_worktree == answer.space->0.is_linked_worktree
    &&& answer.space is None ==> status.repo_name is None
    &&& answer.space is None ==> !status.is_linked_worktree
}

/// A path ends in a name, and not in the root, a prefix or a reference.
pub open spec fn ends_in_name(path: PathView) -> bool {
    path.len() > 0 && path[path.len() - 1] is Normal
}

/// `label` is that of a workspace at `cwd` in a checkout at `key` that is
/// labelled `shared`: the name of the directory of the workspace where the
/// checkout has no name but the directory has, and otherwise the shared label.
pub open spec fn labels_workspace(
    label: Seq<char>,
    shared: Seq<char>,
    cwd: PathView,
    key: PathView,
) -> bool {
    &&& ends_in_name(key) ==> label == shared
    &&& !ends_in_name(cwd) ==> label == shared
    &&& !ends_in_name(key) && ends_in_name(cwd) ==> {
        let name = cwd[cwd.len() - 1]->Normal_0;
        &&& vstd::utf8::valid_utf8(name) ==> label == vstd::utf8::decode_utf8(name)
        &&& !vstd::utf8::valid_utf8(name) ==> label == crate::path::lossy_text(name)
    }
}

/// `status` is what the workspace `target` is told when Git answers `answer` for
/// its checkout, at `key`.
pub open spec fn tells_workspace(
    status: WorkspaceStatusView,
    target: TargetView,
    key: PathView,
    answer: SnapshotView,
    demand: GitStatusRefreshDemand,
) -> bool {
    &&& target is Workspace
    &&& status.workspace_id == target->workspace_id
    &&& status.resolved_identity_cwd == target->resolved_identity_cwd
    &&& status.git_status_key == key
    &&& status.demand == demand
    &&& labels_workspace(
        status.auto_label,
        answer.auto_label,
        target->resolved_identity_cwd,
        key,
    )
    &&& status.branch == answer.branch
    &&& status.ahead_behind == answer.ahead_behind
    &&& status.space == answer.space
}

/// The pane results are those of the panes among the targets, of each of them
/// one, in the order of the jobs and of the targets of a job; each tells what
/// the answer for its job says. `places` are the places of those targets: job,
/// target.
pub proof fn panes_are_told_the_answer_of_their_job(
    jobs: Seq<JobView>,
    answers: Seq<AnswerView>,
    demand: GitStatusRefreshDemand,
) -> (places: Seq<(int, int)>)
    requires
        jobs.len() == answers.len(),
    ensures
        places.len() == results(jobs, answers, demand).pane_results.len(),
        increasing_pairs(places),
        forall|m: int|
            0 <= m < places.len() ==> {
                let (j, k) = #[trigger] places[m];
                &&& 0 <= j < jobs.len()
                &&& 0 <= k < jobs[j].targets.len()
                &&& tells_pane(
                    results(jobs, answers, demand).pane_results[m],
                    jobs[j].targets[k],
                    answers[j].snapshot,
                    demand,
                )
            },
        forall|j: int, k: int|
            0 <= j < jobs.len() && 0 <= k < jobs[j].targets.len() && (
            #[trigger] jobs[j].targets[k]) is Pane ==> places.contains((j, k)),
{
    let answered = crate::output::answered_jobs(jobs, answers);
    let out = results(jobs, answers, demand).pane_results;
    let g = |a: AnsweredJob| a.job.targets;
    let f = |a: AnsweredJob| |target: TargetView| a.pane_result(demand, target);
    let h = |a: AnsweredJob| a.pane_results(demand);
    assert forall|a: AnsweredJob| (#[trigger] h(a)) == g(a).filter_map(f(a)) by {
        assert(f(a) =~= (|target: TargetView| a.pane_result(demand, target)));
    }
    let places = crate::places::lemma_flat_map_places(answered, g, f, h);
    assert forall|m: int| 0 <= m < places.len() implies ({
        let (j, k) = #[trigger] places[m];
        &&& 0 <= j < jobs.len()
        &&& 0 <= k < jobs[j].targets.len()
        &&& tells_pane(out[m], jobs[j].targets[k], answers[j].snapshot, demand)
    }) by {
        let (j, k) = places[m];
        assert(f(answered[j])(g(answered[j])[k]) == Some(out[m]));
    }
    assert forall|j: int, k: int|
        0 <= j < jobs.len() && 0 <= k < jobs[j].targets.len() && (
        #[trigger] jobs[j].targets[k]) is Pane implies places.contains((j, k)) by {
        assert(f(answered[j])(g(answered[j])[k]) is Some);
    }
    places
}

proof fn lemma_ends_in_name(path: PathView)
    ensures
        ends_in_name(path) <==> crate::path::file_name_of(path) is Some,
        ends_in_name(path) ==> crate::path::file_name_of(path) == Some(
            path[path.len() - 1]->Normal_0,
        ),
{
}

/// The workspace results are those of the workspaces among the targets, of each
/// of them one, in the order of the jobs and of the targets of a job; each
/// tells what the answer for its job says. `places` are the places of those
/// targets: job, target.
pub proof fn workspaces_are_told_the_answer_of_their_job(
    jobs: Seq<JobView>,
    answers: Seq<AnswerView>,
    demand: GitStatusRefreshDemand,
) -> (places: Seq<(int, int)>)
    requires
        jobs.len() == answers.len(),
    ensures
        places.len() == results(jobs, answers, demand).workspace_results.len(),
        increasing_pairs(places),
        forall|m: int|
            0 <= m < places.len() ==> {
                let (j, k) = #[trigger] places[m];
                &&& 0 <= j < jobs.len()
                &&& 0 <= k < jobs[j].targets.len()
                &&& tells_workspace(
                    results(jobs, answers, demand).workspace_results[m],
                    jobs[j].targets[k],
                    jobs[j].cache_key,
                    answers[j].snapshot,
                    demand,
                )
            },
        forall|j: int, k: int|
            0 <= j < jobs.len() && 0 <= k < jobs[j].targets.len() && (
            #[trigger] jobs[j].targets[k]) is Workspace ==> places.contains((j, k)),
{
    let answered = crate::output::answered_jobs(jobs, answers);
    let out = results(jobs, answers, demand).workspace_results;
    let g = |a: AnsweredJob| a.job.targets;
    let f = |a: AnsweredJob| |target: TargetView| a.workspace_result(demand, target);
    let h = |a: AnsweredJob| a.workspace_results(demand);
    assert forall|a: AnsweredJob| (#[trigger] h(a)) == g(a).filter_map(f(a)) by {
        assert(f(a) =~= (|target: TargetView| a.workspace_result(demand, target)));
    }
    let places = crate::places::lemma_flat_map_places(answered, g, f, h);
    assert forall|m: int| 0 <= m < places.len() implies ({
        let (j, k) = #[trigger] places[m];
        &&& 0 <= j < jobs.len()
        &&& 0 <= k < jobs[j].targets.len()
        &&& tells_workspace(
            out[m],
            jobs[j].targets[k],
            jobs[j].cache_key,
            answers[j].snapshot,
            demand,
        )
    }) by {
        let (j, k) = places[m];
        assert(f(answered[j])(g(answered[j])[k]) == Some(out[m]));
        lemma_ends_in_name(jobs[j].cache_key);
        lemma_ends_in_name(jobs[j].targets[k]->resolved_identity_cwd);
    }
    assert forall|j: int, k: int|
        0 <= j < jobs.len() && 0 <= k < jobs[j].targets.len() && (
        #[trigger] jobs[j].targets[k]) is Workspace implies places.contains((j, k)) by {
        assert(f(answered[j])(g(answered[j])[k]) is Some);
    }
    places
}

/// The cache updates are the entries that came with the answers, each for the
/// checkout of its job, in the order of the jobs. `places` are the places of
/// the jobs with such an answer.
pub proof fn cache_is_updated_by_the_answers(
    jobs: Seq<JobView>,
    answers: Seq<AnswerView>,
    demand: GitStatusRefreshDemand,
) -> (places: Seq<int>)
    requires
        jobs.len() == answers.len(),
    ensures
        places.len() == results(jobs, answers, demand).cache_updates.len(),
        increasing(places),
        forall|m: int|
            #![trigger places[m]]
            0 <= m < places.len() ==> {
                let update = results(jobs, answers, demand).cache_updates[m];
                &&& 0 <= places[m] < jobs.len()
                &&& update.0 == jobs[places[m]].cache_key
                &&& answers[places[m]].cache_entry == Some(update.1)
            },
        forall|j: int|
            0 <= j < jobs.len() && (#[trigger] answers[j]).cache_entry is Some ==> places.contains(
                j,
            ),
{
    let answered = crate::output::answered_jobs(jobs, answers);
    let out = results(jobs, answers, demand).cache_updates;
    let f = |a: AnsweredJob| a.cache_update();
    let places = crate::places::lemma_filter_map_places(answered, f);
    assert forall|m: int| #![trigger places[m]] 0 <= m < places.len() implies {
        &&& 0 <= places[m] < jobs.len()
        &&& out[m].0 == jobs[places[m]].cache_key
        &&& answers[places[m]].cache_entry == Some(out[m].1)
    } by {
        assert(f(answered[places[m]]) == Some(out[m]));
    }
    assert forall|j: int|
        0 <= j < jobs.len() && (#[trigger] answers[j]).cache_entry is Some implies places.contains(
        j,
    ) by {
        assert(f(answered[j]) is Some);
    }
    places
}

/// Git is asked about the checkout of each job, with what the job holds from
/// the cache and with what is displayed, and `answers[j]` is what it answers for
/// job `j`.
pub proof fn git_is_asked_about_each_job<
    P: Fn(&GitPath, Option<&GitStatusCacheEntry>, GitStatusRefreshDemand) -> GitRefreshAnswer,
>(
    probe: P,
    demand: GitStatusRefreshDemand,
    jobs: Seq<GitRefreshJob>,
    answers: Seq<GitRefreshAnswer>,
    j: int,
)
    requires
        crate::output::answered_by_probe(probe, demand, jobs, answers),
        0 <= j < jobs.len(),
    ensures
        answers.len() == jobs.len(),
        jobs[j].cached is Some ==> call_ensures(
            probe,
            (&jobs[j].cache_key, Some(&jobs[j].cached->0), demand),
            answers[j],
        ),
        jobs[j].cached is None ==> call_ensures(
            probe,
            (&jobs[j].cache_key, None, demand),
            answers[j],
        ),
{
    assert(answers[j] == answers[j]);
}

/// Every pane that a refresh was made for is told what Git answers for its own
/// checkout, whatever other items the refresh was made for.
pub proof fn pane_is_told_of_its_checkout(
    items: Seq<ItemView>,
    discovered: Seq<Option<PathView>>,
    cache: CacheView,
    answers: Seq<AnswerView>,
    demand: GitStatusRefreshDemand,
    i: int,
)
    requires
        items.len() == discovered.len(),
        answers.len() == grouped(items, discovered, cache).len(),
        0 <= i < items.len(),
        items[i].target is Pane,
    ensures
        ({
            let jobs = grouped(items, discovered, cache);
            let told = results(jobs, answers, demand).pane_results;
            exists|j: int, m: int|
                {
                    &&& 0 <= j < jobs.len()
                    &&& 0 <= m < told.len()
                    &&& answers_for((#[trigger] jobs[j]).cache_key, items[i], discovered[i])
                    &&& tells_pane(
                        #[trigger] told[m],
                        items[i].target,
                        answers[j].snapshot,
                        demand,
                    )
                }
        }),
{
    let jobs = grouped(items, discovered, cache);
    let told = results(jobs, answers, demand).pane_results;
    crate::grouping_laws::item_is_in_the_job_of_its_checkout(items, discovered, cache, i);
    let j = choose|j: int|
        {
            &&& 0 <= j < jobs.len()
            &&& answers_for((#[trigger] jobs[j]).cache_key, items[i], discovered[i])
            &&& jobs[j].targets.contains(items[i].target)
        };
    let k = choose|k: int| 0 <= k < jobs[j].targets.len() && jobs[j].targets[k] == items[i].target;
    let places = panes_are_told_the_answer_of_their_job(jobs, answers, demand);
    assert(jobs[j].targets[k] is Pane);
    assert(places.contains((j, k)));
    let m = choose|m: int| 0 <= m < places.len() && places[m] == (j, k);
    assert(tells_pane(told[m], items[i].target, answers[j].snapshot, demand));
    assert(answers_for(jobs[j].cache_key, items[i], discovered[i]));
}

/// Every workspace that a refresh was made for is told what Git answers for its
/// own checkout, whatever other items the refresh was made for.
pub proof fn workspace_is_told_of_its_checkout(
    items: Seq<ItemView>,
    discovered: Seq<Option<PathView>>,
    cache: CacheView,
    answers: Seq<AnswerView>,
    demand: GitStatusRefreshDemand,
    i: int,
)
    requires
        items.len() == discovered.len(),
        answers.len() == grouped(items, discovered, cache).len(),
        0 <= i < items.len(),
        items[i].target is Workspace,
    ensures
        ({
            let jobs = grouped(items, discovered, cache);
            let told = results(jobs, answers, demand).workspace_results;
            exists|j: int, m: int|
                {
                    &&& 0 <= j < jobs.len()
                    &&& 0 <= m < told.len()
                    &&& answers_for((#[trigger] jobs[j]).cache_key, items[i], discovered[i])
                    &&& tells_workspace(
                        #[trigger] told[m],
                        items[i].target,
                        jobs[j].cache_key,
                        answers[j].snapshot,
                        demand,
                    )
                }
        }),
{
    let jobs = grouped(items, discovered, cache);
    let told = results(jobs, answers, demand).workspace_results;
    crate::grouping_laws::item_is_in_the_job_of_its_checkout(items, discovered, cache, i);
    let j = choose|j: int|
        {
            &&& 0 <= j < jobs.len()
            &&& answers_for((#[trigger] jobs[j]).cache_key, items[i], discovered[i])
            &&& jobs[j].targets.contains(items[i].target)
        };
    let k = choose|k: int| 0 <= k < jobs[j].targets.len() && jobs[j].targets[k] == items[i].target;
    let places = workspaces_are_told_the_answer_of_their_job(jobs, answers, demand);
    assert(jobs[j].targets[k] is Workspace);
    assert(places.contains((j, k)));
    let m = choose|m: int| 0 <= m < places.len() && places[m] == (j, k);
    assert(tells_workspace(
        told[m],
        items[i].target,
        jobs[j].cache_key,
        answers[j].snapshot,
        demand,
    ));
    assert(answers_for(jobs[j].cache_key, items[i], discovered[i]));
}

/// The status that a snapshot makes for one pane tells what the snapshot says.
pub proof fn snapshot_tells_pane(
    snapshot: SnapshotView,
    pane_id: crate::status::PaneId,
    cwd: PathView,
    demand: GitStatusRefreshDemand,
)
    ensures
        tells_pane(
            snapshot.for_pane(pane_id, cwd, demand),
            (TargetView::Pane { pane_id, cwd }),
            snapshot,
            demand,
        ),
{
}

/// The status that a snapshot makes for one workspace tells what the snapshot
/// says.
pub proof fn snapshot_tells_workspace(
    snapshot: SnapshotView,
    workspace_id: Seq<char>,
    cwd: PathView,
    key: PathView,
    demand: GitStatusRefreshDemand,
)
    ensures
        tells_workspace(
            snapshot.for_workspace(workspace_id, cwd, key, demand),
            (TargetView::Workspace { workspace_id, resolved_identity_cwd: cwd }),
            key,
            snapshot,
            demand,
        ),
{
    lemma_ends_in_name(key);
    lemma_ends_in_name(cwd);
}

/// A name that is given for the directory of a workspace labels it exactly where
/// the checkout has none, and changes nothing else.
pub proof fn given_name_labels_workspace(
    snapshot: SnapshotView,
    workspace_id: Seq<char>,
    cwd: PathView,
    key: PathView,
    demand: GitStatusRefreshDemand,
    own_name: Option<Seq<char>>,
)
    ensures
        ({
            let status = snapshot.for_named_workspace(workspace_id, cwd, key, demand, own_name);
            &&& status.workspace_id == workspace_id
            &&& status.resolved_identity_cwd == cwd
            &&& status.git_status_key == key
            &&& status.demand == demand
            &&& !ends_in_name(key) && own_name is Some ==> status.auto_label == own_name->0
            &&& ends_in_name(key) || own_name is None ==> status.auto_label == snapshot.auto_label
            &&& status.branch == snapshot.branch
            &&& status.ahead_behind == snapshot.ahead_behind
            &&& status.space == snapshot.space
        }),
{
    lemma_ends_in_name(key);
}

/// The name of a path is its last part, if that is a name, and its text is what
/// its bytes encode, if they are UTF-8.
pub proof fn name_is_the_last_part(path: PathView)
    ensures
        crate::path::file_name_of(path) is Some <==> ends_in_name(path),
        crate::path::display_name_of(path) is Some <==> ends_in_name(path),
        ends_in_name(path) ==> {
            let name = path[path.len() - 1]->Normal_0;
            &&& path[path.len() - 1] == PathPartView::Normal(name)
            &&& crate::path::file_name_of(path)->0 == name
            &&& vstd::utf8::valid_utf8(name) ==> crate::path::display_name_of(path)->0
                == vstd::utf8::decode_utf8(name)
            &&& !vstd::utf8::valid_utf8(name) ==> crate::path::display_name_of(path)->0
                == crate::path::lossy_text(name)
        },
{
    lemma_ends_in_name(path);
}

} // verus!
